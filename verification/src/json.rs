//! JSON values, as far as the library reads them.

use crate::text::same;
use vstd::prelude::*;

verus! {

/// A JSON value.
#[derive(Debug)]
pub enum JsonValue {
    Null,
    Bool(bool),
    Int(i64),
    /// A whole number above the range of `i64`.
    Large(u64),
    /// Any other number, in its decimal notation.
    Decimal(String),
    Text(String),
    List(Vec<JsonValue>),
    Object(Vec<JsonMember>),
}

/// A named value of an object.
#[derive(Debug)]
pub struct JsonMember {
    pub name: String,
    pub value: JsonValue,
}

/// The mathematical reading of a [`JsonValue`].
pub enum JsonView {
    Null,
    Bool(bool),
    Int(i64),
    Large(u64),
    Decimal(Seq<char>),
    Text(Seq<char>),
    List(Seq<JsonView>),
    Object(Seq<(Seq<char>, JsonView)>),
}

pub open spec fn json_view(value: JsonValue) -> JsonView
    decreases value,
{
    match value {
        JsonValue::Null => JsonView::Null,
        JsonValue::Bool(b) => JsonView::Bool(b),
        JsonValue::Int(n) => JsonView::Int(n),
        JsonValue::Large(n) => JsonView::Large(n),
        JsonValue::Decimal(s) => JsonView::Decimal(s@),
        JsonValue::Text(s) => JsonView::Text(s@),
        JsonValue::List(items) => JsonView::List(
            Seq::new(
                items@.len(),
                |i: int|
                    if 0 <= i < items@.len() {
                        json_view(items@[i])
                    } else {
                        JsonView::Null
                    },
            ),
        ),
        JsonValue::Object(members) => JsonView::Object(
            Seq::new(
                members@.len(),
                |i: int|
                    if 0 <= i < members@.len() {
                        (members@[i].name@, json_view(members@[i].value))
                    } else {
                        (Seq::empty(), JsonView::Null)
                    },
            ),
        ),
    }
}

impl View for JsonValue {
    type V = JsonView;

    open spec fn view(&self) -> JsonView {
        json_view(*self)
    }
}

/// The value of the last member with a name.
pub open spec fn member_in(members: Seq<(Seq<char>, JsonView)>, name: Seq<char>) -> Option<JsonView>
    decreases members.len(),
{
    if members.len() == 0 {
        None
    } else if members.last().0 == name {
        Some(members.last().1)
    } else {
        member_in(members.drop_last(), name)
    }
}

impl JsonView {
    /// The value of a member of an object. Nothing else has members.
    pub open spec fn member(self, name: Seq<char>) -> Option<JsonView> {
        match self {
            JsonView::Object(members) => member_in(members, name),
            _ => None,
        }
    }

    /// The characters of a text member.
    pub open spec fn text_member(self, name: Seq<char>) -> Option<Seq<char>> {
        match self.member(name) {
            Some(JsonView::Text(s)) => Some(s),
            _ => None,
        }
    }

    /// The number of a member that is an `i64`.
    pub open spec fn int_member(self, name: Seq<char>) -> Option<i64> {
        match self.member(name) {
            Some(JsonView::Int(n)) => Some(n),
            _ => None,
        }
    }

    /// The values of a member that is a list.
    pub open spec fn list_member(self, name: Seq<char>) -> Option<Seq<JsonView>> {
        match self.member(name) {
            Some(JsonView::List(items)) => Some(items),
            _ => None,
        }
    }
}

/// The views of a list of values.
pub open spec fn views(items: Seq<JsonValue>) -> Seq<JsonView> {
    items.map_values(|item: JsonValue| item@)
}

/// The views of the members of an object.
pub open spec fn member_views(members: Seq<JsonMember>) -> Seq<(Seq<char>, JsonView)> {
    members.map_values(|member: JsonMember| (member.name@, member.value@))
}

/// The view of a value that may be missing.
pub open spec fn view_of(value: Option<&JsonValue>) -> Option<JsonView> {
    match value {
        Some(value) => Some(value@),
        None => None,
    }
}

pub proof fn lemma_list_view(items: Vec<JsonValue>)
    ensures
        JsonValue::List(items)@ == JsonView::List(views(items@)),
{
    assert(JsonValue::List(items)@->List_0 =~= views(items@));
}

pub proof fn lemma_object_view(members: Vec<JsonMember>)
    ensures
        JsonValue::Object(members)@ == JsonView::Object(member_views(members@)),
{
    assert(JsonValue::Object(members)@->Object_0 =~= member_views(members@));
}

impl JsonValue {
    /// The value of a member of an object.
    pub fn get(&self, name: &str) -> (value: Option<&JsonValue>)
        ensures
            view_of(value) == self@.member(name@),
    {
        match self {
            JsonValue::Object(members) => {
                proof {
                    lemma_object_view(*members);
                }
                let ghost all = member_views(members@);
                let mut left = members.len();
                assert(all.take(left as int) =~= all);
                while left > 0
                    invariant
                        left <= members@.len(),
                        all == member_views(members@),
                        self@.member(name@) == member_in(all, name@),
                        member_in(all, name@) == member_in(all.take(left as int), name@),
                    decreases left,
                {
                    assert(all.take(left as int).last() == all[left - 1]);
                    assert(all.take(left as int).drop_last() =~= all.take(left - 1));
                    if same(members[left - 1].name.as_str(), name) {
                        return Some(&members[left - 1].value);
                    }
                    left = left - 1;
                }
                None
            },
            _ => None,
        }
    }

    /// The text of a text member.
    pub fn get_text(&self, name: &str) -> (text: Option<&String>)
        ensures
            match text {
                Some(s) => self@.text_member(name@) == Some(s@),
                None => self@.text_member(name@) is None,
            },
    {
        match self.get(name) {
            Some(JsonValue::Text(s)) => Some(s),
            _ => None,
        }
    }

    /// The number of a member that is an `i64`.
    pub fn get_int(&self, name: &str) -> (number: Option<i64>)
        ensures
            number == self@.int_member(name@),
    {
        match self.get(name) {
            Some(JsonValue::Int(n)) => Some(*n),
            _ => None,
        }
    }

    /// The values of a member that is a list.
    pub fn get_list(&self, name: &str) -> (list: Option<&Vec<JsonValue>>)
        ensures
            match list {
                Some(items) => self@.list_member(name@) == Some(views(items@)),
                None => self@.list_member(name@) is None,
            },
    {
        match self.get(name) {
            Some(JsonValue::List(items)) => {
                proof {
                    lemma_list_view(*items);
                }
                Some(items)
            },
            _ => None,
        }
    }

    /// A copy of the value.
    pub fn copy(&self) -> (copy: JsonValue)
        ensures
            copy@ == self@,
        decreases *self,
    {
        match self {
            JsonValue::Null => JsonValue::Null,
            JsonValue::Bool(b) => JsonValue::Bool(*b),
            JsonValue::Int(n) => JsonValue::Int(*n),
            JsonValue::Large(n) => JsonValue::Large(*n),
            JsonValue::Decimal(s) => JsonValue::Decimal(s.clone()),
            JsonValue::Text(s) => JsonValue::Text(s.clone()),
            JsonValue::List(items) => {
                let mut copies: Vec<JsonValue> = Vec::new();
                for i in 0..items.len()
                    invariant
                        *self == JsonValue::List(*items),
                        copies@.len() == i,
                        forall|j: int| 0 <= j < i ==> (#[trigger] copies@[j])@ == items@[j]@,
                {
                    assert(decreases_to!(*self => self->List_0));
                    assert(decreases_to!(self->List_0 => items@));
                    assert(decreases_to!(items@ => items@[i as int]));
                    copies.push(items[i].copy());
                }
                proof {
                    lemma_list_view(copies);
                    lemma_list_view(*items);
                    assert(views(copies@) =~= views(items@));
                }
                JsonValue::List(copies)
            },
            JsonValue::Object(members) => {
                let mut copies: Vec<JsonMember> = Vec::new();
                for i in 0..members.len()
                    invariant
                        *self == JsonValue::Object(*members),
                        copies@.len() == i,
                        forall|j: int|
                            0 <= j < i ==> (#[trigger] copies@[j]).name@ == members@[j].name@
                                && copies@[j].value@ == members@[j].value@,
                {
                    assert(decreases_to!(*self => self->Object_0));
                    assert(decreases_to!(self->Object_0 => members@));
                    assert(decreases_to!(members@ => members@[i as int]));
                    assert(decreases_to!(members@[i as int] => members@[i as int].value));
                    copies.push(
                        JsonMember {
                            name: members[i].name.clone(),
                            value: members[i].value.copy(),
                        },
                    );
                }
                proof {
                    lemma_object_view(copies);
                    lemma_object_view(*members);
                    assert(member_views(copies@) =~= member_views(members@));
                }
                JsonValue::Object(copies)
            },
        }
    }
}

} // verus!
