//! What is read of the board state that comes with a request: bonuses and directions.

use crate::json;
use crate::json::JsonView;
use crate::rules;
use crate::types::VectorRule;
use vstd::prelude::*;

verus! {

// ---------------------------------------------------------------------------
// Objects
// ---------------------------------------------------------------------------

/// Of the members with a name the last one counts.
pub proof fn law_the_last_member_counts(
    members: Seq<(Seq<char>, JsonView)>,
    name: Seq<char>,
    i: int,
)
    requires
        0 <= i < members.len(),
        members[i].0 == name,
        forall|j: int| i < j < members.len() ==> (#[trigger] members[j]).0 != name,
    ensures
        JsonView::Object(members).member(name) == Some(members[i].1),
    decreases members.len(),
{
    if i < members.len() - 1 {
        let rest = members.drop_last();
        assert(members[members.len() - 1].0 != name);
        assert forall|j: int| i < j < rest.len() implies (#[trigger] rest[j]).0 != name by {
            assert(members[j].0 != name);
        }
        law_the_last_member_counts(rest, name, i);
    }
}

/// An object without a member of a name has none, and nothing but an object has members.
pub proof fn law_what_has_no_member(value: JsonView, name: Seq<char>)
    requires
        value matches JsonView::Object(members) ==> forall|j: int|
            0 <= j < members.len() ==> (#[trigger] members[j]).0 != name,
    ensures
        value.member(name) is None,
{
    if let JsonView::Object(members) = value {
        lemma_no_member(members, name);
    }
}

proof fn lemma_no_member(members: Seq<(Seq<char>, JsonView)>, name: Seq<char>)
    requires
        forall|j: int| 0 <= j < members.len() ==> (#[trigger] members[j]).0 != name,
    ensures
        json::member_in(members, name) is None,
    decreases members.len(),
{
    if members.len() > 0 {
        let rest = members.drop_last();
        assert(members[members.len() - 1].0 != name);
        assert forall|j: int| 0 <= j < rest.len() implies (#[trigger] rest[j]).0 != name by {
            assert(members[j].0 != name);
        }
        lemma_no_member(rest, name);
    }
}

// ---------------------------------------------------------------------------
// Bonuses and directions
// ---------------------------------------------------------------------------

/// Whether `code` is a name with its ASCII letters in upper case.
pub open spec fn is_upper_of(code: Seq<char>, name: Seq<char>) -> bool {
    &&& code.len() == name.len()
    &&& forall|i: int|
        0 <= i < name.len() ==> #[trigger] code[i] as int == (if 97 <= name[i] as int <= 122 {
            name[i] as int - 32
        } else {
            name[i] as int
        })
}

proof fn lemma_upper(name: Seq<char>, code: Seq<char>)
    ensures
        rules::upper(name) == code <==> is_upper_of(code, name),
{
    let up = rules::upper(name);
    assert forall|i: int| 0 <= i < name.len() implies #[trigger] up[i] as int == (if 97 <= name[i]
        as int <= 122 {
        name[i] as int - 32
    } else {
        name[i] as int
    }) by {}
    if is_upper_of(code, name) {
        assert forall|i: int| 0 <= i < name.len() implies up[i] == #[trigger] code[i] by {
            assert(up[i] as int == code[i] as int);
        }
        assert(up =~= code);
    }
}

/// The members of the object under a name of the board state; none if there is no object.
pub open spec fn members_under(board_state: JsonView, name: Seq<char>) -> Seq<
    (Seq<char>, JsonView),
> {
    match board_state.member(name) {
        Some(JsonView::Object(members)) => members,
        _ => Seq::empty(),
    }
}

/// Whether a member sets the bonus of a code: its name is the code but for case, and its value is
/// an integer.
pub open spec fn sets_bonus(member: (Seq<char>, JsonView), code: Seq<char>) -> bool {
    is_upper_of(code, member.0) && member.1 is Int
}

proof fn lemma_bonuses(members: Seq<(Seq<char>, JsonView)>, code: Seq<char>)
    ensures
        (forall|i: int| 0 <= i < members.len() ==> !sets_bonus(#[trigger] members[i], code))
            ==> !rules::bonuses(members).contains_key(code),
        forall|i: int|
            {
                &&& 0 <= i < members.len()
                &&& sets_bonus(#[trigger] members[i], code)
                &&& forall|j: int|
                    i < j < members.len() ==> !sets_bonus(#[trigger] members[j], code)
            } ==> rules::bonuses(members).contains_key(code) && rules::bonuses(members)[code]
                == members[i].1->Int_0 as i32,
    decreases members.len(),
{
    if members.len() > 0 {
        let rest = members.drop_last();
        let last = members.last();
        lemma_bonuses(rest, code);
        lemma_upper(last.0, code);
        let map = rules::bonuses(members);
        let earlier = rules::bonuses(rest);
        if sets_bonus(last, code) {
            assert(members[members.len() - 1] == last);
            assert forall|i: int|
                {
                    &&& 0 <= i < members.len()
                    &&& sets_bonus(#[trigger] members[i], code)
                    &&& forall|j: int|
                        i < j < members.len() ==> !sets_bonus(#[trigger] members[j], code)
                } implies map.contains_key(code) && map[code] == members[i].1->Int_0 as i32 by {
                if i < members.len() - 1 {
                    assert(!sets_bonus(members[members.len() - 1], code));
                }
            }
        } else {
            assert(map.contains_key(code) == earlier.contains_key(code));
            assert(earlier.contains_key(code) ==> map[code] == earlier[code]);
            assert forall|i: int|
                {
                    &&& 0 <= i < members.len()
                    &&& sets_bonus(#[trigger] members[i], code)
                    &&& forall|j: int|
                        i < j < members.len() ==> !sets_bonus(#[trigger] members[j], code)
                } implies map.contains_key(code) && map[code] == members[i].1->Int_0 as i32 by {
                assert(i < members.len() - 1);
                assert(rest[i] == members[i]);
                assert forall|j: int| i < j < rest.len() implies !sets_bonus(
                    #[trigger] rest[j],
                    code,
                ) by {
                    assert(rest[j] == members[j]);
                }
            }
            if forall|i: int| 0 <= i < members.len() ==> !sets_bonus(#[trigger] members[i], code) {
                assert forall|i: int| 0 <= i < rest.len() implies !sets_bonus(
                    #[trigger] rest[i],
                    code,
                ) by {
                    assert(rest[i] == members[i]);
                }
            }
        }
    }
}

/// The bonus of a code is the integer, by its low 32 bits, of the last member of
/// `eval_bonus_by_piece` that sets it. A code that no member sets has none.
pub proof fn law_which_bonus_a_code_has(board_state: JsonView, code: Seq<char>)
    ensures
        ({
            let members = members_under(board_state, "eval_bonus_by_piece"@);
            let bonus = rules::rules_of(board_state).bonus;
            &&& (forall|i: int| 0 <= i < members.len() ==> !sets_bonus(#[trigger] members[i], code))
                ==> !bonus.contains_key(code)
            &&& forall|i: int|
                {
                    &&& 0 <= i < members.len()
                    &&& sets_bonus(#[trigger] members[i], code)
                    &&& forall|j: int|
                        i < j < members.len() ==> !sets_bonus(#[trigger] members[j], code)
                } ==> bonus.contains_key(code) && bonus[code] == members[i].1->Int_0 as i32
        }),
{
    lemma_bonuses(members_under(board_state, "eval_bonus_by_piece"@), code);
}

/// The number of a member, by its low 32 bits; zero if it is missing or no integer.
pub open spec fn number_under(value: JsonView, name: Seq<char>) -> i32 {
    match value.member(name) {
        Some(JsonView::Int(n)) => n as i32,
        _ => 0,
    }
}

/// The direction that a value gives.
pub open spec fn direction(value: JsonView) -> VectorRule {
    VectorRule {
        dr: number_under(value, "dr"@),
        dc: number_under(value, "dc"@),
        slide: value.member("slide"@) == Some(JsonView::Bool(true)),
    }
}

/// The directions that a value gives: those of a list that lead off their square, in order.
pub open spec fn directions(value: JsonView) -> Seq<VectorRule> {
    match value {
        JsonView::List(items) => Seq::new(items.len(), |i: int| direction(items[i])).filter(
            |v: VectorRule| v.dr != 0 || v.dc != 0,
        ),
        _ => Seq::empty(),
    }
}

proof fn lemma_directions(items: Seq<JsonView>)
    ensures
        rules::vectors(items) == directions(JsonView::List(items)),
    decreases items.len(),
{
    reveal(Seq::filter);
    let all = Seq::new(items.len(), |i: int| direction(items[i]));
    if items.len() > 0 {
        let rest = items.drop_last();
        lemma_directions(rest);
        assert(all.drop_last() =~= Seq::new(rest.len(), |i: int| direction(rest[i])));
        assert(rules::vector(items.last()) == direction(items.last()));
        assert(all.last() == direction(items.last()));
    } else {
        assert(all =~= Seq::empty());
    }
}

/// Whether a member adds directions for a code.
pub open spec fn adds_directions(member: (Seq<char>, JsonView), code: Seq<char>) -> bool {
    is_upper_of(code, member.0) && directions(member.1).len() > 0
}

proof fn lemma_vectors_by_piece(members: Seq<(Seq<char>, JsonView)>, code: Seq<char>)
    ensures
        (forall|i: int| 0 <= i < members.len() ==> !adds_directions(#[trigger] members[i], code))
            ==> !rules::vectors_by_piece(members).contains_key(code),
        forall|i: int|
            {
                &&& 0 <= i < members.len()
                &&& adds_directions(#[trigger] members[i], code)
                &&& forall|j: int|
                    i < j < members.len() ==> !adds_directions(#[trigger] members[j], code)
            } ==> rules::vectors_by_piece(members).contains_key(code) && rules::vectors_by_piece(
                members,
            )[code] == directions(members[i].1),
    decreases members.len(),
{
    if members.len() > 0 {
        let rest = members.drop_last();
        let last = members.last();
        lemma_vectors_by_piece(rest, code);
        lemma_upper(last.0, code);
        if let JsonView::List(items) = last.1 {
            lemma_directions(items);
        }
        assert(rules::member_vectors(last.1) =~= directions(last.1));
        let map = rules::vectors_by_piece(members);
        let earlier = rules::vectors_by_piece(rest);
        if adds_directions(last, code) {
            assert(members[members.len() - 1] == last);
            assert forall|i: int|
                {
                    &&& 0 <= i < members.len()
                    &&& adds_directions(#[trigger] members[i], code)
                    &&& forall|j: int|
                        i < j < members.len() ==> !adds_directions(#[trigger] members[j], code)
                } implies map.contains_key(code) && map[code] == directions(members[i].1) by {
                if i < members.len() - 1 {
                    assert(!adds_directions(members[members.len() - 1], code));
                }
            }
        } else {
            assert(map.contains_key(code) == earlier.contains_key(code));
            assert(earlier.contains_key(code) ==> map[code] == earlier[code]);
            assert forall|i: int|
                {
                    &&& 0 <= i < members.len()
                    &&& adds_directions(#[trigger] members[i], code)
                    &&& forall|j: int|
                        i < j < members.len() ==> !adds_directions(#[trigger] members[j], code)
                } implies map.contains_key(code) && map[code] == directions(members[i].1) by {
                assert(i < members.len() - 1);
                assert(rest[i] == members[i]);
                assert forall|j: int| i < j < rest.len() implies !adds_directions(
                    #[trigger] rest[j],
                    code,
                ) by {
                    assert(rest[j] == members[j]);
                }
            }
            if forall|i: int|
                0 <= i < members.len() ==> !adds_directions(#[trigger] members[i], code) {
                assert forall|i: int| 0 <= i < rest.len() implies !adds_directions(
                    #[trigger] rest[i],
                    code,
                ) by {
                    assert(rest[i] == members[i]);
                }
            }
        }
    }
}

/// The directions added for a code are those of the last member of `custom_move_vectors` that adds
/// any. A code for which no member adds any has none.
pub proof fn law_which_directions_a_code_has(board_state: JsonView, code: Seq<char>)
    ensures
        ({
            let members = members_under(board_state, "custom_move_vectors"@);
            let added = rules::rules_of(board_state).vectors;
            &&& (forall|i: int|
                0 <= i < members.len() ==> !adds_directions(#[trigger] members[i], code))
                ==> !added.contains_key(code)
            &&& forall|i: int|
                {
                    &&& 0 <= i < members.len()
                    &&& adds_directions(#[trigger] members[i], code)
                    &&& forall|j: int|
                        i < j < members.len() ==> !adds_directions(#[trigger] members[j], code)
                } ==> added.contains_key(code) && added[code] == directions(members[i].1)
        }),
{
    lemma_vectors_by_piece(members_under(board_state, "custom_move_vectors"@), code);
}

} // verus!
