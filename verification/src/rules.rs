//! The adjustments to the rules that a request brings along.

use crate::json;
use crate::json::{JsonMember, JsonValue, JsonView};
use crate::skills;
use crate::skills::{
    builtin_skill_registry, document_of, registry_of, validate_skill_definitions, RegistryView,
    SkillRuntime, SkillRuntimeView,
};
use crate::types;
use crate::types::{RulesView, RuntimeRules, VectorRule};
use vstd::hash_map::StringHashMap;
use vstd::prelude::*;

verus! {

/// A text with its ASCII letters in upper case.
pub open spec fn upper(s: Seq<char>) -> Seq<char> {
    s.map_values(|c: char| types::ascii_upper(c))
}

/// `str::to_ascii_uppercase`: a copy in which the letters `a` to `z` are replaced by `A` to `Z`
/// and every other character is kept.
#[verifier::external_body]
fn upper_case(s: &str) -> (copy: String)
    ensures
        copy@ == upper(s@),
{
    s.to_ascii_uppercase()
}

/// The bonuses of the members that are numbers, by piece code. Of a number only the low 32 bits
/// count, and of two codes that differ only in case the later.
pub open spec fn bonuses(members: Seq<(Seq<char>, JsonView)>) -> Map<Seq<char>, i32>
    decreases members.len(),
{
    if members.len() == 0 {
        Map::empty()
    } else {
        let earlier = bonuses(members.drop_last());
        match members.last().1 {
            JsonView::Int(cp) => earlier.insert(upper(members.last().0), cp as i32),
            _ => earlier,
        }
    }
}

/// A number that is zero if it is left out or no integer. Only its low 32 bits count.
pub open spec fn offset(value: JsonView, name: Seq<char>) -> i32 {
    match value.int_member(name) {
        Some(n) => n as i32,
        None => 0,
    }
}

/// The direction that a value describes. It slides only if that is said.
pub open spec fn vector(value: JsonView) -> VectorRule {
    VectorRule {
        dr: offset(value, "dr"@),
        dc: offset(value, "dc"@),
        slide: value.member("slide"@) == Some(JsonView::Bool(true)),
    }
}

/// The directions that a list describes. Those that lead nowhere are left out.
pub open spec fn vectors(items: Seq<JsonView>) -> Seq<VectorRule>
    decreases items.len(),
{
    if items.len() == 0 {
        Seq::empty()
    } else {
        let earlier = vectors(items.drop_last());
        let v = vector(items.last());
        if v.dr != 0 || v.dc != 0 {
            earlier.push(v)
        } else {
            earlier
        }
    }
}

/// The directions that a member describes. Only a list describes any.
pub open spec fn member_vectors(value: JsonView) -> Seq<VectorRule> {
    match value {
        JsonView::List(items) => vectors(items),
        _ => Seq::empty(),
    }
}

/// The added directions by piece code, of those pieces that have any.
pub open spec fn vectors_by_piece(members: Seq<(Seq<char>, JsonView)>) -> Map<
    Seq<char>,
    Seq<VectorRule>,
>
    decreases members.len(),
{
    if members.len() == 0 {
        Map::empty()
    } else {
        let earlier = vectors_by_piece(members.drop_last());
        let found = member_vectors(members.last().1);
        if found.len() > 0 {
            earlier.insert(upper(members.last().0), found)
        } else {
            earlier
        }
    }
}

/// The members of an object that a value holds; none if it is something else.
pub open spec fn members_of(value: Option<JsonView>) -> Seq<(Seq<char>, JsonView)> {
    match value {
        Some(JsonView::Object(members)) => members,
        _ => Seq::empty(),
    }
}

/// The adjustments to movement and worth that a request describes.
pub open spec fn rules_of(board_state: JsonView) -> RulesView {
    RulesView {
        vectors: vectors_by_piece(members_of(board_state.member("custom_move_vectors"@))),
        bonus: bonuses(members_of(board_state.member("eval_bonus_by_piece"@))),
    }
}

/// The registry that a request brings along. One that cannot be read is taken as left out.
pub open spec fn registry_in(board_state: JsonView) -> Option<RegistryView> {
    match board_state.member("skill_registry_v2"@) {
        Some(value) => skills::read_registry(value),
        None => None,
    }
}

/// The definitions that a request brings along. What cannot be read is taken as left out.
pub open spec fn definitions_in(board_state: JsonView) -> Seq<skills::SkillView> {
    match board_state.member("skill_definitions_v2"@) {
        Some(value) => match skills::read_document(value) {
            Some(definitions) => definitions,
            None => Seq::empty(),
        },
        None => Seq::empty(),
    }
}

/// The skills that a request brings along. The definitions must be written in the vocabulary of
/// the registry that comes with them, or else of the built-in one.
pub open spec fn skills_of(board_state: JsonView) -> Result<SkillRuntimeView, Seq<char>> {
    let registry = registry_in(board_state);
    let definitions = definitions_in(board_state);
    let vocabulary = match registry {
        Some(registry) => registry,
        None => skills::builtin_registry(),
    };
    match skills::definitions_problem(vocabulary, definitions, definitions.len()) {
        Some(message) => Err(message),
        None => Ok(SkillRuntimeView { registry, definitions }),
    }
}

fn offset_of(value: &JsonValue, name: &str) -> (n: i32)
    ensures
        n == offset(value@, name@),
{
    match value.get_int(name) {
        Some(n) => n as i32,
        None => 0,
    }
}

fn vectors_of(items: &Vec<JsonValue>) -> (found: Vec<VectorRule>)
    ensures
        found@ == vectors(json::views(items@)),
{
    let ghost views = json::views(items@);
    let mut found: Vec<VectorRule> = Vec::new();
    assert(views.take(0) =~= Seq::empty());
    for i in 0..items.len()
        invariant
            views == json::views(items@),
            found@ == vectors(views.take(i as int)),
    {
        let item = &items[i];
        let slide = match item.get("slide") {
            Some(JsonValue::Bool(b)) => *b,
            _ => false,
        };
        let v = VectorRule { dr: offset_of(item, "dr"), dc: offset_of(item, "dc"), slide };
        proof {
            assert(views.take(i + 1).drop_last() =~= views.take(i as int));
            assert(views.take(i + 1).last() == item@);
            assert(v == vector(item@));
        }
        if v.dr != 0 || v.dc != 0 {
            found.push(v);
        }
    }
    assert(views.take(views.len() as int) =~= views);
    found
}

/// The directions that are added to the rules, as a map of sequences.
pub open spec fn vector_views(map: Map<Seq<char>, Vec<VectorRule>>) -> Map<
    Seq<char>,
    Seq<VectorRule>,
> {
    map.map_values(|v: Vec<VectorRule>| v@)
}

fn piece_vectors_of(members: &Vec<JsonMember>) -> (map: StringHashMap<Vec<VectorRule>>)
    ensures
        vector_views(map@) == vectors_by_piece(json::member_views(members@)),
{
    let ghost views = json::member_views(members@);
    let mut map: StringHashMap<Vec<VectorRule>> = StringHashMap::new();
    assert(views.take(0) =~= Seq::empty());
    assert(vector_views(map@) =~= Map::empty());
    for i in 0..members.len()
        invariant
            views == json::member_views(members@),
            vector_views(map@) == vectors_by_piece(views.take(i as int)),
    {
        let member = &members[i];
        let found = match &member.value {
            JsonValue::List(items) => {
                proof {
                    json::lemma_list_view(*items);
                }
                vectors_of(items)
            },
            _ => Vec::new(),
        };
        proof {
            assert(views.take(i + 1).drop_last() =~= views.take(i as int));
            assert(views.take(i + 1).last() == (member.name@, member.value@));
            assert(found@ =~= member_vectors(member.value@));
        }
        if found.len() > 0 {
            let ghost earlier = map@;
            let ghost list = found@;
            map.insert(upper_case(member.name.as_str()), found);
            assert(vector_views(map@) =~= vector_views(earlier).insert(
                upper(member.name@),
                list,
            ));
        }
    }
    assert(views.take(views.len() as int) =~= views);
    map
}

fn piece_bonuses_of(members: &Vec<JsonMember>) -> (map: StringHashMap<i32>)
    ensures
        map@ == bonuses(json::member_views(members@)),
{
    let ghost views = json::member_views(members@);
    let mut map: StringHashMap<i32> = StringHashMap::new();
    assert(views.take(0) =~= Seq::empty());
    for i in 0..members.len()
        invariant
            views == json::member_views(members@),
            map@ == bonuses(views.take(i as int)),
    {
        let member = &members[i];
        proof {
            assert(views.take(i + 1).drop_last() =~= views.take(i as int));
            assert(views.take(i + 1).last() == (member.name@, member.value@));
        }
        match &member.value {
            JsonValue::Int(cp) => {
                map.insert(upper_case(member.name.as_str()), *cp as i32);
            },
            _ => {},
        }
    }
    assert(views.take(views.len() as int) =~= views);
    map
}

fn skills_from(board_state: &JsonValue) -> (result: Result<SkillRuntime, String>)
    ensures
        match skills_of(board_state@) {
            Ok(runtime) => result matches Ok(found) && found@ == runtime,
            Err(message) => result matches Err(e) && e@ == message,
        },
{
    let registry = match board_state.get("skill_registry_v2") {
        Some(value) => registry_of(value),
        None => None,
    };
    let definitions = match board_state.get("skill_definitions_v2") {
        Some(value) => match document_of(value) {
            Some(definitions) => definitions,
            None => Vec::new(),
        },
        None => Vec::new(),
    };
    assert(definitions_in(board_state@) =~= skills::skill_views(definitions@));
    let checked = match &registry {
        Some(registry) => validate_skill_definitions(registry, &definitions),
        None => validate_skill_definitions(&builtin_skill_registry(), &definitions),
    };
    match checked {
        Ok(_) => Ok(SkillRuntime { registry, definitions }),
        Err(e) => Err(e),
    }
}

/// Reads the adjustments to the rules that a request brings along in its board state.
pub fn parse_runtime_rules(board_state: &JsonValue) -> (result: Result<RuntimeRules, String>)
    ensures
        match skills_of(board_state@) {
            Ok(runtime) => {
                &&& result matches Ok(rules)
                &&& rules@ == rules_of(board_state@)
                &&& rules.skill_runtime@ == runtime
            },
            Err(message) => result matches Err(e) && e@ == message,
        },
{
    let skill_runtime = match skills_from(board_state) {
        Ok(runtime) => runtime,
        Err(e) => {
            return Err(e);
        },
    };
    let eval_bonus_by_piece = match board_state.get("eval_bonus_by_piece") {
        Some(JsonValue::Object(members)) => {
            proof {
                json::lemma_object_view(*members);
            }
            piece_bonuses_of(members)
        },
        _ => StringHashMap::new(),
    };
    let extra_vectors_by_piece = match board_state.get("custom_move_vectors") {
        Some(JsonValue::Object(members)) => {
            proof {
                json::lemma_object_view(*members);
            }
            piece_vectors_of(members)
        },
        _ => StringHashMap::new(),
    };
    let rules = RuntimeRules { extra_vectors_by_piece, eval_bonus_by_piece, skill_runtime };
    assert(rules@ =~= rules_of(board_state@));
    Ok(rules)
}

/// A list of directions, not empty, each of which leads somewhere.
pub open spec fn lead_somewhere(list: Seq<VectorRule>) -> bool {
    &&& list.len() > 0
    &&& forall|i: int|
        0 <= i < list.len() ==> (#[trigger] list[i]).dr != 0 || list[i].dc != 0
}

/// A text without lower-case ASCII letters.
pub open spec fn is_upper(s: Seq<char>) -> bool {
    upper(s) == s
}

proof fn lemma_upper_twice(s: Seq<char>)
    ensures
        is_upper(upper(s)),
{
    assert(upper(upper(s)) =~= upper(s));
}

proof fn lemma_vectors_lead_somewhere(items: Seq<JsonView>)
    ensures
        vectors(items).len() > 0 ==> lead_somewhere(vectors(items)),
        forall|i: int|
            0 <= i < vectors(items).len() ==> (#[trigger] vectors(items)[i]).dr != 0
                || vectors(items)[i].dc != 0,
    decreases items.len(),
{
    if items.len() > 0 {
        lemma_vectors_lead_somewhere(items.drop_last());
    }
}

proof fn lemma_pieces_have_vectors(members: Seq<(Seq<char>, JsonView)>)
    ensures
        forall|code: Seq<char>| #[trigger]
            vectors_by_piece(members).contains_key(code) ==> is_upper(code) && lead_somewhere(
                vectors_by_piece(members)[code],
            ),
    decreases members.len(),
{
    if members.len() > 0 {
        lemma_pieces_have_vectors(members.drop_last());
        lemma_upper_twice(members.last().0);
        if let JsonView::List(items) = members.last().1 {
            lemma_vectors_lead_somewhere(items);
        }
        let earlier = vectors_by_piece(members.drop_last());
        let last = upper(members.last().0);
        assert forall|code: Seq<char>| #[trigger]
            vectors_by_piece(members).contains_key(code) implies is_upper(code) && lead_somewhere(
            vectors_by_piece(members)[code],
        ) by {
            if code != last || member_vectors(members.last().1).len() == 0 {
                assert(earlier.contains_key(code));
            }
        }
    }
}

/// Whatever a request describes, every piece code for which directions are added is in upper
/// case, and its directions are not empty and lead somewhere.
pub proof fn law_added_directions_lead_somewhere(board_state: JsonView)
    ensures
        forall|code: Seq<char>| #[trigger]
            rules_of(board_state).vectors.contains_key(code) ==> is_upper(code) && lead_somewhere(
                rules_of(board_state).vectors[code],
            ),
{
    lemma_pieces_have_vectors(members_of(board_state.member("custom_move_vectors"@)));
}

/// A request without adjustments leaves the rules as they are.
pub proof fn law_no_adjustments_leave_the_rules_plain(board_state: JsonView)
    requires
        board_state.member("custom_move_vectors"@) is None,
        board_state.member("eval_bonus_by_piece"@) is None,
        board_state.member("skill_registry_v2"@) is None,
        board_state.member("skill_definitions_v2"@) is None,
    ensures
        rules_of(board_state) == RulesView::plain(),
        skills_of(board_state) == Ok::<SkillRuntimeView, Seq<char>>(SkillRuntimeView::none()),
{
}

} // verus!
