//! The adjustments to the rules that a request brings along.

use shogi_ai::json::{JsonMember, JsonValue};
use shogi_ai::rules::parse_runtime_rules;
use shogi_ai::types::{RuntimeRules, VectorRule};

fn object(members: Vec<(&str, JsonValue)>) -> JsonValue {
    JsonValue::Object(
        members
            .into_iter()
            .map(|(name, value)| JsonMember {
                name: name.to_string(),
                value,
            })
            .collect(),
    )
}

fn parse(board_state: &JsonValue) -> RuntimeRules {
    match parse_runtime_rules(board_state) {
        Ok(rules) => rules,
        Err(e) => panic!("runtime rules must parse: {e}"),
    }
}

fn vector(dr: JsonValue, dc: JsonValue, slide: JsonValue) -> JsonValue {
    object(vec![("dr", dr), ("dc", dc), ("slide", slide)])
}

#[test]
fn custom_vectors_are_loaded() {
    let v = object(vec![
        (
            "custom_move_vectors",
            object(vec![(
                "FU",
                JsonValue::List(vec![vector(
                    JsonValue::Int(-1),
                    JsonValue::Int(-1),
                    JsonValue::Bool(false),
                )]),
            )]),
        ),
        (
            "eval_bonus_by_piece",
            object(vec![("FU", JsonValue::Int(10))]),
        ),
    ]);
    let rules = parse(&v);
    assert_eq!(
        rules.extra_vectors_by_piece.get("FU").map(|x| x.len()),
        Some(1)
    );
    assert_eq!(rules.eval_bonus_by_piece.get("FU").copied(), Some(10));
    assert_eq!(
        rules.extra_vectors_by_piece.get("FU").map(|x| x[0]),
        Some(VectorRule {
            dr: -1,
            dc: -1,
            slide: false
        })
    );
}

#[test]
fn codes_are_read_in_upper_case_and_the_later_wins() {
    let v = object(vec![(
        "eval_bonus_by_piece",
        object(vec![
            ("FU", JsonValue::Int(1)),
            ("fu", JsonValue::Int(2)),
            ("ké", JsonValue::Int(3)),
        ]),
    )]);
    let rules = parse(&v);
    assert_eq!(rules.eval_bonus_by_piece.get("FU").copied(), Some(2));
    assert_eq!(rules.eval_bonus_by_piece.get("fu").copied(), None);
    assert_eq!(rules.eval_bonus_by_piece.get("Ké").copied(), Some(3));
}

#[test]
fn what_is_no_integer_gives_no_bonus() {
    let v = object(vec![(
        "eval_bonus_by_piece",
        object(vec![
            ("A", JsonValue::Decimal("1.5".to_string())),
            ("B", JsonValue::Large(u64::MAX)),
            ("C", JsonValue::Text("7".to_string())),
            ("D", JsonValue::Int(0x1_0000_0007)),
            ("E", JsonValue::Int(-1)),
            ("F", JsonValue::Int(0x8000_0000)),
        ]),
    )]);
    let rules = parse(&v);
    assert_eq!(rules.eval_bonus_by_piece.get("A").copied(), None);
    assert_eq!(rules.eval_bonus_by_piece.get("B").copied(), None);
    assert_eq!(rules.eval_bonus_by_piece.get("C").copied(), None);
    assert_eq!(rules.eval_bonus_by_piece.get("D").copied(), Some(7));
    assert_eq!(rules.eval_bonus_by_piece.get("E").copied(), Some(-1));
    assert_eq!(rules.eval_bonus_by_piece.get("F").copied(), Some(i32::MIN));
}

#[test]
fn directions_that_lead_nowhere_are_left_out() {
    let v = object(vec![(
        "custom_move_vectors",
        object(vec![
            (
                "ky",
                JsonValue::List(vec![
                    vector(JsonValue::Int(0), JsonValue::Int(0), JsonValue::Bool(true)),
                    object(vec![("dc", JsonValue::Int(2))]),
                    vector(
                        JsonValue::Int(1),
                        JsonValue::Text("x".to_string()),
                        JsonValue::Bool(true),
                    ),
                    JsonValue::Null,
                ]),
            ),
            ("KE", JsonValue::List(vec![JsonValue::Null])),
            ("GI", JsonValue::Int(3)),
        ]),
    )]);
    let rules = parse(&v);
    assert_eq!(
        rules.extra_vectors_by_piece.get("KY").cloned(),
        Some(vec![
            VectorRule {
                dr: 0,
                dc: 2,
                slide: false
            },
            VectorRule {
                dr: 1,
                dc: 0,
                slide: true
            }
        ])
    );
    assert!(rules.extra_vectors_by_piece.get("KE").is_none());
    assert!(rules.extra_vectors_by_piece.get("GI").is_none());
}

#[test]
fn a_request_without_adjustments_changes_nothing() {
    for board_state in [
        JsonValue::Null,
        object(Vec::new()),
        JsonValue::List(Vec::new()),
        object(vec![
            ("eval_bonus_by_piece", JsonValue::Int(1)),
            ("custom_move_vectors", JsonValue::Null),
        ]),
        object(vec![
            ("skill_registry_v2", JsonValue::Null),
            ("skill_definitions_v2", JsonValue::Null),
        ]),
        object(vec![
            ("skill_registry_v2", JsonValue::List(Vec::new())),
            ("skill_definitions_v2", JsonValue::Text("none".to_string())),
        ]),
    ] {
        let rules = parse(&board_state);
        assert!(rules.extra_vectors_by_piece.get("FU").is_none());
        assert!(rules.eval_bonus_by_piece.get("FU").is_none());
        assert!(rules.skill_runtime.registry.is_none());
        assert!(rules.skill_runtime.definitions.is_empty());
    }
}

#[test]
fn of_two_members_with_a_name_the_last_counts() {
    let v = object(vec![
        ("a", JsonValue::Int(1)),
        ("a", JsonValue::Int(2)),
        ("b", JsonValue::List(vec![JsonValue::Bool(true)])),
        ("c", JsonValue::Text("x".to_string())),
    ]);
    assert_eq!(v.get_int("a"), Some(2));
    assert_eq!(v.get_int("c"), None);
    assert_eq!(v.get_text("c").map(|s| s.as_str()), Some("x"));
    assert_eq!(v.get_list("b").map(|l| l.len()), Some(1));
    assert!(v.get("d").is_none());
    assert!(JsonValue::Int(1).get("a").is_none());
    let copy = v.copy();
    assert_eq!(copy.get_int("a"), Some(2));
    assert!(matches!(
        copy.get_list("b").map(|l| &l[0]),
        Some(JsonValue::Bool(true))
    ));
}
