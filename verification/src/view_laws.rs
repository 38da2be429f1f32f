//! What the mathematical readings of the data keep.

use crate::json;
use crate::json::{JsonValue, JsonView};
use crate::skills::{
    SkillCondition, SkillDefinition, SkillEffect, SkillRegistry, SkillRuntime, SkillRuntimeView,
};
use crate::types::{EngineMove, RulesView, RuntimeRules, SearchState};
use vstd::prelude::*;

verus! {

/// The reading of a move has each of its squares and texts.
pub proof fn law_what_is_read_of_a_move(mv: EngineMove)
    ensures
        mv@.from_row == mv.from_row,
        mv@.from_col == mv.from_col,
        mv@.to_row == mv.to_row,
        mv@.to_col == mv.to_col,
        mv@.piece_code == mv.piece_code@,
        mv@.promote == mv.promote,
        mv.drop_piece_code matches Some(s) ==> mv@.drop_piece_code == Some(s@),
        mv.drop_piece_code is None ==> mv@.drop_piece_code is None,
        mv.captured_piece_code matches Some(s) ==> mv@.captured_piece_code == Some(s@),
        mv.captured_piece_code is None ==> mv@.captured_piece_code is None,
        mv.notation matches Some(s) ==> mv@.notation == Some(s@),
        mv.notation is None ==> mv@.notation is None,
{
}

/// The reading of a position has what stands on each square, the player to move, and what each
/// player holds.
pub proof fn law_what_is_read_of_a_position(state: SearchState)
    ensures
        state@.wf(),
        forall|i: int| 0 <= i < 81 ==> #[trigger] state@.board[i] == state.board@[i],
        forall|row: int, col: int|
            0 <= row < 9 && 0 <= col < 9 ==> #[trigger] state@.at(row, col) == state.board@[9 * row
                + col],
        state@.side_to_move == state.side_to_move,
        forall|k: int| 0 <= k < 7 ==> #[trigger] state@.hands[0][k] == state.hands@[0]@[k],
        forall|k: int| 0 <= k < 7 ==> #[trigger] state@.hands[1][k] == state.hands@[1]@[k],
{
}

/// The reading of the adjustments has the directions and the bonus of each code.
pub proof fn law_what_is_read_of_rules(rules: RuntimeRules, code: Seq<char>)
    ensures
        rules@.vectors.contains_key(code) <==> rules.extra_vectors_by_piece@.contains_key(code),
        rules@.vectors.contains_key(code) ==> rules@.vectors[code]
            == rules.extra_vectors_by_piece@[code]@,
        rules@.bonus.contains_key(code) <==> rules.eval_bonus_by_piece@.contains_key(code),
        rules@.bonus.contains_key(code) ==> rules@.bonus[code] == rules.eval_bonus_by_piece@[code],
{
}

/// The reading of a JSON value is of the same kind, with the same contents in the same order.
pub proof fn law_what_is_read_of_json(value: JsonValue)
    ensures
        match value {
            JsonValue::Null => value@ == JsonView::Null,
            JsonValue::Bool(b) => value@ == JsonView::Bool(b),
            JsonValue::Int(n) => value@ == JsonView::Int(n),
            JsonValue::Large(n) => value@ == JsonView::Large(n),
            JsonValue::Decimal(s) => value@ == JsonView::Decimal(s@),
            JsonValue::Text(s) => value@ == JsonView::Text(s@),
            JsonValue::List(items) => {
                &&& value@ is List
                &&& value@->List_0.len() == items@.len()
                &&& forall|i: int|
                    0 <= i < items@.len() ==> #[trigger] value@->List_0[i] == items@[i]@
            },
            JsonValue::Object(members) => {
                &&& value@ is Object
                &&& value@->Object_0.len() == members@.len()
                &&& forall|i: int|
                    0 <= i < members@.len() ==> #[trigger] value@->Object_0[i] == (
                        members@[i].name@,
                        members@[i].value@,
                    )
            },
        },
{
    if let JsonValue::List(items) = value {
        json::lemma_list_view(items);
    }
    if let JsonValue::Object(members) = value {
        json::lemma_object_view(members);
    }
}

/// The reading of a condition has its option and its parameters.
pub proof fn law_what_is_read_of_a_condition(condition: SkillCondition)
    ensures
        condition@.option.group == condition.group@,
        condition@.option.code == condition.type_code@,
        condition@.params == condition.params@,
{
}

/// The reading of an effect has its order, its option, its target and its parameters.
pub proof fn law_what_is_read_of_an_effect(effect: SkillEffect)
    ensures
        effect@.order == effect.order,
        effect@.option.group == effect.group@,
        effect@.option.code == effect.type_code@,
        effect@.target.group == effect.target.group@,
        effect@.target.code == effect.target.selector@,
        effect@.params == effect.params@,
{
}

/// The reading of a definition has all that it says of its skill.
pub proof fn law_what_is_read_of_a_definition(skill: SkillDefinition)
    ensures
        skill@.skill_id == skill.skill_id,
        skill@.piece_chars.len() == skill.piece_chars@.len(),
        forall|i: int|
            0 <= i < skill.piece_chars@.len() ==> #[trigger] skill@.piece_chars[i]
                == skill.piece_chars@[i]@,
        skill@.source.skill_text == skill.source.skill_text@,
        skill@.source.source_kind == skill.source.source_kind@,
        skill@.source.source_file == skill.source.source_file@,
        skill@.source.source_function == skill.source.source_function@,
        skill@.implementation_kind == skill.classification.implementation_kind@,
        skill@.tags.len() == skill.classification.tags@.len(),
        forall|i: int|
            0 <= i < skill.classification.tags@.len() ==> #[trigger] skill@.tags[i]
                == skill.classification.tags@[i]@,
        skill@.trigger.group == skill.trigger.group@,
        skill@.trigger.code == skill.trigger.type_code@,
        skill@.conditions.len() == skill.conditions@.len(),
        forall|i: int|
            0 <= i < skill.conditions@.len() ==> #[trigger] skill@.conditions[i]
                == skill.conditions@[i]@,
        skill@.effects.len() == skill.effects@.len(),
        forall|i: int|
            0 <= i < skill.effects@.len() ==> #[trigger] skill@.effects[i] == skill.effects@[i]@,
        skill.script_hook matches Some(hook) ==> skill@.script_hook == Some(hook@),
        skill.script_hook is None ==> skill@.script_hook is None,
{
}

/// The reading of a registry has its version and each of its entries.
pub proof fn law_what_is_read_of_a_registry(registry: SkillRegistry, i: int)
    ensures
        registry@.version == registry.version@,
        registry@.implementation_kinds.len() == registry.implementation_kinds@.len(),
        registry@.triggers.len() == registry.triggers@.len(),
        registry@.conditions.len() == registry.conditions@.len(),
        registry@.effects.len() == registry.effects@.len(),
        registry@.targets.len() == registry.targets@.len(),
        0 <= i < registry.implementation_kinds@.len() ==> registry@.implementation_kinds[i]
            == registry.implementation_kinds@[i].code@,
        0 <= i < registry.triggers@.len() ==> registry@.triggers[i].group
            == registry.triggers@[i].group@ && registry@.triggers[i].code
            == registry.triggers@[i].code@,
        0 <= i < registry.conditions@.len() ==> registry@.conditions[i].group
            == registry.conditions@[i].group@ && registry@.conditions[i].code
            == registry.conditions@[i].code@,
        0 <= i < registry.effects@.len() ==> registry@.effects[i].group
            == registry.effects@[i].group@ && registry@.effects[i].code
            == registry.effects@[i].code@,
        0 <= i < registry.targets@.len() ==> registry@.targets[i].group
            == registry.targets@[i].group@ && registry@.targets[i].code
            == registry.targets@[i].code@,
{
}

/// The reading of the skills of a request has the registry, if there is one, and each definition.
pub proof fn law_what_is_read_of_skills(runtime: SkillRuntime)
    ensures
        runtime.registry matches Some(registry) ==> runtime@.registry == Some(registry@),
        runtime.registry is None ==> runtime@.registry is None,
        runtime@.definitions.len() == runtime.definitions@.len(),
        forall|i: int|
            0 <= i < runtime.definitions@.len() ==> #[trigger] runtime@.definitions[i]
                == runtime.definitions@[i]@,
{
}

/// Where nothing is adjusted, no code has a bonus or an added direction, and there is no skill.
pub proof fn law_what_plain_rules_hold(code: Seq<char>)
    ensures
        !RulesView::plain().bonus.contains_key(code),
        !RulesView::plain().vectors.contains_key(code),
        SkillRuntimeView::none().registry is None,
        SkillRuntimeView::none().definitions.len() == 0,
{
}

} // verus!
