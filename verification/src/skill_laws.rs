//! What a document of skills says, which vocabulary is built in, and what is accepted.

use crate::json::JsonView;
use crate::rules;
use crate::skills;
use crate::skills::{
    ConditionView, EffectView, OptionView, RegistryView, SkillView, SourceView,
};
use vstd::prelude::*;

verus! {

// ---------------------------------------------------------------------------
// Reading
// ---------------------------------------------------------------------------

/// Whether a value holds a text under a name.
pub open spec fn has_text(value: JsonView, name: Seq<char>, text: Seq<char>) -> bool {
    value.member(name) == Some(JsonView::Text(text))
}

/// The list under a name; empty if there is none.
pub open spec fn list_under(value: JsonView, name: Seq<char>) -> Seq<JsonView> {
    match value.member(name) {
        Some(JsonView::List(items)) => items,
        _ => Seq::empty(),
    }
}

/// Whether there is a list of a certain length under a name.
pub open spec fn has_list(value: JsonView, name: Seq<char>, n: nat) -> bool {
    value.member(name) == Some(JsonView::List(list_under(value, name))) && list_under(
        value,
        name,
    ).len() == n
}

/// Whether a value holds a list of texts under a name.
pub open spec fn has_texts(value: JsonView, name: Seq<char>, texts: Seq<Seq<char>>) -> bool {
    &&& has_list(value, name, texts.len())
    &&& forall|i: int|
        0 <= i < texts.len() ==> (#[trigger] list_under(value, name)[i]) == JsonView::Text(texts[i])
}

/// Whether a value names an option: its group, and the option itself under the name given.
pub open spec fn has_option(value: JsonView, name: Seq<char>, found: OptionView) -> bool {
    has_text(value, "group"@, found.group) && has_text(value, name, found.code)
}

/// Whether the parameters of a condition or an effect are those given; null if left out.
pub open spec fn has_params(value: JsonView, params: JsonView) -> bool {
    value.member("params"@) == Some(params) || (value.member("params"@) is None && params
        == JsonView::Null)
}

/// Whether a value describes a condition.
pub open spec fn is_condition(value: JsonView, condition: ConditionView) -> bool {
    has_option(value, "type"@, condition.option) && has_params(value, condition.params)
}

/// Whether a value describes an effect.
pub open spec fn is_effect(value: JsonView, effect: EffectView) -> bool {
    &&& value.member("order"@) == Some(JsonView::Int(effect.order as i64))
    &&& has_option(value, "type"@, effect.option)
    &&& value.member("target"@) is Some
    &&& has_option(value.member("target"@).unwrap(), "selector"@, effect.target)
    &&& has_params(value, effect.params)
}

/// Whether a value says where a skill comes from.
pub open spec fn is_source(value: JsonView, source: SourceView) -> bool {
    &&& has_text(value, "skillText"@, source.skill_text)
    &&& has_text(value, "sourceKind"@, source.source_kind)
    &&& has_text(value, "sourceFile"@, source.source_file)
    &&& has_text(value, "sourceFunction"@, source.source_function)
}

/// Whether a value is a number from zero up.
pub open spec fn is_number(value: Option<JsonView>, id: u64) -> bool {
    value == Some(JsonView::Large(id)) || (id <= 0x7fff_ffff_ffff_ffff && value == Some(
        JsonView::Int(id as i64),
    ))
}

/// Whether a value defines a skill.
pub open spec fn is_definition(value: JsonView, skill: SkillView) -> bool {
    &&& is_number(value.member("skillId"@), skill.skill_id)
    &&& has_texts(value, "pieceChars"@, skill.piece_chars)
    &&& value.member("source"@) is Some
    &&& is_source(value.member("source"@).unwrap(), skill.source)
    &&& value.member("classification"@) is Some
    &&& has_text(
        value.member("classification"@).unwrap(),
        "implementationKind"@,
        skill.implementation_kind,
    )
    &&& has_texts(value.member("classification"@).unwrap(), "tags"@, skill.tags)
    &&& value.member("trigger"@) is Some
    &&& has_option(value.member("trigger"@).unwrap(), "type"@, skill.trigger)
    &&& has_list(value, "conditions"@, skill.conditions.len())
    &&& forall|i: int|
        0 <= i < skill.conditions.len() ==> is_condition(
            #[trigger] list_under(value, "conditions"@)[i],
            skill.conditions[i],
        )
    &&& has_list(value, "effects"@, skill.effects.len())
    &&& forall|i: int|
        0 <= i < skill.effects.len() ==> is_effect(
            #[trigger] list_under(value, "effects"@)[i],
            skill.effects[i],
        )
    &&& match skill.script_hook {
        Some(hook) => has_text(value, "scriptHook"@, hook),
        None => value.member("scriptHook"@) is None || value.member("scriptHook"@) == Some(
            JsonView::Null,
        ),
    }
}

proof fn lemma_all<T>(items: Seq<JsonView>, read: spec_fn(JsonView) -> Option<T>, found: Seq<T>)
    ensures
        skills::read_all(items, read) == Some(found) <==> items.len() == found.len() && forall|
            i: int,
        |
            0 <= i < items.len() ==> read(#[trigger] items[i]) == Some(found[i]),
{
    let all = items.map_values(|item: JsonView| read(item).unwrap());
    if items.len() == found.len() && forall|i: int|
        0 <= i < items.len() ==> read(#[trigger] items[i]) == Some(found[i]) {
        assert(all =~= found);
    }
    if skills::read_all(items, read) == Some(found) {
        assert(all == found);
        assert forall|i: int| 0 <= i < items.len() implies read(#[trigger] items[i]) == Some(
            found[i],
        ) by {
            assert(all[i] == read(items[i]).unwrap());
        }
    }
}

proof fn lemma_texts(value: JsonView, name: Seq<char>, texts: Seq<Seq<char>>)
    ensures
        skills::read_texts(value.list_member(name)) == Some(texts) <==> has_texts(
            value,
            name,
            texts,
        ),
{
    let items = list_under(value, name);
    lemma_all(items, |item: JsonView| skills::read_text(item), texts);
    if has_texts(value, name, texts) {
        assert forall|i: int| 0 <= i < items.len() implies skills::read_text(#[trigger] items[i])
            == Some(texts[i]) by {}
    }
    if skills::read_texts(value.list_member(name)) == Some(texts) {
        assert forall|i: int| 0 <= i < texts.len() implies (#[trigger] list_under(value, name)[i])
            == JsonView::Text(texts[i]) by {
            assert(skills::read_text(items[i]) == Some(texts[i]));
        }
    }
}

proof fn lemma_option(value: JsonView, name: Seq<char>, found: OptionView)
    ensures
        skills::read_option(value, name) == Some(found) <==> has_option(value, name, found),
{
}

/// A value is read as a condition exactly if it describes that condition.
pub proof fn law_which_condition_is_read(value: JsonView, condition: ConditionView)
    ensures
        skills::read_condition(value) == Some(condition) <==> is_condition(value, condition),
{
    lemma_option(value, "type"@, condition.option);
}

/// A value is read as an effect exactly if it describes that effect.
pub proof fn law_which_effect_is_read(value: JsonView, effect: EffectView)
    ensures
        skills::read_effect(value) == Some(effect) <==> is_effect(value, effect),
{
    lemma_option(value, "type"@, effect.option);
    if let Some(target) = value.member("target"@) {
        lemma_option(target, "selector"@, effect.target);
    }
}

proof fn lemma_conditions_read(value: JsonView, found: Seq<ConditionView>)
    ensures
        skills::read_conditions(value.list_member("conditions"@)) == Some(found) <==> {
            &&& has_list(value, "conditions"@, found.len())
            &&& forall|i: int|
                0 <= i < found.len() ==> is_condition(
                    #[trigger] list_under(value, "conditions"@)[i],
                    found[i],
                )
        },
{
    let items = list_under(value, "conditions"@);
    lemma_all(items, |item: JsonView| skills::read_condition(item), found);
    assert forall|i: int| 0 <= i < items.len() implies (skills::read_condition(#[trigger] items[i])
        == Some(found[i]) <==> is_condition(items[i], found[i])) by {
        law_which_condition_is_read(items[i], found[i]);
    }
    assert(items =~= list_under(value, "conditions"@));
}

proof fn lemma_effects_read(value: JsonView, found: Seq<EffectView>)
    ensures
        skills::read_effects(value.list_member("effects"@)) == Some(found) <==> {
            &&& has_list(value, "effects"@, found.len())
            &&& forall|i: int|
                0 <= i < found.len() ==> is_effect(
                    #[trigger] list_under(value, "effects"@)[i],
                    found[i],
                )
        },
{
    let items = list_under(value, "effects"@);
    lemma_all(items, |item: JsonView| skills::read_effect(item), found);
    assert forall|i: int| 0 <= i < items.len() implies (skills::read_effect(#[trigger] items[i])
        == Some(found[i]) <==> is_effect(items[i], found[i])) by {
        law_which_effect_is_read(items[i], found[i]);
    }
    assert(items =~= list_under(value, "effects"@));
}

/// A value is read as a definition exactly if it defines that skill.
pub proof fn law_which_definition_is_read(value: JsonView, skill: SkillView)
    ensures
        skills::read_definition(value) == Some(skill) <==> is_definition(value, skill),
{
    lemma_texts(value, "pieceChars"@, skill.piece_chars);
    lemma_conditions_read(value, skill.conditions);
    lemma_effects_read(value, skill.effects);
    if let Some(classification) = value.member("classification"@) {
        lemma_texts(classification, "tags"@, skill.tags);
    }
    if let Some(trigger) = value.member("trigger"@) {
        lemma_option(trigger, "type"@, skill.trigger);
    }
}

/// The values of a document: its own items, or those of the list that it holds.
pub open spec fn items_of(value: JsonView) -> Seq<JsonView> {
    match value {
        JsonView::List(items) => items,
        _ => list_under(value, "definitions"@),
    }
}

/// A document is read as a list of skills exactly if it is the list of their definitions, or no
/// list and holds one under `definitions`.
pub proof fn law_which_document_is_read(value: JsonView, list: Seq<SkillView>)
    ensures
        skills::read_document(value) == Some(list) <==> {
            &&& value is List || has_list(value, "definitions"@, list.len())
            &&& items_of(value).len() == list.len()
            &&& forall|i: int|
                0 <= i < list.len() ==> is_definition(#[trigger] items_of(value)[i], list[i])
        },
{
    let items = items_of(value);
    let read = |item: JsonView| skills::read_definition(item);
    lemma_all(items, read, list);
    assert forall|i: int| 0 <= i < items.len() implies (read(#[trigger] items[i]) == Some(list[i])
        <==> is_definition(items[i], list[i])) by {
        law_which_definition_is_read(items[i], list[i]);
    }
    if skills::read_document(value) == Some(list) {
        assert(skills::read_all(items, read) == Some(list));
        assert forall|i: int| 0 <= i < list.len() implies is_definition(
            #[trigger] items_of(value)[i],
            list[i],
        ) by {
            assert(read(items[i]) == Some(list[i]));
        }
    }
    if items.len() == list.len() && forall|i: int|
        0 <= i < list.len() ==> is_definition(#[trigger] items_of(value)[i], list[i]) {
        assert forall|i: int| 0 <= i < items.len() implies read(#[trigger] items[i]) == Some(
            list[i],
        ) by {
            assert(is_definition(items_of(value)[i], list[i]));
        }
        assert(skills::read_all(items, read) == Some(list));
    }
}

/// Whether a value lists options under a name, each option under the second name.
pub open spec fn has_options(
    value: JsonView,
    name: Seq<char>,
    code: Seq<char>,
    found: Seq<OptionView>,
) -> bool {
    &&& has_list(value, name, found.len())
    &&& forall|i: int|
        0 <= i < found.len() ==> has_option(#[trigger] list_under(value, name)[i], code, found[i])
}

proof fn lemma_options(value: JsonView, name: Seq<char>, code: Seq<char>, found: Seq<OptionView>)
    ensures
        skills::read_options(value.list_member(name), code) == Some(found) <==> has_options(
            value,
            name,
            code,
            found,
        ),
{
    let items = list_under(value, name);
    lemma_all(items, |item: JsonView| skills::read_option(item, code), found);
    assert forall|i: int| 0 <= i < items.len() implies (skills::read_option(
        #[trigger] items[i],
        code,
    ) == Some(found[i]) <==> has_option(items[i], code, found[i])) by {
        lemma_option(items[i], code, found[i]);
    }
    assert(items =~= list_under(value, name));
}

/// A value is read as a registry exactly if it holds the registry's version, kinds, triggers,
/// conditions, effects and targets.
pub proof fn law_which_registry_is_read(value: JsonView, registry: RegistryView)
    ensures
        skills::read_registry(value) == Some(registry) <==> {
            &&& has_text(value, "version"@, registry.version)
            &&& has_list(value, "implementationKinds"@, registry.implementation_kinds.len())
            &&& forall|i: int|
                0 <= i < registry.implementation_kinds.len() ==> has_text(
                    #[trigger] list_under(value, "implementationKinds"@)[i],
                    "code"@,
                    registry.implementation_kinds[i],
                )
            &&& has_options(value, "triggers"@, "type"@, registry.triggers)
            &&& has_options(value, "conditions"@, "type"@, registry.conditions)
            &&& has_options(value, "effects"@, "type"@, registry.effects)
            &&& has_options(value, "targets"@, "selector"@, registry.targets)
        },
{
    let kinds = registry.implementation_kinds;
    let items = list_under(value, "implementationKinds"@);
    lemma_all(items, |item: JsonView| skills::read_kind(item), kinds);
    assert forall|i: int| 0 <= i < items.len() implies (skills::read_kind(#[trigger] items[i])
        == Some(kinds[i]) <==> has_text(items[i], "code"@, kinds[i])) by {}
    assert(items =~= list_under(value, "implementationKinds"@));
    lemma_options(value, "triggers"@, "type"@, registry.triggers);
    lemma_options(value, "conditions"@, "type"@, registry.conditions);
    lemma_options(value, "effects"@, "type"@, registry.effects);
    lemma_options(value, "targets"@, "selector"@, registry.targets);
}

// ---------------------------------------------------------------------------
// The built-in vocabulary
// ---------------------------------------------------------------------------

/// Whether an option is the one of that group and code.
pub open spec fn is_option(entry: OptionView, group: Seq<char>, code: Seq<char>) -> bool {
    entry.group == group && entry.code == code
}

/// Which options the built-in registry knows.
pub proof fn law_the_built_in_options(entry: OptionView)
    ensures
        ({
            let registry = skills::builtin_registry();
            &&& registry.triggers.contains(entry) <==> {
                ||| is_option(entry, "event_move"@, "after_move"@)
                ||| is_option(entry, "event_capture"@, "after_capture"@)
                ||| is_option(entry, "event_turn"@, "turn_start"@)
                ||| is_option(entry, "continuous"@, "continuous_aura"@)
                ||| is_option(entry, "continuous"@, "continuous_rule"@)
            }
            &&& registry.conditions.contains(entry) <==> {
                ||| is_option(entry, "probability"@, "chance_roll"@)
                ||| is_option(entry, "board"@, "target_exists"@)
            }
            &&& registry.effects.contains(entry) <==> {
                ||| is_option(entry, "piece_position"@, "forced_move"@)
                ||| is_option(entry, "piece_state"@, "apply_status"@)
                ||| is_option(entry, "piece_state"@, "disable_piece"@)
                ||| is_option(entry, "piece_state"@, "seal_skill"@)
                ||| is_option(entry, "piece_state"@, "defense_or_immunity"@)
                ||| is_option(entry, "piece_generation"@, "summon_piece"@)
                ||| is_option(entry, "piece_generation"@, "transform_piece"@)
                ||| is_option(entry, "piece_generation"@, "revive"@)
                ||| is_option(entry, "piece_generation"@, "substitute"@)
                ||| is_option(entry, "piece_removal"@, "remove_piece"@)
                ||| is_option(entry, "hand"@, "gain_piece"@)
                ||| is_option(entry, "hand"@, "destroy_hand_piece"@)
                ||| is_option(entry, "hand"@, "send_to_hand"@)
                ||| is_option(entry, "hand"@, "return_to_hand"@)
                ||| is_option(entry, "movement"@, "modify_movement"@)
                ||| is_option(entry, "capture"@, "capture_constraint"@)
                ||| is_option(entry, "capture"@, "capture_with_leap"@)
                ||| is_option(entry, "capture"@, "multi_capture"@)
                ||| is_option(entry, "action_economy"@, "extra_action"@)
                ||| is_option(entry, "action_economy"@, "linked_action"@)
                ||| is_option(entry, "ability"@, "copy_ability"@)
                ||| is_option(entry, "ability"@, "inherit_ability"@)
                ||| is_option(entry, "board"@, "board_hazard"@)
            }
            &&& registry.targets.contains(entry) <==> {
                ||| is_option(entry, "self"@, "self_piece"@)
                ||| is_option(entry, "adjacent"@, "adjacent_enemy"@)
                ||| is_option(entry, "adjacent"@, "adjacent_ally"@)
                ||| is_option(entry, "adjacent"@, "adjacent_empty"@)
                ||| is_option(entry, "line"@, "same_row_ally"@)
                ||| is_option(entry, "line"@, "front_enemy"@)
                ||| is_option(entry, "global"@, "all_ally"@)
                ||| is_option(entry, "cell"@, "origin_cell"@)
                ||| is_option(entry, "hand"@, "enemy_hand_random"@)
                ||| is_option(entry, "hand"@, "ally_hand_piece"@)
            }
        }),
{
    let registry = skills::builtin_registry();
    assert(is_option(registry.triggers[0], "event_move"@, "after_move"@));
    assert(is_option(registry.triggers[1], "event_capture"@, "after_capture"@));
    assert(is_option(registry.triggers[2], "event_turn"@, "turn_start"@));
    assert(is_option(registry.triggers[3], "continuous"@, "continuous_aura"@));
    assert(is_option(registry.triggers[4], "continuous"@, "continuous_rule"@));
    assert(is_option(registry.conditions[0], "probability"@, "chance_roll"@));
    assert(is_option(registry.conditions[1], "board"@, "target_exists"@));
    assert(is_option(registry.effects[0], "piece_position"@, "forced_move"@));
    assert(is_option(registry.effects[1], "piece_state"@, "apply_status"@));
    assert(is_option(registry.effects[2], "piece_state"@, "disable_piece"@));
    assert(is_option(registry.effects[3], "piece_state"@, "seal_skill"@));
    assert(is_option(registry.effects[4], "piece_state"@, "defense_or_immunity"@));
    assert(is_option(registry.effects[5], "piece_generation"@, "summon_piece"@));
    assert(is_option(registry.effects[6], "piece_generation"@, "transform_piece"@));
    assert(is_option(registry.effects[7], "piece_generation"@, "revive"@));
    assert(is_option(registry.effects[8], "piece_generation"@, "substitute"@));
    assert(is_option(registry.effects[9], "piece_removal"@, "remove_piece"@));
    assert(is_option(registry.effects[10], "hand"@, "gain_piece"@));
    assert(is_option(registry.effects[11], "hand"@, "destroy_hand_piece"@));
    assert(is_option(registry.effects[12], "hand"@, "send_to_hand"@));
    assert(is_option(registry.effects[13], "hand"@, "return_to_hand"@));
    assert(is_option(registry.effects[14], "movement"@, "modify_movement"@));
    assert(is_option(registry.effects[15], "capture"@, "capture_constraint"@));
    assert(is_option(registry.effects[16], "capture"@, "capture_with_leap"@));
    assert(is_option(registry.effects[17], "capture"@, "multi_capture"@));
    assert(is_option(registry.effects[18], "action_economy"@, "extra_action"@));
    assert(is_option(registry.effects[19], "action_economy"@, "linked_action"@));
    assert(is_option(registry.effects[20], "ability"@, "copy_ability"@));
    assert(is_option(registry.effects[21], "ability"@, "inherit_ability"@));
    assert(is_option(registry.effects[22], "board"@, "board_hazard"@));
    assert(is_option(registry.targets[0], "self"@, "self_piece"@));
    assert(is_option(registry.targets[1], "adjacent"@, "adjacent_enemy"@));
    assert(is_option(registry.targets[2], "adjacent"@, "adjacent_ally"@));
    assert(is_option(registry.targets[3], "adjacent"@, "adjacent_empty"@));
    assert(is_option(registry.targets[4], "line"@, "same_row_ally"@));
    assert(is_option(registry.targets[5], "line"@, "front_enemy"@));
    assert(is_option(registry.targets[6], "global"@, "all_ally"@));
    assert(is_option(registry.targets[7], "cell"@, "origin_cell"@));
    assert(is_option(registry.targets[8], "hand"@, "enemy_hand_random"@));
    assert(is_option(registry.targets[9], "hand"@, "ally_hand_piece"@));
}

/// Which kinds of implementation the built-in registry knows.
pub proof fn law_the_built_in_kinds(kind: Seq<char>)
    ensures
        skills::builtin_registry().implementation_kinds.contains(kind) <==> kind == "primitive"@
            || kind == "composite"@ || kind == "script_hook"@,
{
    let kinds = skills::builtin_registry().implementation_kinds;
    assert(kinds[0] == "primitive"@);
    assert(kinds[1] == "composite"@);
    assert(kinds[2] == "script_hook"@);
}

// ---------------------------------------------------------------------------
// Acceptance
// ---------------------------------------------------------------------------

/// What is said of an option that is not in the vocabulary.
pub open spec fn unknown(what: Seq<char>, found: OptionView) -> Seq<char> {
    what + found.group + "/"@ + found.code
}

/// Whether the vocabulary has the options of the first `n` conditions.
pub open spec fn conditions_known(
    registry: RegistryView,
    conditions: Seq<ConditionView>,
    n: int,
) -> bool {
    forall|i: int| 0 <= i < n ==> registry.conditions.contains((#[trigger] conditions[i]).option)
}

/// Whether the vocabulary has the options and targets of the first `n` effects.
pub open spec fn effects_known(registry: RegistryView, effects: Seq<EffectView>, n: int) -> bool {
    forall|i: int|
        0 <= i < n ==> registry.effects.contains((#[trigger] effects[i]).option)
            && registry.targets.contains(effects[i].target)
}

proof fn lemma_conditions(registry: RegistryView, conditions: Seq<ConditionView>, n: nat)
    requires
        n <= conditions.len(),
    ensures
        conditions_known(registry, conditions, n as int) ==> skills::conditions_problem(
            registry,
            conditions,
            n,
        ) is None,
        forall|i: int|
            0 <= i < n && conditions_known(registry, conditions, i)
                && !registry.conditions.contains((#[trigger] conditions[i]).option)
                ==> skills::conditions_problem(registry, conditions, n) == Some(
                unknown("unknown condition option: "@, conditions[i].option),
            ),
    decreases n,
{
    if n > 0 {
        lemma_conditions(registry, conditions, (n - 1) as nat);
    }
}

proof fn lemma_effects(registry: RegistryView, effects: Seq<EffectView>, n: nat)
    requires
        n <= effects.len(),
    ensures
        effects_known(registry, effects, n as int) ==> skills::effects_problem(
            registry,
            effects,
            n,
        ) is None,
        forall|i: int|
            0 <= i < n && effects_known(registry, effects, i) && !registry.effects.contains(
                (#[trigger] effects[i]).option,
            ) ==> skills::effects_problem(registry, effects, n) == Some(
                unknown("unknown effect option: "@, effects[i].option),
            ),
        forall|i: int|
            0 <= i < n && effects_known(registry, effects, i) && registry.effects.contains(
                (#[trigger] effects[i]).option,
            ) && !registry.targets.contains(effects[i].target) ==> skills::effects_problem(
                registry,
                effects,
                n,
            ) == Some(unknown("unknown target option: "@, effects[i].target)),
    decreases n,
{
    if n > 0 {
        lemma_effects(registry, effects, (n - 1) as nat);
    }
}

/// What is wrong with a definition: first its kind, then its trigger, then the first of its
/// conditions and then the first of its effects that is not in the vocabulary, of an effect its
/// option before its target. Nothing is wrong if all are.
pub proof fn law_what_is_wrong_with_a_definition(registry: RegistryView, skill: SkillView)
    ensures
        ({
            let problem = skills::definition_problem(registry, skill);
            let conditions = skill.conditions;
            let effects = skill.effects;
            if !registry.implementation_kinds.contains(skill.implementation_kind) {
                problem == Some("unknown implementation kind: "@ + skill.implementation_kind)
            } else if !registry.triggers.contains(skill.trigger) {
                problem == Some(unknown("unknown trigger option: "@, skill.trigger))
            } else {
                &&& forall|i: int|
                    0 <= i < conditions.len() && conditions_known(registry, conditions, i)
                        && !registry.conditions.contains((#[trigger] conditions[i]).option)
                        ==> problem == Some(
                        unknown("unknown condition option: "@, conditions[i].option),
                    )
                &&& conditions_known(registry, conditions, conditions.len() as int) ==> {
                    &&& forall|i: int|
                        0 <= i < effects.len() && effects_known(registry, effects, i)
                            && !registry.effects.contains((#[trigger] effects[i]).option)
                            ==> problem == Some(
                            unknown("unknown effect option: "@, effects[i].option),
                        )
                    &&& forall|i: int|
                        0 <= i < effects.len() && effects_known(registry, effects, i)
                            && registry.effects.contains((#[trigger] effects[i]).option)
                            && !registry.targets.contains(effects[i].target) ==> problem == Some(
                            unknown("unknown target option: "@, effects[i].target),
                        )
                    &&& effects_known(registry, effects, effects.len() as int) ==> problem is None
                }
            }
        }),
{
    lemma_conditions(registry, skill.conditions, skill.conditions.len());
    lemma_effects(registry, skill.effects, skill.effects.len());
}

/// Whether nothing is wrong with the first `n` definitions.
pub open spec fn definitions_right(registry: RegistryView, list: Seq<SkillView>, n: int) -> bool {
    forall|i: int| 0 <= i < n ==> skills::definition_problem(registry, #[trigger] list[i]) is None
}

proof fn lemma_definitions(registry: RegistryView, list: Seq<SkillView>, n: nat)
    requires
        n <= list.len(),
    ensures
        definitions_right(registry, list, n as int) ==> skills::definitions_problem(
            registry,
            list,
            n,
        ) is None,
        forall|i: int|
            0 <= i < n && definitions_right(registry, list, i) && skills::definition_problem(
                registry,
                #[trigger] list[i],
            ) is Some ==> skills::definitions_problem(registry, list, n)
                == skills::definition_problem(registry, list[i]),
    decreases n,
{
    if n > 0 {
        lemma_definitions(registry, list, (n - 1) as nat);
    }
}

/// The skills that a request brings along: the registry under `skill_registry_v2` and the
/// definitions under `skill_definitions_v2`, each left out if it is missing or cannot be read. The
/// definitions are held to that registry, or else to the built-in one; the first with which
/// something is wrong is why they are refused.
pub proof fn law_which_skills_are_accepted(board_state: JsonView)
    ensures
        ({
            let registry = match board_state.member("skill_registry_v2"@) {
                Some(value) => skills::read_registry(value),
                None => None,
            };
            let list = match board_state.member("skill_definitions_v2"@) {
                Some(value) => match skills::read_document(value) {
                    Some(list) => list,
                    None => Seq::empty(),
                },
                None => Seq::empty(),
            };
            let vocabulary = if registry is Some {
                registry.unwrap()
            } else {
                skills::builtin_registry()
            };
            let read = rules::skills_of(board_state);
            &&& definitions_right(vocabulary, list, list.len() as int) ==> read is Ok
                && read->Ok_0.registry == registry && read->Ok_0.definitions == list
            &&& forall|i: int|
                0 <= i < list.len() && definitions_right(vocabulary, list, i)
                    && skills::definition_problem(vocabulary, #[trigger] list[i]) is Some
                    ==> read is Err && Some(read->Err_0) == skills::definition_problem(
                    vocabulary,
                    list[i],
                )
        }),
{
    let registry = rules::registry_in(board_state);
    let list = rules::definitions_in(board_state);
    let vocabulary = if registry is Some {
        registry.unwrap()
    } else {
        skills::builtin_registry()
    };
    lemma_definitions(vocabulary, list, list.len());
}

} // verus!
