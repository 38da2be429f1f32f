//! Skill definitions: the vocabulary they are written in, how they are read, and what makes them
//! valid.

use crate::config;
use crate::json;
use crate::json::{JsonValue, JsonView};
use crate::text::same;
use crate::types;
use vstd::prelude::*;
use vstd::string::StringExecFns;

verus! {

// ---------------------------------------------------------------------------
// Definitions
// ---------------------------------------------------------------------------

/// Where a definition was taken from.
#[derive(Debug)]
pub struct SkillSource {
    pub skill_text: String,
    pub source_kind: String,
    pub source_file: String,
    pub source_function: String,
}

#[derive(Debug)]
pub struct SkillClassification {
    pub implementation_kind: String,
    pub tags: Vec<String>,
}

/// What sets a skill off.
#[derive(Debug)]
pub struct SkillTrigger {
    pub group: String,
    pub type_code: String,
}

/// What must hold for a skill to work.
#[derive(Debug)]
pub struct SkillCondition {
    pub group: String,
    pub type_code: String,
    pub params: JsonValue,
}

/// What an effect works on.
#[derive(Debug)]
pub struct SkillTarget {
    pub group: String,
    pub selector: String,
}

#[derive(Debug)]
pub struct SkillEffect {
    pub order: u32,
    pub group: String,
    pub type_code: String,
    pub target: SkillTarget,
    pub params: JsonValue,
}

/// A skill of the pieces that bear one of `piece_chars`.
#[derive(Debug)]
pub struct SkillDefinition {
    pub skill_id: u64,
    pub piece_chars: Vec<String>,
    pub source: SkillSource,
    pub classification: SkillClassification,
    pub trigger: SkillTrigger,
    pub conditions: Vec<SkillCondition>,
    pub effects: Vec<SkillEffect>,
    pub script_hook: Option<String>,
}

#[derive(Debug)]
pub struct SkillDefinitionDocument {
    pub definitions: Vec<SkillDefinition>,
}

/// A group of the vocabulary and an option of that group.
pub struct OptionView {
    pub group: Seq<char>,
    pub code: Seq<char>,
}

pub struct ConditionView {
    pub option: OptionView,
    pub params: JsonView,
}

pub struct EffectView {
    pub order: u32,
    pub option: OptionView,
    pub target: OptionView,
    pub params: JsonView,
}

pub struct SourceView {
    pub skill_text: Seq<char>,
    pub source_kind: Seq<char>,
    pub source_file: Seq<char>,
    pub source_function: Seq<char>,
}

/// The mathematical reading of a [`SkillDefinition`].
pub struct SkillView {
    pub skill_id: u64,
    pub piece_chars: Seq<Seq<char>>,
    pub source: SourceView,
    pub implementation_kind: Seq<char>,
    pub tags: Seq<Seq<char>>,
    pub trigger: OptionView,
    pub conditions: Seq<ConditionView>,
    pub effects: Seq<EffectView>,
    pub script_hook: Option<Seq<char>>,
}

/// The characters of each text of a list.
pub open spec fn texts(list: Seq<String>) -> Seq<Seq<char>> {
    list.map_values(|s: String| s@)
}

impl View for SkillSource {
    type V = SourceView;

    open spec fn view(&self) -> SourceView {
        SourceView {
            skill_text: self.skill_text@,
            source_kind: self.source_kind@,
            source_file: self.source_file@,
            source_function: self.source_function@,
        }
    }
}

impl View for SkillTrigger {
    type V = OptionView;

    open spec fn view(&self) -> OptionView {
        OptionView { group: self.group@, code: self.type_code@ }
    }
}

impl View for SkillTarget {
    type V = OptionView;

    open spec fn view(&self) -> OptionView {
        OptionView { group: self.group@, code: self.selector@ }
    }
}

impl View for SkillCondition {
    type V = ConditionView;

    open spec fn view(&self) -> ConditionView {
        ConditionView {
            option: OptionView { group: self.group@, code: self.type_code@ },
            params: self.params@,
        }
    }
}

impl View for SkillEffect {
    type V = EffectView;

    open spec fn view(&self) -> EffectView {
        EffectView {
            order: self.order,
            option: OptionView { group: self.group@, code: self.type_code@ },
            target: self.target@,
            params: self.params@,
        }
    }
}

impl View for SkillDefinition {
    type V = SkillView;

    open spec fn view(&self) -> SkillView {
        SkillView {
            skill_id: self.skill_id,
            piece_chars: texts(self.piece_chars@),
            source: self.source@,
            implementation_kind: self.classification.implementation_kind@,
            tags: texts(self.classification.tags@),
            trigger: self.trigger@,
            conditions: self.conditions@.map_values(|c: SkillCondition| c@),
            effects: self.effects@.map_values(|e: SkillEffect| e@),
            script_hook: types::text_of(self.script_hook),
        }
    }
}

/// The views of a list of definitions.
pub open spec fn skill_views(definitions: Seq<SkillDefinition>) -> Seq<SkillView> {
    definitions.map_values(|d: SkillDefinition| d@)
}

// ---------------------------------------------------------------------------
// Reading definitions
// ---------------------------------------------------------------------------

/// All values of a list, read in the same way; nothing if one of them cannot be read.
pub open spec fn read_all<T>(items: Seq<JsonView>, read: spec_fn(JsonView) -> Option<T>) -> Option<
    Seq<T>,
> {
    if forall|i: int| 0 <= i < items.len() ==> read(#[trigger] items[i]) is Some {
        Some(items.map_values(|item: JsonView| read(item).unwrap()))
    } else {
        None
    }
}

pub open spec fn read_text(value: JsonView) -> Option<Seq<char>> {
    match value {
        JsonView::Text(s) => Some(s),
        _ => None,
    }
}

/// A list of texts.
pub open spec fn read_texts(list: Option<Seq<JsonView>>) -> Option<Seq<Seq<char>>> {
    match list {
        Some(items) => read_all(items, |item: JsonView| read_text(item)),
        None => None,
    }
}

/// A group and an option of that group, the latter under the name given.
pub open spec fn read_option(value: JsonView, name: Seq<char>) -> Option<OptionView> {
    match (value.text_member("group"@), value.text_member(name)) {
        (Some(group), Some(code)) => Some(OptionView { group, code }),
        _ => None,
    }
}

/// The parameters of a condition or an effect; they may be left out.
pub open spec fn read_params(value: JsonView) -> JsonView {
    match value.member("params"@) {
        Some(params) => params,
        None => JsonView::Null,
    }
}

pub open spec fn read_source(value: JsonView) -> Option<SourceView> {
    match (
        value.text_member("skillText"@),
        value.text_member("sourceKind"@),
        value.text_member("sourceFile"@),
        value.text_member("sourceFunction"@),
    ) {
        (Some(skill_text), Some(source_kind), Some(source_file), Some(source_function)) => Some(
            SourceView { skill_text, source_kind, source_file, source_function },
        ),
        _ => None,
    }
}

pub open spec fn read_condition(value: JsonView) -> Option<ConditionView> {
    match read_option(value, "type"@) {
        Some(option) => Some(ConditionView { option, params: read_params(value) }),
        None => None,
    }
}

pub open spec fn read_effect(value: JsonView) -> Option<EffectView> {
    match (value.int_member("order"@), read_option(value, "type"@), value.member("target"@)) {
        (Some(order), Some(option), Some(target)) => match read_option(target, "selector"@) {
            Some(target) => if 0 <= order <= u32::MAX {
                Some(EffectView { order: order as u32, option, target, params: read_params(value) })
            } else {
                None
            },
            None => None,
        },
        _ => None,
    }
}

pub open spec fn read_conditions(list: Option<Seq<JsonView>>) -> Option<Seq<ConditionView>> {
    match list {
        Some(items) => read_all(items, |item: JsonView| read_condition(item)),
        None => None,
    }
}

pub open spec fn read_effects(list: Option<Seq<JsonView>>) -> Option<Seq<EffectView>> {
    match list {
        Some(items) => read_all(items, |item: JsonView| read_effect(item)),
        None => None,
    }
}

/// A whole number from zero up.
pub open spec fn read_id(value: Option<JsonView>) -> Option<u64> {
    match value {
        Some(JsonView::Int(n)) => if n >= 0 {
            Some(n as u64)
        } else {
            None
        },
        Some(JsonView::Large(n)) => Some(n),
        _ => None,
    }
}

/// The name of a script hook: a text, or none if it is left out or null. Anything else cannot be
/// read.
pub open spec fn read_hook(value: Option<JsonView>) -> Option<Option<Seq<char>>> {
    match value {
        None | Some(JsonView::Null) => Some(None),
        Some(JsonView::Text(s)) => Some(Some(s)),
        _ => None,
    }
}

pub open spec fn read_definition(value: JsonView) -> Option<SkillView> {
    match (
        value.member("source"@),
        value.member("classification"@),
        value.member("trigger"@),
    ) {
        (Some(source), Some(classification), Some(trigger)) => match (
            read_id(value.member("skillId"@)),
            read_texts(value.list_member("pieceChars"@)),
            read_source(source),
            classification.text_member("implementationKind"@),
            read_texts(classification.list_member("tags"@)),
            read_option(trigger, "type"@),
            read_conditions(value.list_member("conditions"@)),
            read_effects(value.list_member("effects"@)),
            read_hook(value.member("scriptHook"@)),
        ) {
            (
                Some(skill_id),
                Some(piece_chars),
                Some(source),
                Some(implementation_kind),
                Some(tags),
                Some(trigger),
                Some(conditions),
                Some(effects),
                Some(script_hook),
            ) => Some(
                SkillView {
                    skill_id,
                    piece_chars,
                    source,
                    implementation_kind,
                    tags,
                    trigger,
                    conditions,
                    effects,
                    script_hook,
                },
            ),
            _ => None,
        },
        _ => None,
    }
}

/// The definitions of a document: a list of them, or an object that holds the list.
pub open spec fn read_document(value: JsonView) -> Option<Seq<SkillView>> {
    let list = match value {
        JsonView::List(items) => Some(items),
        _ => value.list_member("definitions"@),
    };
    match list {
        Some(items) => read_all(items, |item: JsonView| read_definition(item)),
        None => None,
    }
}

proof fn lemma_all_read<T>(
    items: Seq<JsonView>,
    read: spec_fn(JsonView) -> Option<T>,
    found: Seq<T>,
)
    requires
        found.len() == items.len(),
        forall|j: int| 0 <= j < items.len() ==> read(#[trigger] items[j]) == Some(found[j]),
    ensures
        read_all(items, read) == Some(found),
{
    assert(items.map_values(|item: JsonView| read(item).unwrap()) =~= found);
}

fn texts_of(items: &Vec<JsonValue>) -> (list: Option<Vec<String>>)
    ensures
        match list {
            Some(list) => read_texts(Some(json::views(items@))) == Some(texts(list@)),
            None => read_texts(Some(json::views(items@))) is None,
        },
{
    let ghost views = json::views(items@);
    let mut list: Vec<String> = Vec::new();
    for i in 0..items.len()
        invariant
            views == json::views(items@),
            list@.len() == i,
            forall|j: int| 0 <= j < i ==> read_text(#[trigger] views[j]) == Some(list@[j]@),
    {
        match &items[i] {
            JsonValue::Text(s) => {
                list.push(s.clone());
            },
            _ => {
                assert(read_text(views[i as int]) is None);
                return None;
            },
        }
    }
    proof {
        lemma_all_read(views, |item: JsonView| read_text(item), texts(list@));
    }
    Some(list)
}

/// What an option holds, by its view.
pub open spec fn seen<T: View>(value: Option<T>) -> Option<T::V> {
    match value {
        Some(value) => Some(value@),
        None => None,
    }
}

fn option_of(value: &JsonValue, name: &str) -> (pair: Option<(String, String)>)
    ensures
        match pair {
            Some(pair) => read_option(value@, name@) == Some(
                OptionView { group: pair.0@, code: pair.1@ },
            ),
            None => read_option(value@, name@) is None,
        },
{
    match (value.get_text("group"), value.get_text(name)) {
        (Some(group), Some(code)) => Some((group.clone(), code.clone())),
        _ => None,
    }
}

fn params_of(value: &JsonValue) -> (params: JsonValue)
    ensures
        params@ == read_params(value@),
{
    match value.get("params") {
        Some(params) => params.copy(),
        None => JsonValue::Null,
    }
}

fn source_of(value: &JsonValue) -> (source: Option<SkillSource>)
    ensures
        seen(source) == read_source(value@),
{
    match (
        value.get_text("skillText"),
        value.get_text("sourceKind"),
        value.get_text("sourceFile"),
        value.get_text("sourceFunction"),
    ) {
        (Some(skill_text), Some(source_kind), Some(source_file), Some(source_function)) => Some(
            SkillSource {
                skill_text: skill_text.clone(),
                source_kind: source_kind.clone(),
                source_file: source_file.clone(),
                source_function: source_function.clone(),
            },
        ),
        _ => None,
    }
}

fn condition_of(value: &JsonValue) -> (condition: Option<SkillCondition>)
    ensures
        seen(condition) == read_condition(value@),
{
    match option_of(value, "type") {
        Some((group, type_code)) => Some(
            SkillCondition { group, type_code, params: params_of(value) },
        ),
        None => None,
    }
}

fn effect_of(value: &JsonValue) -> (effect: Option<SkillEffect>)
    ensures
        seen(effect) == read_effect(value@),
{
    match (value.get_int("order"), option_of(value, "type"), value.get("target")) {
        (Some(order), Some((group, type_code)), Some(target)) => match option_of(
            target,
            "selector",
        ) {
            Some((target_group, selector)) => if 0 <= order && order <= u32::MAX as i64 {
                Some(
                    SkillEffect {
                        order: order as u32,
                        group,
                        type_code,
                        target: SkillTarget { group: target_group, selector },
                        params: params_of(value),
                    },
                )
            } else {
                None
            },
            None => None,
        },
        _ => None,
    }
}

fn conditions_of(items: &Vec<JsonValue>) -> (list: Option<Vec<SkillCondition>>)
    ensures
        match list {
            Some(list) => read_conditions(Some(json::views(items@))) == Some(
                list@.map_values(|c: SkillCondition| c@),
            ),
            None => read_conditions(Some(json::views(items@))) is None,
        },
{
    let ghost views = json::views(items@);
    let mut list: Vec<SkillCondition> = Vec::new();
    for i in 0..items.len()
        invariant
            views == json::views(items@),
            list@.len() == i,
            forall|j: int| 0 <= j < i ==> read_condition(#[trigger] views[j]) == Some(list@[j]@),
    {
        match condition_of(&items[i]) {
            Some(condition) => {
                list.push(condition);
            },
            None => {
                assert(read_condition(views[i as int]) is None);
                return None;
            },
        }
    }
    proof {
        lemma_all_read(
            views,
            |item: JsonView| read_condition(item),
            list@.map_values(|c: SkillCondition| c@),
        );
    }
    Some(list)
}

fn effects_of(items: &Vec<JsonValue>) -> (list: Option<Vec<SkillEffect>>)
    ensures
        match list {
            Some(list) => read_effects(Some(json::views(items@))) == Some(
                list@.map_values(|e: SkillEffect| e@),
            ),
            None => read_effects(Some(json::views(items@))) is None,
        },
{
    let ghost views = json::views(items@);
    let mut list: Vec<SkillEffect> = Vec::new();
    for i in 0..items.len()
        invariant
            views == json::views(items@),
            list@.len() == i,
            forall|j: int| 0 <= j < i ==> read_effect(#[trigger] views[j]) == Some(list@[j]@),
    {
        match effect_of(&items[i]) {
            Some(effect) => {
                list.push(effect);
            },
            None => {
                assert(read_effect(views[i as int]) is None);
                return None;
            },
        }
    }
    proof {
        lemma_all_read(
            views,
            |item: JsonView| read_effect(item),
            list@.map_values(|e: SkillEffect| e@),
        );
    }
    Some(list)
}

fn id_of(value: Option<&JsonValue>) -> (id: Option<u64>)
    ensures
        id == read_id(json::view_of(value)),
{
    match value {
        Some(JsonValue::Int(n)) => if *n >= 0 {
            Some(*n as u64)
        } else {
            None
        },
        Some(JsonValue::Large(n)) => Some(*n),
        _ => None,
    }
}

fn hook_of(value: Option<&JsonValue>) -> (hook: Option<Option<String>>)
    ensures
        match hook {
            Some(hook) => read_hook(json::view_of(value)) == Some(types::text_of(hook)),
            None => read_hook(json::view_of(value)) is None,
        },
{
    match value {
        None => Some(None),
        Some(JsonValue::Null) => Some(None),
        Some(JsonValue::Text(s)) => Some(Some(s.clone())),
        _ => None,
    }
}

fn classification_of(value: &JsonValue) -> (classification: Option<SkillClassification>)
    ensures
        match classification {
            Some(c) => {
                &&& value@.text_member("implementationKind"@) == Some(c.implementation_kind@)
                &&& read_texts(value@.list_member("tags"@)) == Some(texts(c.tags@))
            },
            None => value@.text_member("implementationKind"@) is None || read_texts(
                value@.list_member("tags"@),
            ) is None,
        },
{
    match (value.get_text("implementationKind"), value.get_list("tags")) {
        (Some(kind), Some(tags)) => match texts_of(tags) {
            Some(tags) => Some(SkillClassification { implementation_kind: kind.clone(), tags }),
            None => None,
        },
        _ => None,
    }
}

fn definition_of(value: &JsonValue) -> (definition: Option<SkillDefinition>)
    ensures
        seen(definition) == read_definition(value@),
{
    let skill_id = match id_of(value.get("skillId")) {
        Some(id) => id,
        None => {
            return None;
        },
    };
    let (chars, conditions, effects) = match (
        value.get_list("pieceChars"),
        value.get_list("conditions"),
        value.get_list("effects"),
    ) {
        (Some(chars), Some(conditions), Some(effects)) => (chars, conditions, effects),
        _ => {
            return None;
        },
    };
    let (source, classification, trigger) = match (
        value.get("source"),
        value.get("classification"),
        value.get("trigger"),
    ) {
        (Some(source), Some(classification), Some(trigger)) => (source, classification, trigger),
        _ => {
            return None;
        },
    };
    let hook = match hook_of(value.get("scriptHook")) {
        Some(hook) => hook,
        None => {
            return None;
        },
    };
    match (
        texts_of(chars),
        source_of(source),
        classification_of(classification),
        option_of(trigger, "type"),
        conditions_of(conditions),
        effects_of(effects),
    ) {
        (
            Some(piece_chars),
            Some(source),
            Some(classification),
            Some((group, type_code)),
            Some(conditions),
            Some(effects),
        ) => Some(
            SkillDefinition {
                skill_id,
                piece_chars,
                source,
                classification,
                trigger: SkillTrigger { group, type_code },
                conditions,
                effects,
                script_hook: hook,
            },
        ),
        _ => None,
    }
}

fn definitions_of(items: &Vec<JsonValue>) -> (list: Option<Vec<SkillDefinition>>)
    ensures
        match list {
            Some(list) => read_all(json::views(items@), |item: JsonView| read_definition(item))
                == Some(skill_views(list@)),
            None => read_all(json::views(items@), |item: JsonView| read_definition(item)) is None,
        },
{
    let ghost views = json::views(items@);
    let mut list: Vec<SkillDefinition> = Vec::new();
    for i in 0..items.len()
        invariant
            views == json::views(items@),
            list@.len() == i,
            forall|j: int| 0 <= j < i ==> read_definition(#[trigger] views[j]) == Some(list@[j]@),
    {
        match definition_of(&items[i]) {
            Some(definition) => {
                list.push(definition);
            },
            None => {
                assert(read_definition(views[i as int]) is None);
                return None;
            },
        }
    }
    proof {
        lemma_all_read(views, |item: JsonView| read_definition(item), skill_views(list@));
    }
    Some(list)
}

/// Reads the definitions of a document.
pub(crate) fn document_of(doc: &JsonValue) -> (list: Option<Vec<SkillDefinition>>)
    ensures
        match list {
            Some(list) => read_document(doc@) == Some(skill_views(list@)),
            None => read_document(doc@) is None,
        },
{
    match doc {
        JsonValue::List(items) => {
            proof {
                json::lemma_list_view(*items);
            }
            definitions_of(items)
        },
        _ => match doc.get_list("definitions") {
            Some(items) => definitions_of(items),
            None => None,
        },
    }
}

/// Reads the definitions of a document.
pub fn parse_skill_definition_document_value(doc: JsonValue) -> (result: Result<
    SkillDefinitionDocument,
    String,
>)
    ensures
        match read_document(doc@) {
            Some(skills) => result matches Ok(document) && skill_views(document.definitions@)
                == skills,
            None => result matches Err(e) && e@ == "malformed skill definitions"@,
        },
{
    match document_of(&doc) {
        Some(definitions) => Ok(SkillDefinitionDocument { definitions }),
        None => Err("malformed skill definitions".to_string()),
    }
}

// ---------------------------------------------------------------------------
// The vocabulary
// ---------------------------------------------------------------------------

/// A kind of implementation.
#[derive(Debug)]
pub struct SkillKind {
    pub code: String,
}

/// An option of a group.
#[derive(Debug)]
pub struct SkillOption {
    pub group: String,
    pub code: String,
}

/// The vocabulary in which definitions are written.
#[derive(Debug)]
pub struct SkillRegistry {
    pub version: String,
    pub implementation_kinds: Vec<SkillKind>,
    pub triggers: Vec<SkillOption>,
    pub conditions: Vec<SkillOption>,
    pub effects: Vec<SkillOption>,
    pub targets: Vec<SkillOption>,
}

/// The mathematical reading of a [`SkillRegistry`].
pub struct RegistryView {
    pub version: Seq<char>,
    pub implementation_kinds: Seq<Seq<char>>,
    pub triggers: Seq<OptionView>,
    pub conditions: Seq<OptionView>,
    pub effects: Seq<OptionView>,
    pub targets: Seq<OptionView>,
}

impl View for SkillOption {
    type V = OptionView;

    open spec fn view(&self) -> OptionView {
        OptionView { group: self.group@, code: self.code@ }
    }
}

/// The views of a list of options.
pub open spec fn option_views(list: Seq<SkillOption>) -> Seq<OptionView> {
    list.map_values(|o: SkillOption| o@)
}

/// The codes of a list of kinds.
pub open spec fn kind_codes(list: Seq<SkillKind>) -> Seq<Seq<char>> {
    list.map_values(|k: SkillKind| k.code@)
}

impl View for SkillRegistry {
    type V = RegistryView;

    open spec fn view(&self) -> RegistryView {
        RegistryView {
            version: self.version@,
            implementation_kinds: kind_codes(self.implementation_kinds@),
            triggers: option_views(self.triggers@),
            conditions: option_views(self.conditions@),
            effects: option_views(self.effects@),
            targets: option_views(self.targets@),
        }
    }
}

pub open spec fn option(group: Seq<char>, code: Seq<char>) -> OptionView {
    OptionView { group, code }
}

/// The kinds of implementation: a single effect, several, or a named script.
pub open spec fn builtin_kinds() -> Seq<Seq<char>> {
    seq!["primitive"@, "composite"@, "script_hook"@]
}

/// What can set a skill off.
pub open spec fn builtin_triggers() -> Seq<OptionView> {
    seq![
        option("event_move"@, "after_move"@),
        option("event_capture"@, "after_capture"@),
        option("event_turn"@, "turn_start"@),
        option("continuous"@, "continuous_aura"@),
        option("continuous"@, "continuous_rule"@),
    ]
}

/// What a skill can depend on.
pub open spec fn builtin_conditions() -> Seq<OptionView> {
    seq![
        option("probability"@, "chance_roll"@),
        option("board"@, "target_exists"@),
    ]
}

/// What a skill can do.
pub open spec fn builtin_effects() -> Seq<OptionView> {
    seq![
        option("piece_position"@, "forced_move"@),
        option("piece_state"@, "apply_status"@),
        option("piece_state"@, "disable_piece"@),
        option("piece_state"@, "seal_skill"@),
        option("piece_state"@, "defense_or_immunity"@),
        option("piece_generation"@, "summon_piece"@),
        option("piece_generation"@, "transform_piece"@),
        option("piece_generation"@, "revive"@),
        option("piece_generation"@, "substitute"@),
        option("piece_removal"@, "remove_piece"@),
        option("hand"@, "gain_piece"@),
        option("hand"@, "destroy_hand_piece"@),
        option("hand"@, "send_to_hand"@),
        option("hand"@, "return_to_hand"@),
        option("movement"@, "modify_movement"@),
        option("capture"@, "capture_constraint"@),
        option("capture"@, "capture_with_leap"@),
        option("capture"@, "multi_capture"@),
        option("action_economy"@, "extra_action"@),
        option("action_economy"@, "linked_action"@),
        option("ability"@, "copy_ability"@),
        option("ability"@, "inherit_ability"@),
        option("board"@, "board_hazard"@),
    ]
}

/// What an effect can work on.
pub open spec fn builtin_targets() -> Seq<OptionView> {
    seq![
        option("self"@, "self_piece"@),
        option("adjacent"@, "adjacent_enemy"@),
        option("adjacent"@, "adjacent_ally"@),
        option("adjacent"@, "adjacent_empty"@),
        option("line"@, "same_row_ally"@),
        option("line"@, "front_enemy"@),
        option("global"@, "all_ally"@),
        option("cell"@, "origin_cell"@),
        option("hand"@, "enemy_hand_random"@),
        option("hand"@, "ally_hand_piece"@),
    ]
}

/// The vocabulary that comes with the engine.
pub open spec fn builtin_registry() -> RegistryView {
    RegistryView {
        version: "skill-registry-v2-draft"@,
        implementation_kinds: builtin_kinds(),
        triggers: builtin_triggers(),
        conditions: builtin_conditions(),
        effects: builtin_effects(),
        targets: builtin_targets(),
    }
}

fn known(group: &str, code: &str) -> (entry: SkillOption)
    ensures
        entry@ == option(group@, code@),
{
    SkillOption { group: group.to_string(), code: code.to_string() }
}

fn known_kind(code: &str) -> (kind: SkillKind)
    ensures
        kind.code@ == code@,
{
    SkillKind { code: code.to_string() }
}

fn kinds() -> (list: Vec<SkillKind>)
    ensures
        kind_codes(list@) == builtin_kinds(),
{
    let list = vec![known_kind("primitive"), known_kind("composite"), known_kind("script_hook")];
    assert(kind_codes(list@) =~= builtin_kinds());
    list
}

fn triggers() -> (list: Vec<SkillOption>)
    ensures
        option_views(list@) == builtin_triggers(),
{
    let list = vec![
        known("event_move", "after_move"),
        known("event_capture", "after_capture"),
        known("event_turn", "turn_start"),
        known("continuous", "continuous_aura"),
        known("continuous", "continuous_rule"),
    ];
    assert(option_views(list@) =~= builtin_triggers());
    list
}

fn conditions() -> (list: Vec<SkillOption>)
    ensures
        option_views(list@) == builtin_conditions(),
{
    let list = vec![
        known("probability", "chance_roll"),
        known("board", "target_exists"),
    ];
    assert(option_views(list@) =~= builtin_conditions());
    list
}

fn effects() -> (list: Vec<SkillOption>)
    ensures
        option_views(list@) == builtin_effects(),
{
    let list = vec![
        known("piece_position", "forced_move"),
        known("piece_state", "apply_status"),
        known("piece_state", "disable_piece"),
        known("piece_state", "seal_skill"),
        known("piece_state", "defense_or_immunity"),
        known("piece_generation", "summon_piece"),
        known("piece_generation", "transform_piece"),
        known("piece_generation", "revive"),
        known("piece_generation", "substitute"),
        known("piece_removal", "remove_piece"),
        known("hand", "gain_piece"),
        known("hand", "destroy_hand_piece"),
        known("hand", "send_to_hand"),
        known("hand", "return_to_hand"),
        known("movement", "modify_movement"),
        known("capture", "capture_constraint"),
        known("capture", "capture_with_leap"),
        known("capture", "multi_capture"),
        known("action_economy", "extra_action"),
        known("action_economy", "linked_action"),
        known("ability", "copy_ability"),
        known("ability", "inherit_ability"),
        known("board", "board_hazard"),
    ];
    assert(option_views(list@) =~= builtin_effects());
    list
}

fn targets() -> (list: Vec<SkillOption>)
    ensures
        option_views(list@) == builtin_targets(),
{
    let list = vec![
        known("self", "self_piece"),
        known("adjacent", "adjacent_enemy"),
        known("adjacent", "adjacent_ally"),
        known("adjacent", "adjacent_empty"),
        known("line", "same_row_ally"),
        known("line", "front_enemy"),
        known("global", "all_ally"),
        known("cell", "origin_cell"),
        known("hand", "enemy_hand_random"),
        known("hand", "ally_hand_piece"),
    ];
    assert(option_views(list@) =~= builtin_targets());
    list
}

pub fn builtin_skill_registry() -> (registry: SkillRegistry)
    ensures
        registry@ == builtin_registry(),
{
    SkillRegistry {
        version: "skill-registry-v2-draft".to_string(),
        implementation_kinds: kinds(),
        triggers: triggers(),
        conditions: conditions(),
        effects: effects(),
        targets: targets(),
    }
}

/// A kind of implementation, as a registry lists it.
pub open spec fn read_kind(value: JsonView) -> Option<Seq<char>> {
    value.text_member("code"@)
}

/// A list of options, each under the name given.
pub open spec fn read_options(list: Option<Seq<JsonView>>, name: Seq<char>) -> Option<
    Seq<OptionView>,
> {
    match list {
        Some(items) => read_all(items, |item: JsonView| read_option(item, name)),
        None => None,
    }
}

/// A list of kinds of implementation.
pub open spec fn read_kinds(list: Option<Seq<JsonView>>) -> Option<Seq<Seq<char>>> {
    match list {
        Some(items) => read_all(items, |item: JsonView| read_kind(item)),
        None => None,
    }
}

pub open spec fn read_registry(value: JsonView) -> Option<RegistryView> {
    match (
        value.text_member("version"@),
        read_kinds(value.list_member("implementationKinds"@)),
        read_options(value.list_member("triggers"@), "type"@),
        read_options(value.list_member("conditions"@), "type"@),
        read_options(value.list_member("effects"@), "type"@),
        read_options(value.list_member("targets"@), "selector"@),
    ) {
        (
            Some(version),
            Some(implementation_kinds),
            Some(triggers),
            Some(conditions),
            Some(effects),
            Some(targets),
        ) => Some(
            RegistryView {
                version,
                implementation_kinds,
                triggers,
                conditions,
                effects,
                targets,
            },
        ),
        _ => None,
    }
}

fn kinds_of(items: &Vec<JsonValue>) -> (list: Option<Vec<SkillKind>>)
    ensures
        match list {
            Some(list) => read_kinds(Some(json::views(items@))) == Some(kind_codes(list@)),
            None => read_kinds(Some(json::views(items@))) is None,
        },
{
    let ghost views = json::views(items@);
    let mut list: Vec<SkillKind> = Vec::new();
    for i in 0..items.len()
        invariant
            views == json::views(items@),
            list@.len() == i,
            forall|j: int| 0 <= j < i ==> read_kind(#[trigger] views[j]) == Some(list@[j].code@),
    {
        match items[i].get_text("code") {
            Some(code) => {
                list.push(SkillKind { code: code.clone() });
            },
            None => {
                assert(read_kind(views[i as int]) is None);
                return None;
            },
        }
    }
    proof {
        lemma_all_read(views, |item: JsonView| read_kind(item), kind_codes(list@));
    }
    Some(list)
}

fn options_of(list: Option<&Vec<JsonValue>>, name: &str) -> (found: Option<Vec<SkillOption>>)
    ensures
        match (list, found) {
            (Some(items), Some(found)) => read_options(Some(json::views(items@)), name@) == Some(
                option_views(found@),
            ),
            (Some(items), None) => read_options(Some(json::views(items@)), name@) is None,
            (None, found) => found is None,
        },
{
    let items = match list {
        Some(items) => items,
        None => {
            return None;
        },
    };
    let ghost views = json::views(items@);
    let mut found: Vec<SkillOption> = Vec::new();
    for i in 0..items.len()
        invariant
            list == Some(items),
            views == json::views(items@),
            found@.len() == i,
            forall|j: int|
                0 <= j < i ==> read_option(#[trigger] views[j], name@) == Some(found@[j]@),
    {
        match option_of(&items[i], name) {
            Some((group, code)) => {
                found.push(SkillOption { group, code });
            },
            None => {
                assert(read_option(views[i as int], name@) is None);
                return None;
            },
        }
    }
    proof {
        lemma_all_read(views, |item: JsonView| read_option(item, name@), option_views(found@));
    }
    Some(found)
}

/// Reads a registry.
pub(crate) fn registry_of(value: &JsonValue) -> (registry: Option<SkillRegistry>)
    ensures
        seen(registry) == read_registry(value@),
{
    let (version, kinds) = match (
        value.get_text("version"),
        value.get_list("implementationKinds"),
    ) {
        (Some(version), Some(kinds)) => (version, kinds),
        _ => {
            return None;
        },
    };
    match (
        kinds_of(kinds),
        options_of(value.get_list("triggers"), "type"),
        options_of(value.get_list("conditions"), "type"),
        options_of(value.get_list("effects"), "type"),
        options_of(value.get_list("targets"), "selector"),
    ) {
        (
            Some(implementation_kinds),
            Some(triggers),
            Some(conditions),
            Some(effects),
            Some(targets),
        ) => Some(
            SkillRegistry {
                version: version.clone(),
                implementation_kinds,
                triggers,
                conditions,
                effects,
                targets,
            },
        ),
        _ => None,
    }
}

/// The skills of a request: the registry it brings, if any, and its definitions.
#[derive(Debug)]
pub struct SkillRuntime {
    pub registry: Option<SkillRegistry>,
    pub definitions: Vec<SkillDefinition>,
}

/// The mathematical reading of a [`SkillRuntime`].
pub struct SkillRuntimeView {
    pub registry: Option<RegistryView>,
    pub definitions: Seq<SkillView>,
}

impl View for SkillRuntime {
    type V = SkillRuntimeView;

    open spec fn view(&self) -> SkillRuntimeView {
        SkillRuntimeView {
            registry: seen(self.registry),
            definitions: skill_views(self.definitions@),
        }
    }
}

impl SkillRuntimeView {
    /// No skills.
    pub open spec fn none() -> SkillRuntimeView {
        SkillRuntimeView { registry: None, definitions: Seq::empty() }
    }
}

impl Default for SkillRuntime {
    fn default() -> (runtime: Self)
        ensures
            runtime@ == SkillRuntimeView::none(),
    {
        let runtime = SkillRuntime { registry: None, definitions: Vec::new() };
        assert(runtime@.definitions =~= Seq::empty());
        runtime
    }
}

// ---------------------------------------------------------------------------
// Validity
// ---------------------------------------------------------------------------

/// The message about a group and option that the registry does not list.
pub open spec fn option_message(what: Seq<char>, found: OptionView) -> Seq<char> {
    what + found.group + "/"@ + found.code
}

/// The problem with an option, if the list does not hold it.
pub open spec fn option_problem(
    list: Seq<OptionView>,
    what: Seq<char>,
    found: OptionView,
) -> Option<Seq<char>> {
    if list.contains(found) {
        None
    } else {
        Some(option_message(what, found))
    }
}

/// The first problem with the first `n` conditions of a definition.
pub open spec fn conditions_problem(
    registry: RegistryView,
    conditions: Seq<ConditionView>,
    n: nat,
) -> Option<Seq<char>>
    decreases n,
{
    if n == 0 {
        None
    } else {
        config::first_of(
            conditions_problem(registry, conditions, (n - 1) as nat),
            option_problem(
                registry.conditions,
                "unknown condition option: "@,
                conditions[n - 1].option,
            ),
        )
    }
}

/// The problem with an effect: its option, or else its target.
pub open spec fn effect_problem(registry: RegistryView, effect: EffectView) -> Option<Seq<char>> {
    config::first_of(
        option_problem(registry.effects, "unknown effect option: "@, effect.option),
        option_problem(registry.targets, "unknown target option: "@, effect.target),
    )
}

/// The first problem with the first `n` effects of a definition.
pub open spec fn effects_problem(
    registry: RegistryView,
    effects: Seq<EffectView>,
    n: nat,
) -> Option<Seq<char>>
    decreases n,
{
    if n == 0 {
        None
    } else {
        config::first_of(
            effects_problem(registry, effects, (n - 1) as nat),
            effect_problem(registry, effects[n - 1]),
        )
    }
}

/// The first problem with a definition: its kind, its trigger, its conditions, its effects.
pub open spec fn definition_problem(registry: RegistryView, skill: SkillView) -> Option<Seq<char>> {
    config::first_of(
        if registry.implementation_kinds.contains(skill.implementation_kind) {
            None
        } else {
            Some("unknown implementation kind: "@ + skill.implementation_kind)
        },
        config::first_of(
            option_problem(registry.triggers, "unknown trigger option: "@, skill.trigger),
            config::first_of(
                conditions_problem(registry, skill.conditions, skill.conditions.len()),
                effects_problem(registry, skill.effects, skill.effects.len()),
            ),
        ),
    )
}

/// The first problem with the first `n` definitions.
pub open spec fn definitions_problem(
    registry: RegistryView,
    skills: Seq<SkillView>,
    n: nat,
) -> Option<Seq<char>>
    decreases n,
{
    if n == 0 {
        None
    } else {
        config::first_of(
            definitions_problem(registry, skills, (n - 1) as nat),
            definition_problem(registry, skills[n - 1]),
        )
    }
}

/// Whether a registry lists everything that a definition uses.
pub open spec fn conforms(registry: RegistryView, skill: SkillView) -> bool {
    &&& registry.implementation_kinds.contains(skill.implementation_kind)
    &&& registry.triggers.contains(skill.trigger)
    &&& forall|i: int|
        0 <= i < skill.conditions.len() ==> registry.conditions.contains(
            (#[trigger] skill.conditions[i]).option,
        )
    &&& forall|i: int|
        0 <= i < skill.effects.len() ==> registry.effects.contains(
            (#[trigger] skill.effects[i]).option,
        ) && registry.targets.contains(skill.effects[i].target)
}

fn check_option(
    list: &Vec<SkillOption>,
    what: &str,
    group: &String,
    code: &String,
) -> (result: Result<(), String>)
    ensures
        match option_problem(
            option_views(list@),
            what@,
            OptionView { group: group@, code: code@ },
        ) {
            Some(message) => result matches Err(e) && e@ == message,
            None => result is Ok,
        },
{
    let ghost wanted = OptionView { group: group@, code: code@ };
    for i in 0..list.len()
        invariant
            wanted == (OptionView { group: group@, code: code@ }),
            forall|j: int| 0 <= j < i ==> #[trigger] option_views(list@)[j] != wanted,
    {
        let entry = &list[i];
        if same(entry.group.as_str(), group.as_str()) && same(entry.code.as_str(), code.as_str()) {
            assert(option_views(list@)[i as int] == wanted);
            return Ok(());
        }
        assert(option_views(list@)[i as int] != wanted);
    }
    let mut message = what.to_string();
    message.append(group.as_str());
    message.append("/");
    message.append(code.as_str());
    Err(message)
}

fn check_kind(list: &Vec<SkillKind>, code: &String) -> (result: Result<(), String>)
    ensures
        if kind_codes(list@).contains(code@) {
            result is Ok
        } else {
            result matches Err(e) && e@ == "unknown implementation kind: "@ + code@
        },
{
    for i in 0..list.len()
        invariant
            forall|j: int| 0 <= j < i ==> #[trigger] kind_codes(list@)[j] != code@,
    {
        if same(list[i].code.as_str(), code.as_str()) {
            assert(kind_codes(list@)[i as int] == code@);
            return Ok(());
        }
    }
    let mut message = "unknown implementation kind: ".to_string();
    message.append(code.as_str());
    Err(message)
}

proof fn lemma_conditions_problem_stays(
    registry: RegistryView,
    conditions: Seq<ConditionView>,
    n: nat,
    m: nat,
)
    requires
        n <= m,
        conditions_problem(registry, conditions, n) is Some,
    ensures
        conditions_problem(registry, conditions, m) == conditions_problem(registry, conditions, n),
    decreases m,
{
    if n < m {
        lemma_conditions_problem_stays(registry, conditions, n, (m - 1) as nat);
    }
}

proof fn lemma_effects_problem_stays(
    registry: RegistryView,
    effects: Seq<EffectView>,
    n: nat,
    m: nat,
)
    requires
        n <= m,
        effects_problem(registry, effects, n) is Some,
    ensures
        effects_problem(registry, effects, m) == effects_problem(registry, effects, n),
    decreases m,
{
    if n < m {
        lemma_effects_problem_stays(registry, effects, n, (m - 1) as nat);
    }
}

proof fn lemma_definitions_problem_stays(
    registry: RegistryView,
    skills: Seq<SkillView>,
    n: nat,
    m: nat,
)
    requires
        n <= m,
        definitions_problem(registry, skills, n) is Some,
    ensures
        definitions_problem(registry, skills, m) == definitions_problem(registry, skills, n),
    decreases m,
{
    if n < m {
        lemma_definitions_problem_stays(registry, skills, n, (m - 1) as nat);
    }
}

fn check_conditions(registry: &SkillRegistry, list: &Vec<SkillCondition>) -> (result: Result<
    (),
    String,
>)
    ensures
        match conditions_problem(
            registry@,
            list@.map_values(|c: SkillCondition| c@),
            list@.len(),
        ) {
            Some(message) => result matches Err(e) && e@ == message,
            None => result is Ok,
        },
{
    let ghost views = list@.map_values(|c: SkillCondition| c@);
    for i in 0..list.len()
        invariant
            views == list@.map_values(|c: SkillCondition| c@),
            conditions_problem(registry@, views, i as nat) is None,
    {
        let condition = &list[i];
        assert(views[i as int] == condition@);
        match check_option(
            &registry.conditions,
            "unknown condition option: ",
            &condition.group,
            &condition.type_code,
        ) {
            Ok(_) => {},
            Err(e) => {
                proof {
                    lemma_conditions_problem_stays(registry@, views, (i + 1) as nat, list@.len());
                }
                return Err(e);
            },
        }
    }
    Ok(())
}

fn check_effects(registry: &SkillRegistry, list: &Vec<SkillEffect>) -> (result: Result<(), String>)
    ensures
        match effects_problem(registry@, list@.map_values(|x: SkillEffect| x@), list@.len()) {
            Some(message) => result matches Err(e) && e@ == message,
            None => result is Ok,
        },
{
    let ghost views = list@.map_values(|x: SkillEffect| x@);
    for i in 0..list.len()
        invariant
            views == list@.map_values(|x: SkillEffect| x@),
            effects_problem(registry@, views, i as nat) is None,
    {
        let effect = &list[i];
        assert(views[i as int] == effect@);
        match check_option(
            &registry.effects,
            "unknown effect option: ",
            &effect.group,
            &effect.type_code,
        ) {
            Ok(_) => {},
            Err(e) => {
                proof {
                    lemma_effects_problem_stays(registry@, views, (i + 1) as nat, list@.len());
                }
                return Err(e);
            },
        }
        match check_option(
            &registry.targets,
            "unknown target option: ",
            &effect.target.group,
            &effect.target.selector,
        ) {
            Ok(_) => {},
            Err(e) => {
                proof {
                    lemma_effects_problem_stays(registry@, views, (i + 1) as nat, list@.len());
                }
                return Err(e);
            },
        }
    }
    Ok(())
}

fn check_definition(registry: &SkillRegistry, definition: &SkillDefinition) -> (result: Result<
    (),
    String,
>)
    ensures
        match definition_problem(registry@, definition@) {
            Some(message) => result matches Err(e) && e@ == message,
            None => result is Ok,
        },
{
    match check_kind(
        &registry.implementation_kinds,
        &definition.classification.implementation_kind,
    ) {
        Ok(_) => {},
        Err(e) => {
            return Err(e);
        },
    }
    match check_option(
        &registry.triggers,
        "unknown trigger option: ",
        &definition.trigger.group,
        &definition.trigger.type_code,
    ) {
        Ok(_) => {},
        Err(e) => {
            return Err(e);
        },
    }
    match check_conditions(registry, &definition.conditions) {
        Ok(_) => {},
        Err(e) => {
            return Err(e);
        },
    }
    check_effects(registry, &definition.effects)
}

/// Checks that a registry lists everything that the definitions use.
pub fn validate_skill_definitions(
    registry: &SkillRegistry,
    definitions: &Vec<SkillDefinition>,
) -> (result: Result<(), String>)
    ensures
        match definitions_problem(registry@, skill_views(definitions@), definitions@.len()) {
            Some(message) => result matches Err(e) && e@ == message,
            None => result is Ok,
        },
{
    let ghost views = skill_views(definitions@);
    for i in 0..definitions.len()
        invariant
            views == skill_views(definitions@),
            definitions_problem(registry@, views, i as nat) is None,
    {
        assert(views[i as int] == definitions@[i as int]@);
        match check_definition(registry, &definitions[i]) {
            Ok(_) => {},
            Err(e) => {
                proof {
                    lemma_definitions_problem_stays(
                        registry@,
                        views,
                        (i + 1) as nat,
                        definitions@.len(),
                    );
                }
                return Err(e);
            },
        }
    }
    Ok(())
}

proof fn lemma_conditions_conform(
    registry: RegistryView,
    conditions: Seq<ConditionView>,
    n: nat,
)
    requires
        n <= conditions.len(),
    ensures
        conditions_problem(registry, conditions, n) is None <==> forall|i: int|
            0 <= i < n ==> registry.conditions.contains((#[trigger] conditions[i]).option),
    decreases n,
{
    if n > 0 {
        lemma_conditions_conform(registry, conditions, (n - 1) as nat);
    }
}

proof fn lemma_effects_conform(registry: RegistryView, effects: Seq<EffectView>, n: nat)
    requires
        n <= effects.len(),
    ensures
        effects_problem(registry, effects, n) is None <==> forall|i: int|
            0 <= i < n ==> registry.effects.contains((#[trigger] effects[i]).option)
                && registry.targets.contains(effects[i].target),
    decreases n,
{
    if n > 0 {
        lemma_effects_conform(registry, effects, (n - 1) as nat);
    }
}

proof fn lemma_definition_conforms(registry: RegistryView, skill: SkillView)
    ensures
        definition_problem(registry, skill) is None <==> conforms(registry, skill),
{
    lemma_conditions_conform(registry, skill.conditions, skill.conditions.len());
    lemma_effects_conform(registry, skill.effects, skill.effects.len());
}

proof fn lemma_definitions_conform(registry: RegistryView, skills: Seq<SkillView>, n: nat)
    requires
        n <= skills.len(),
    ensures
        definitions_problem(registry, skills, n) is None <==> forall|i: int|
            0 <= i < n ==> conforms(registry, #[trigger] skills[i]),
    decreases n,
{
    if n > 0 {
        lemma_definitions_conform(registry, skills, (n - 1) as nat);
        lemma_definition_conforms(registry, skills[n - 1]);
    }
}

/// Definitions are accepted exactly if the registry lists everything that each of them uses.
pub proof fn law_accepted_definitions_conform(registry: RegistryView, skills: Seq<SkillView>)
    ensures
        definitions_problem(registry, skills, skills.len()) is None <==> forall|i: int|
            0 <= i < skills.len() ==> conforms(registry, #[trigger] skills[i]),
{
    lemma_definitions_conform(registry, skills, skills.len());
}

} // verus!
