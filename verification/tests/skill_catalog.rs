//! The skill catalogue, read and checked by the library.

use shogi_ai::json::{JsonMember, JsonValue};
use shogi_ai::rules::parse_runtime_rules;
use shogi_ai::skills::{
    builtin_skill_registry, parse_skill_definition_document_value, validate_skill_definitions,
    SkillDefinition,
};
use shogi_ai::types::RuntimeRules;

/// The vocabulary in which the catalogue is written.
const REGISTRY: &str = r#"{
  "version": "skill-registry-v2-draft",
  "implementationKinds": [{"code": "primitive"}, {"code": "composite"}, {"code": "script_hook"}],
  "triggers": [{"group": "event_move", "type": "after_move"}, {"group": "event_capture", "type": "after_capture"}, {"group": "event_turn", "type": "turn_start"}, {"group": "continuous", "type": "continuous_aura"}, {"group": "continuous", "type": "continuous_rule"}],
  "conditions": [{"group": "probability", "type": "chance_roll"}, {"group": "board", "type": "target_exists"}],
  "effects": [{"group": "piece_position", "type": "forced_move"}, {"group": "piece_state", "type": "apply_status"}, {"group": "piece_state", "type": "disable_piece"}, {"group": "piece_state", "type": "seal_skill"}, {"group": "piece_state", "type": "defense_or_immunity"}, {"group": "piece_generation", "type": "summon_piece"}, {"group": "piece_generation", "type": "transform_piece"}, {"group": "piece_generation", "type": "revive"}, {"group": "piece_generation", "type": "substitute"}, {"group": "piece_removal", "type": "remove_piece"}, {"group": "hand", "type": "gain_piece"}, {"group": "hand", "type": "destroy_hand_piece"}, {"group": "hand", "type": "send_to_hand"}, {"group": "hand", "type": "return_to_hand"}, {"group": "movement", "type": "modify_movement"}, {"group": "capture", "type": "capture_constraint"}, {"group": "capture", "type": "capture_with_leap"}, {"group": "capture", "type": "multi_capture"}, {"group": "action_economy", "type": "extra_action"}, {"group": "action_economy", "type": "linked_action"}, {"group": "ability", "type": "copy_ability"}, {"group": "ability", "type": "inherit_ability"}, {"group": "board", "type": "board_hazard"}],
  "targets": [{"group": "self", "selector": "self_piece"}, {"group": "adjacent", "selector": "adjacent_enemy"}, {"group": "adjacent", "selector": "adjacent_ally"}, {"group": "adjacent", "selector": "adjacent_empty"}, {"group": "line", "selector": "same_row_ally"}, {"group": "line", "selector": "front_enemy"}, {"group": "global", "selector": "all_ally"}, {"group": "cell", "selector": "origin_cell"}, {"group": "hand", "selector": "enemy_hand_random"}, {"group": "hand", "selector": "ally_hand_piece"}]
}
"#;

/// The skills and the pieces that bear them.
const CATALOG: &str = r#"{"definitions":[
  {"skillId": 1, "pieceChars": ["砲"], "source": {"skillText": "cannon", "sourceKind": "manual", "sourceFile": "catalog", "sourceFunction": "cannon"}, "classification": {"implementationKind": "primitive", "tags": []}, "trigger": {"group": "event_capture", "type": "after_capture"}, "conditions": [], "effects": [{"order": 1, "group": "capture", "type": "capture_with_leap", "target": {"group": "self", "selector": "self_piece"}, "params": {}}], "scriptHook": null},
  {"skillId": 2, "pieceChars": ["竜"], "source": {"skillText": "dragon", "sourceKind": "manual", "sourceFile": "catalog", "sourceFunction": "dragon"}, "classification": {"implementationKind": "primitive", "tags": []}, "trigger": {"group": "continuous", "type": "continuous_rule"}, "conditions": [], "effects": [{"order": 1, "group": "piece_generation", "type": "transform_piece", "target": {"group": "self", "selector": "self_piece"}, "params": {"toPieceChar": "辰"}}], "scriptHook": null},
  {"skillId": 3, "pieceChars": ["炎"], "source": {"skillText": "flame", "sourceKind": "manual", "sourceFile": "catalog", "sourceFunction": "flame"}, "classification": {"implementationKind": "primitive", "tags": []}, "trigger": {"group": "continuous", "type": "continuous_aura"}, "conditions": [{"group": "board", "type": "target_exists", "params": {}}, {"group": "probability", "type": "chance_roll", "params": {"probability": 0.1}}], "effects": [{"order": 1, "group": "piece_removal", "type": "remove_piece", "target": {"group": "adjacent", "selector": "adjacent_enemy"}, "params": {}}], "scriptHook": null},
  {"skillId": 4, "pieceChars": ["火"], "source": {"skillText": "fire", "sourceKind": "manual", "sourceFile": "catalog", "sourceFunction": "fire"}, "classification": {"implementationKind": "primitive", "tags": []}, "trigger": {"group": "event_move", "type": "after_move"}, "conditions": [{"group": "probability", "type": "chance_roll", "params": {"probability": 0.2}}], "effects": [{"order": 1, "group": "hand", "type": "destroy_hand_piece", "target": {"group": "hand", "selector": "enemy_hand_random"}, "params": {}}], "scriptHook": null},
  {"skillId": 5, "pieceChars": ["水"], "source": {"skillText": "water", "sourceKind": "manual", "sourceFile": "catalog", "sourceFunction": "water"}, "classification": {"implementationKind": "primitive", "tags": []}, "trigger": {"group": "continuous", "type": "continuous_aura"}, "conditions": [{"group": "board", "type": "target_exists", "params": {}}], "effects": [{"order": 1, "group": "piece_position", "type": "forced_move", "target": {"group": "adjacent", "selector": "adjacent_enemy"}, "params": {"movementRule": "push_away"}}], "scriptHook": null},
  {"skillId": 6, "pieceChars": ["波"], "source": {"skillText": "wave", "sourceKind": "manual", "sourceFile": "catalog", "sourceFunction": "wave"}, "classification": {"implementationKind": "primitive", "tags": []}, "trigger": {"group": "continuous", "type": "continuous_aura"}, "conditions": [{"group": "board", "type": "target_exists", "params": {}}], "effects": [{"order": 1, "group": "piece_position", "type": "forced_move", "target": {"group": "adjacent", "selector": "adjacent_enemy"}, "params": {"movementRule": "push_away"}}], "scriptHook": null},
  {"skillId": 7, "pieceChars": ["木"], "source": {"skillText": "tree", "sourceKind": "manual", "sourceFile": "catalog", "sourceFunction": "tree"}, "classification": {"implementationKind": "primitive", "tags": []}, "trigger": {"group": "continuous", "type": "continuous_aura"}, "conditions": [{"group": "board", "type": "target_exists", "params": {}}], "effects": [{"order": 1, "group": "piece_generation", "type": "summon_piece", "target": {"group": "adjacent", "selector": "adjacent_empty"}, "params": {"summonPieceChar": "木"}}], "scriptHook": null},
  {"skillId": 8, "pieceChars": ["葉"], "source": {"skillText": "leaf", "sourceKind": "manual", "sourceFile": "catalog", "sourceFunction": "leaf"}, "classification": {"implementationKind": "primitive", "tags": []}, "trigger": {"group": "continuous", "type": "continuous_aura"}, "conditions": [{"group": "board", "type": "target_exists", "params": {}}, {"group": "probability", "type": "chance_roll", "params": {"probability": 0.1}}], "effects": [{"order": 1, "group": "piece_position", "type": "forced_move", "target": {"group": "adjacent", "selector": "adjacent_enemy"}, "params": {"movementRule": "push_away"}}], "scriptHook": null},
  {"skillId": 9, "pieceChars": ["光"], "source": {"skillText": "reflection", "sourceKind": "manual", "sourceFile": "catalog", "sourceFunction": "reflection"}, "classification": {"implementationKind": "script_hook", "tags": []}, "trigger": {"group": "event_move", "type": "after_move"}, "conditions": [], "effects": [], "scriptHook": "reflect_until_blocked"},
  {"skillId": 10, "pieceChars": ["星"], "source": {"skillText": "star", "sourceKind": "manual", "sourceFile": "catalog", "sourceFunction": "star"}, "classification": {"implementationKind": "primitive", "tags": []}, "trigger": {"group": "event_capture", "type": "after_capture"}, "conditions": [{"group": "probability", "type": "chance_roll", "params": {"probability": 0.4}}], "effects": [{"order": 1, "group": "hand", "type": "return_to_hand", "target": {"group": "self", "selector": "self_piece"}, "params": {}}], "scriptHook": null},
  {"skillId": 11, "pieceChars": ["闇"], "source": {"skillText": "darkness", "sourceKind": "manual", "sourceFile": "catalog", "sourceFunction": "darkness"}, "classification": {"implementationKind": "primitive", "tags": []}, "trigger": {"group": "continuous", "type": "continuous_aura"}, "conditions": [{"group": "board", "type": "target_exists", "params": {}}], "effects": [{"order": 1, "group": "piece_state", "type": "apply_status", "target": {"group": "adjacent", "selector": "adjacent_enemy"}, "params": {"statusType": "dark_blind", "durationTurns": 1}}], "scriptHook": null},
  {"skillId": 12, "pieceChars": ["魔"], "source": {"skillText": "demon", "sourceKind": "manual", "sourceFile": "catalog", "sourceFunction": "demon"}, "classification": {"implementationKind": "primitive", "tags": []}, "trigger": {"group": "continuous", "type": "continuous_aura"}, "conditions": [{"group": "board", "type": "target_exists", "params": {}}, {"group": "probability", "type": "chance_roll", "params": {"probability": 0.1}}], "effects": [{"order": 1, "group": "piece_removal", "type": "remove_piece", "target": {"group": "adjacent", "selector": "adjacent_enemy"}, "params": {}}], "scriptHook": null},
  {"skillId": 13, "pieceChars": ["鉄"], "source": {"skillText": "iron", "sourceKind": "manual", "sourceFile": "catalog", "sourceFunction": "iron"}, "classification": {"implementationKind": "primitive", "tags": []}, "trigger": {"group": "continuous", "type": "continuous_aura"}, "conditions": [{"group": "board", "type": "target_exists", "params": {}}], "effects": [{"order": 1, "group": "piece_position", "type": "forced_move", "target": {"group": "adjacent", "selector": "adjacent_enemy"}, "params": {"movementRule": "push_away"}}], "scriptHook": null},
  {"skillId": 14, "pieceChars": ["錫"], "source": {"skillText": "tin", "sourceKind": "manual", "sourceFile": "catalog", "sourceFunction": "tin"}, "classification": {"implementationKind": "primitive", "tags": []}, "trigger": {"group": "continuous", "type": "continuous_aura"}, "conditions": [{"group": "board", "type": "target_exists", "params": {}}, {"group": "probability", "type": "chance_roll", "params": {"probability": 0.1}}], "effects": [{"order": 1, "group": "piece_state", "type": "apply_status", "target": {"group": "adjacent", "selector": "adjacent_enemy"}, "params": {"statusType": "stun"}}], "scriptHook": null},
  {"skillId": 15, "pieceChars": ["宝"], "source": {"skillText": "treasure", "sourceKind": "manual", "sourceFile": "catalog", "sourceFunction": "treasure"}, "classification": {"implementationKind": "primitive", "tags": []}, "trigger": {"group": "continuous", "type": "continuous_rule"}, "conditions": [{"group": "probability", "type": "chance_roll", "params": {"probability": 0.2}}], "effects": [{"order": 1, "group": "hand", "type": "gain_piece", "target": {"group": "hand", "selector": "ally_hand_piece"}, "params": {"gainPieceCode": "KI"}}], "scriptHook": null},
  {"skillId": 16, "pieceChars": ["電"], "source": {"skillText": "electric", "sourceKind": "manual", "sourceFile": "catalog", "sourceFunction": "electric"}, "classification": {"implementationKind": "primitive", "tags": []}, "trigger": {"group": "continuous", "type": "continuous_aura"}, "conditions": [{"group": "board", "type": "target_exists", "params": {}}, {"group": "probability", "type": "chance_roll", "params": {"probability": 0.2}}], "effects": [{"order": 1, "group": "piece_state", "type": "apply_status", "target": {"group": "adjacent", "selector": "adjacent_enemy"}, "params": {"statusType": "shock"}}], "scriptHook": null},
  {"skillId": 17, "pieceChars": ["雷"], "source": {"skillText": "thunder", "sourceKind": "manual", "sourceFile": "catalog", "sourceFunction": "thunder"}, "classification": {"implementationKind": "primitive", "tags": []}, "trigger": {"group": "continuous", "type": "continuous_rule"}, "conditions": [{"group": "probability", "type": "chance_roll", "params": {"probability": 0.1}}], "effects": [{"order": 1, "group": "piece_removal", "type": "remove_piece", "target": {"group": "hand", "selector": "enemy_hand_random"}, "params": {}}], "scriptHook": null},
  {"skillId": 18, "pieceChars": ["時"], "source": {"skillText": "time", "sourceKind": "manual", "sourceFile": "catalog", "sourceFunction": "time"}, "classification": {"implementationKind": "primitive", "tags": []}, "trigger": {"group": "continuous", "type": "continuous_aura"}, "conditions": [{"group": "board", "type": "target_exists", "params": {}}], "effects": [{"order": 1, "group": "piece_state", "type": "apply_status", "target": {"group": "adjacent", "selector": "adjacent_enemy"}, "params": {"statusType": "time_stop", "durationTurns": 2}}], "scriptHook": null},
  {"skillId": 19, "pieceChars": ["氷"], "source": {"skillText": "ice", "sourceKind": "manual", "sourceFile": "catalog", "sourceFunction": "ice"}, "classification": {"implementationKind": "primitive", "tags": []}, "trigger": {"group": "continuous", "type": "continuous_aura"}, "conditions": [{"group": "board", "type": "target_exists", "params": {}}], "effects": [{"order": 1, "group": "piece_state", "type": "apply_status", "target": {"group": "adjacent", "selector": "adjacent_enemy"}, "params": {"statusType": "freeze", "durationTurns": 2}}], "scriptHook": null},
  {"skillId": 20, "pieceChars": ["雪"], "source": {"skillText": "snowman", "sourceKind": "manual", "sourceFile": "catalog", "sourceFunction": "snowman"}, "classification": {"implementationKind": "primitive", "tags": []}, "trigger": {"group": "event_move", "type": "after_move"}, "conditions": [{"group": "probability", "type": "chance_roll", "params": {"probability": 0.2}}], "effects": [{"order": 1, "group": "hand", "type": "gain_piece", "target": {"group": "hand", "selector": "ally_hand_piece"}, "params": {}}], "scriptHook": null},
  {"skillId": 21, "pieceChars": ["砂"], "source": {"skillText": "sand", "sourceKind": "manual", "sourceFile": "catalog", "sourceFunction": "sand"}, "classification": {"implementationKind": "primitive", "tags": []}, "trigger": {"group": "event_move", "type": "after_move"}, "conditions": [], "effects": [{"order": 1, "group": "action_economy", "type": "linked_action", "target": {"group": "line", "selector": "same_row_ally"}, "params": {}}], "scriptHook": null},
  {"skillId": 22, "pieceChars": ["風"], "source": {"skillText": "wind", "sourceKind": "manual", "sourceFile": "catalog", "sourceFunction": "wind"}, "classification": {"implementationKind": "primitive", "tags": []}, "trigger": {"group": "continuous", "type": "continuous_aura"}, "conditions": [{"group": "board", "type": "target_exists", "params": {}}], "effects": [{"order": 1, "group": "piece_position", "type": "forced_move", "target": {"group": "adjacent", "selector": "adjacent_enemy"}, "params": {"movementRule": "push_away"}}], "scriptHook": null},
  {"skillId": 23, "pieceChars": ["苔"], "source": {"skillText": "moss", "sourceKind": "manual", "sourceFile": "catalog", "sourceFunction": "moss"}, "classification": {"implementationKind": "primitive", "tags": []}, "trigger": {"group": "event_move", "type": "after_move"}, "conditions": [{"group": "board", "type": "target_exists", "params": {}}], "effects": [{"order": 1, "group": "piece_generation", "type": "summon_piece", "target": {"group": "adjacent", "selector": "adjacent_empty"}, "params": {"summonPiece": "self_clone"}}], "scriptHook": null},
  {"skillId": 24, "pieceChars": ["魚"], "source": {"skillText": "fish", "sourceKind": "manual", "sourceFile": "catalog", "sourceFunction": "fish"}, "classification": {"implementationKind": "primitive", "tags": []}, "trigger": {"group": "continuous", "type": "continuous_aura"}, "conditions": [{"group": "board", "type": "target_exists", "params": {}}, {"group": "probability", "type": "chance_roll", "params": {"probability": 0.3}}], "effects": [{"order": 1, "group": "piece_state", "type": "apply_status", "target": {"group": "adjacent", "selector": "adjacent_enemy"}, "params": {"statusType": "drown", "durationTurns": 1}}], "scriptHook": null},
  {"skillId": 25, "pieceChars": ["雲"], "source": {"skillText": "cloud", "sourceKind": "manual", "sourceFile": "catalog", "sourceFunction": "cloud"}, "classification": {"implementationKind": "primitive", "tags": []}, "trigger": {"group": "continuous", "type": "continuous_rule"}, "conditions": [], "effects": [{"order": 1, "group": "capture", "type": "capture_constraint", "target": {"group": "self", "selector": "self_piece"}, "params": {}}], "scriptHook": null},
  {"skillId": 26, "pieceChars": ["虹"], "source": {"skillText": "rainbow", "sourceKind": "manual", "sourceFile": "catalog", "sourceFunction": "rainbow"}, "classification": {"implementationKind": "composite", "tags": []}, "trigger": {"group": "continuous", "type": "continuous_rule"}, "conditions": [], "effects": [{"order": 1, "group": "movement", "type": "modify_movement", "target": {"group": "self", "selector": "self_piece"}, "params": {}}, {"order": 2, "group": "movement", "type": "modify_movement", "target": {"group": "adjacent", "selector": "adjacent_enemy"}, "params": {"durationTurns": 1}}], "scriptHook": null},
  {"skillId": 27, "pieceChars": ["毒"], "source": {"skillText": "poison", "sourceKind": "manual", "sourceFile": "catalog", "sourceFunction": "poison"}, "classification": {"implementationKind": "primitive", "tags": []}, "trigger": {"group": "event_move", "type": "after_move"}, "conditions": [], "effects": [{"order": 1, "group": "board", "type": "board_hazard", "target": {"group": "cell", "selector": "origin_cell"}, "params": {}}], "scriptHook": null},
  {"skillId": 28, "pieceChars": ["沼"], "source": {"skillText": "swamp", "sourceKind": "manual", "sourceFile": "catalog", "sourceFunction": "swamp"}, "classification": {"implementationKind": "primitive", "tags": []}, "trigger": {"group": "continuous", "type": "continuous_aura"}, "conditions": [{"group": "board", "type": "target_exists", "params": {}}], "effects": [{"order": 1, "group": "movement", "type": "modify_movement", "target": {"group": "adjacent", "selector": "adjacent_enemy"}, "params": {"movementRule": "vertical_step_only"}}], "scriptHook": null},
  {"skillId": 29, "pieceChars": ["鏡"], "source": {"skillText": "mirror", "sourceKind": "manual", "sourceFile": "catalog", "sourceFunction": "mirror"}, "classification": {"implementationKind": "primitive", "tags": []}, "trigger": {"group": "continuous", "type": "continuous_aura"}, "conditions": [], "effects": [{"order": 1, "group": "ability", "type": "copy_ability", "target": {"group": "line", "selector": "front_enemy"}, "params": {}}], "scriptHook": null},
  {"skillId": 30, "pieceChars": ["あ"], "source": {"skillText": "a", "sourceKind": "manual", "sourceFile": "catalog", "sourceFunction": "a"}, "classification": {"implementationKind": "primitive", "tags": []}, "trigger": {"group": "continuous", "type": "continuous_aura"}, "conditions": [{"group": "board", "type": "target_exists", "params": {}}, {"group": "probability", "type": "chance_roll", "params": {"probability": 0.1}}], "effects": [{"order": 1, "group": "piece_generation", "type": "transform_piece", "target": {"group": "adjacent", "selector": "adjacent_enemy"}, "params": {"toPieceCode": "FU"}}], "scriptHook": null},
  {"skillId": 31, "pieceChars": ["牢"], "source": {"skillText": "prison", "sourceKind": "manual", "sourceFile": "catalog", "sourceFunction": "prison"}, "classification": {"implementationKind": "primitive", "tags": []}, "trigger": {"group": "event_move", "type": "after_move"}, "conditions": [{"group": "board", "type": "target_exists", "params": {}}], "effects": [{"order": 1, "group": "piece_state", "type": "apply_status", "target": {"group": "adjacent", "selector": "adjacent_enemy"}, "params": {"statusType": "stun", "durationTurns": 2}}], "scriptHook": null},
  {"skillId": 32, "pieceChars": ["嶺"], "source": {"skillText": "ridge", "sourceKind": "manual", "sourceFile": "catalog", "sourceFunction": "ridge"}, "classification": {"implementationKind": "primitive", "tags": []}, "trigger": {"group": "event_move", "type": "after_move"}, "conditions": [{"group": "board", "type": "target_exists", "params": {}}, {"group": "probability", "type": "chance_roll", "params": {"probability": 0.2}}], "effects": [{"order": 1, "group": "piece_generation", "type": "summon_piece", "target": {"group": "adjacent", "selector": "adjacent_empty"}, "params": {"summonPieceChar": "山"}}], "scriptHook": null},
  {"skillId": 33, "pieceChars": ["峰"], "source": {"skillText": "peak", "sourceKind": "manual", "sourceFile": "catalog", "sourceFunction": "peak"}, "classification": {"implementationKind": "primitive", "tags": []}, "trigger": {"group": "continuous", "type": "continuous_rule"}, "conditions": [{"group": "board", "type": "target_exists", "params": {}}], "effects": [{"order": 1, "group": "piece_state", "type": "disable_piece", "target": {"group": "adjacent", "selector": "adjacent_enemy"}, "params": {}}], "scriptHook": null},
  {"skillId": 34, "pieceChars": ["岩"], "source": {"skillText": "rock", "sourceKind": "manual", "sourceFile": "catalog", "sourceFunction": "rock"}, "classification": {"implementationKind": "primitive", "tags": []}, "trigger": {"group": "event_move", "type": "after_move"}, "conditions": [{"group": "board", "type": "target_exists", "params": {}}], "effects": [{"order": 1, "group": "piece_generation", "type": "summon_piece", "target": {"group": "adjacent", "selector": "adjacent_empty"}, "params": {"summonPieceChar": "岩"}}], "scriptHook": null},
  {"skillId": 35, "pieceChars": ["鉱"], "source": {"skillText": "ore", "sourceKind": "manual", "sourceFile": "catalog", "sourceFunction": "ore"}, "classification": {"implementationKind": "primitive", "tags": []}, "trigger": {"group": "continuous", "type": "continuous_aura"}, "conditions": [{"group": "board", "type": "target_exists", "params": {}}, {"group": "probability", "type": "chance_roll", "params": {"probability": 0.2}}], "effects": [{"order": 1, "group": "piece_generation", "type": "transform_piece", "target": {"group": "global", "selector": "all_ally"}, "params": {"fromPieceCode": "FU", "toPieceChar": "金"}}], "scriptHook": null},
  {"skillId": 36, "pieceChars": ["墓"], "source": {"skillText": "grave", "sourceKind": "manual", "sourceFile": "catalog", "sourceFunction": "grave"}, "classification": {"implementationKind": "primitive", "tags": []}, "trigger": {"group": "event_move", "type": "after_move"}, "conditions": [{"group": "board", "type": "target_exists", "params": {}}, {"group": "probability", "type": "chance_roll", "params": {"probability": 0.2}}], "effects": [{"order": 1, "group": "piece_generation", "type": "summon_piece", "target": {"group": "adjacent", "selector": "adjacent_empty"}, "params": {"summonPieceChar": "霊"}}], "scriptHook": null},
  {"skillId": 37, "pieceChars": ["霊"], "source": {"skillText": "spirit", "sourceKind": "manual", "sourceFile": "catalog", "sourceFunction": "spirit"}, "classification": {"implementationKind": "primitive", "tags": []}, "trigger": {"group": "continuous", "type": "continuous_rule"}, "conditions": [], "effects": [{"order": 1, "group": "capture", "type": "capture_constraint", "target": {"group": "self", "selector": "self_piece"}, "params": {}}], "scriptHook": null},
  {"skillId": 38, "pieceChars": ["幻"], "source": {"skillText": "phantom", "sourceKind": "manual", "sourceFile": "catalog", "sourceFunction": "phantom"}, "classification": {"implementationKind": "primitive", "tags": []}, "trigger": {"group": "continuous", "type": "continuous_rule"}, "conditions": [{"group": "probability", "type": "chance_roll", "params": {"probability": 0.5}}], "effects": [{"order": 1, "group": "piece_state", "type": "defense_or_immunity", "target": {"group": "self", "selector": "self_piece"}, "params": {}}], "scriptHook": null},
  {"skillId": 39, "pieceChars": ["霧"], "source": {"skillText": "mist", "sourceKind": "manual", "sourceFile": "catalog", "sourceFunction": "mist"}, "classification": {"implementationKind": "primitive", "tags": []}, "trigger": {"group": "event_move", "type": "after_move"}, "conditions": [{"group": "board", "type": "target_exists", "params": {}}, {"group": "probability", "type": "chance_roll", "params": {"probability": 0.2}}], "effects": [{"order": 1, "group": "hand", "type": "send_to_hand", "target": {"group": "adjacent", "selector": "adjacent_enemy"}, "params": {}}], "scriptHook": null},
  {"skillId": 40, "pieceChars": ["月"], "source": {"skillText": "moon", "sourceKind": "manual", "sourceFile": "catalog", "sourceFunction": "moon"}, "classification": {"implementationKind": "primitive", "tags": []}, "trigger": {"group": "event_turn", "type": "turn_start"}, "conditions": [], "effects": [{"order": 1, "group": "movement", "type": "modify_movement", "target": {"group": "self", "selector": "self_piece"}, "params": {}}], "scriptHook": null},
  {"skillId": 41, "pieceChars": ["舟"], "source": {"skillText": "boat", "sourceKind": "manual", "sourceFile": "catalog", "sourceFunction": "boat"}, "classification": {"implementationKind": "primitive", "tags": []}, "trigger": {"group": "event_move", "type": "after_move"}, "conditions": [], "effects": [{"order": 1, "group": "action_economy", "type": "linked_action", "target": {"group": "adjacent", "selector": "adjacent_ally"}, "params": {}}], "scriptHook": null},
  {"skillId": 42, "pieceChars": ["機"], "source": {"skillText": "machine", "sourceKind": "manual", "sourceFile": "catalog", "sourceFunction": "machine"}, "classification": {"implementationKind": "primitive", "tags": []}, "trigger": {"group": "continuous", "type": "continuous_aura"}, "conditions": [], "effects": [{"order": 1, "group": "ability", "type": "copy_ability", "target": {"group": "adjacent", "selector": "adjacent_ally"}, "params": {}}], "scriptHook": null},
  {"skillId": 43, "pieceChars": ["歯"], "source": {"skillText": "gear", "sourceKind": "manual", "sourceFile": "catalog", "sourceFunction": "gear"}, "classification": {"implementationKind": "primitive", "tags": []}, "trigger": {"group": "event_move", "type": "after_move"}, "conditions": [], "effects": [{"order": 1, "group": "action_economy", "type": "linked_action", "target": {"group": "adjacent", "selector": "adjacent_ally"}, "params": {}}], "scriptHook": null},
  {"skillId": 44, "pieceChars": ["家"], "source": {"skillText": "house", "sourceKind": "manual", "sourceFile": "catalog", "sourceFunction": "house"}, "classification": {"implementationKind": "primitive", "tags": []}, "trigger": {"group": "continuous", "type": "continuous_aura"}, "conditions": [{"group": "board", "type": "target_exists", "params": {}}], "effects": [{"order": 1, "group": "piece_generation", "type": "summon_piece", "target": {"group": "adjacent", "selector": "adjacent_empty"}, "params": {"summonPieceChar": "民"}}], "scriptHook": null},
  {"skillId": 45, "pieceChars": ["民"], "source": {"skillText": "people", "sourceKind": "manual", "sourceFile": "catalog", "sourceFunction": "people"}, "classification": {"implementationKind": "primitive", "tags": []}, "trigger": {"group": "continuous", "type": "continuous_rule"}, "conditions": [], "effects": [{"order": 1, "group": "movement", "type": "modify_movement", "target": {"group": "self", "selector": "self_piece"}, "params": {"movementRule": "diagonal_step_only"}}], "scriptHook": null},
  {"skillId": 46, "pieceChars": ["畑"], "source": {"skillText": "field", "sourceKind": "manual", "sourceFile": "catalog", "sourceFunction": "field"}, "classification": {"implementationKind": "primitive", "tags": []}, "trigger": {"group": "continuous", "type": "continuous_rule"}, "conditions": [], "effects": [{"order": 1, "group": "movement", "type": "modify_movement", "target": {"group": "self", "selector": "self_piece"}, "params": {"movementRule": "diagonal_step_only"}}], "scriptHook": null},
  {"skillId": 47, "pieceChars": ["泉"], "source": {"skillText": "spring", "sourceKind": "manual", "sourceFile": "catalog", "sourceFunction": "spring"}, "classification": {"implementationKind": "composite", "tags": []}, "trigger": {"group": "continuous", "type": "continuous_aura"}, "conditions": [], "effects": [{"order": 1, "group": "piece_state", "type": "defense_or_immunity", "target": {"group": "adjacent", "selector": "adjacent_ally"}, "params": {}}, {"order": 2, "group": "piece_state", "type": "defense_or_immunity", "target": {"group": "self", "selector": "self_piece"}, "params": {}}], "scriptHook": null},
  {"skillId": 48, "pieceChars": ["辰"], "source": {"skillText": "awakened dragon", "sourceKind": "manual", "sourceFile": "catalog", "sourceFunction": "awakened_dragon"}, "classification": {"implementationKind": "primitive", "tags": []}, "trigger": {"group": "event_move", "type": "after_move"}, "conditions": [{"group": "board", "type": "target_exists", "params": {}}, {"group": "probability", "type": "chance_roll", "params": {"probability": 0.1}}], "effects": [{"order": 1, "group": "piece_removal", "type": "remove_piece", "target": {"group": "adjacent", "selector": "adjacent_enemy"}, "params": {}}], "scriptHook": null},
  {"skillId": 49, "pieceChars": ["K"], "source": {"skillText": "experiment k", "sourceKind": "manual", "sourceFile": "catalog", "sourceFunction": "experiment_k"}, "classification": {"implementationKind": "composite", "tags": []}, "trigger": {"group": "continuous", "type": "continuous_aura"}, "conditions": [{"group": "board", "type": "target_exists", "params": {}}, {"group": "probability", "type": "chance_roll", "params": {"probability": 0.4}}], "effects": [{"order": 1, "group": "piece_generation", "type": "summon_piece", "target": {"group": "adjacent", "selector": "adjacent_empty"}, "params": {}}, {"order": 2, "group": "piece_state", "type": "defense_or_immunity", "target": {"group": "self", "selector": "self_piece"}, "params": {}}], "scriptHook": null},
  {"skillId": 50, "pieceChars": ["実"], "source": {"skillText": "experiment", "sourceKind": "manual", "sourceFile": "catalog", "sourceFunction": "experiment"}, "classification": {"implementationKind": "primitive", "tags": []}, "trigger": {"group": "continuous", "type": "continuous_aura"}, "conditions": [{"group": "board", "type": "target_exists", "params": {}}, {"group": "probability", "type": "chance_roll", "params": {"probability": 0.1}}], "effects": [{"order": 1, "group": "piece_generation", "type": "transform_piece", "target": {"group": "adjacent", "selector": "adjacent_enemy"}, "params": {"toPieceChar": "異"}}], "scriptHook": null},
  {"skillId": 51, "pieceChars": ["異"], "source": {"skillText": "mutant", "sourceKind": "manual", "sourceFile": "catalog", "sourceFunction": "mutant"}, "classification": {"implementationKind": "primitive", "tags": []}, "trigger": {"group": "continuous", "type": "continuous_rule"}, "conditions": [], "effects": [{"order": 1, "group": "piece_generation", "type": "transform_piece", "target": {"group": "self", "selector": "self_piece"}, "params": {}}], "scriptHook": null},
  {"skillId": 52, "pieceChars": ["刀"], "source": {"skillText": "blade", "sourceKind": "manual", "sourceFile": "catalog", "sourceFunction": "blade"}, "classification": {"implementationKind": "primitive", "tags": []}, "trigger": {"group": "event_capture", "type": "after_capture"}, "conditions": [{"group": "board", "type": "target_exists", "params": {}}], "effects": [{"order": 1, "group": "capture", "type": "multi_capture", "target": {"group": "adjacent", "selector": "adjacent_enemy"}, "params": {}}], "scriptHook": null},
  {"skillId": 53, "pieceChars": ["鎧"], "source": {"skillText": "armor", "sourceKind": "manual", "sourceFile": "catalog", "sourceFunction": "armor"}, "classification": {"implementationKind": "primitive", "tags": []}, "trigger": {"group": "continuous", "type": "continuous_rule"}, "conditions": [], "effects": [{"order": 1, "group": "piece_state", "type": "defense_or_immunity", "target": {"group": "self", "selector": "self_piece"}, "params": {}}], "scriptHook": null},
  {"skillId": 54, "pieceChars": ["銃"], "source": {"skillText": "gun", "sourceKind": "manual", "sourceFile": "catalog", "sourceFunction": "gun"}, "classification": {"implementationKind": "primitive", "tags": []}, "trigger": {"group": "continuous", "type": "continuous_rule"}, "conditions": [], "effects": [{"order": 1, "group": "capture", "type": "multi_capture", "target": {"group": "line", "selector": "front_enemy"}, "params": {}}], "scriptHook": null},
  {"skillId": 55, "pieceChars": ["書"], "source": {"skillText": "book", "sourceKind": "manual", "sourceFile": "catalog", "sourceFunction": "book"}, "classification": {"implementationKind": "primitive", "tags": []}, "trigger": {"group": "event_turn", "type": "turn_start"}, "conditions": [], "effects": [{"order": 1, "group": "ability", "type": "copy_ability", "target": {"group": "self", "selector": "self_piece"}, "params": {}}], "scriptHook": null},
  {"skillId": 56, "pieceChars": ["封"], "source": {"skillText": "seal", "sourceKind": "manual", "sourceFile": "catalog", "sourceFunction": "seal"}, "classification": {"implementationKind": "primitive", "tags": []}, "trigger": {"group": "continuous", "type": "continuous_aura"}, "conditions": [{"group": "board", "type": "target_exists", "params": {}}], "effects": [{"order": 1, "group": "piece_state", "type": "seal_skill", "target": {"group": "adjacent", "selector": "adjacent_enemy"}, "params": {}}], "scriptHook": null},
  {"skillId": 57, "pieceChars": ["轟"], "source": {"skillText": "roar", "sourceKind": "manual", "sourceFile": "catalog", "sourceFunction": "roar"}, "classification": {"implementationKind": "primitive", "tags": []}, "trigger": {"group": "event_move", "type": "after_move"}, "conditions": [{"group": "board", "type": "target_exists", "params": {}}], "effects": [{"order": 1, "group": "piece_position", "type": "forced_move", "target": {"group": "adjacent", "selector": "adjacent_enemy"}, "params": {"movementRule": "push_away"}}], "scriptHook": null},
  {"skillId": 58, "pieceChars": ["犇"], "source": {"skillText": "bulls", "sourceKind": "manual", "sourceFile": "catalog", "sourceFunction": "bulls"}, "classification": {"implementationKind": "primitive", "tags": []}, "trigger": {"group": "event_move", "type": "after_move"}, "conditions": [{"group": "board", "type": "target_exists", "params": {}}, {"group": "probability", "type": "chance_roll", "params": {"probability": 0.1}}], "effects": [{"order": 1, "group": "piece_generation", "type": "summon_piece", "target": {"group": "adjacent", "selector": "adjacent_empty"}, "params": {"summonPiece": "self_clone"}}], "scriptHook": null},
  {"skillId": 59, "pieceChars": ["礼"], "source": {"skillText": "courtesy", "sourceKind": "manual", "sourceFile": "catalog", "sourceFunction": "courtesy"}, "classification": {"implementationKind": "primitive", "tags": []}, "trigger": {"group": "event_capture", "type": "after_capture"}, "conditions": [], "effects": [{"order": 1, "group": "piece_generation", "type": "substitute", "target": {"group": "self", "selector": "self_piece"}, "params": {}}], "scriptHook": null},
  {"skillId": 60, "pieceChars": ["聖"], "source": {"skillText": "saint", "sourceKind": "manual", "sourceFile": "catalog", "sourceFunction": "saint"}, "classification": {"implementationKind": "primitive", "tags": []}, "trigger": {"group": "continuous", "type": "continuous_aura"}, "conditions": [{"group": "board", "type": "target_exists", "params": {}}], "effects": [{"order": 1, "group": "piece_state", "type": "disable_piece", "target": {"group": "adjacent", "selector": "adjacent_enemy"}, "params": {}}], "scriptHook": null},
  {"skillId": 61, "pieceChars": ["剣"], "source": {"skillText": "holy sword", "sourceKind": "manual", "sourceFile": "catalog", "sourceFunction": "holy_sword"}, "classification": {"implementationKind": "primitive", "tags": []}, "trigger": {"group": "continuous", "type": "continuous_rule"}, "conditions": [{"group": "board", "type": "target_exists", "params": {}}], "effects": [{"order": 1, "group": "piece_state", "type": "defense_or_immunity", "target": {"group": "self", "selector": "self_piece"}, "params": {}}], "scriptHook": null},
  {"skillId": 62, "pieceChars": ["盾"], "source": {"skillText": "shield", "sourceKind": "manual", "sourceFile": "catalog", "sourceFunction": "shield"}, "classification": {"implementationKind": "primitive", "tags": []}, "trigger": {"group": "continuous", "type": "continuous_aura"}, "conditions": [{"group": "probability", "type": "chance_roll", "params": {"probability": 0.5}}], "effects": [{"order": 1, "group": "piece_state", "type": "disable_piece", "target": {"group": "adjacent", "selector": "adjacent_ally"}, "params": {}}], "scriptHook": null},
  {"skillId": 63, "pieceChars": ["病"], "source": {"skillText": "disease", "sourceKind": "manual", "sourceFile": "catalog", "sourceFunction": "disease"}, "classification": {"implementationKind": "primitive", "tags": []}, "trigger": {"group": "event_capture", "type": "after_capture"}, "conditions": [{"group": "board", "type": "target_exists", "params": {}}], "effects": [{"order": 1, "group": "piece_state", "type": "apply_status", "target": {"group": "adjacent", "selector": "adjacent_enemy"}, "params": {}}], "scriptHook": null},
  {"skillId": 64, "pieceChars": ["薬"], "source": {"skillText": "medicine", "sourceKind": "manual", "sourceFile": "catalog", "sourceFunction": "medicine"}, "classification": {"implementationKind": "primitive", "tags": []}, "trigger": {"group": "continuous", "type": "continuous_aura"}, "conditions": [], "effects": [{"order": 1, "group": "movement", "type": "modify_movement", "target": {"group": "adjacent", "selector": "adjacent_ally"}, "params": {"movementRule": "extend_range_by_one"}}], "scriptHook": null},
  {"skillId": 65, "pieceChars": ["滝"], "source": {"skillText": "waterfall", "sourceKind": "manual", "sourceFile": "catalog", "sourceFunction": "waterfall"}, "classification": {"implementationKind": "primitive", "tags": []}, "trigger": {"group": "event_move", "type": "after_move"}, "conditions": [{"group": "board", "type": "target_exists", "params": {}}, {"group": "probability", "type": "chance_roll", "params": {"probability": 0.2}}], "effects": [{"order": 1, "group": "piece_position", "type": "forced_move", "target": {"group": "adjacent", "selector": "adjacent_enemy"}, "params": {"movementRule": "push_away"}}], "scriptHook": null},
  {"skillId": 66, "pieceChars": ["穴"], "source": {"skillText": "hole", "sourceKind": "manual", "sourceFile": "catalog", "sourceFunction": "hole"}, "classification": {"implementationKind": "primitive", "tags": []}, "trigger": {"group": "event_capture", "type": "after_capture"}, "conditions": [{"group": "board", "type": "target_exists", "params": {}}], "effects": [{"order": 1, "group": "board", "type": "board_hazard", "target": {"group": "adjacent", "selector": "adjacent_empty"}, "params": {}}], "scriptHook": null},
  {"skillId": 67, "pieceChars": ["淵"], "source": {"skillText": "abyss", "sourceKind": "manual", "sourceFile": "catalog", "sourceFunction": "abyss"}, "classification": {"implementationKind": "primitive", "tags": []}, "trigger": {"group": "event_capture", "type": "after_capture"}, "conditions": [{"group": "board", "type": "target_exists", "params": {}}], "effects": [{"order": 1, "group": "piece_state", "type": "apply_status", "target": {"group": "adjacent", "selector": "adjacent_enemy"}, "params": {}}], "scriptHook": null},
  {"skillId": 68, "pieceChars": ["鬼"], "source": {"skillText": "oni", "sourceKind": "manual", "sourceFile": "catalog", "sourceFunction": "oni"}, "classification": {"implementationKind": "primitive", "tags": []}, "trigger": {"group": "event_move", "type": "after_move"}, "conditions": [{"group": "board", "type": "target_exists", "params": {}}], "effects": [{"order": 1, "group": "piece_position", "type": "forced_move", "target": {"group": "adjacent", "selector": "adjacent_enemy"}, "params": {"movementRule": "push_away"}}], "scriptHook": null},
  {"skillId": 69, "pieceChars": ["朧"], "source": {"skillText": "oboro", "sourceKind": "manual", "sourceFile": "catalog", "sourceFunction": "oboro"}, "classification": {"implementationKind": "primitive", "tags": []}, "trigger": {"group": "continuous", "type": "continuous_rule"}, "conditions": [], "effects": [{"order": 1, "group": "piece_state", "type": "defense_or_immunity", "target": {"group": "self", "selector": "self_piece"}, "params": {}}], "scriptHook": null},
  {"skillId": 70, "pieceChars": ["死"], "source": {"skillText": "death", "sourceKind": "manual", "sourceFile": "catalog", "sourceFunction": "death"}, "classification": {"implementationKind": "primitive", "tags": []}, "trigger": {"group": "continuous", "type": "continuous_rule"}, "conditions": [{"group": "board", "type": "target_exists", "params": {}}], "effects": [{"order": 1, "group": "piece_removal", "type": "remove_piece", "target": {"group": "adjacent", "selector": "adjacent_enemy"}, "params": {}}], "scriptHook": null},
  {"skillId": 71, "pieceChars": ["魂"], "source": {"skillText": "soul", "sourceKind": "manual", "sourceFile": "catalog", "sourceFunction": "soul"}, "classification": {"implementationKind": "primitive", "tags": []}, "trigger": {"group": "continuous", "type": "continuous_rule"}, "conditions": [], "effects": [{"order": 1, "group": "piece_state", "type": "defense_or_immunity", "target": {"group": "self", "selector": "self_piece"}, "params": {}}], "scriptHook": null},
  {"skillId": 72, "pieceChars": ["獣"], "source": {"skillText": "beast", "sourceKind": "manual", "sourceFile": "catalog", "sourceFunction": "beast"}, "classification": {"implementationKind": "primitive", "tags": []}, "trigger": {"group": "event_move", "type": "after_move"}, "conditions": [{"group": "board", "type": "target_exists", "params": {}}], "effects": [{"order": 1, "group": "piece_state", "type": "apply_status", "target": {"group": "adjacent", "selector": "adjacent_enemy"}, "params": {"statusType": "stun", "durationTurns": 2}}], "scriptHook": null},
  {"skillId": 73, "pieceChars": ["禽"], "source": {"skillText": "bird", "sourceKind": "manual", "sourceFile": "catalog", "sourceFunction": "bird"}, "classification": {"implementationKind": "primitive", "tags": []}, "trigger": {"group": "event_move", "type": "after_move"}, "conditions": [], "effects": [{"order": 1, "group": "piece_state", "type": "defense_or_immunity", "target": {"group": "adjacent", "selector": "adjacent_ally"}, "params": {}}], "scriptHook": null},
  {"skillId": 74, "pieceChars": ["心"], "source": {"skillText": "heart", "sourceKind": "manual", "sourceFile": "catalog", "sourceFunction": "heart"}, "classification": {"implementationKind": "primitive", "tags": []}, "trigger": {"group": "event_move", "type": "after_move"}, "conditions": [{"group": "board", "type": "target_exists", "params": {}}], "effects": [{"order": 1, "group": "piece_state", "type": "apply_status", "target": {"group": "adjacent", "selector": "adjacent_enemy"}, "params": {"statusType": "stun", "durationTurns": 1}}], "scriptHook": null},
  {"skillId": 75, "pieceChars": ["鬱"], "source": {"skillText": "depression", "sourceKind": "manual", "sourceFile": "catalog", "sourceFunction": "depression"}, "classification": {"implementationKind": "primitive", "tags": []}, "trigger": {"group": "event_move", "type": "after_move"}, "conditions": [], "effects": [{"order": 1, "group": "piece_state", "type": "apply_status", "target": {"group": "cell", "selector": "origin_cell"}, "params": {"statusType": "blocked_cell"}}], "scriptHook": null},
  {"skillId": 76, "pieceChars": ["乙"], "source": {"skillText": "second", "sourceKind": "manual", "sourceFile": "catalog", "sourceFunction": "second"}, "classification": {"implementationKind": "primitive", "tags": []}, "trigger": {"group": "event_capture", "type": "after_capture"}, "conditions": [], "effects": [{"order": 1, "group": "action_economy", "type": "extra_action", "target": {"group": "self", "selector": "self_piece"}, "params": {}}], "scriptHook": null},
  {"skillId": 77, "pieceChars": ["薔"], "source": {"skillText": "rose", "sourceKind": "manual", "sourceFile": "catalog", "sourceFunction": "rose"}, "classification": {"implementationKind": "primitive", "tags": []}, "trigger": {"group": "continuous", "type": "continuous_aura"}, "conditions": [{"group": "board", "type": "target_exists", "params": {}}], "effects": [{"order": 1, "group": "board", "type": "board_hazard", "target": {"group": "adjacent", "selector": "adjacent_empty"}, "params": {}}], "scriptHook": null},
  {"skillId": 78, "pieceChars": ["菊"], "source": {"skillText": "chrysanthemum", "sourceKind": "manual", "sourceFile": "catalog", "sourceFunction": "chrysanthemum"}, "classification": {"implementationKind": "primitive", "tags": []}, "trigger": {"group": "continuous", "type": "continuous_aura"}, "conditions": [], "effects": [{"order": 1, "group": "piece_generation", "type": "revive", "target": {"group": "adjacent", "selector": "adjacent_ally"}, "params": {}}], "scriptHook": null},
  {"skillId": 79, "pieceChars": ["桜"], "source": {"skillText": "cherry", "sourceKind": "manual", "sourceFile": "catalog", "sourceFunction": "cherry"}, "classification": {"implementationKind": "primitive", "tags": []}, "trigger": {"group": "event_move", "type": "after_move"}, "conditions": [], "effects": [{"order": 1, "group": "movement", "type": "modify_movement", "target": {"group": "line", "selector": "same_row_ally"}, "params": {"movementRule": "extend_range_by_one"}}], "scriptHook": null},
  {"skillId": 80, "pieceChars": ["凹"], "source": {"skillText": "concave", "sourceKind": "manual", "sourceFile": "catalog", "sourceFunction": "concave"}, "classification": {"implementationKind": "primitive", "tags": []}, "trigger": {"group": "continuous", "type": "continuous_rule"}, "conditions": [], "effects": [{"order": 1, "group": "movement", "type": "modify_movement", "target": {"group": "self", "selector": "self_piece"}, "params": {"movementRule": "penetrate_to_edge"}}], "scriptHook": null},
  {"skillId": 81, "pieceChars": ["凸"], "source": {"skillText": "convex", "sourceKind": "manual", "sourceFile": "catalog", "sourceFunction": "convex"}, "classification": {"implementationKind": "primitive", "tags": []}, "trigger": {"group": "event_move", "type": "after_move"}, "conditions": [], "effects": [{"order": 1, "group": "action_economy", "type": "extra_action", "target": {"group": "self", "selector": "self_piece"}, "params": {}}], "scriptHook": null},
  {"skillId": 82, "pieceChars": ["焼"], "source": {"skillText": "roast", "sourceKind": "manual", "sourceFile": "catalog", "sourceFunction": "roast"}, "classification": {"implementationKind": "primitive", "tags": []}, "trigger": {"group": "event_capture", "type": "after_capture"}, "conditions": [{"group": "board", "type": "target_exists", "params": {}}], "effects": [{"order": 1, "group": "piece_generation", "type": "summon_piece", "target": {"group": "adjacent", "selector": "adjacent_empty"}, "params": {"summonPieceChar": "炎"}}], "scriptHook": null},
  {"skillId": 83, "pieceChars": ["炒"], "source": {"skillText": "stir fry", "sourceKind": "manual", "sourceFile": "catalog", "sourceFunction": "stir_fry"}, "classification": {"implementationKind": "primitive", "tags": []}, "trigger": {"group": "event_capture", "type": "after_capture"}, "conditions": [], "effects": [{"order": 1, "group": "action_economy", "type": "extra_action", "target": {"group": "self", "selector": "self_piece"}, "params": {}}], "scriptHook": null},
  {"skillId": 84, "pieceChars": ["煮"], "source": {"skillText": "boil", "sourceKind": "manual", "sourceFile": "catalog", "sourceFunction": "boil"}, "classification": {"implementationKind": "primitive", "tags": []}, "trigger": {"group": "event_capture", "type": "after_capture"}, "conditions": [{"group": "board", "type": "target_exists", "params": {}}], "effects": [{"order": 1, "group": "piece_generation", "type": "summon_piece", "target": {"group": "adjacent", "selector": "adjacent_empty"}, "params": {"summonPieceChar": "火"}}], "scriptHook": null},
  {"skillId": 85, "pieceChars": ["陽"], "source": {"skillText": "yang", "sourceKind": "manual", "sourceFile": "catalog", "sourceFunction": "yang"}, "classification": {"implementationKind": "composite", "tags": []}, "trigger": {"group": "continuous", "type": "continuous_rule"}, "conditions": [{"group": "probability", "type": "chance_roll", "params": {"probability": 0.3}}], "effects": [{"order": 1, "group": "piece_state", "type": "defense_or_immunity", "target": {"group": "self", "selector": "self_piece"}, "params": {}}, {"order": 2, "group": "piece_state", "type": "defense_or_immunity", "target": {"group": "adjacent", "selector": "adjacent_ally"}, "params": {}}], "scriptHook": null},
  {"skillId": 86, "pieceChars": ["陰"], "source": {"skillText": "yin", "sourceKind": "manual", "sourceFile": "catalog", "sourceFunction": "yin"}, "classification": {"implementationKind": "composite", "tags": []}, "trigger": {"group": "continuous", "type": "continuous_aura"}, "conditions": [], "effects": [{"order": 1, "group": "piece_state", "type": "seal_skill", "target": {"group": "adjacent", "selector": "adjacent_enemy"}, "params": {}}, {"order": 2, "group": "piece_state", "type": "defense_or_immunity", "target": {"group": "self", "selector": "self_piece"}, "params": {}}], "scriptHook": null},
  {"skillId": 87, "pieceChars": ["牛"], "source": {"skillText": "cow", "sourceKind": "manual", "sourceFile": "catalog", "sourceFunction": "cow"}, "classification": {"implementationKind": "composite", "tags": []}, "trigger": {"group": "event_move", "type": "after_move"}, "conditions": [], "effects": [{"order": 1, "group": "movement", "type": "modify_movement", "target": {"group": "self", "selector": "self_piece"}, "params": {"movementRule": "backward_step_only"}}, {"order": 2, "group": "capture", "type": "multi_capture", "target": {"group": "adjacent", "selector": "adjacent_enemy"}, "params": {}}], "scriptHook": null},
  {"skillId": 88, "pieceChars": ["豚"], "source": {"skillText": "pig", "sourceKind": "manual", "sourceFile": "catalog", "sourceFunction": "pig"}, "classification": {"implementationKind": "primitive", "tags": []}, "trigger": {"group": "event_capture", "type": "after_capture"}, "conditions": [], "effects": [{"order": 1, "group": "ability", "type": "inherit_ability", "target": {"group": "self", "selector": "self_piece"}, "params": {}}], "scriptHook": null},
  {"skillId": 89, "pieceChars": ["銭"], "source": {"skillText": "coin", "sourceKind": "manual", "sourceFile": "catalog", "sourceFunction": "coin"}, "classification": {"implementationKind": "primitive", "tags": []}, "trigger": {"group": "event_move", "type": "after_move"}, "conditions": [{"group": "probability", "type": "chance_roll", "params": {"probability": 0.2}}], "effects": [{"order": 1, "group": "piece_generation", "type": "transform_piece", "target": {"group": "self", "selector": "self_piece"}, "params": {"toPieceChar": "金"}}], "scriptHook": null},
  {"skillId": 90, "pieceChars": ["財"], "source": {"skillText": "wealth", "sourceKind": "manual", "sourceFile": "catalog", "sourceFunction": "wealth"}, "classification": {"implementationKind": "primitive", "tags": []}, "trigger": {"group": "event_capture", "type": "after_capture"}, "conditions": [{"group": "board", "type": "target_exists", "params": {}}], "effects": [{"order": 1, "group": "piece_generation", "type": "transform_piece", "target": {"group": "adjacent", "selector": "adjacent_enemy"}, "params": {}}], "scriptHook": null},
  {"skillId": 91, "pieceChars": ["巨"], "source": {"skillText": "giant", "sourceKind": "manual", "sourceFile": "catalog", "sourceFunction": "giant"}, "classification": {"implementationKind": "composite", "tags": []}, "trigger": {"group": "continuous", "type": "continuous_rule"}, "conditions": [], "effects": [{"order": 1, "group": "piece_state", "type": "defense_or_immunity", "target": {"group": "self", "selector": "self_piece"}, "params": {}}, {"order": 2, "group": "piece_state", "type": "defense_or_immunity", "target": {"group": "self", "selector": "self_piece"}, "params": {}}, {"order": 3, "group": "capture", "type": "multi_capture", "target": {"group": "adjacent", "selector": "adjacent_enemy"}, "params": {}}], "scriptHook": null},
  {"skillId": 92, "pieceChars": ["無"], "source": {"skillText": "nothing", "sourceKind": "manual", "sourceFile": "catalog", "sourceFunction": "nothing"}, "classification": {"implementationKind": "composite", "tags": []}, "trigger": {"group": "continuous", "type": "continuous_rule"}, "conditions": [], "effects": [{"order": 1, "group": "movement", "type": "modify_movement", "target": {"group": "self", "selector": "self_piece"}, "params": {}}, {"order": 2, "group": "capture", "type": "capture_constraint", "target": {"group": "self", "selector": "self_piece"}, "params": {}}, {"order": 3, "group": "piece_state", "type": "defense_or_immunity", "target": {"group": "self", "selector": "self_piece"}, "params": {}}], "scriptHook": null},
  {"skillId": 93, "pieceChars": ["灯"], "source": {"skillText": "lantern", "sourceKind": "manual", "sourceFile": "catalog", "sourceFunction": "lantern"}, "classification": {"implementationKind": "primitive", "tags": []}, "trigger": {"group": "event_move", "type": "after_move"}, "conditions": [{"group": "board", "type": "target_exists", "params": {}}, {"group": "probability", "type": "chance_roll", "params": {"probability": 0.2}}], "effects": [{"order": 1, "group": "piece_generation", "type": "transform_piece", "target": {"group": "global", "selector": "all_ally"}, "params": {"fromPieceCode": "FU", "toPieceChar": "火"}}], "scriptHook": null},
  {"skillId": 97, "pieceChars": ["爆"], "source": {"skillText": "bomb explosion push", "sourceKind": "manual", "sourceFile": "catalog", "sourceFunction": "bomb_explosion_push"}, "classification": {"implementationKind": "script_hook", "tags": []}, "trigger": {"group": "event_move", "type": "after_move"}, "conditions": [], "effects": [], "scriptHook": "bomb_explosion_push"},
  {"skillId": 99, "pieceChars": ["室"], "source": {"skillText": "safe room king relocation", "sourceKind": "manual", "sourceFile": "catalog", "sourceFunction": "safe_room_king_relocation"}, "classification": {"implementationKind": "script_hook", "tags": []}, "trigger": {"group": "event_move", "type": "after_move"}, "conditions": [{"group": "probability", "type": "chance_roll", "params": {"probability": 0.3}}], "effects": [], "scriptHook": "safe_room_king_relocation"},
  {"skillId": 100, "pieceChars": ["定"], "source": {"skillText": "fixed next turn restriction", "sourceKind": "manual", "sourceFile": "catalog", "sourceFunction": "fixed_next_turn_restriction"}, "classification": {"implementationKind": "script_hook", "tags": []}, "trigger": {"group": "event_move", "type": "after_move"}, "conditions": [], "effects": [], "scriptHook": "fixed_next_turn_restriction"},
  {"skillId": 103, "pieceChars": ["辺"], "source": {"skillText": "edge line imprison", "sourceKind": "manual", "sourceFile": "catalog", "sourceFunction": "edge_line_imprison"}, "classification": {"implementationKind": "script_hook", "tags": []}, "trigger": {"group": "event_move", "type": "after_move"}, "conditions": [], "effects": [], "scriptHook": "edge_line_imprison"},
  {"skillId": 106, "pieceChars": ["逃"], "source": {"skillText": "escape king follow", "sourceKind": "manual", "sourceFile": "catalog", "sourceFunction": "escape_king_follow"}, "classification": {"implementationKind": "script_hook", "tags": []}, "trigger": {"group": "event_move", "type": "after_move"}, "conditions": [], "effects": [], "scriptHook": "escape_king_follow"}
]}
"#;

fn to_json(value: &serde_json::Value) -> JsonValue {
    match value {
        serde_json::Value::Null => JsonValue::Null,
        serde_json::Value::Bool(b) => JsonValue::Bool(*b),
        serde_json::Value::Number(n) => {
            if let Some(i) = n.as_i64() {
                JsonValue::Int(i)
            } else if let Some(u) = n.as_u64() {
                JsonValue::Large(u)
            } else {
                JsonValue::Decimal(n.to_string())
            }
        }
        serde_json::Value::String(s) => JsonValue::Text(s.clone()),
        serde_json::Value::Array(items) => JsonValue::List(items.iter().map(to_json).collect()),
        serde_json::Value::Object(members) => JsonValue::Object(
            members
                .iter()
                .map(|(name, value)| JsonMember {
                    name: name.clone(),
                    value: to_json(value),
                })
                .collect(),
        ),
    }
}

fn read(text: &str) -> JsonValue {
    let value: serde_json::Value = serde_json::from_str(text).expect("must be valid json");
    to_json(&value)
}

fn member(name: &str, value: JsonValue) -> JsonMember {
    JsonMember {
        name: name.to_string(),
        value,
    }
}

fn text_param(params: &JsonValue, name: &str) -> String {
    params.get_text(name).expect("must be a text").clone()
}

fn int_param(params: &JsonValue, name: &str) -> i64 {
    params.get_int(name).expect("must be a number")
}

fn load_sample_skill_definitions() -> Vec<SkillDefinition> {
    parse_skill_definition_document_value(read(CATALOG))
        .expect("definitions must parse")
        .definitions
}

fn sample_skill_by_id(skill_id: u64) -> SkillDefinition {
    load_sample_skill_definitions()
        .into_iter()
        .find(|definition| definition.skill_id == skill_id)
        .unwrap_or_else(|| panic!("sample skill {skill_id} must exist"))
}

fn sample_runtime_rules() -> RuntimeRules {
    let board_state = JsonValue::Object(vec![
        member("skill_registry_v2", read(REGISTRY)),
        member("skill_definitions_v2", read(CATALOG)),
    ]);
    match parse_runtime_rules(&board_state) {
        Ok(rules) => rules,
        Err(e) => panic!("runtime rules must parse: {e}"),
    }
}

#[test]
fn builtin_skill_registry_is_valid() {
    let registry = builtin_skill_registry();
    assert_eq!(registry.version, "skill-registry-v2-draft");
    assert!(registry
        .implementation_kinds
        .iter()
        .any(|kind| kind.code == "primitive"));
}

#[test]
fn sample_skill_definitions_validate_against_builtin_registry() {
    let parsed =
        parse_skill_definition_document_value(read(CATALOG)).expect("definitions must parse");
    validate_skill_definitions(&builtin_skill_registry(), &parsed.definitions)
        .expect("sample definitions must validate");
    assert_eq!(parsed.definitions.len(), 98);
}

#[test]
fn runtime_rules_load_skill_registry_and_definitions_v2() {
    let rules = sample_runtime_rules();
    assert!(rules.skill_runtime.registry.is_some());
    assert_eq!(rules.skill_runtime.definitions.len(), 98);
    assert_eq!(
        rules.skill_runtime.definitions[0]
            .classification
            .implementation_kind,
        "primitive"
    );
}

const INVALID: &str = r#"{
  "skill_definitions_v2": [
    {
      "skillId": 999,
      "pieceChars": ["仮"],
      "source": {
        "skillText": "invalid",
        "sourceKind": "manual",
        "sourceFile": "manual",
        "sourceFunction": "manual"
      },
      "classification": { "implementationKind": "primitive", "tags": [] },
      "trigger": { "group": "event_move", "type": "not_exists" },
      "conditions": [],
      "effects": [
        {
          "order": 1,
          "group": "piece_position",
          "type": "forced_move",
          "target": { "group": "adjacent", "selector": "adjacent_enemy" },
          "params": {}
        }
      ],
      "scriptHook": null
    }
  ]
}"#;

#[test]
fn runtime_rules_reject_invalid_skill_definition() {
    let err = parse_runtime_rules(&read(INVALID))
        .err()
        .expect("invalid definition must be rejected");
    assert!(err.contains("unknown trigger option"));
    assert_eq!(err, "unknown trigger option: event_move/not_exists");
}

#[test]
fn waterfall_sample_is_a_primitive_forced_move_skill() {
    let definition = sample_skill_by_id(65);
    assert_eq!(definition.classification.implementation_kind, "primitive");
    assert_eq!(definition.trigger.group, "event_move");
    assert_eq!(definition.trigger.type_code, "after_move");
    assert_eq!(definition.conditions.len(), 2);
    assert_eq!(definition.effects.len(), 1);

    let effect = &definition.effects[0];
    assert_eq!(effect.group, "piece_position");
    assert_eq!(effect.type_code, "forced_move");
    assert_eq!(effect.target.group, "adjacent");
    assert_eq!(effect.target.selector, "adjacent_enemy");
    assert_eq!(text_param(&effect.params, "movementRule"), "push_away");
}

#[test]
fn rainbow_sample_is_a_composite_with_stable_effect_order() {
    let definition = sample_skill_by_id(26);
    assert_eq!(definition.classification.implementation_kind, "composite");
    assert_eq!(definition.trigger.group, "continuous");
    assert_eq!(definition.trigger.type_code, "continuous_rule");
    assert!(definition.conditions.is_empty());
    assert_eq!(definition.effects.len(), 2);

    assert_eq!(definition.effects[0].order, 1);
    assert_eq!(definition.effects[0].target.selector, "self_piece");
    assert_eq!(definition.effects[1].order, 2);
    assert_eq!(definition.effects[1].target.selector, "adjacent_enemy");
    assert_eq!(int_param(&definition.effects[1].params, "durationTurns"), 1);
}

#[test]
fn reflection_sample_is_a_script_hook_without_common_effects() {
    let definition = sample_skill_by_id(9);
    assert_eq!(definition.classification.implementation_kind, "script_hook");
    assert_eq!(definition.trigger.group, "event_move");
    assert_eq!(definition.trigger.type_code, "after_move");
    assert!(definition.conditions.is_empty());
    assert!(definition.effects.is_empty());
    assert_eq!(
        definition.script_hook.as_deref(),
        Some("reflect_until_blocked")
    );
}

#[test]
fn batch_j_script_hook_samples_use_named_hooks_and_empty_effects() {
    for (skill_id, hook, condition_len) in [
        (97_u64, "bomb_explosion_push", 0_usize),
        (99_u64, "safe_room_king_relocation", 1_usize),
        (100_u64, "fixed_next_turn_restriction", 0_usize),
        (103_u64, "edge_line_imprison", 0_usize),
        (106_u64, "escape_king_follow", 0_usize),
    ] {
        let definition = sample_skill_by_id(skill_id);
        assert_eq!(definition.classification.implementation_kind, "script_hook");
        assert_eq!(definition.trigger.group, "event_move");
        assert_eq!(definition.trigger.type_code, "after_move");
        assert_eq!(definition.conditions.len(), condition_len);
        assert!(definition.effects.is_empty());
        assert_eq!(definition.script_hook.as_deref(), Some(hook));
    }
    assert_eq!(
        sample_skill_by_id(99).conditions[0].type_code,
        "chance_roll"
    );
}

#[test]
fn darkness_sample_is_a_primitive_apply_status_skill() {
    let definition = sample_skill_by_id(11);
    assert_eq!(definition.classification.implementation_kind, "primitive");
    assert_eq!(definition.trigger.group, "continuous");
    assert_eq!(definition.trigger.type_code, "continuous_aura");
    assert_eq!(definition.conditions.len(), 1);
    assert_eq!(definition.effects.len(), 1);

    let effect = &definition.effects[0];
    assert_eq!(effect.group, "piece_state");
    assert_eq!(effect.type_code, "apply_status");
    assert_eq!(effect.target.group, "adjacent");
    assert_eq!(effect.target.selector, "adjacent_enemy");
    assert_eq!(text_param(&effect.params, "statusType"), "dark_blind");
    assert_eq!(int_param(&effect.params, "durationTurns"), 1);
}

#[test]
fn moss_sample_is_a_primitive_summon_piece_skill() {
    let definition = sample_skill_by_id(23);
    assert_eq!(definition.classification.implementation_kind, "primitive");
    assert_eq!(definition.trigger.group, "event_move");
    assert_eq!(definition.trigger.type_code, "after_move");
    assert_eq!(definition.conditions.len(), 1);
    assert_eq!(definition.effects.len(), 1);

    let effect = &definition.effects[0];
    assert_eq!(effect.group, "piece_generation");
    assert_eq!(effect.type_code, "summon_piece");
    assert_eq!(effect.target.group, "adjacent");
    assert_eq!(effect.target.selector, "adjacent_empty");
    assert_eq!(text_param(&effect.params, "summonPiece"), "self_clone");
}

#[test]
fn lantern_sample_is_a_primitive_transform_piece_skill() {
    let definition = sample_skill_by_id(93);
    assert_eq!(definition.classification.implementation_kind, "primitive");
    assert_eq!(definition.trigger.group, "event_move");
    assert_eq!(definition.trigger.type_code, "after_move");
    assert_eq!(definition.conditions.len(), 2);
    assert_eq!(definition.effects.len(), 1);

    let effect = &definition.effects[0];
    assert_eq!(effect.group, "piece_generation");
    assert_eq!(effect.type_code, "transform_piece");
    assert_eq!(effect.target.group, "global");
    assert_eq!(effect.target.selector, "all_ally");
    assert_eq!(text_param(&effect.params, "fromPieceCode"), "FU");
    assert_eq!(text_param(&effect.params, "toPieceChar"), "火");
}

#[test]
fn tin_sample_is_a_probability_gated_apply_status_skill() {
    let definition = sample_skill_by_id(14);
    assert_eq!(definition.classification.implementation_kind, "primitive");
    assert_eq!(definition.trigger.group, "continuous");
    assert_eq!(definition.trigger.type_code, "continuous_aura");
    assert_eq!(definition.conditions.len(), 2);
    assert_eq!(definition.effects.len(), 1);

    let effect = &definition.effects[0];
    assert_eq!(effect.group, "piece_state");
    assert_eq!(effect.type_code, "apply_status");
    assert_eq!(effect.target.selector, "adjacent_enemy");
    assert_eq!(text_param(&effect.params, "statusType"), "stun");
}

#[test]
fn bulls_sample_is_a_probability_gated_self_clone_summon() {
    let definition = sample_skill_by_id(58);
    assert_eq!(definition.classification.implementation_kind, "primitive");
    assert_eq!(definition.trigger.group, "event_move");
    assert_eq!(definition.trigger.type_code, "after_move");
    assert_eq!(definition.conditions.len(), 2);
    assert_eq!(definition.effects.len(), 1);

    let effect = &definition.effects[0];
    assert_eq!(effect.group, "piece_generation");
    assert_eq!(effect.type_code, "summon_piece");
    assert_eq!(effect.target.selector, "adjacent_empty");
    assert_eq!(text_param(&effect.params, "summonPiece"), "self_clone");
}

#[test]
fn a_sample_transforms_adjacent_enemy_into_a_pawn() {
    let definition = sample_skill_by_id(30);
    assert_eq!(definition.classification.implementation_kind, "primitive");
    assert_eq!(definition.trigger.group, "continuous");
    assert_eq!(definition.trigger.type_code, "continuous_aura");
    assert_eq!(definition.conditions.len(), 2);
    assert_eq!(definition.effects.len(), 1);

    let effect = &definition.effects[0];
    assert_eq!(effect.group, "piece_generation");
    assert_eq!(effect.type_code, "transform_piece");
    assert_eq!(effect.target.selector, "adjacent_enemy");
    assert_eq!(text_param(&effect.params, "toPieceCode"), "FU");
}

#[test]
fn water_sample_is_a_continuous_forced_move_skill() {
    let definition = sample_skill_by_id(5);
    assert_eq!(definition.classification.implementation_kind, "primitive");
    assert_eq!(definition.trigger.group, "continuous");
    assert_eq!(definition.trigger.type_code, "continuous_aura");
    assert_eq!(definition.conditions.len(), 1);
    assert_eq!(definition.effects.len(), 1);

    let effect = &definition.effects[0];
    assert_eq!(effect.type_code, "forced_move");
    assert_eq!(effect.target.selector, "adjacent_enemy");
    assert_eq!(text_param(&effect.params, "movementRule"), "push_away");
}

#[test]
fn wave_sample_is_a_continuous_forced_move_skill() {
    let definition = sample_skill_by_id(6);
    assert_eq!(definition.classification.implementation_kind, "primitive");
    assert_eq!(definition.trigger.group, "continuous");
    assert_eq!(definition.trigger.type_code, "continuous_aura");
    assert_eq!(definition.effects[0].type_code, "forced_move");
}

#[test]
fn wind_sample_is_a_continuous_forced_move_skill() {
    let definition = sample_skill_by_id(22);
    assert_eq!(definition.classification.implementation_kind, "primitive");
    assert_eq!(definition.trigger.group, "continuous");
    assert_eq!(definition.trigger.type_code, "continuous_aura");
    assert_eq!(definition.effects[0].type_code, "forced_move");
}

#[test]
fn time_sample_is_a_continuous_apply_status_skill() {
    let definition = sample_skill_by_id(18);
    assert_eq!(definition.classification.implementation_kind, "primitive");
    assert_eq!(definition.trigger.group, "continuous");
    assert_eq!(definition.trigger.type_code, "continuous_aura");
    assert_eq!(definition.conditions.len(), 1);
    assert_eq!(definition.effects.len(), 1);
    assert_eq!(definition.effects[0].type_code, "apply_status");
    assert_eq!(text_param(&definition.effects[0].params, "statusType"), "time_stop");
    assert_eq!(int_param(&definition.effects[0].params, "durationTurns"), 2);
}

#[test]
fn ice_sample_is_a_continuous_apply_status_skill() {
    let definition = sample_skill_by_id(19);
    assert_eq!(definition.classification.implementation_kind, "primitive");
    assert_eq!(definition.trigger.group, "continuous");
    assert_eq!(definition.trigger.type_code, "continuous_aura");
    assert_eq!(definition.effects[0].type_code, "apply_status");
    assert_eq!(text_param(&definition.effects[0].params, "statusType"), "freeze");
    assert_eq!(int_param(&definition.effects[0].params, "durationTurns"), 2);
}

#[test]
fn heart_sample_is_an_after_move_apply_status_skill() {
    let definition = sample_skill_by_id(74);
    assert_eq!(definition.classification.implementation_kind, "primitive");
    assert_eq!(definition.trigger.group, "event_move");
    assert_eq!(definition.trigger.type_code, "after_move");
    assert_eq!(definition.effects[0].type_code, "apply_status");
    assert_eq!(text_param(&definition.effects[0].params, "statusType"), "stun");
    assert_eq!(int_param(&definition.effects[0].params, "durationTurns"), 1);
}

#[test]
fn fish_sample_is_a_probability_gated_apply_status_skill() {
    let definition = sample_skill_by_id(24);
    assert_eq!(definition.classification.implementation_kind, "primitive");
    assert_eq!(definition.trigger.group, "continuous");
    assert_eq!(definition.trigger.type_code, "continuous_aura");
    assert_eq!(definition.conditions.len(), 2);
    assert_eq!(definition.effects.len(), 1);
    assert_eq!(definition.effects[0].type_code, "apply_status");
    assert_eq!(text_param(&definition.effects[0].params, "statusType"), "drown");
    assert_eq!(int_param(&definition.effects[0].params, "durationTurns"), 1);
}

#[test]
fn prison_sample_is_an_after_move_apply_status_skill() {
    let definition = sample_skill_by_id(31);
    assert_eq!(definition.classification.implementation_kind, "primitive");
    assert_eq!(definition.trigger.group, "event_move");
    assert_eq!(definition.trigger.type_code, "after_move");
    assert_eq!(definition.conditions.len(), 1);
    assert_eq!(definition.effects.len(), 1);
    assert_eq!(definition.effects[0].type_code, "apply_status");
    assert_eq!(text_param(&definition.effects[0].params, "statusType"), "stun");
    assert_eq!(int_param(&definition.effects[0].params, "durationTurns"), 2);
}

#[test]
fn beast_sample_is_an_after_move_apply_status_skill() {
    let definition = sample_skill_by_id(72);
    assert_eq!(definition.classification.implementation_kind, "primitive");
    assert_eq!(definition.trigger.group, "event_move");
    assert_eq!(definition.trigger.type_code, "after_move");
    assert_eq!(definition.conditions.len(), 1);
    assert_eq!(definition.effects.len(), 1);
    assert_eq!(definition.effects[0].type_code, "apply_status");
    assert_eq!(text_param(&definition.effects[0].params, "statusType"), "stun");
    assert_eq!(int_param(&definition.effects[0].params, "durationTurns"), 2);
}

#[test]
fn flame_sample_is_a_probability_gated_remove_piece_skill() {
    let definition = sample_skill_by_id(3);
    assert_eq!(definition.classification.implementation_kind, "primitive");
    assert_eq!(definition.trigger.group, "continuous");
    assert_eq!(definition.trigger.type_code, "continuous_aura");
    assert_eq!(definition.conditions.len(), 2);
    assert_eq!(definition.effects.len(), 1);
    assert_eq!(definition.effects[0].type_code, "remove_piece");
    assert_eq!(definition.effects[0].target.selector, "adjacent_enemy");
}

#[test]
fn demon_sample_is_a_probability_gated_remove_piece_skill() {
    let definition = sample_skill_by_id(12);
    assert_eq!(definition.classification.implementation_kind, "primitive");
    assert_eq!(definition.trigger.group, "continuous");
    assert_eq!(definition.trigger.type_code, "continuous_aura");
    assert_eq!(definition.conditions.len(), 2);
    assert_eq!(definition.effects.len(), 1);
    assert_eq!(definition.effects[0].type_code, "remove_piece");
    assert_eq!(definition.effects[0].target.selector, "adjacent_enemy");
}

#[test]
fn awakened_dragon_sample_is_a_probability_gated_remove_piece_skill() {
    let definition = sample_skill_by_id(48);
    assert_eq!(definition.classification.implementation_kind, "primitive");
    assert_eq!(definition.trigger.group, "event_move");
    assert_eq!(definition.trigger.type_code, "after_move");
    assert_eq!(definition.conditions.len(), 2);
    assert_eq!(definition.effects.len(), 1);
    assert_eq!(definition.effects[0].type_code, "remove_piece");
    assert_eq!(definition.effects[0].target.selector, "adjacent_enemy");
}

#[test]
fn second_sample_is_an_after_capture_extra_action_skill() {
    let definition = sample_skill_by_id(76);
    assert_eq!(definition.classification.implementation_kind, "primitive");
    assert_eq!(definition.trigger.group, "event_capture");
    assert_eq!(definition.trigger.type_code, "after_capture");
    assert!(definition.conditions.is_empty());
    assert_eq!(definition.effects.len(), 1);
    assert_eq!(definition.effects[0].group, "action_economy");
    assert_eq!(definition.effects[0].type_code, "extra_action");
}

#[test]
fn convex_sample_is_an_after_move_extra_action_skill() {
    let definition = sample_skill_by_id(81);
    assert_eq!(definition.classification.implementation_kind, "primitive");
    assert_eq!(definition.trigger.group, "event_move");
    assert_eq!(definition.trigger.type_code, "after_move");
    assert!(definition.conditions.is_empty());
    assert_eq!(definition.effects.len(), 1);
    assert_eq!(definition.effects[0].group, "action_economy");
    assert_eq!(definition.effects[0].type_code, "extra_action");
}

#[test]
fn stir_fry_sample_is_an_after_capture_extra_action_skill() {
    let definition = sample_skill_by_id(83);
    assert_eq!(definition.classification.implementation_kind, "primitive");
    assert_eq!(definition.trigger.group, "event_capture");
    assert_eq!(definition.trigger.type_code, "after_capture");
    assert!(definition.conditions.is_empty());
    assert_eq!(definition.effects.len(), 1);
    assert_eq!(definition.effects[0].group, "action_economy");
    assert_eq!(definition.effects[0].type_code, "extra_action");
}

#[test]
fn iron_sample_is_a_continuous_forced_move_skill() {
    let definition = sample_skill_by_id(13);
    assert_eq!(definition.classification.implementation_kind, "primitive");
    assert_eq!(definition.trigger.group, "continuous");
    assert_eq!(definition.trigger.type_code, "continuous_aura");
    assert_eq!(definition.conditions.len(), 1);
    assert_eq!(definition.effects.len(), 1);
    assert_eq!(definition.effects[0].type_code, "forced_move");
    assert_eq!(definition.effects[0].target.selector, "adjacent_enemy");
    assert_eq!(text_param(&definition.effects[0].params, "movementRule"), "push_away");
}

#[test]
fn roar_sample_is_an_after_move_forced_move_skill() {
    let definition = sample_skill_by_id(57);
    assert_eq!(definition.classification.implementation_kind, "primitive");
    assert_eq!(definition.trigger.group, "event_move");
    assert_eq!(definition.trigger.type_code, "after_move");
    assert_eq!(definition.conditions.len(), 1);
    assert_eq!(definition.effects.len(), 1);
    assert_eq!(definition.effects[0].type_code, "forced_move");
    assert_eq!(definition.effects[0].target.selector, "adjacent_enemy");
    assert_eq!(text_param(&definition.effects[0].params, "movementRule"), "push_away");
}

#[test]
fn oni_sample_is_an_after_move_forced_move_skill() {
    let definition = sample_skill_by_id(68);
    assert_eq!(definition.classification.implementation_kind, "primitive");
    assert_eq!(definition.trigger.group, "event_move");
    assert_eq!(definition.trigger.type_code, "after_move");
    assert_eq!(definition.conditions.len(), 1);
    assert_eq!(definition.effects.len(), 1);
    assert_eq!(definition.effects[0].type_code, "forced_move");
    assert_eq!(definition.effects[0].target.selector, "adjacent_enemy");
    assert_eq!(text_param(&definition.effects[0].params, "movementRule"), "push_away");
}

#[test]
fn ore_sample_is_a_probability_gated_ally_transform_skill() {
    let definition = sample_skill_by_id(35);
    assert_eq!(definition.classification.implementation_kind, "primitive");
    assert_eq!(definition.trigger.group, "continuous");
    assert_eq!(definition.trigger.type_code, "continuous_aura");
    assert_eq!(definition.conditions.len(), 2);
    assert_eq!(definition.effects.len(), 1);
    assert_eq!(definition.effects[0].type_code, "transform_piece");
    assert_eq!(definition.effects[0].target.selector, "all_ally");
    assert_eq!(text_param(&definition.effects[0].params, "fromPieceCode"), "FU");
    assert_eq!(text_param(&definition.effects[0].params, "toPieceChar"), "金");
}

#[test]
fn experiment_sample_is_an_adjacent_enemy_transform_skill() {
    let definition = sample_skill_by_id(50);
    assert_eq!(definition.classification.implementation_kind, "primitive");
    assert_eq!(definition.trigger.group, "continuous");
    assert_eq!(definition.trigger.type_code, "continuous_aura");
    assert_eq!(definition.conditions.len(), 2);
    assert_eq!(definition.effects.len(), 1);
    assert_eq!(definition.effects[0].type_code, "transform_piece");
    assert_eq!(definition.effects[0].target.selector, "adjacent_enemy");
    assert_eq!(text_param(&definition.effects[0].params, "toPieceChar"), "異");
}

#[test]
fn coin_sample_is_a_probability_gated_self_transform_skill() {
    let definition = sample_skill_by_id(89);
    assert_eq!(definition.classification.implementation_kind, "primitive");
    assert_eq!(definition.trigger.group, "event_move");
    assert_eq!(definition.trigger.type_code, "after_move");
    assert_eq!(definition.conditions.len(), 1);
    assert_eq!(definition.effects.len(), 1);
    assert_eq!(definition.effects[0].type_code, "transform_piece");
    assert_eq!(definition.effects[0].target.selector, "self_piece");
    assert_eq!(text_param(&definition.effects[0].params, "toPieceChar"), "金");
}

#[test]
fn tree_sample_is_a_continuous_summon_piece_skill() {
    let definition = sample_skill_by_id(7);
    assert_eq!(definition.classification.implementation_kind, "primitive");
    assert_eq!(definition.trigger.group, "continuous");
    assert_eq!(definition.trigger.type_code, "continuous_aura");
    assert_eq!(definition.conditions.len(), 1);
    assert_eq!(definition.effects.len(), 1);
    assert_eq!(definition.effects[0].type_code, "summon_piece");
    assert_eq!(definition.effects[0].target.selector, "adjacent_empty");
    assert_eq!(text_param(&definition.effects[0].params, "summonPieceChar"), "木");
}

#[test]
fn ridge_sample_is_a_probability_gated_summon_piece_skill() {
    let definition = sample_skill_by_id(32);
    assert_eq!(definition.classification.implementation_kind, "primitive");
    assert_eq!(definition.trigger.group, "event_move");
    assert_eq!(definition.trigger.type_code, "after_move");
    assert_eq!(definition.conditions.len(), 2);
    assert_eq!(definition.effects.len(), 1);
    assert_eq!(definition.effects[0].type_code, "summon_piece");
    assert_eq!(definition.effects[0].target.selector, "adjacent_empty");
    assert_eq!(text_param(&definition.effects[0].params, "summonPieceChar"), "山");
}

#[test]
fn grave_sample_is_a_probability_gated_summon_piece_skill() {
    let definition = sample_skill_by_id(36);
    assert_eq!(definition.classification.implementation_kind, "primitive");
    assert_eq!(definition.trigger.group, "event_move");
    assert_eq!(definition.trigger.type_code, "after_move");
    assert_eq!(definition.conditions.len(), 2);
    assert_eq!(definition.effects.len(), 1);
    assert_eq!(definition.effects[0].type_code, "summon_piece");
    assert_eq!(definition.effects[0].target.selector, "adjacent_empty");
    assert_eq!(text_param(&definition.effects[0].params, "summonPieceChar"), "霊");
}

#[test]
fn rock_sample_is_an_after_move_summon_piece_skill() {
    let definition = sample_skill_by_id(34);
    assert_eq!(definition.classification.implementation_kind, "primitive");
    assert_eq!(definition.trigger.group, "event_move");
    assert_eq!(definition.trigger.type_code, "after_move");
    assert_eq!(definition.conditions.len(), 1);
    assert_eq!(definition.effects.len(), 1);
    assert_eq!(definition.effects[0].type_code, "summon_piece");
    assert_eq!(definition.effects[0].target.selector, "adjacent_empty");
    assert_eq!(text_param(&definition.effects[0].params, "summonPieceChar"), "岩");
}

#[test]
fn roast_sample_is_an_after_capture_summon_piece_skill() {
    let definition = sample_skill_by_id(82);
    assert_eq!(definition.classification.implementation_kind, "primitive");
    assert_eq!(definition.trigger.group, "event_capture");
    assert_eq!(definition.trigger.type_code, "after_capture");
    assert_eq!(definition.conditions.len(), 1);
    assert_eq!(definition.effects.len(), 1);
    assert_eq!(definition.effects[0].type_code, "summon_piece");
    assert_eq!(definition.effects[0].target.selector, "adjacent_empty");
    assert_eq!(text_param(&definition.effects[0].params, "summonPieceChar"), "炎");
}

#[test]
fn boil_sample_is_an_after_capture_summon_piece_skill() {
    let definition = sample_skill_by_id(84);
    assert_eq!(definition.classification.implementation_kind, "primitive");
    assert_eq!(definition.trigger.group, "event_capture");
    assert_eq!(definition.trigger.type_code, "after_capture");
    assert_eq!(definition.conditions.len(), 1);
    assert_eq!(definition.effects.len(), 1);
    assert_eq!(definition.effects[0].type_code, "summon_piece");
    assert_eq!(definition.effects[0].target.selector, "adjacent_empty");
    assert_eq!(text_param(&definition.effects[0].params, "summonPieceChar"), "火");
}

#[test]
fn swamp_sample_is_a_continuous_adjacent_enemy_modify_movement_skill() {
    let definition = sample_skill_by_id(28);
    assert_eq!(definition.classification.implementation_kind, "primitive");
    assert_eq!(definition.trigger.group, "continuous");
    assert_eq!(definition.trigger.type_code, "continuous_aura");
    assert_eq!(definition.conditions.len(), 1);
    assert_eq!(definition.effects.len(), 1);
    assert_eq!(definition.effects[0].type_code, "modify_movement");
    assert_eq!(definition.effects[0].target.selector, "adjacent_enemy");
    assert_eq!(text_param(&definition.effects[0].params, "movementRule"), "vertical_step_only");
}

#[test]
fn cherry_sample_is_an_after_move_same_row_modify_movement_skill() {
    let definition = sample_skill_by_id(79);
    assert_eq!(definition.classification.implementation_kind, "primitive");
    assert_eq!(definition.trigger.group, "event_move");
    assert_eq!(definition.trigger.type_code, "after_move");
    assert!(definition.conditions.is_empty());
    assert_eq!(definition.effects.len(), 1);
    assert_eq!(definition.effects[0].type_code, "modify_movement");
    assert_eq!(definition.effects[0].target.selector, "same_row_ally");
    assert_eq!(text_param(&definition.effects[0].params, "movementRule"), "extend_range_by_one");
}

#[test]
fn concave_sample_is_a_continuous_self_modify_movement_skill() {
    let definition = sample_skill_by_id(80);
    assert_eq!(definition.classification.implementation_kind, "primitive");
    assert_eq!(definition.trigger.group, "continuous");
    assert_eq!(definition.trigger.type_code, "continuous_rule");
    assert!(definition.conditions.is_empty());
    assert_eq!(definition.effects.len(), 1);
    assert_eq!(definition.effects[0].type_code, "modify_movement");
    assert_eq!(definition.effects[0].target.selector, "self_piece");
    assert_eq!(text_param(&definition.effects[0].params, "movementRule"), "penetrate_to_edge");
}

#[test]
fn dragon_sample_is_a_continuous_self_transform_skill() {
    let definition = sample_skill_by_id(2);
    assert_eq!(definition.classification.implementation_kind, "primitive");
    assert_eq!(definition.trigger.group, "continuous");
    assert_eq!(definition.trigger.type_code, "continuous_rule");
    assert!(definition.conditions.is_empty());
    assert_eq!(definition.effects.len(), 1);
    assert_eq!(definition.effects[0].type_code, "transform_piece");
    assert_eq!(definition.effects[0].target.selector, "self_piece");
    assert_eq!(text_param(&definition.effects[0].params, "toPieceChar"), "辰");
}

#[test]
fn fire_sample_is_an_after_move_destroy_hand_piece_skill() {
    let definition = sample_skill_by_id(4);
    assert_eq!(definition.classification.implementation_kind, "primitive");
    assert_eq!(definition.trigger.group, "event_move");
    assert_eq!(definition.trigger.type_code, "after_move");
    assert_eq!(definition.conditions.len(), 1);
    assert_eq!(definition.effects.len(), 1);
    assert_eq!(definition.effects[0].type_code, "destroy_hand_piece");
    assert_eq!(definition.effects[0].target.selector, "enemy_hand_random");
}

#[test]
fn treasure_sample_is_a_probability_gated_gain_piece_skill() {
    let definition = sample_skill_by_id(15);
    assert_eq!(definition.classification.implementation_kind, "primitive");
    assert_eq!(definition.trigger.group, "continuous");
    assert_eq!(definition.trigger.type_code, "continuous_rule");
    assert_eq!(definition.conditions.len(), 1);
    assert_eq!(definition.effects.len(), 1);
    assert_eq!(definition.effects[0].type_code, "gain_piece");
    assert_eq!(definition.effects[0].target.selector, "ally_hand_piece");
    assert_eq!(text_param(&definition.effects[0].params, "gainPieceCode"), "KI");
}

#[test]
fn electric_sample_is_a_probability_gated_apply_status_skill() {
    let definition = sample_skill_by_id(16);
    assert_eq!(definition.classification.implementation_kind, "primitive");
    assert_eq!(definition.trigger.group, "continuous");
    assert_eq!(definition.trigger.type_code, "continuous_aura");
    assert_eq!(definition.conditions.len(), 2);
    assert_eq!(definition.effects.len(), 1);
    assert_eq!(definition.effects[0].type_code, "apply_status");
    assert_eq!(definition.effects[0].target.selector, "adjacent_enemy");
    assert_eq!(text_param(&definition.effects[0].params, "statusType"), "shock");
}

#[test]
fn thunder_sample_is_a_probability_gated_hand_remove_skill() {
    let definition = sample_skill_by_id(17);
    assert_eq!(definition.classification.implementation_kind, "primitive");
    assert_eq!(definition.trigger.group, "continuous");
    assert_eq!(definition.trigger.type_code, "continuous_rule");
    assert_eq!(definition.conditions.len(), 1);
    assert_eq!(definition.effects.len(), 1);
    assert_eq!(definition.effects[0].type_code, "remove_piece");
    assert_eq!(definition.effects[0].target.selector, "enemy_hand_random");
}

#[test]
fn house_sample_is_a_continuous_summon_piece_skill() {
    let definition = sample_skill_by_id(44);
    assert_eq!(definition.classification.implementation_kind, "primitive");
    assert_eq!(definition.trigger.group, "continuous");
    assert_eq!(definition.trigger.type_code, "continuous_aura");
    assert_eq!(definition.conditions.len(), 1);
    assert_eq!(definition.effects.len(), 1);
    assert_eq!(definition.effects[0].type_code, "summon_piece");
    assert_eq!(definition.effects[0].target.selector, "adjacent_empty");
    assert_eq!(text_param(&definition.effects[0].params, "summonPieceChar"), "民");
}

#[test]
fn people_sample_is_a_continuous_self_modify_movement_skill() {
    let definition = sample_skill_by_id(45);
    assert_eq!(definition.classification.implementation_kind, "primitive");
    assert_eq!(definition.trigger.group, "continuous");
    assert_eq!(definition.trigger.type_code, "continuous_rule");
    assert!(definition.conditions.is_empty());
    assert_eq!(definition.effects.len(), 1);
    assert_eq!(definition.effects[0].type_code, "modify_movement");
    assert_eq!(definition.effects[0].target.selector, "self_piece");
    assert_eq!(text_param(&definition.effects[0].params, "movementRule"), "diagonal_step_only");
}

#[test]
fn field_sample_is_a_continuous_self_modify_movement_skill() {
    let definition = sample_skill_by_id(46);
    assert_eq!(definition.classification.implementation_kind, "primitive");
    assert_eq!(definition.trigger.group, "continuous");
    assert_eq!(definition.trigger.type_code, "continuous_rule");
    assert!(definition.conditions.is_empty());
    assert_eq!(definition.effects.len(), 1);
    assert_eq!(definition.effects[0].type_code, "modify_movement");
    assert_eq!(definition.effects[0].target.selector, "self_piece");
    assert_eq!(text_param(&definition.effects[0].params, "movementRule"), "diagonal_step_only");
}

#[test]
fn medicine_sample_is_a_continuous_adjacent_ally_modify_movement_skill() {
    let definition = sample_skill_by_id(64);
    assert_eq!(definition.classification.implementation_kind, "primitive");
    assert_eq!(definition.trigger.group, "continuous");
    assert_eq!(definition.trigger.type_code, "continuous_aura");
    assert!(definition.conditions.is_empty());
    assert_eq!(definition.effects.len(), 1);
    assert_eq!(definition.effects[0].type_code, "modify_movement");
    assert_eq!(definition.effects[0].target.selector, "adjacent_ally");
    assert_eq!(text_param(&definition.effects[0].params, "movementRule"), "extend_range_by_one");
}

#[test]
fn depression_sample_is_an_after_move_origin_cell_apply_status_skill() {
    let definition = sample_skill_by_id(75);
    assert_eq!(definition.classification.implementation_kind, "primitive");
    assert_eq!(definition.trigger.group, "event_move");
    assert_eq!(definition.trigger.type_code, "after_move");
    assert!(definition.conditions.is_empty());
    assert_eq!(definition.effects.len(), 1);
    assert_eq!(definition.effects[0].type_code, "apply_status");
    assert_eq!(definition.effects[0].target.selector, "origin_cell");
    assert_eq!(text_param(&definition.effects[0].params, "statusType"), "blocked_cell");
}

#[test]
fn sand_sample_is_an_after_move_linked_action_skill() {
    let definition = sample_skill_by_id(21);
    assert_eq!(definition.classification.implementation_kind, "primitive");
    assert_eq!(definition.trigger.group, "event_move");
    assert_eq!(definition.trigger.type_code, "after_move");
    assert!(definition.conditions.is_empty());
    assert_eq!(definition.effects.len(), 1);
    assert_eq!(definition.effects[0].type_code, "linked_action");
    assert_eq!(definition.effects[0].target.selector, "same_row_ally");
}

#[test]
fn poison_sample_is_an_after_move_board_hazard_skill() {
    let definition = sample_skill_by_id(27);
    assert_eq!(definition.classification.implementation_kind, "primitive");
    assert_eq!(definition.trigger.group, "event_move");
    assert_eq!(definition.trigger.type_code, "after_move");
    assert!(definition.conditions.is_empty());
    assert_eq!(definition.effects.len(), 1);
    assert_eq!(definition.effects[0].type_code, "board_hazard");
    assert_eq!(definition.effects[0].target.selector, "origin_cell");
}

#[test]
fn mirror_sample_is_a_continuous_copy_ability_skill() {
    let definition = sample_skill_by_id(29);
    assert_eq!(definition.classification.implementation_kind, "primitive");
    assert_eq!(definition.trigger.group, "continuous");
    assert_eq!(definition.trigger.type_code, "continuous_aura");
    assert!(definition.conditions.is_empty());
    assert_eq!(definition.effects.len(), 1);
    assert_eq!(definition.effects[0].type_code, "copy_ability");
    assert_eq!(definition.effects[0].target.selector, "front_enemy");
}

#[test]
fn phantom_sample_is_a_probability_gated_defense_skill() {
    let definition = sample_skill_by_id(38);
    assert_eq!(definition.classification.implementation_kind, "primitive");
    assert_eq!(definition.trigger.group, "continuous");
    assert_eq!(definition.trigger.type_code, "continuous_rule");
    assert_eq!(definition.conditions.len(), 1);
    assert_eq!(definition.effects.len(), 1);
    assert_eq!(definition.effects[0].type_code, "defense_or_immunity");
    assert_eq!(definition.effects[0].target.selector, "self_piece");
}

#[test]
fn boat_sample_is_an_after_move_linked_action_skill() {
    let definition = sample_skill_by_id(41);
    assert_eq!(definition.classification.implementation_kind, "primitive");
    assert_eq!(definition.trigger.group, "event_move");
    assert_eq!(definition.trigger.type_code, "after_move");
    assert!(definition.conditions.is_empty());
    assert_eq!(definition.effects.len(), 1);
    assert_eq!(definition.effects[0].type_code, "linked_action");
    assert_eq!(definition.effects[0].target.selector, "adjacent_ally");
}

#[test]
fn machine_sample_is_a_continuous_copy_ability_skill() {
    let definition = sample_skill_by_id(42);
    assert_eq!(definition.classification.implementation_kind, "primitive");
    assert_eq!(definition.trigger.group, "continuous");
    assert_eq!(definition.trigger.type_code, "continuous_aura");
    assert!(definition.conditions.is_empty());
    assert_eq!(definition.effects.len(), 1);
    assert_eq!(definition.effects[0].type_code, "copy_ability");
    assert_eq!(definition.effects[0].target.selector, "adjacent_ally");
}

#[test]
fn armor_sample_is_a_continuous_defense_skill() {
    let definition = sample_skill_by_id(53);
    assert_eq!(definition.classification.implementation_kind, "primitive");
    assert_eq!(definition.trigger.group, "continuous");
    assert_eq!(definition.trigger.type_code, "continuous_rule");
    assert!(definition.conditions.is_empty());
    assert_eq!(definition.effects.len(), 1);
    assert_eq!(definition.effects[0].type_code, "defense_or_immunity");
    assert_eq!(definition.effects[0].target.selector, "self_piece");
}

#[test]
fn holy_sword_sample_is_a_continuous_defense_skill() {
    let definition = sample_skill_by_id(61);
    assert_eq!(definition.classification.implementation_kind, "primitive");
    assert_eq!(definition.trigger.group, "continuous");
    assert_eq!(definition.trigger.type_code, "continuous_rule");
    assert_eq!(definition.conditions.len(), 1);
    assert_eq!(definition.effects.len(), 1);
    assert_eq!(definition.effects[0].type_code, "defense_or_immunity");
    assert_eq!(definition.effects[0].target.selector, "self_piece");
}

#[test]
fn rose_sample_is_a_continuous_board_hazard_skill() {
    let definition = sample_skill_by_id(77);
    assert_eq!(definition.classification.implementation_kind, "primitive");
    assert_eq!(definition.trigger.group, "continuous");
    assert_eq!(definition.trigger.type_code, "continuous_aura");
    assert_eq!(definition.conditions.len(), 1);
    assert_eq!(definition.effects.len(), 1);
    assert_eq!(definition.effects[0].type_code, "board_hazard");
    assert_eq!(definition.effects[0].target.selector, "adjacent_empty");
}

#[test]
fn chrysanthemum_sample_is_a_continuous_revive_skill() {
    let definition = sample_skill_by_id(78);
    assert_eq!(definition.classification.implementation_kind, "primitive");
    assert_eq!(definition.trigger.group, "continuous");
    assert_eq!(definition.trigger.type_code, "continuous_aura");
    assert!(definition.conditions.is_empty());
    assert_eq!(definition.effects.len(), 1);
    assert_eq!(definition.effects[0].type_code, "revive");
    assert_eq!(definition.effects[0].target.selector, "adjacent_ally");
}

#[test]
fn cloud_sample_is_a_continuous_capture_constraint_skill() {
    let definition = sample_skill_by_id(25);
    assert_eq!(definition.classification.implementation_kind, "primitive");
    assert_eq!(definition.trigger.group, "continuous");
    assert_eq!(definition.trigger.type_code, "continuous_rule");
    assert!(definition.conditions.is_empty());
    assert_eq!(definition.effects.len(), 1);
    assert_eq!(definition.effects[0].type_code, "capture_constraint");
    assert_eq!(definition.effects[0].target.selector, "self_piece");
}

#[test]
fn peak_sample_is_a_continuous_disable_piece_skill() {
    let definition = sample_skill_by_id(33);
    assert_eq!(definition.classification.implementation_kind, "primitive");
    assert_eq!(definition.trigger.group, "continuous");
    assert_eq!(definition.trigger.type_code, "continuous_rule");
    assert_eq!(definition.conditions.len(), 1);
    assert_eq!(definition.effects.len(), 1);
    assert_eq!(definition.effects[0].type_code, "disable_piece");
    assert_eq!(definition.effects[0].target.selector, "adjacent_enemy");
}

#[test]
fn spirit_sample_is_a_continuous_capture_constraint_skill() {
    let definition = sample_skill_by_id(37);
    assert_eq!(definition.classification.implementation_kind, "primitive");
    assert_eq!(definition.trigger.group, "continuous");
    assert_eq!(definition.trigger.type_code, "continuous_rule");
    assert!(definition.conditions.is_empty());
    assert_eq!(definition.effects.len(), 1);
    assert_eq!(definition.effects[0].type_code, "capture_constraint");
    assert_eq!(definition.effects[0].target.selector, "self_piece");
}

#[test]
fn mist_sample_is_an_after_move_send_to_hand_skill() {
    let definition = sample_skill_by_id(39);
    assert_eq!(definition.classification.implementation_kind, "primitive");
    assert_eq!(definition.trigger.group, "event_move");
    assert_eq!(definition.trigger.type_code, "after_move");
    assert_eq!(definition.conditions.len(), 2);
    assert_eq!(definition.effects.len(), 1);
    assert_eq!(definition.effects[0].type_code, "send_to_hand");
    assert_eq!(definition.effects[0].target.selector, "adjacent_enemy");
}

#[test]
fn gear_sample_is_an_after_move_linked_action_skill() {
    let definition = sample_skill_by_id(43);
    assert_eq!(definition.classification.implementation_kind, "primitive");
    assert_eq!(definition.trigger.group, "event_move");
    assert_eq!(definition.trigger.type_code, "after_move");
    assert!(definition.conditions.is_empty());
    assert_eq!(definition.effects.len(), 1);
    assert_eq!(definition.effects[0].type_code, "linked_action");
    assert_eq!(definition.effects[0].target.selector, "adjacent_ally");
}

#[test]
fn saint_sample_is_a_continuous_disable_piece_skill() {
    let definition = sample_skill_by_id(60);
    assert_eq!(definition.classification.implementation_kind, "primitive");
    assert_eq!(definition.trigger.group, "continuous");
    assert_eq!(definition.trigger.type_code, "continuous_aura");
    assert_eq!(definition.conditions.len(), 1);
    assert_eq!(definition.effects.len(), 1);
    assert_eq!(definition.effects[0].type_code, "disable_piece");
    assert_eq!(definition.effects[0].target.selector, "adjacent_enemy");
}

#[test]
fn shield_sample_is_a_probability_gated_disable_piece_skill() {
    let definition = sample_skill_by_id(62);
    assert_eq!(definition.classification.implementation_kind, "primitive");
    assert_eq!(definition.trigger.group, "continuous");
    assert_eq!(definition.trigger.type_code, "continuous_aura");
    assert_eq!(definition.conditions.len(), 1);
    assert_eq!(definition.effects.len(), 1);
    assert_eq!(definition.effects[0].type_code, "disable_piece");
    assert_eq!(definition.effects[0].target.selector, "adjacent_ally");
}

#[test]
fn hole_sample_is_an_after_capture_board_hazard_skill() {
    let definition = sample_skill_by_id(66);
    assert_eq!(definition.classification.implementation_kind, "primitive");
    assert_eq!(definition.trigger.group, "event_capture");
    assert_eq!(definition.trigger.type_code, "after_capture");
    assert_eq!(definition.conditions.len(), 1);
    assert_eq!(definition.effects.len(), 1);
    assert_eq!(definition.effects[0].type_code, "board_hazard");
    assert_eq!(definition.effects[0].target.selector, "adjacent_empty");
}

#[test]
fn oboro_sample_is_a_continuous_defense_skill() {
    let definition = sample_skill_by_id(69);
    assert_eq!(definition.classification.implementation_kind, "primitive");
    assert_eq!(definition.trigger.group, "continuous");
    assert_eq!(definition.trigger.type_code, "continuous_rule");
    assert!(definition.conditions.is_empty());
    assert_eq!(definition.effects.len(), 1);
    assert_eq!(definition.effects[0].type_code, "defense_or_immunity");
    assert_eq!(definition.effects[0].target.selector, "self_piece");
}

#[test]
fn bird_sample_is_an_after_move_adjacent_ally_defense_skill() {
    let definition = sample_skill_by_id(73);
    assert_eq!(definition.classification.implementation_kind, "primitive");
    assert_eq!(definition.trigger.group, "event_move");
    assert_eq!(definition.trigger.type_code, "after_move");
    assert!(definition.conditions.is_empty());
    assert_eq!(definition.effects.len(), 1);
    assert_eq!(definition.effects[0].type_code, "defense_or_immunity");
    assert_eq!(definition.effects[0].target.selector, "adjacent_ally");
}

#[test]
fn death_sample_is_a_continuous_adjacent_enemy_remove_piece_skill() {
    let definition = sample_skill_by_id(70);
    assert_eq!(definition.classification.implementation_kind, "primitive");
    assert_eq!(definition.trigger.group, "continuous");
    assert_eq!(definition.trigger.type_code, "continuous_rule");
    assert_eq!(definition.conditions.len(), 1);
    assert_eq!(definition.effects.len(), 1);
    assert_eq!(definition.effects[0].type_code, "remove_piece");
    assert_eq!(definition.effects[0].target.selector, "adjacent_enemy");
}

#[test]
fn soul_sample_is_a_continuous_defense_skill() {
    let definition = sample_skill_by_id(71);
    assert_eq!(definition.classification.implementation_kind, "primitive");
    assert_eq!(definition.trigger.group, "continuous");
    assert_eq!(definition.trigger.type_code, "continuous_rule");
    assert!(definition.conditions.is_empty());
    assert_eq!(definition.effects.len(), 1);
    assert_eq!(definition.effects[0].type_code, "defense_or_immunity");
    assert_eq!(definition.effects[0].target.selector, "self_piece");
}

#[test]
fn yin_sample_is_a_composite_defense_skill() {
    let definition = sample_skill_by_id(86);
    assert_eq!(definition.classification.implementation_kind, "composite");
    assert_eq!(definition.trigger.group, "continuous");
    assert_eq!(definition.trigger.type_code, "continuous_aura");
    assert!(definition.conditions.is_empty());
    assert_eq!(definition.effects.len(), 2);
    assert_eq!(definition.effects[0].type_code, "seal_skill");
    assert_eq!(definition.effects[1].type_code, "defense_or_immunity");
    assert_eq!(definition.effects[1].target.selector, "self_piece");
}

#[test]
fn cow_sample_is_a_composite_backward_step_modify_movement_skill() {
    let definition = sample_skill_by_id(87);
    assert_eq!(definition.classification.implementation_kind, "composite");
    assert_eq!(definition.trigger.group, "event_move");
    assert_eq!(definition.trigger.type_code, "after_move");
    assert!(definition.conditions.is_empty());
    assert_eq!(definition.effects.len(), 2);
    assert_eq!(definition.effects[0].type_code, "modify_movement");
    assert_eq!(definition.effects[0].target.selector, "self_piece");
    assert_eq!(text_param(&definition.effects[0].params, "movementRule"), "backward_step_only");
    assert_eq!(definition.effects[1].type_code, "multi_capture");
}

#[test]
fn wealth_sample_is_an_after_capture_adjacent_enemy_transform_skill() {
    let definition = sample_skill_by_id(90);
    assert_eq!(definition.classification.implementation_kind, "primitive");
    assert_eq!(definition.trigger.group, "event_capture");
    assert_eq!(definition.trigger.type_code, "after_capture");
    assert_eq!(definition.conditions.len(), 1);
    assert_eq!(definition.effects.len(), 1);
    assert_eq!(definition.effects[0].type_code, "transform_piece");
    assert_eq!(definition.effects[0].target.selector, "adjacent_enemy");
}

#[test]
fn giant_sample_is_a_composite_multi_defense_skill() {
    let definition = sample_skill_by_id(91);
    assert_eq!(definition.classification.implementation_kind, "composite");
    assert_eq!(definition.trigger.group, "continuous");
    assert_eq!(definition.trigger.type_code, "continuous_rule");
    assert!(definition.conditions.is_empty());
    assert_eq!(definition.effects.len(), 3);
    assert_eq!(definition.effects[0].type_code, "defense_or_immunity");
    assert_eq!(definition.effects[1].type_code, "defense_or_immunity");
    assert_eq!(definition.effects[2].type_code, "multi_capture");
}

#[test]
fn snowman_sample_is_a_probability_gated_gain_piece_skill() {
    let definition = sample_skill_by_id(20);
    assert_eq!(definition.classification.implementation_kind, "primitive");
    assert_eq!(definition.trigger.group, "event_move");
    assert_eq!(definition.trigger.type_code, "after_move");
    assert_eq!(definition.conditions.len(), 1);
    assert_eq!(definition.effects.len(), 1);
    assert_eq!(definition.effects[0].type_code, "gain_piece");
    assert_eq!(definition.effects[0].target.selector, "ally_hand_piece");
}

#[test]
fn mutant_sample_is_a_continuous_self_transform_skill() {
    let definition = sample_skill_by_id(51);
    assert_eq!(definition.classification.implementation_kind, "primitive");
    assert_eq!(definition.trigger.group, "continuous");
    assert_eq!(definition.trigger.type_code, "continuous_rule");
    assert!(definition.conditions.is_empty());
    assert_eq!(definition.effects.len(), 1);
    assert_eq!(definition.effects[0].type_code, "transform_piece");
    assert_eq!(definition.effects[0].target.selector, "self_piece");
}

#[test]
fn disease_sample_is_an_after_capture_apply_status_skill() {
    let definition = sample_skill_by_id(63);
    assert_eq!(definition.classification.implementation_kind, "primitive");
    assert_eq!(definition.trigger.group, "event_capture");
    assert_eq!(definition.trigger.type_code, "after_capture");
    assert_eq!(definition.conditions.len(), 1);
    assert_eq!(definition.effects.len(), 1);
    assert_eq!(definition.effects[0].type_code, "apply_status");
    assert_eq!(definition.effects[0].target.selector, "adjacent_enemy");
}

#[test]
fn abyss_sample_is_an_after_capture_apply_status_skill() {
    let definition = sample_skill_by_id(67);
    assert_eq!(definition.classification.implementation_kind, "primitive");
    assert_eq!(definition.trigger.group, "event_capture");
    assert_eq!(definition.trigger.type_code, "after_capture");
    assert_eq!(definition.conditions.len(), 1);
    assert_eq!(definition.effects.len(), 1);
    assert_eq!(definition.effects[0].type_code, "apply_status");
    assert_eq!(definition.effects[0].target.selector, "adjacent_enemy");
}

#[test]
fn moon_sample_is_a_turn_start_self_modify_movement_skill() {
    let definition = sample_skill_by_id(40);
    assert_eq!(definition.classification.implementation_kind, "primitive");
    assert_eq!(definition.trigger.group, "event_turn");
    assert_eq!(definition.trigger.type_code, "turn_start");
    assert!(definition.conditions.is_empty());
    assert_eq!(definition.effects.len(), 1);
    assert_eq!(definition.effects[0].type_code, "modify_movement");
    assert_eq!(definition.effects[0].target.selector, "self_piece");
}

#[test]
fn book_sample_is_a_turn_start_self_copy_ability_skill() {
    let definition = sample_skill_by_id(55);
    assert_eq!(definition.classification.implementation_kind, "primitive");
    assert_eq!(definition.trigger.group, "event_turn");
    assert_eq!(definition.trigger.type_code, "turn_start");
    assert!(definition.conditions.is_empty());
    assert_eq!(definition.effects.len(), 1);
    assert_eq!(definition.effects[0].type_code, "copy_ability");
    assert_eq!(definition.effects[0].target.selector, "self_piece");
}

#[test]
fn blade_sample_is_an_after_capture_multi_capture_skill() {
    let definition = sample_skill_by_id(52);
    assert_eq!(definition.classification.implementation_kind, "primitive");
    assert_eq!(definition.trigger.group, "event_capture");
    assert_eq!(definition.trigger.type_code, "after_capture");
    assert_eq!(definition.conditions.len(), 1);
    assert_eq!(definition.effects.len(), 1);
    assert_eq!(definition.effects[0].type_code, "multi_capture");
    assert_eq!(definition.effects[0].target.selector, "adjacent_enemy");
}

#[test]
fn gun_sample_is_a_continuous_front_enemy_multi_capture_skill() {
    let definition = sample_skill_by_id(54);
    assert_eq!(definition.classification.implementation_kind, "primitive");
    assert_eq!(definition.trigger.group, "continuous");
    assert_eq!(definition.trigger.type_code, "continuous_rule");
    assert!(definition.conditions.is_empty());
    assert_eq!(definition.effects.len(), 1);
    assert_eq!(definition.effects[0].type_code, "multi_capture");
    assert_eq!(definition.effects[0].target.selector, "front_enemy");
}

#[test]
fn cannon_sample_is_an_after_capture_capture_with_leap_skill() {
    let definition = sample_skill_by_id(1);
    assert_eq!(definition.classification.implementation_kind, "primitive");
    assert_eq!(definition.trigger.group, "event_capture");
    assert_eq!(definition.trigger.type_code, "after_capture");
    assert!(definition.conditions.is_empty());
    assert_eq!(definition.effects.len(), 1);
    assert_eq!(definition.effects[0].type_code, "capture_with_leap");
    assert_eq!(definition.effects[0].target.selector, "self_piece");
}

#[test]
fn leaf_sample_is_a_probability_gated_forced_move_skill() {
    let definition = sample_skill_by_id(8);
    assert_eq!(definition.classification.implementation_kind, "primitive");
    assert_eq!(definition.trigger.group, "continuous");
    assert_eq!(definition.trigger.type_code, "continuous_aura");
    assert_eq!(definition.conditions.len(), 2);
    assert_eq!(definition.effects.len(), 1);
    assert_eq!(definition.effects[0].type_code, "forced_move");
    assert_eq!(definition.effects[0].target.selector, "adjacent_enemy");
}

#[test]
fn star_sample_is_a_probability_gated_return_to_hand_skill() {
    let definition = sample_skill_by_id(10);
    assert_eq!(definition.classification.implementation_kind, "primitive");
    assert_eq!(definition.trigger.group, "event_capture");
    assert_eq!(definition.trigger.type_code, "after_capture");
    assert_eq!(definition.conditions.len(), 1);
    assert_eq!(definition.effects.len(), 1);
    assert_eq!(definition.effects[0].type_code, "return_to_hand");
    assert_eq!(definition.effects[0].target.selector, "self_piece");
}

#[test]
fn spring_sample_is_a_composite_adjacent_ally_defense_skill() {
    let definition = sample_skill_by_id(47);
    assert_eq!(definition.classification.implementation_kind, "composite");
    assert_eq!(definition.trigger.group, "continuous");
    assert_eq!(definition.trigger.type_code, "continuous_aura");
    assert!(definition.conditions.is_empty());
    assert_eq!(definition.effects.len(), 2);
    assert_eq!(definition.effects[0].type_code, "defense_or_immunity");
    assert_eq!(definition.effects[0].target.selector, "adjacent_ally");
    assert_eq!(definition.effects[1].type_code, "defense_or_immunity");
    assert_eq!(definition.effects[1].target.selector, "self_piece");
}

#[test]
fn experiment_k_sample_is_a_probability_gated_composite_summon_and_defense_skill() {
    let definition = sample_skill_by_id(49);
    assert_eq!(definition.classification.implementation_kind, "composite");
    assert_eq!(definition.trigger.group, "continuous");
    assert_eq!(definition.trigger.type_code, "continuous_aura");
    assert_eq!(definition.conditions.len(), 2);
    assert_eq!(definition.effects.len(), 2);
    assert_eq!(definition.effects[0].type_code, "summon_piece");
    assert_eq!(definition.effects[1].type_code, "defense_or_immunity");
}

#[test]
fn seal_sample_is_a_continuous_adjacent_enemy_seal_skill() {
    let definition = sample_skill_by_id(56);
    assert_eq!(definition.classification.implementation_kind, "primitive");
    assert_eq!(definition.trigger.group, "continuous");
    assert_eq!(definition.trigger.type_code, "continuous_aura");
    assert_eq!(definition.conditions.len(), 1);
    assert_eq!(definition.effects.len(), 1);
    assert_eq!(definition.effects[0].type_code, "seal_skill");
    assert_eq!(definition.effects[0].target.selector, "adjacent_enemy");
}

#[test]
fn courtesy_sample_is_an_after_capture_substitute_skill() {
    let definition = sample_skill_by_id(59);
    assert_eq!(definition.classification.implementation_kind, "primitive");
    assert_eq!(definition.trigger.group, "event_capture");
    assert_eq!(definition.trigger.type_code, "after_capture");
    assert!(definition.conditions.is_empty());
    assert_eq!(definition.effects.len(), 1);
    assert_eq!(definition.effects[0].type_code, "substitute");
    assert_eq!(definition.effects[0].target.selector, "self_piece");
}

#[test]
fn yang_sample_is_a_probability_gated_composite_self_defense_skill() {
    let definition = sample_skill_by_id(85);
    assert_eq!(definition.classification.implementation_kind, "composite");
    assert_eq!(definition.trigger.group, "continuous");
    assert_eq!(definition.trigger.type_code, "continuous_rule");
    assert_eq!(definition.conditions.len(), 1);
    assert_eq!(definition.effects.len(), 2);
    assert_eq!(definition.effects[0].type_code, "defense_or_immunity");
    assert_eq!(definition.effects[0].target.selector, "self_piece");
    assert_eq!(definition.effects[1].type_code, "defense_or_immunity");
    assert_eq!(definition.effects[1].target.selector, "adjacent_ally");
}

#[test]
fn pig_sample_is_an_after_capture_inherit_ability_skill() {
    let definition = sample_skill_by_id(88);
    assert_eq!(definition.classification.implementation_kind, "primitive");
    assert_eq!(definition.trigger.group, "event_capture");
    assert_eq!(definition.trigger.type_code, "after_capture");
    assert!(definition.conditions.is_empty());
    assert_eq!(definition.effects.len(), 1);
    assert_eq!(definition.effects[0].type_code, "inherit_ability");
    assert_eq!(definition.effects[0].target.selector, "self_piece");
}

#[test]
fn nothing_sample_is_a_composite_capture_constraint_and_defense_skill() {
    let definition = sample_skill_by_id(92);
    assert_eq!(definition.classification.implementation_kind, "composite");
    assert_eq!(definition.trigger.group, "continuous");
    assert_eq!(definition.trigger.type_code, "continuous_rule");
    assert!(definition.conditions.is_empty());
    assert_eq!(definition.effects.len(), 3);
    assert_eq!(definition.effects[0].type_code, "modify_movement");
    assert_eq!(definition.effects[1].type_code, "capture_constraint");
    assert_eq!(definition.effects[2].type_code, "defense_or_immunity");
}

/// The invalid definition with one part of its text replaced.
fn error_after(from: &str, to: &str) -> Option<String> {
    let fixed = INVALID.replace("not_exists", "after_move");
    parse_runtime_rules(&read(&fixed.replace(from, to))).err()
}

#[test]
fn each_part_of_a_definition_is_checked() {
    assert_eq!(error_after("", ""), None);
    assert_eq!(
        error_after("\"primitive\"", "\"tentative\""),
        Some("unknown implementation kind: tentative".to_string())
    );
    assert_eq!(
        error_after("\"event_move\"", "\"event_turn\""),
        Some("unknown trigger option: event_turn/after_move".to_string())
    );
    assert_eq!(
        error_after(
            "\"conditions\": []",
            "\"conditions\": [{\"group\": \"board\", \"type\": \"full_moon\"}]"
        ),
        Some("unknown condition option: board/full_moon".to_string())
    );
    assert_eq!(
        error_after("\"forced_move\"", "\"idle\""),
        Some("unknown effect option: piece_position/idle".to_string())
    );
    assert_eq!(
        error_after("\"adjacent_enemy\"", "\"far_enemy\""),
        Some("unknown target option: adjacent/far_enemy".to_string())
    );
}

#[test]
fn what_is_no_definition_is_refused() {
    let malformed = Some("malformed skill definitions".to_string());
    for (from, to) in [
        ("\"skillId\": 999", "\"skillId\": -1"),
        ("\"skillId\": 999", "\"skillId\": \"999\""),
        ("[\"仮\"]", "[1]"),
        ("\"order\": 1", "\"order\": 4294967296"),
        ("\"scriptHook\": null", "\"scriptHook\": 1"),
        ("\"tags\": []", "\"labels\": []"),
        ("\"target\"", "\"aim\""),
    ] {
        let board_state = read(&INVALID.replace(from, to));
        let document = board_state.get("skill_definitions_v2").expect("must exist");
        assert_eq!(
            parse_skill_definition_document_value(document.copy()).err(),
            malformed
        );
        let rules = parse_runtime_rules(&board_state).ok().expect("must parse");
        assert!(rules.skill_runtime.definitions.is_empty());
    }
    assert_eq!(
        parse_skill_definition_document_value(JsonValue::Null).err(),
        malformed
    );
}

#[test]
fn optional_parts_of_a_definition_may_be_left_out() {
    let fixed = INVALID.replace("not_exists", "after_move");
    let rules = parse_runtime_rules(&read(
        &fixed
            .replace(",\n          \"params\": {}", "")
            .replace(",\n      \"scriptHook\": null", ""),
    ))
    .ok()
    .expect("must parse");
    let definition = &rules.skill_runtime.definitions[0];
    assert!(definition.script_hook.is_none());
    assert!(matches!(definition.effects[0].params, JsonValue::Null));
    assert!(rules.skill_runtime.registry.is_none());
}

#[test]
fn a_large_skill_id_is_kept() {
    let fixed = INVALID
        .replace("not_exists", "after_move")
        .replace("999", "18446744073709551615");
    let rules = parse_runtime_rules(&read(&fixed)).ok().expect("must parse");
    assert_eq!(rules.skill_runtime.definitions[0].skill_id, u64::MAX);
    assert_eq!(rules.skill_runtime.definitions[0].piece_chars, vec!["仮"]);
    assert_eq!(rules.skill_runtime.definitions[0].source.skill_text, "invalid");
}

#[test]
fn definitions_are_held_to_the_registry_that_comes_with_them() {
    let narrow = REGISTRY.replace("\"after_move\"", "\"before_move\"");
    let board_state = JsonValue::Object(vec![
        member("skill_registry_v2", read(&narrow)),
        member("skill_definitions_v2", read(CATALOG)),
    ]);
    assert_eq!(
        parse_runtime_rules(&board_state).err(),
        Some("unknown trigger option: event_move/after_move".to_string())
    );
    let broken = JsonValue::Object(vec![
        member("skill_registry_v2", JsonValue::Bool(true)),
        member("skill_definitions_v2", read(CATALOG)),
    ]);
    let rules = parse_runtime_rules(&broken).ok().expect("must parse");
    assert!(rules.skill_runtime.registry.is_none());
    assert_eq!(rules.skill_runtime.definitions.len(), 98);
}
