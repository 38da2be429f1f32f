//! A verified core for a shogi engine: positions, move generation, search,
//! engine configuration, move selection and skill definitions.

pub mod adjustment_laws;
pub mod ai_move;
pub mod ai_move_laws;
pub mod answer_laws;
pub mod choice_laws;
pub mod config;
pub mod config_laws;
pub mod deepening_laws;
pub mod evaluation_laws;
pub mod heuristic;
pub mod json;
pub mod legality_laws;
pub mod movegen;
pub mod movement_laws;
pub mod play_laws;
pub mod reading_laws;
pub mod report_laws;
pub mod rules;
pub mod search;
pub mod search_laws;
pub mod select;
pub mod sfen;
pub mod sfen_laws;
pub mod shogi;
pub mod shogi_laws;
pub mod skill_laws;
pub mod skills;
pub mod symmetry_laws;
pub mod text;
pub mod types;
pub mod view_laws;
