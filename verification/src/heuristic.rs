//! What can be said of a move without looking ahead.

use crate::config::{EngineConfig, Weights};
use crate::search;
use crate::text::same;
use crate::types::{EngineMove, EngineMoveView};
use vstd::prelude::*;

verus! {

/// A coordinate of the board.
pub open spec fn coordinate(x: i32) -> bool {
    0 <= x <= 8
}

/// Whether a move names squares of the board, and either a square where it starts or a piece
/// that it drops, not both.
pub open spec fn coordinates_valid(mv: EngineMoveView) -> bool {
    &&& coordinate(mv.to_row)
    &&& coordinate(mv.to_col)
    &&& match (mv.from_row, mv.from_col) {
        (Some(row), Some(col)) => mv.drop_piece_code is None && coordinate(row) && coordinate(col),
        (None, None) => mv.drop_piece_code is Some,
        _ => false,
    }
}

pub fn is_board_coordinate_valid(mv: &EngineMove) -> (result: bool)
    ensures
        result == coordinates_valid(mv@),
{
    if mv.to_row < 0 || mv.to_row > 8 || mv.to_col < 0 || mv.to_col > 8 {
        return false;
    }
    match (mv.from_row, mv.from_col, &mv.drop_piece_code) {
        (Some(row), Some(col), None) => 0 <= row && row <= 8 && 0 <= col && col <= 8,
        (None, None, Some(_)) => true,
        _ => false,
    }
}

/// The worth of a captured piece, in centipawns.
pub open spec fn capture_value(code: Seq<char>) -> int {
    if code == "OU"@ {
        10_000
    } else if code == "HI"@ || code == "KA"@ {
        900
    } else if code == "KI"@ {
        600
    } else if code == "GI"@ {
        500
    } else if code == "KE"@ || code == "KY"@ {
        350
    } else if code == "FU"@ {
        100
    } else {
        150
    }
}

pub fn piece_capture_cp(piece_code: &str) -> (value: i32)
    ensures
        value == capture_value(piece_code@),
{
    if same(piece_code, "OU") {
        10_000
    } else if same(piece_code, "HI") || same(piece_code, "KA") {
        900
    } else if same(piece_code, "KI") {
        600
    } else if same(piece_code, "GI") {
        500
    } else if same(piece_code, "KE") || same(piece_code, "KY") {
        350
    } else if same(piece_code, "FU") {
        100
    } else {
        150
    }
}

/// What the evaluation of a single move weighs. `for_enemy` tells whose gain the score is.
#[derive(Debug, Clone, Copy, PartialEq, Eq, Structural)]
pub struct MoveTerms {
    pub capture: i64,
    pub position: i64,
    pub mobility: i64,
    pub king_safety: i64,
    pub for_enemy: bool,
}

/// The terms of a move: the worth of what it captures, 60 for a promotion with 3 for each step
/// that its target lies nearer to the centre than a corner, and a fixed amount each for mobility
/// and the king's safety.
pub open spec fn move_terms(mv: EngineMoveView, side_to_move: Seq<char>) -> MoveTerms {
    let promotion: int = if mv.promote {
        60
    } else {
        0
    };
    let off_center = search::distance(mv.to_row as int, 4) + search::distance(mv.to_col as int, 4);
    MoveTerms {
        capture: match mv.captured_piece_code {
            Some(code) => capture_value(code) as i64,
            None => 0,
        },
        position: (promotion + (8 - off_center) * 3) as i64,
        mobility: 5,
        king_safety: 2,
        for_enemy: side_to_move == "enemy"@,
    }
}

fn off_center(x: i32) -> (distance: i64)
    ensures
        distance == search::distance(x as int, 4),
        0 <= distance <= 0x8000_0004,
{
    let x: i64 = x as i64;
    if x < 4 {
        4 - x
    } else {
        x - 4
    }
}

/// The terms by which a move is judged on its own.
pub fn evaluation_terms(mv: &EngineMove, side_to_move: &str) -> (terms: MoveTerms)
    ensures
        terms == move_terms(mv@, side_to_move@),
{
    let capture: i64 = match &mv.captured_piece_code {
        Some(code) => piece_capture_cp(code.as_str()) as i64,
        None => 0,
    };
    let promotion: i64 = if mv.promote {
        60
    } else {
        0
    };
    let distance: i64 = off_center(mv.to_row) + off_center(mv.to_col);
    MoveTerms {
        capture,
        position: promotion + (8 - distance) * 3,
        mobility: 5,
        king_safety: 2,
        for_enemy: same(side_to_move, "enemy"),
    }
}

/// Whether `value` is a score that `score` gives a move.
pub open spec fn scores_move<F: Fn(Weights, MoveTerms) -> i32>(
    score: F,
    cfg: EngineConfig,
    mv: EngineMoveView,
    side_to_move: Seq<char>,
    value: i32,
) -> bool {
    call_ensures(score, (cfg.weighing(), move_terms(mv, side_to_move)), value)
}

/// Scores a move on its own, without looking ahead.
pub fn evaluate_move<F: Fn(Weights, MoveTerms) -> i32>(
    mv: &EngineMove,
    side_to_move: &str,
    cfg: &EngineConfig,
    score: &F,
) -> (value: i32)
    requires
        forall|t: MoveTerms| call_requires(*score, (cfg.weighing(), t)),
    ensures
        scores_move(*score, *cfg, mv@, side_to_move@, value),
{
    let terms = evaluation_terms(mv, side_to_move);
    score(cfg.weights(), terms)
}

/// On the board, a target in the centre counts 24 and one in a corner nothing, and no target
/// counts more or less.
pub proof fn law_nearer_the_center_counts_more(mv: EngineMoveView, side_to_move: Seq<char>)
    requires
        coordinates_valid(mv),
        !mv.promote,
    ensures
        0 <= move_terms(mv, side_to_move).position <= 24,
        move_terms(mv, side_to_move).position == 24 <==> mv.to_row == 4 && mv.to_col == 4,
        move_terms(mv, side_to_move).position == 0 <==> (mv.to_row == 0 || mv.to_row == 8) && (
        mv.to_col == 0 || mv.to_col == 8),
{
}

/// Neither `quiescence_enabled` nor `max_repeat_draw_bias` counts for the score of a move, and of
/// the position nothing but the name of the side to move is read.
pub proof fn law_unused_settings_do_not_count<F: Fn(Weights, MoveTerms) -> i32>(
    score: F,
    a: EngineConfig,
    b: EngineConfig,
    mv: EngineMoveView,
    side_to_move: Seq<char>,
    value: i32,
)
    requires
        a.works_as(b),
    ensures
        scores_move(score, a, mv, side_to_move, value) <==> scores_move(
            score,
            b,
            mv,
            side_to_move,
            value,
        ),
{
}

} // verus!
