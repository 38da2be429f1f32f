//! Evaluation and search.

use shogi_ai::config::{EngineConfig, Real, Weights};
use shogi_ai::movegen::{apply_move, generate_legal_moves, to_move_input};
use shogi_ai::search::{
    evaluate_state, evaluation_terms, read_clock, search_with_clock,
    search_with_iterative_deepening, time_is_over, EvalTerms, SearchClock,
};
use shogi_ai::types::{RuntimeRules, SearchState};
use std::time::{Duration, Instant};

fn number(x: Real) -> f64 {
    f64::from_bits(x.bits)
}

fn weigh(weights: Weights, terms: EvalTerms) -> i32 {
    (terms.material as f64 * number(weights.material)
        + terms.center as f64 * number(weights.position)
        + terms.mobility as f64 * number(weights.mobility)) as i32
}

fn plain() -> RuntimeRules {
    RuntimeRules::default()
}

fn position(sfen: &str) -> SearchState {
    SearchState::from_sfen(sfen).expect("must parse")
}

fn patient(max_depth: u32) -> EngineConfig {
    EngineConfig {
        max_depth,
        max_nodes: 5_000_000,
        time_limit_ms: 60_000,
        ..EngineConfig::default()
    }
}

/// The value of a position by looking at every line of play.
fn full(state: &SearchState, cfg: &EngineConfig, depth: u32) -> i32 {
    if depth == 0 {
        return evaluate_state(state, cfg, &plain(), &weigh);
    }
    let moves = generate_legal_moves(state, &plain(), true);
    if moves.is_empty() {
        return -29000 + depth as i32;
    }
    moves
        .iter()
        .map(|mv| -full(&apply_move(state, mv), cfg, depth - 1))
        .max()
        .unwrap()
        .max(-30000)
}

#[test]
fn the_terms_of_a_position() {
    let state = position("4k4/9/9/9/9/9/9/4P4/4K4 b - 1");
    let terms = evaluation_terms(&state, &plain());
    assert_eq!(terms.material, 100);
    assert_eq!(terms.center, 5);
    assert_eq!(terms.mobility, 5);
    assert_eq!(
        evaluate_state(&state, &EngineConfig::default(), &plain(), &weigh),
        102
    );
    let other = position("4k4/9/9/9/9/9/9/4P4/4K4 w - 1");
    let terms = evaluation_terms(&other, &plain());
    assert_eq!(terms.material, -100);
    assert_eq!(terms.center, -5);
    assert_eq!(terms.mobility, 5);
}

#[test]
fn promotion_and_bonuses_count_as_material() {
    let mut rules = plain();
    rules.eval_bonus_by_piece.insert("FU".to_string(), 10);
    rules.eval_bonus_by_piece.insert("HI".to_string(), -7);
    let state = position("4k4/9/9/9/9/9/4+P4/4r4/4K4 b - 1");
    assert_eq!(
        evaluation_terms(&state, &rules).material,
        100 + 80 + 10 - (1000 - 7)
    );
}

#[test]
fn a_search_of_depth_one_scores_the_positions_after_each_move() {
    let state = position("4k4/9/9/9/9/9/9/4P4/4K4 b - 1");
    let cfg = patient(1);
    let (moves, scored, nodes, depth) =
        search_with_iterative_deepening(&state, &cfg, &plain(), Instant::now(), &weigh);
    let expected = generate_legal_moves(&state, &plain(), true);
    assert_eq!(moves.len(), expected.len());
    assert_eq!(scored.len(), expected.len());
    assert_eq!(nodes, expected.len() as u64);
    assert_eq!(depth, 1);
    for (i, mv) in expected.iter().enumerate() {
        let input = to_move_input(mv);
        assert_eq!(moves[i].from_row, input.from_row);
        assert_eq!(moves[i].to_row, input.to_row);
        assert_eq!(moves[i].to_col, input.to_col);
        assert_eq!(scored[i], (i, -full(&apply_move(&state, mv), &cfg, 0)));
    }
}

#[test]
fn an_unhindered_search_finds_the_full_values() {
    for sfen in [
        "4k4/9/9/9/9/9/9/4P4/4K4 b - 1",
        "8k/6P2/7P1/9/9/9/9/9/K8 b - 1",
        "8k/9/7PP/9/9/9/9/9/K8 b G 1",
    ] {
        let state = position(sfen);
        for max_depth in [2, 3] {
            if max_depth == 3 && sfen.contains('G') {
                break;
            }
            let cfg = patient(max_depth);
            let (_, scored, nodes, depth) =
                search_with_iterative_deepening(&state, &cfg, &plain(), Instant::now(), &weigh);
            assert!(nodes < cfg.max_nodes as u64);
            assert_eq!(depth, max_depth);
            for (i, mv) in generate_legal_moves(&state, &plain(), true)
                .iter()
                .enumerate()
            {
                let value = -full(&apply_move(&state, mv), &cfg, max_depth - 1);
                assert!(value > -30000 && value < 30000);
                assert_eq!(scored[i], (i, value), "{sfen} {i}");
            }
        }
    }
}

#[test]
fn mate_is_worth_more_than_anything() {
    let state = position("8k/9/7GG/9/9/9/9/9/K8 b - 1");
    let cfg = patient(2);
    let (moves, scored, _, _) =
        search_with_iterative_deepening(&state, &cfg, &plain(), Instant::now(), &weigh);
    let best = scored.iter().max_by_key(|entry| entry.1).expect("must exist");
    assert_eq!(best.1, 29000 - 1);
    assert_eq!(moves[best.0].to_row, 1);
    assert_eq!(moves[best.0].piece_code, "KI");
}

#[test]
fn a_position_without_moves_has_no_candidates() {
    let state = position("8k/8G/8G/9/9/9/9/9/K8 w - 1");
    let (moves, scored, nodes, depth) =
        search_with_iterative_deepening(&state, &patient(3), &plain(), Instant::now(), &weigh);
    assert!(moves.is_empty());
    assert!(scored.is_empty());
    assert_eq!((nodes, depth), (0, 1));
}

#[test]
fn the_limit_on_nodes_is_kept() {
    let state = position("lnsgkgsnl/1r5b1/ppppppppp/9/9/9/PPPPPPPPP/1B5R1/LNSGKGSNL b - 1");
    let cfg = EngineConfig {
        max_nodes: 100,
        ..patient(12)
    };
    let (moves, scored, nodes, depth) =
        search_with_iterative_deepening(&state, &cfg, &plain(), Instant::now(), &weigh);
    assert_eq!(moves.len(), 30);
    assert_eq!(scored.len(), 30);
    assert_eq!(nodes, 100);
    assert!((1..=12).contains(&depth));
}

#[test]
fn the_limit_on_time_is_kept() {
    let state = position("4k4/9/9/9/9/9/9/4P4/4K4 b - 1");
    let cfg = EngineConfig {
        time_limit_ms: 10,
        ..patient(12)
    };
    let long_ago = Instant::now() - Duration::from_millis(50);
    let (_, scored, nodes, depth) =
        search_with_iterative_deepening(&state, &cfg, &plain(), long_ago, &weigh);
    assert_eq!(scored.len(), 5);
    assert_eq!((nodes, depth), (5, 1));
}

#[test]
fn a_clock_is_late_once_its_limit_has_passed() {
    let mut early = SearchClock::new(Instant::now(), 60_000);
    assert!(!early.is_late());
    let mut late = SearchClock::new(Instant::now() - Duration::from_millis(20), 10);
    assert!(late.is_late());
    let state = position("4k4/9/9/9/9/9/9/4P4/4K4 b - 1");
    let mut clock = SearchClock::new(Instant::now(), 60_000);
    let report = search_with_clock(&state, &patient(2), &plain(), &weigh, &mut clock);
    assert_eq!(report.3, 2);
}

#[test]
fn of_a_reading_the_low_bits_are_compared_with_the_limit() {
    assert!(!time_is_over(99, 100));
    assert!(time_is_over(100, 100));
    assert!(time_is_over(101, 100));
    assert!(time_is_over(0, 0));
    assert!(!time_is_over(0x1_0000_0000, 1));
    assert!(time_is_over(0x1_0000_0001, 1));
    assert!(time_is_over(u128::MAX, u32::MAX));
}

#[test]
fn the_clock_reads_the_time_since_its_start() {
    let before = Instant::now() - Duration::from_millis(300);
    let ms = read_clock(&before);
    assert!(ms >= 300);
    assert!(read_clock(&before) >= ms);
    assert!(ms <= before.elapsed().as_millis());
}

#[test]
fn the_time_counts_from_the_start_handed_in() {
    let state = position("4k4/9/9/9/9/9/9/4P4/4K4 b - 1");
    let cfg = EngineConfig {
        time_limit_ms: 30_000,
        ..patient(2)
    };
    let long_ago = Instant::now() - Duration::from_millis(40_000);
    let late = search_with_iterative_deepening(&state, &cfg, &plain(), long_ago, &weigh);
    let early = search_with_iterative_deepening(&state, &cfg, &plain(), Instant::now(), &weigh);
    assert_eq!((late.2, late.3), (5, 1));
    assert_eq!(early.3, 2);
    for (i, mv) in generate_legal_moves(&state, &plain(), true).iter().enumerate() {
        assert_eq!(late.1[i], (i, -full(&apply_move(&state, mv), &cfg, 0)));
        assert_eq!(early.1[i], (i, -full(&apply_move(&state, mv), &cfg, 1)));
    }
}

#[test]
fn one_move_ahead_needs_no_further_nodes() {
    let state = position("4k4/9/9/9/9/9/9/4P4/4K4 b - 1");
    let cfg = EngineConfig {
        max_nodes: 1,
        ..patient(1)
    };
    let (_, scored, nodes, depth) =
        search_with_iterative_deepening(&state, &cfg, &plain(), Instant::now(), &weigh);
    assert_eq!((nodes, depth), (5, 1));
    for (i, mv) in generate_legal_moves(&state, &plain(), true).iter().enumerate() {
        assert_eq!(scored[i], (i, -full(&apply_move(&state, mv), &cfg, 0)));
    }
}
