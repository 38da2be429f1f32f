//! From a request to the move that answers it.

use crate::config;
use crate::config::{config_for, EngineConfig, EngineConfigPatch, Real, Weights};
use crate::heuristic;
use crate::heuristic::{evaluate_move, is_board_coordinate_valid, MoveTerms};
use crate::json::JsonValue;
use crate::rules;
use crate::rules::parse_runtime_rules;
use crate::search;
use crate::search::{read_clock, search_with_iterative_deepening, EvalTerms, SearchOutcome};
use crate::select;
use crate::select::{make_seed, rank_moves, rng_from_seed, select_move_index};
use crate::sfen;
use crate::text::same;
use crate::types;
use crate::types::{
    EngineMove, EngineMoveView, Position, RulesView, RuntimeRules, SearchState, Side,
};
use rand::rngs::StdRng;
use std::time::Instant;
use vstd::prelude::*;

verus! {

#[derive(Debug)]
pub struct ComputeMoveCommand {
    pub game_id: String,
    pub move_no: u32,
    pub side_to_move: String,
    pub sfen: Option<String>,
    pub board_state: JsonValue,
    pub legal_moves: Vec<EngineMove>,
    pub config_patch: EngineConfigPatch,
}

#[derive(Debug)]
pub struct ComputeMoveResult {
    pub selected_move: EngineMove,
    pub meta: ComputeMoveMeta,
}

#[derive(Debug)]
pub struct ComputeMoveMeta {
    pub think_ms: u64,
    pub searched_nodes: u64,
    pub search_depth: u32,
    pub eval_cp: i32,
    pub candidate_count: usize,
    pub config_applied: EngineConfig,
}

#[derive(Debug)]
pub enum ComputeMoveError {
    InvalidEngineConfig(String),
    InvalidPosition(&'static str),
    /// The adjustments to the rules that came with the position cannot be used.
    InvalidBoardState(String),
}

impl ComputeMoveError {
    /// The characters of the code.
    pub open spec fn code_text(self) -> Seq<char> {
        match self {
            ComputeMoveError::InvalidEngineConfig(_) => "INVALID_ENGINE_CONFIG"@,
            ComputeMoveError::InvalidPosition(_) => "INVALID_POSITION"@,
            ComputeMoveError::InvalidBoardState(_) => "INVALID_POSITION"@,
        }
    }

    /// The characters of the message.
    pub open spec fn text(self) -> Seq<char> {
        match self {
            ComputeMoveError::InvalidEngineConfig(message) => message@,
            ComputeMoveError::InvalidPosition(message) => message@,
            ComputeMoveError::InvalidBoardState(message) => message@,
        }
    }

    pub fn code(&self) -> (code: &'static str)
        ensures
            code@ == self.code_text(),
    {
        match self {
            Self::InvalidEngineConfig(_) => "INVALID_ENGINE_CONFIG",
            Self::InvalidPosition(_) => "INVALID_POSITION",
            Self::InvalidBoardState(_) => "INVALID_POSITION",
        }
    }

    pub fn message(&self) -> (message: String)
        ensures
            message@ == self.text(),
    {
        match self {
            Self::InvalidEngineConfig(message) => message.clone(),
            Self::InvalidPosition(message) => (*message).to_string(),
            Self::InvalidBoardState(message) => message.clone(),
        }
    }
}

// ---------------------------------------------------------------------------
// Candidates
// ---------------------------------------------------------------------------

/// A move and its score.
pub struct ScoredMove {
    pub mv: EngineMoveView,
    pub score: i32,
}

/// The moves with valid coordinates, in order.
pub open spec fn normalized(moves: Seq<EngineMoveView>) -> Seq<EngineMoveView> {
    moves.filter(|mv: EngineMoveView| heuristic::coordinates_valid(mv))
}

/// Whether two moves do the same on the board.
pub open spec fn same_move(a: EngineMoveView, b: EngineMoveView) -> bool {
    &&& a.from_row == b.from_row
    &&& a.from_col == b.from_col
    &&& a.to_row == b.to_row
    &&& a.to_col == b.to_col
    &&& a.promote == b.promote
    &&& a.drop_piece_code == b.drop_piece_code
}

/// Whether a move does the same as one of a list.
pub open spec fn listed(mv: EngineMoveView, legal: Seq<EngineMoveView>) -> bool {
    exists|j: int| 0 <= j < legal.len() && same_move(mv, #[trigger] legal[j])
}

/// Those of the scored moves that are listed, in order.
pub open spec fn permitted(found: Seq<ScoredMove>, legal: Seq<EngineMoveView>) -> Seq<ScoredMove> {
    found.filter(|candidate: ScoredMove| listed(candidate.mv, legal))
}

/// A function that weighs the terms of a move: it accepts any terms.
pub open spec fn is_judge<M: Fn(Weights, MoveTerms) -> i32>(
    judge: M,
    cfg: EngineConfig,
) -> bool {
    forall|t: MoveTerms| call_requires(judge, (cfg.weighing(), t))
}

/// The scores of the terms of positions and of single moves.
pub struct Scales {
    pub positions: spec_fn(EvalTerms) -> int,
    pub moves: spec_fn(MoveTerms) -> i32,
}

/// Whether the scales tell the scores that two functions give.
pub open spec fn tell<
    S: Fn(Weights, EvalTerms) -> i32,
    M: Fn(Weights, MoveTerms) -> i32,
>(scales: Scales, score: S, judge: M, cfg: EngineConfig) -> bool {
    search::describes(scales.positions, score, cfg) && describes_moves(scales.moves, judge, cfg)
}

/// Whether `value` tells the score that the function gives to the terms of any move.
pub open spec fn describes_moves<M: Fn(Weights, MoveTerms) -> i32>(
    value: spec_fn(MoveTerms) -> i32,
    judge: M,
    cfg: EngineConfig,
) -> bool {
    forall|t: MoveTerms, r: i32| #[trigger]
        call_ensures(judge, (cfg.weighing(), t), r) ==> r == value(t)
}

/// Moves, each scored on its own.
pub open spec fn judged(
    value: spec_fn(MoveTerms) -> i32,
    moves: Seq<EngineMoveView>,
    side_to_move: Seq<char>,
) -> Seq<ScoredMove> {
    moves.map_values(
        |mv: EngineMoveView|
            ScoredMove { mv, score: value(heuristic::move_terms(mv, side_to_move)) },
    )
}

/// The root moves of a search with their scores.
pub open spec fn searched(pos: Position, rules: RulesView, outcome: SearchOutcome) -> Seq<
    ScoredMove,
> {
    Seq::new(
        outcome.scores.len(),
        |i: int|
            ScoredMove { mv: search::root_moves(pos, rules)[i], score: outcome.scores[i] as i32 },
    )
}

/// Candidates, and the work that went into them.
pub struct Gathered {
    pub moves: Seq<ScoredMove>,
    pub nodes: nat,
    pub depth: nat,
}

/// The candidates after a search: what it found, restricted to the moves given if any were given;
/// should nothing be left then, the moves given, each scored on its own.
pub open spec fn after_search(
    found: Seq<ScoredMove>,
    outcome: SearchOutcome,
    any_given: bool,
    legal: Seq<EngineMoveView>,
    alone: Seq<ScoredMove>,
) -> Gathered {
    let moves = if !any_given {
        found
    } else if permitted(found, legal).len() > 0 {
        permitted(found, legal)
    } else {
        alone
    };
    Gathered { moves, nodes: outcome.nodes, depth: outcome.depth }
}

/// The side that a request names.
pub open spec fn named_side(side_to_move: Seq<char>) -> Side {
    if side_to_move == "player"@ {
        Side::Black
    } else {
        Side::White
    }
}

/// The position of a request, with the side that the request names to move; none if the request
/// gives none that can be read.
pub open spec fn request_position(sfen: Option<Seq<char>>, side_to_move: Seq<char>) -> Option<
    Position,
> {
    match sfen {
        Some(s) => match sfen::sfen_position(s) {
            Ok(pos) => Some(Position { side_to_move: named_side(side_to_move), ..pos }),
            Err(_) => None,
        },
        None => None,
    }
}

/// Numbered moves and scores, as a list of scored moves.
pub open spec fn scored_views(
    moves: Seq<EngineMove>,
    scored: Seq<(usize, i32)>,
) -> Seq<ScoredMove> {
    Seq::new(moves.len(), |i: int| ScoredMove { mv: moves[i]@, score: scored[i].1 })
}

/// Whether each score bears the number of its place.
pub open spec fn in_places(scored: Seq<(usize, i32)>) -> bool {
    forall|i: int| 0 <= i < scored.len() ==> (#[trigger] scored[i]).0 == i
}

fn normalize(moves: &Vec<EngineMove>) -> (valid: Vec<EngineMove>)
    ensures
        search::move_views(valid@) == normalized(search::move_views(moves@)),
{
    let ghost views = search::move_views(moves@);
    let ghost keep = |mv: EngineMoveView| heuristic::coordinates_valid(mv);
    let mut valid: Vec<EngineMove> = Vec::new();
    proof {
        reveal(Seq::filter);
        assert(views.take(0).filter(keep) =~= search::move_views(valid@));
    }
    for i in 0..moves.len()
        invariant
            views == search::move_views(moves@),
            keep == (|mv: EngineMoveView| heuristic::coordinates_valid(mv)),
            search::move_views(valid@) == views.take(i as int).filter(keep),
    {
        let ghost earlier = valid@;
        proof {
            reveal(Seq::filter);
            assert(views.take(i + 1).drop_last() =~= views.take(i as int));
            assert(views.take(i + 1).last() == moves@[i as int]@);
        }
        if is_board_coordinate_valid(&moves[i]) {
            valid.push(moves[i].clone());
            assert(search::move_views(valid@) =~= search::move_views(earlier).push(
                moves@[i as int]@,
            ));
        }
    }
    assert(views.take(views.len() as int) =~= views);
    valid
}

fn same_text(a: &Option<String>, b: &Option<String>) -> (result: bool)
    ensures
        result == (types::text_of(*a) == types::text_of(*b)),
{
    match (a, b) {
        (Some(a), Some(b)) => same(a.as_str(), b.as_str()),
        (None, None) => true,
        _ => false,
    }
}

fn does_the_same(a: &EngineMove, b: &EngineMove) -> (result: bool)
    ensures
        result == same_move(a@, b@),
{
    a.from_row == b.from_row && a.from_col == b.from_col && a.to_row == b.to_row && a.to_col
        == b.to_col && a.promote == b.promote && same_text(&a.drop_piece_code, &b.drop_piece_code)
}

fn is_listed(mv: &EngineMove, legal: &Vec<EngineMove>) -> (result: bool)
    ensures
        result == listed(mv@, search::move_views(legal@)),
{
    let ghost views = search::move_views(legal@);
    for j in 0..legal.len()
        invariant
            views == search::move_views(legal@),
            forall|k: int| 0 <= k < j ==> !same_move(mv@, #[trigger] views[k]),
    {
        assert(views[j as int] == legal@[j as int]@);
        if does_the_same(mv, &legal[j]) {
            return true;
        }
    }
    false
}

/// The moves of scored moves.
pub open spec fn moves_of(list: Seq<ScoredMove>) -> Seq<EngineMoveView> {
    list.map_values(|candidate: ScoredMove| candidate.mv)
}

proof fn lemma_permitted_moves(found: Seq<ScoredMove>, legal: Seq<EngineMoveView>)
    ensures
        moves_of(permitted(found, legal)) == moves_of(found).filter(
            |mv: EngineMoveView| listed(mv, legal),
        ),
    decreases found.len(),
{
    reveal(Seq::filter);
    let keep = |mv: EngineMoveView| listed(mv, legal);
    if found.len() == 0 {
        assert(moves_of(permitted(found, legal)) =~= moves_of(found).filter(keep));
    } else {
        let rest = found.drop_last();
        lemma_permitted_moves(rest, legal);
        assert(moves_of(found).drop_last() =~= moves_of(rest));
        assert(moves_of(permitted(found, legal)) =~= moves_of(found).filter(keep));
    }
}

/// Restricts scored moves to those that are listed.
fn restrict(
    moves: Vec<EngineMove>,
    scored: Vec<(usize, i32)>,
    legal: &Vec<EngineMove>,
) -> (kept: (Vec<EngineMove>, Vec<(usize, i32)>))
    requires
        moves@.len() == scored@.len(),
    ensures
        kept.0@.len() == kept.1@.len(),
        in_places(kept.1@),
        scored_views(kept.0@, kept.1@) == permitted(
            scored_views(moves@, scored@),
            search::move_views(legal@),
        ),
        search::move_views(kept.0@) == search::move_views(moves@).filter(
            |mv: EngineMoveView| listed(mv, search::move_views(legal@)),
        ),
{
    let ghost legal_views = search::move_views(legal@);
    let ghost found = scored_views(moves@, scored@);
    let ghost keep = |candidate: ScoredMove| listed(candidate.mv, legal_views);
    let mut kept_moves: Vec<EngineMove> = Vec::new();
    let mut kept_scores: Vec<(usize, i32)> = Vec::new();
    proof {
        reveal(Seq::filter);
        assert(found.take(0).filter(keep) =~= scored_views(kept_moves@, kept_scores@));
    }
    for i in 0..moves.len()
        invariant
            moves@.len() == scored@.len(),
            legal_views == search::move_views(legal@),
            found == scored_views(moves@, scored@),
            keep == (|candidate: ScoredMove| listed(candidate.mv, legal_views)),
            kept_moves@.len() == kept_scores@.len(),
            in_places(kept_scores@),
            scored_views(kept_moves@, kept_scores@) == found.take(i as int).filter(keep),
    {
        let ghost earlier = scored_views(kept_moves@, kept_scores@);
        proof {
            reveal(Seq::filter);
            assert(found.take(i + 1).drop_last() =~= found.take(i as int));
            assert(found.take(i + 1).last() == found[i as int]);
        }
        if is_listed(&moves[i], legal) {
            kept_scores.push((kept_moves.len(), scored[i].1));
            kept_moves.push(moves[i].clone());
            assert(scored_views(kept_moves@, kept_scores@) =~= earlier.push(found[i as int]));
        }
    }
    proof {
        assert(found.take(found.len() as int) =~= found);
        lemma_permitted_moves(found, legal_views);
        assert(moves_of(found) =~= search::move_views(moves@));
        assert(moves_of(scored_views(kept_moves@, kept_scores@)) =~= search::move_views(
            kept_moves@,
        ));
    }
    (kept_moves, kept_scores)
}

/// Scores each move on its own.
fn judge_moves<M: Fn(Weights, MoveTerms) -> i32>(
    moves: &Vec<EngineMove>,
    side_to_move: &str,
    cfg: &EngineConfig,
    judge: &M,
) -> (scored: Vec<(usize, i32)>)
    requires
        is_judge(*judge, *cfg),
    ensures
        scored@.len() == moves@.len(),
        in_places(scored@),
        forall|value: spec_fn(MoveTerms) -> i32| #[trigger]
            describes_moves(value, *judge, *cfg) ==> scored_views(moves@, scored@) == judged(
                value,
                search::move_views(moves@),
                side_to_move@,
            ),
{
    let mut scored: Vec<(usize, i32)> = Vec::new();
    for i in 0..moves.len()
        invariant
            is_judge(*judge, *cfg),
            scored@.len() == i,
            in_places(scored@),
            forall|j: int|
                0 <= j < i ==> heuristic::scores_move(
                    *judge,
                    *cfg,
                    moves@[j]@,
                    side_to_move@,
                    (#[trigger] scored@[j]).1,
                ),
    {
        let score = evaluate_move(&moves[i], side_to_move, cfg, judge);
        scored.push((i, score));
    }
    assert forall|value: spec_fn(MoveTerms) -> i32| #[trigger]
        describes_moves(value, *judge, *cfg) implies scored_views(moves@, scored@) == judged(
        value,
        search::move_views(moves@),
        side_to_move@,
    ) by {
        assert(scored_views(moves@, scored@) =~= judged(
            value,
            search::move_views(moves@),
            side_to_move@,
        ));
    }
    scored
}

/// The candidates of a request: by the position if it gives one, given what a search of it comes
/// to, or else the moves given, each scored on its own.
pub open spec fn gathered(
    input: ComputeMoveCommand,
    scales: Scales,
    outcome: SearchOutcome,
) -> Gathered {
    let legal = normalized(search::move_views(input.legal_moves@));
    let alone = judged(scales.moves, legal, input.side_to_move@);
    match request_position(types::text_of(input.sfen), input.side_to_move@) {
        Some(pos) => after_search(
            searched(pos, rules::rules_of(input.board_state@), outcome),
            outcome,
            input.legal_moves@.len() > 0,
            legal,
            alone,
        ),
        None => Gathered { moves: alone, nodes: 0, depth: 1 },
    }
}

/// The moves that compete for the answer: by the position if the request gives one, its legal
/// moves, restricted to the moves given if any were given; should nothing be left then, or should
/// there be no position, the moves given.
pub open spec fn candidate_moves(input: ComputeMoveCommand) -> Seq<EngineMoveView> {
    let legal = normalized(search::move_views(input.legal_moves@));
    match request_position(types::text_of(input.sfen), input.side_to_move@) {
        Some(pos) => {
            let roots = search::root_moves(pos, rules::rules_of(input.board_state@));
            let kept = roots.filter(|mv: EngineMoveView| listed(mv, legal));
            if input.legal_moves@.len() == 0 {
                roots
            } else if kept.len() > 0 {
                kept
            } else {
                legal
            }
        },
        None => legal,
    }
}

/// Why a request without moves is refused: it gives no position, or none that can be read.
pub open spec fn refusal(input: ComputeMoveCommand) -> Option<Seq<char>> {
    if input.legal_moves@.len() > 0 {
        None
    } else {
        match input.sfen {
            None => Some("legal_moves is empty and sfen is missing"@),
            Some(s) => if sfen::sfen_position(s@) is Err {
                Some("legal_moves is empty and SFEN parse failed"@)
            } else {
                None
            },
        }
    }
}

/// What a search of the request's position comes to when the clock reads so.
pub open spec fn request_outcome(
    input: ComputeMoveCommand,
    cfg: EngineConfig,
    scales: Scales,
    readings: spec_fn(nat) -> u128,
) -> SearchOutcome {
    match request_position(types::text_of(input.sfen), input.side_to_move@) {
        Some(pos) => search::search_outcome(
            search::lookahead(
                scales.positions,
                cfg,
                rules::rules_of(input.board_state@),
                readings,
            ),
            pos,
            cfg.max_depth as nat,
        ),
        None => SearchOutcome { scores: Seq::empty(), nodes: 0, depth: 1 },
    }
}

/// The candidates of a request when the clock reads so.
pub open spec fn request_candidates(
    input: ComputeMoveCommand,
    cfg: EngineConfig,
    scales: Scales,
    readings: spec_fn(nat) -> u128,
) -> Gathered {
    gathered(input, scales, request_outcome(input, cfg, scales, readings))
}

/// How many legal moves the position of a request has; none if there is no position.
pub open spec fn root_count(input: ComputeMoveCommand) -> nat {
    match request_position(types::text_of(input.sfen), input.side_to_move@) {
        Some(pos) => search::root_moves(pos, rules::rules_of(input.board_state@)).len(),
        None => 0,
    }
}

/// Whether so many nodes can be those of a search for a request: at least one for each legal move
/// of the position, and no more than that or than the configuration allows.
pub open spec fn nodes_fit(nodes: u64, input: ComputeMoveCommand, cfg: EngineConfig) -> bool {
    let roots = root_count(input) as int;
    &&& roots <= nodes <= search::larger(roots, cfg.max_nodes as int)
    &&& roots == 0 ==> nodes == 0
}

/// Candidates with the work that went into them, as they are computed.
struct Candidates {
    moves: Vec<EngineMove>,
    scored: Vec<(usize, i32)>,
    nodes: u64,
    depth: u32,
}

impl Candidates {
    /// The candidates of a request, each with a score that bears the number of its place, found
    /// within the limits.
    spec fn sound(self, input: ComputeMoveCommand, cfg: EngineConfig) -> bool {
        &&& self.moves@.len() == self.scored@.len()
        &&& in_places(self.scored@)
        &&& search::move_views(self.moves@) == candidate_moves(input)
        &&& self.depth >= 1
        &&& nodes_fit(self.nodes, input, cfg)
    }

    spec fn gathers(self) -> Gathered {
        Gathered {
            moves: scored_views(self.moves@, self.scored@),
            nodes: self.nodes as nat,
            depth: self.depth as nat,
        }
    }

    /// Whether these are the candidates of a request when the clock reads so.
    spec fn come_from<
        S: Fn(Weights, EvalTerms) -> i32,
        M: Fn(Weights, MoveTerms) -> i32,
    >(
        self,
        input: ComputeMoveCommand,
        cfg: EngineConfig,
        score: S,
        judge: M,
        readings: spec_fn(nat) -> u128,
    ) -> bool {
        forall|scales: Scales| #[trigger]
            tell(scales, score, judge, cfg) ==> self.gathers() == request_candidates(
                input,
                cfg,
                scales,
                readings,
            )
    }

    /// Whether these are the candidates of a request when the clock has read this on the way.
    spec fn follow_clock<
        S: Fn(Weights, EvalTerms) -> i32,
        M: Fn(Weights, MoveTerms) -> i32,
    >(
        self,
        input: ComputeMoveCommand,
        cfg: EngineConfig,
        score: S,
        judge: M,
        read: Seq<u128>,
    ) -> bool {
        forall|readings: spec_fn(nat) -> u128| #[trigger]
            search::begins_with(readings, read) ==> self.come_from(
                input,
                cfg,
                score,
                judge,
                readings,
            )
    }
}

/// `std::time::Instant::now`: the present instant. Nothing is claimed of it, for it depends on
/// when the call is made.
pub assume_specification[ Instant::now ]() -> (now: Instant);

/// Searches a position and restricts what is found to the moves given.
fn search_candidates<
    S: Fn(Weights, EvalTerms) -> i32,
    M: Fn(Weights, MoveTerms) -> i32,
>(
    input: &ComputeMoveCommand,
    state: SearchState,
    cfg: &EngineConfig,
    rules: &RuntimeRules,
    start: Instant,
    score: &S,
    judge: &M,
) -> (found: Candidates)
    requires
        cfg.max_depth <= i32::MAX,
        search::is_scorer(*score, *cfg),
        is_judge(*judge, *cfg),
        rules@ == rules::rules_of(input.board_state@),
        input.sfen matches Some(s) && sfen::sfen_position(s@) == Ok::<Position, Seq<char>>(state@),
    ensures
        found.sound(*input, *cfg),
        exists|read: Seq<u128>|
            search::clock_run(start, read) && #[trigger] found.follow_clock(
                *input,
                *cfg,
                *score,
                *judge,
                read,
            ),
{
    let mut state = state;
    state.side_to_move = if same(input.side_to_move.as_str(), "player") {
        Side::Black
    } else {
        Side::White
    };
    let (moves, scored, nodes, depth) = search_with_iterative_deepening(
        &state,
        cfg,
        rules,
        start,
        score,
    );
    let ghost pos = state@;
    let ghost report = (moves, scored, nodes, depth);
    let ghost read = choose|read: Seq<u128>|
        search::clock_run(start, read) && #[trigger] search::follows_clock(
            report,
            pos,
            rules@,
            *score,
            *cfg,
            read,
        );
    let ghost all = scored_views(moves@, scored@);
    let ghost legal_views = normalized(search::move_views(input.legal_moves@));
    assert(request_position(types::text_of(input.sfen), input.side_to_move@) == Some(pos));
    let found = if input.legal_moves.len() == 0 {
        Candidates { moves, scored, nodes, depth }
    } else {
        let legal = normalize(&input.legal_moves);
        let (kept_moves, kept_scores) = restrict(moves, scored, &legal);
        if kept_moves.len() > 0 {
            Candidates { moves: kept_moves, scored: kept_scores, nodes, depth }
        } else {
            let alone = judge_moves(&legal, input.side_to_move.as_str(), cfg, judge);
            Candidates { moves: legal, scored: alone, nodes, depth }
        }
    };
    proof {
        assert forall|readings: spec_fn(nat) -> u128| #[trigger]
            search::begins_with(readings, read) implies found.come_from(
            *input,
            *cfg,
            *score,
            *judge,
            readings,
        ) by {
            assert(search::reports_run(report, pos, rules@, *score, *cfg, readings));
            assert forall|scales: Scales| #[trigger]
                tell(scales, *score, *judge, *cfg) implies found.gathers() == request_candidates(
                *input,
                *cfg,
                scales,
                readings,
            ) by {
                let outcome = request_outcome(*input, *cfg, scales, readings);
                assert(search::describes(scales.positions, *score, *cfg));
                assert(search::reports(report, pos, rules@, outcome));
                assert(all =~= searched(pos, rules@, outcome));
                assert(describes_moves(scales.moves, *judge, *cfg));
            }
        }
        assert(found.follow_clock(*input, *cfg, *score, *judge, read));
    }
    found
}

/// Scores each move given on its own.
fn given_candidates<M: Fn(Weights, MoveTerms) -> i32>(
    input: &ComputeMoveCommand,
    cfg: &EngineConfig,
    judge: &M,
) -> (found: Candidates)
    requires
        is_judge(*judge, *cfg),
        request_position(types::text_of(input.sfen), input.side_to_move@) is None,
    ensures
        found.sound(*input, *cfg),
        forall|scales: Scales, readings: spec_fn(nat) -> u128|
            describes_moves(scales.moves, *judge, *cfg) ==> found.gathers()
                == #[trigger] request_candidates(*input, *cfg, scales, readings),
{
    let legal = normalize(&input.legal_moves);
    let alone = judge_moves(&legal, input.side_to_move.as_str(), cfg, judge);
    Candidates { moves: legal, scored: alone, nodes: 0, depth: 1 }
}

/// The scores of moves, each with the number of its place.
pub open spec fn place_scores(moves: Seq<ScoredMove>) -> Seq<(usize, i32)> {
    Seq::new(moves.len(), |i: int| (i as usize, moves[i].score))
}

/// The nodes that are reported: those of the search, or else the number of candidates, as far as
/// the limit on nodes goes.
pub open spec fn reported_nodes(found: Gathered, cfg: EngineConfig) -> nat {
    if found.nodes > 0 {
        found.nodes
    } else if found.moves.len() < cfg.max_nodes {
        found.moves.len()
    } else {
        cfg.max_nodes as nat
    }
}

/// Whether a result answers a request with these candidates: a candidate is chosen by rank and by
/// the draws of the generator with this seed, and the report gives the best score and the work.
pub open spec fn answers<
    B: Fn(StdRng, Real) -> (bool, StdRng),
    W: Fn(StdRng, Vec<i64>, Real) -> Option<usize>,
>(
    result: ComputeMoveResult,
    found: Gathered,
    cfg: EngineConfig,
    seed: u64,
    chance: B,
    spin: W,
) -> bool {
    exists|ranked: Seq<(usize, i32)>, index: usize|
        {
            &&& #[trigger] select::ranking(ranked, place_scores(found.moves))
            &&& #[trigger] select::chosen(
                ranked,
                ranked[0].1,
                cfg,
                select::seeded_rng(seed),
                chance,
                spin,
                index,
            )
            &&& index < found.moves.len()
            &&& result.selected_move@ == found.moves[index as int].mv
            &&& result.meta.eval_cp == ranked[0].1
            &&& result.meta.candidate_count == found.moves.len()
            &&& result.meta.searched_nodes == reported_nodes(found, cfg)
            &&& result.meta.search_depth == (if found.depth < cfg.max_depth {
                found.depth
            } else {
                cfg.max_depth as nat
            })
            &&& result.meta.config_applied == cfg
        }
}

/// Whether the time that a result reports was read as the time since `start`.
pub open spec fn took(result: ComputeMoveResult, start: Instant) -> bool {
    exists|ms: u128| #[trigger]
        search::read_since(start, ms) && result.meta.think_ms == ms as u64
}

/// Chooses among candidates.
fn answer<
    B: Fn(StdRng, Real) -> (bool, StdRng),
    W: Fn(StdRng, Vec<i64>, Real) -> Option<usize>,
>(
    candidates: Candidates,
    cfg: EngineConfig,
    seed: u64,
    start: Instant,
    chance: &B,
    spin: &W,
) -> (result: ComputeMoveResult)
    requires
        candidates.moves@.len() == candidates.scored@.len(),
        in_places(candidates.scored@),
        candidates.moves@.len() > 0,
        cfg.random_topk > 0,
        select::is_chance(*chance, cfg.blunder_rate),
        select::is_spin(*spin, cfg.temperature),
    ensures
        answers(result, candidates.gathers(), cfg, seed, *chance, *spin),
        search::move_views(candidates.moves@).contains(result.selected_move@),
        result.meta.candidate_count == candidates.moves@.len(),
        result.meta.config_applied == cfg,
        result.meta.search_depth == (if candidates.depth < cfg.max_depth {
            candidates.depth
        } else {
            cfg.max_depth
        }),
        result.meta.searched_nodes == reported_nodes(candidates.gathers(), cfg),
        took(result, start),
{
    let ghost found = candidates.gathers();
    let rng = rng_from_seed(seed);
    assert(candidates.scored@ =~= place_scores(found.moves));
    let ranked = rank_moves(&candidates.scored);
    proof {
        ranked@.to_multiset_ensures();
        candidates.scored@.to_multiset_ensures();
        assert(ranked@.len() == candidates.scored@.len());
    }
    let best_score = ranked[0].1;
    let index = select_move_index(&ranked, best_score, &cfg, rng, chance, spin);
    proof {
        select::law_choice_is_a_contender(
            ranked@,
            best_score,
            cfg,
            rng,
            *chance,
            *spin,
            index,
        );
        let top = select::contenders(ranked@, cfg);
        let i = choose|i: int| 0 <= i < top.len() && (#[trigger] top[i]).0 == index;
        assert(ranked@.contains(ranked@[i]));
        assert(candidates.scored@.to_multiset().count(ranked@[i]) > 0);
        let k = choose|k: int|
            0 <= k < candidates.scored@.len() && candidates.scored@[k] == ranked@[i];
        assert(candidates.scored@[k].0 == k);
        assert(index < found.moves.len());
    }
    assert(search::move_views(candidates.moves@)[index as int] == candidates.moves@[index as int]@);
    let selected_move = candidates.moves[index].clone();
    let count = candidates.scored.len();
    let searched_nodes: u64 = if candidates.nodes > 0 {
        candidates.nodes
    } else if (count as u64) < cfg.max_nodes as u64 {
        count as u64
    } else {
        cfg.max_nodes as u64
    };
    let think_ms = read_clock(&start) as u64;
    ComputeMoveResult {
        selected_move,
        meta: ComputeMoveMeta {
            think_ms,
            searched_nodes,
            search_depth: if candidates.depth < cfg.max_depth {
                candidates.depth
            } else {
                cfg.max_depth
            },
            eval_cp: best_score,
            candidate_count: count,
            config_applied: cfg,
        },
    }
}

/// The seed of a request: the one that it sets, or one made from the game and the move number.
pub open spec fn request_seed(input: ComputeMoveCommand, cfg: EngineConfig) -> u64 {
    match cfg.random_seed {
        Some(seed) => seed,
        None => select::seed_value(input.game_id@, input.move_no),
    }
}

/// Whether a result is right for a request whose candidates are these.
pub open spec fn settles<
    B: Fn(StdRng, Real) -> (bool, StdRng),
    W: Fn(StdRng, Vec<i64>, Real) -> Option<usize>,
>(
    result: Result<ComputeMoveResult, ComputeMoveError>,
    found: Gathered,
    cfg: EngineConfig,
    seed: u64,
    chance: B,
    spin: W,
) -> bool {
    if found.moves.len() == 0 {
        result matches Err(ComputeMoveError::InvalidPosition(e)) && e@
            == "no legal move available"@
    } else {
        result matches Ok(answer) && answers(answer, found, cfg, seed, chance, spin)
    }
}

/// Whether a result is right for a request when the clock reads so.
pub open spec fn settles_run<
    S: Fn(Weights, EvalTerms) -> i32,
    M: Fn(Weights, MoveTerms) -> i32,
    B: Fn(StdRng, Real) -> (bool, StdRng),
    W: Fn(StdRng, Vec<i64>, Real) -> Option<usize>,
>(
    result: Result<ComputeMoveResult, ComputeMoveError>,
    input: ComputeMoveCommand,
    cfg: EngineConfig,
    score: S,
    judge: M,
    chance: B,
    spin: W,
    readings: spec_fn(nat) -> u128,
) -> bool {
    forall|scales: Scales| #[trigger]
        tell(scales, score, judge, cfg) ==> settles(
            result,
            request_candidates(input, cfg, scales, readings),
            cfg,
            request_seed(input, cfg),
            chance,
            spin,
        )
}

/// Whether a result is right for a request when the clock has read this on the way: later readings
/// would not matter, for there are none.
pub open spec fn settles_in_time<
    S: Fn(Weights, EvalTerms) -> i32,
    M: Fn(Weights, MoveTerms) -> i32,
    B: Fn(StdRng, Real) -> (bool, StdRng),
    W: Fn(StdRng, Vec<i64>, Real) -> Option<usize>,
>(
    result: Result<ComputeMoveResult, ComputeMoveError>,
    input: ComputeMoveCommand,
    cfg: EngineConfig,
    score: S,
    judge: M,
    chance: B,
    spin: W,
    read: Seq<u128>,
) -> bool {
    forall|readings: spec_fn(nat) -> u128| #[trigger]
        search::begins_with(readings, read) ==> settles_run(
            result,
            input,
            cfg,
            score,
            judge,
            chance,
            spin,
            readings,
        )
}

/// Whether a result chooses among the candidates of a request, within the limits: it does so
/// exactly if there are any.
pub open spec fn decides(
    result: Result<ComputeMoveResult, ComputeMoveError>,
    input: ComputeMoveCommand,
    cfg: EngineConfig,
) -> bool {
    if candidate_moves(input).len() == 0 {
        result matches Err(ComputeMoveError::InvalidPosition(e)) && e@
            == "no legal move available"@
    } else {
        &&& result matches Ok(answer)
        &&& candidate_moves(input).contains(answer.selected_move@)
        &&& answer.meta.candidate_count == candidate_moves(input).len()
        &&& answer.meta.config_applied == cfg
        &&& 1 <= answer.meta.search_depth <= cfg.max_depth
        &&& answer.meta.searched_nodes >= 1
        &&& if root_count(input) > 0 {
            nodes_fit(answer.meta.searched_nodes, input, cfg)
        } else {
            answer.meta.searched_nodes == (if answer.meta.candidate_count < cfg.max_nodes {
                answer.meta.candidate_count as int
            } else {
                cfg.max_nodes as int
            })
        }
    }
}

/// Whether the functions that weigh and draw can be used with every valid configuration.
pub open spec fn are_usable<
    S: Fn(Weights, EvalTerms) -> i32,
    M: Fn(Weights, MoveTerms) -> i32,
    B: Fn(StdRng, Real) -> (bool, StdRng),
    W: Fn(StdRng, Vec<i64>, Real) -> Option<usize>,
>(score: S, judge: M, chance: B, spin: W) -> bool {
    forall|cfg: EngineConfig| #[trigger]
        cfg.valid() ==> {
            &&& search::is_scorer(score, cfg)
            &&& is_judge(judge, cfg)
            &&& select::is_chance(chance, cfg.blunder_rate)
            &&& select::is_spin(spin, cfg.temperature)
        }
}

/// Whether a result is the answer to a request. A configuration that is out of range is refused
/// first, then skills that are not allowed, then a request with neither moves nor a position that
/// can be read. All else is decided by the candidates, the seed, and what the clock reads from the
/// start of the work on.
pub open spec fn computes<
    S: Fn(Weights, EvalTerms) -> i32,
    M: Fn(Weights, MoveTerms) -> i32,
    B: Fn(StdRng, Real) -> (bool, StdRng),
    W: Fn(StdRng, Vec<i64>, Real) -> Option<usize>,
>(
    result: Result<ComputeMoveResult, ComputeMoveError>,
    input: ComputeMoveCommand,
    score: S,
    judge: M,
    chance: B,
    spin: W,
) -> bool {
    match (
        config::config_problem(input.config_patch),
        rules::skills_of(input.board_state@),
        refusal(input),
    ) {
        (Some(message), _, _) => {
            result matches Err(ComputeMoveError::InvalidEngineConfig(e)) && e@ == message
        },
        (None, Err(message), _) => {
            result matches Err(ComputeMoveError::InvalidBoardState(e)) && e@ == message
        },
        (None, Ok(_), Some(message)) => {
            result matches Err(ComputeMoveError::InvalidPosition(e)) && e@ == message
        },
        (None, Ok(_), None) => decides(result, input, config::applied(input.config_patch)) && (
        exists|start: Instant, read: Seq<u128>|
            {
                &&& call_ensures(Instant::now, (), start)
                &&& #[trigger] search::clock_run(start, read)
                &&& settles_in_time(
                    result,
                    input,
                    config::applied(input.config_patch),
                    score,
                    judge,
                    chance,
                    spin,
                    read,
                )
                &&& result matches Ok(answer) ==> took(answer, start)
            }),
    }
}

/// Answers a request with a move. `score` weighs a position, `judge` a single move, `chance` and
/// `spin` draw as [`select_move_index`] says; they come from the caller, for they compute with
/// fractions. What a search finds in time depends on the clock; the answer follows from what the
/// clock reads on the way, from the start of the work on.
pub fn compute_ai_move<
    S: Fn(Weights, EvalTerms) -> i32,
    M: Fn(Weights, MoveTerms) -> i32,
    B: Fn(StdRng, Real) -> (bool, StdRng),
    W: Fn(StdRng, Vec<i64>, Real) -> Option<usize>,
>(input: ComputeMoveCommand, score: &S, judge: &M, chance: &B, spin: &W) -> (result: Result<
    ComputeMoveResult,
    ComputeMoveError,
>)
    requires
        are_usable(*score, *judge, *chance, *spin),
    ensures
        computes(result, input, *score, *judge, *chance, *spin),
{
    let cfg = match config_for(&input.config_patch) {
        Ok(cfg) => cfg,
        Err(e) => {
            return Err(ComputeMoveError::InvalidEngineConfig(e.message()));
        },
    };
    proof {
        config::law_accepted_config_is_valid(input.config_patch);
        assert(cfg.valid());
    }
    let rules = match parse_runtime_rules(&input.board_state) {
        Ok(rules) => rules,
        Err(e) => {
            return Err(ComputeMoveError::InvalidBoardState(e));
        },
    };
    let start = Instant::now();
    let seed = match cfg.random_seed {
        Some(seed) => seed,
        None => make_seed(input.game_id.as_str(), input.move_no),
    };
    let state = match &input.sfen {
        Some(sfen) => match SearchState::from_sfen(sfen.as_str()) {
            Ok(state) => Some(state),
            Err(_) => {
                if input.legal_moves.len() == 0 {
                    return Err(
                        ComputeMoveError::InvalidPosition(
                            "legal_moves is empty and SFEN parse failed",
                        ),
                    );
                }
                None
            },
        },
        None => {
            if input.legal_moves.len() == 0 {
                return Err(
                    ComputeMoveError::InvalidPosition("legal_moves is empty and sfen is missing"),
                );
            }
            None
        },
    };
    let candidates = match state {
        Some(state) => search_candidates(&input, state, &cfg, &rules, start, score, judge),
        None => given_candidates(&input, &cfg, judge),
    };
    let ghost read = if state is None {
        Seq::empty()
    } else {
        choose|read: Seq<u128>|
            search::clock_run(start, read) && #[trigger] candidates.follow_clock(
                input,
                cfg,
                *score,
                *judge,
                read,
            )
    };
    assert(candidates.follow_clock(input, cfg, *score, *judge, read));
    assert(search::clock_run(start, read));
    if candidates.moves.len() == 0 {
        let refused = Err(ComputeMoveError::InvalidPosition("no legal move available"));
        assert(settles_in_time(refused, input, cfg, *score, *judge, *chance, *spin, read)) by {
            assert forall|readings: spec_fn(nat) -> u128| #[trigger]
                search::begins_with(readings, read) implies settles_run(
                refused,
                input,
                cfg,
                *score,
                *judge,
                *chance,
                *spin,
                readings,
            ) by {
                assert(candidates.come_from(input, cfg, *score, *judge, readings));
            }
        }
        return refused;
    }
    let result = Ok(answer(candidates, cfg, seed, start, chance, spin));
    assert(settles_in_time(result, input, cfg, *score, *judge, *chance, *spin, read)) by {
        assert forall|readings: spec_fn(nat) -> u128| #[trigger]
            search::begins_with(readings, read) implies settles_run(
            result,
            input,
            cfg,
            *score,
            *judge,
            *chance,
            *spin,
            readings,
        ) by {
            assert(candidates.come_from(input, cfg, *score, *judge, readings));
        }
    }
    result
}

} // verus!
