//! What a request gets for an answer, from its moves and its position to the report.

use crate::ai_move;
use crate::ai_move::{
    ComputeMoveCommand, ComputeMoveError, ComputeMoveResult, Gathered, Scales, ScoredMove,
};
use crate::choice_laws;
use crate::config;
use crate::config::{EngineConfig, Real, Weights};
use crate::heuristic;
use crate::heuristic::MoveTerms;
use crate::rules;
use crate::search;
use crate::search::EvalTerms;
use crate::search_laws;
use crate::select;
use crate::sfen;
use crate::shogi;
use crate::types::{EngineMoveView, Position, Side};
use rand::rngs::StdRng;
use std::time::Instant;
use vstd::prelude::*;

verus! {

// ---------------------------------------------------------------------------
// Candidates
// ---------------------------------------------------------------------------

/// Whether a move names squares of the board, and either where it starts or what it drops.
pub open spec fn is_usable(mv: EngineMoveView) -> bool {
    &&& 0 <= mv.to_row <= 8
    &&& 0 <= mv.to_col <= 8
    &&& match (mv.from_row, mv.from_col, mv.drop_piece_code) {
        (Some(row), Some(col), None) => 0 <= row <= 8 && 0 <= col <= 8,
        (None, None, Some(_)) => true,
        _ => false,
    }
}

/// The usable ones of the moves that a request gives, in order.
pub open spec fn usable_moves(input: ComputeMoveCommand) -> Seq<EngineMoveView> {
    Seq::new(input.legal_moves@.len(), |i: int| input.legal_moves@[i]@).filter(
        |mv: EngineMoveView| is_usable(mv),
    )
}

/// The position that a request gives, if it gives one that can be read. Whose turn it is the
/// request says itself: black's for the player, else white's.
pub open spec fn given_position(input: ComputeMoveCommand) -> Option<Position> {
    match input.sfen {
        None => None,
        Some(text) => match sfen::sfen_position(text@) {
            Err(_) => None,
            Ok(read) => Some(
                Position {
                    board: read.board,
                    side_to_move: if input.side_to_move@ == "player"@ {
                        Side::Black
                    } else {
                        Side::White
                    },
                    hands: read.hands,
                },
            ),
        },
    }
}

/// Whether two moves have the same squares, promote alike and drop the same.
pub open spec fn agree(a: EngineMoveView, b: EngineMoveView) -> bool {
    (a.from_row, a.from_col, a.to_row, a.to_col, a.promote, a.drop_piece_code) == (
        b.from_row,
        b.from_col,
        b.to_row,
        b.to_col,
        b.promote,
        b.drop_piece_code,
    )
}

/// The usable moves given, each with the score that it gets on its own.
pub open spec fn scored_alone(input: ComputeMoveCommand, scales: Scales) -> Seq<ScoredMove> {
    let moves = usable_moves(input);
    Seq::new(
        moves.len(),
        |i: int|
            ScoredMove {
                mv: moves[i],
                score: (scales.moves)(heuristic::move_terms(moves[i], input.side_to_move@)),
            },
    )
}

/// The legal moves of a position, each with the score that the search gave it.
pub open spec fn scored_by_search(
    input: ComputeMoveCommand,
    pos: Position,
    outcome: search::SearchOutcome,
) -> Seq<ScoredMove> {
    let roots = shogi::legal_moves(pos, rules::rules_of(input.board_state@), true);
    Seq::new(
        outcome.scores.len(),
        |i: int|
            ScoredMove { mv: shogi::engine_move(roots[i]), score: outcome.scores[i] as i32 },
    )
}

/// Those of the scored moves that agree with a usable move given, in order.
pub open spec fn confirmed(input: ComputeMoveCommand, found: Seq<ScoredMove>) -> Seq<ScoredMove> {
    found.filter(
        |candidate: ScoredMove|
            exists|j: int|
                0 <= j < usable_moves(input).len() && agree(
                    candidate.mv,
                    #[trigger] usable_moves(input)[j],
                ),
    )
}

/// Whether these are the candidates of a request. With a position they come from a search of it,
/// confirmed by the moves given if there are any; should none be confirmed, or should there be no
/// position, they are the moves given, each scored on its own.
pub open spec fn are_candidates(
    input: ComputeMoveCommand,
    cfg: EngineConfig,
    scales: Scales,
    readings: spec_fn(nat) -> u128,
    found: Gathered,
) -> bool {
    match given_position(input) {
        None => found == (Gathered { moves: scored_alone(input, scales), nodes: 0, depth: 1 }),
        Some(pos) => {
            let env = search::Lookahead {
                rules: rules::rules_of(input.board_state@),
                max_nodes: cfg.max_nodes as nat,
                weigh: scales.positions,
                late: |i: nat| readings(i) % 0x1_0000_0000 >= cfg.time_limit_ms,
            };
            let outcome = search::search_outcome(env, pos, cfg.max_depth as nat);
            let all = scored_by_search(input, pos, outcome);
            &&& found.nodes == outcome.nodes
            &&& found.depth == outcome.depth
            &&& found.moves == (if input.legal_moves@.len() == 0 {
                all
            } else if confirmed(input, all).len() > 0 {
                confirmed(input, all)
            } else {
                scored_alone(input, scales)
            })
        },
    }
}

proof fn lemma_same_filter<T>(list: Seq<T>, a: spec_fn(T) -> bool, b: spec_fn(T) -> bool)
    requires
        forall|x: T| #[trigger] a(x) == b(x),
    ensures
        list.filter(a) == list.filter(b),
    decreases list.len(),
{
    reveal(Seq::filter);
    if list.len() > 0 {
        lemma_same_filter(list.drop_last(), a, b);
    }
}

/// Which candidates a request has.
pub proof fn law_which_candidates_a_request_has(
    input: ComputeMoveCommand,
    cfg: EngineConfig,
    scales: Scales,
    readings: spec_fn(nat) -> u128,
)
    ensures
        are_candidates(
            input,
            cfg,
            scales,
            readings,
            ai_move::request_candidates(input, cfg, scales, readings),
        ),
{
    let views = Seq::new(input.legal_moves@.len(), |i: int| input.legal_moves@[i]@);
    assert(views =~= search::move_views(input.legal_moves@));
    lemma_same_filter(
        views,
        |mv: EngineMoveView| heuristic::coordinates_valid(mv),
        |mv: EngineMoveView| is_usable(mv),
    );
    let legal = ai_move::normalized(search::move_views(input.legal_moves@));
    assert(legal == usable_moves(input));
    let alone = ai_move::judged(scales.moves, legal, input.side_to_move@);
    assert(alone =~= scored_alone(input, scales));
    if let Some(pos) = given_position(input) {
        let env = search::Lookahead {
            rules: rules::rules_of(input.board_state@),
            max_nodes: cfg.max_nodes as nat,
            weigh: scales.positions,
            late: |i: nat| readings(i) % 0x1_0000_0000 >= cfg.time_limit_ms,
        };
        let named = search::lookahead(
            scales.positions,
            cfg,
            rules::rules_of(input.board_state@),
            readings,
        );
        assert(env.late =~= named.late);
        assert(env == named);
        let outcome = search::search_outcome(env, pos, cfg.max_depth as nat);
        let all = scored_by_search(input, pos, outcome);
        let found = ai_move::searched(pos, rules::rules_of(input.board_state@), outcome);
        search_laws::law_search_keeps_limits(env, pos, cfg.max_depth as nat);
        assert(found =~= all);
        lemma_same_filter(
            all,
            |candidate: ScoredMove| ai_move::listed(candidate.mv, legal),
            |candidate: ScoredMove|
                exists|j: int|
                    0 <= j < usable_moves(input).len() && agree(
                        candidate.mv,
                        #[trigger] usable_moves(input)[j],
                    ),
        );
    }
}

// ---------------------------------------------------------------------------
// Answers
// ---------------------------------------------------------------------------

/// Whether a result is made of these candidates. They are ranked by score, of equal scores the one
/// that comes first; one is chosen, and reported are the best score, the number of candidates, the
/// nodes of the search, or else that number as far as the limit on nodes goes, the depth of the
/// search as far as its limit goes, and the configuration.
pub open spec fn is_made_of<
    B: Fn(StdRng, Real) -> (bool, StdRng),
    W: Fn(StdRng, Vec<i64>, Real) -> Option<usize>,
>(
    result: ComputeMoveResult,
    found: Gathered,
    cfg: EngineConfig,
    seed: u64,
    chance: B,
    spin: W,
    ranked: Seq<(usize, i32)>,
    index: usize,
) -> bool {
    &&& ranked.to_multiset() == Seq::new(
        found.moves.len(),
        |i: int| (i as usize, found.moves[i].score),
    ).to_multiset()
    &&& forall|i: int, j: int|
        0 <= i < j < ranked.len() ==> (#[trigger] ranked[i]).1 > (#[trigger] ranked[j]).1
            || ranked[i].1 == ranked[j].1 && ranked[i].0 < ranked[j].0
    &&& choice_laws::is_choice(
        ranked,
        ranked[0].1,
        cfg,
        select::seeded_rng(seed),
        chance,
        spin,
        index,
    )
    &&& index < found.moves.len()
    &&& result.selected_move@ == found.moves[index as int].mv
    &&& result.meta.eval_cp == ranked[0].1
    &&& result.meta.candidate_count == found.moves.len()
    &&& result.meta.searched_nodes == (if found.nodes > 0 {
        found.nodes as int
    } else if found.moves.len() > cfg.max_nodes {
        cfg.max_nodes as int
    } else {
        found.moves.len() as int
    })
    &&& result.meta.search_depth == (if found.depth > cfg.max_depth {
        cfg.max_depth as int
    } else {
        found.depth as int
    })
    &&& result.meta.config_applied == cfg
}

/// What an answer is made of.
pub proof fn law_what_an_answer_is_made_of<
    B: Fn(StdRng, Real) -> (bool, StdRng),
    W: Fn(StdRng, Vec<i64>, Real) -> Option<usize>,
>(
    result: ComputeMoveResult,
    found: Gathered,
    cfg: EngineConfig,
    seed: u64,
    chance: B,
    spin: W,
) -> (made: (Seq<(usize, i32)>, usize))
    requires
        cfg.random_topk > 0,
        cfg.blunder_max_loss_cp <= 3000,
        ai_move::answers(result, found, cfg, seed, chance, spin),
    ensures
        is_made_of(result, found, cfg, seed, chance, spin, made.0, made.1),
{
    let scored = ai_move::place_scores(found.moves);
    let (ranked, index): (Seq<(usize, i32)>, usize) = choose|
        ranked: Seq<(usize, i32)>,
        index: usize,
    |
        {
            &&& #[trigger] select::ranking(ranked, scored)
            &&& #[trigger] select::chosen(
                ranked,
                ranked[0].1,
                cfg,
                select::seeded_rng(seed),
                chance,
                spin,
                index,
            )
            &&& index < found.moves.len()
            &&& result.selected_move@ == found.moves[index as int].mv
            &&& result.meta.eval_cp == ranked[0].1
            &&& result.meta.candidate_count == found.moves.len()
            &&& result.meta.searched_nodes == ai_move::reported_nodes(found, cfg)
            &&& result.meta.search_depth == (if found.depth < cfg.max_depth {
                found.depth
            } else {
                cfg.max_depth as nat
            })
            &&& result.meta.config_applied == cfg
        };
    ranked.to_multiset_ensures();
    scored.to_multiset_ensures();
    assert(ranked.len() == scored.len());
    assert(scored =~= Seq::new(
        found.moves.len(),
        |i: int| (i as usize, found.moves[i].score),
    ));
    assert forall|i: int, j: int| 0 <= i < j < ranked.len() implies (#[trigger] ranked[i]).1 > (
    #[trigger] ranked[j]).1 || ranked[i].1 == ranked[j].1 && ranked[i].0 < ranked[j].0 by {
        assert(select::before(ranked[i], ranked[j]));
    }
    choice_laws::law_how_a_move_is_chosen(
        ranked,
        ranked[0].1,
        cfg,
        select::seeded_rng(seed),
        chance,
        spin,
        index,
    );
    (ranked, index)
}

/// The seed of a request is the one that it sets, or else is made from its game and move number.
pub proof fn law_which_seed_a_request_has(input: ComputeMoveCommand)
    ensures
        ({
            let seed = ai_move::request_seed(input, config::applied(input.config_patch));
            match input.config_patch.random_seed {
                Some(given) => seed == given,
                None => seed == select::seed_value(input.game_id@, input.move_no),
            }
        }),
{
}

/// Whether the clock, read from a start on, lets a result be made of candidates of the request.
pub open spec fn is_right<
    S: Fn(Weights, EvalTerms) -> i32,
    M: Fn(Weights, MoveTerms) -> i32,
    B: Fn(StdRng, Real) -> (bool, StdRng),
    W: Fn(StdRng, Vec<i64>, Real) -> Option<usize>,
>(
    result: Result<ComputeMoveResult, ComputeMoveError>,
    input: ComputeMoveCommand,
    score: S,
    judge: M,
    chance: B,
    spin: W,
    readings: spec_fn(nat) -> u128,
) -> bool {
    let cfg = config::applied(input.config_patch);
    forall|scales: Scales| #[trigger]
        ai_move::tell(scales, score, judge, cfg) ==> {
            let found = ai_move::request_candidates(input, cfg, scales, readings);
            if found.moves.len() == 0 {
                result matches Err(ComputeMoveError::InvalidPosition(message)) && message@
                    == "no legal move available"@
            } else {
                result matches Ok(answer) && ai_move::answers(
                    answer,
                    found,
                    cfg,
                    ai_move::request_seed(input, cfg),
                    chance,
                    spin,
                )
            }
        }
}

/// What a request gets. A configuration that is not accepted is refused first, then skills that
/// are not; then a request that gives no moves, and no position or none that can be read. Any other
/// is answered by its candidates, or refused if it has none; the clock counts from the start of
/// the work on, and the time reported is read from it.
pub proof fn law_what_a_request_gets<
    S: Fn(Weights, EvalTerms) -> i32,
    M: Fn(Weights, MoveTerms) -> i32,
    B: Fn(StdRng, Real) -> (bool, StdRng),
    W: Fn(StdRng, Vec<i64>, Real) -> Option<usize>,
>(
    result: Result<ComputeMoveResult, ComputeMoveError>,
    input: ComputeMoveCommand,
    score: S,
    judge: M,
    chance: B,
    spin: W,
)
    requires
        ai_move::computes(result, input, score, judge, chance, spin),
    ensures
        ({
            let problem = config::config_problem(input.config_patch);
            let skills = rules::skills_of(input.board_state@);
            let empty = input.legal_moves@.len() == 0;
            if problem is Some {
                result matches Err(ComputeMoveError::InvalidEngineConfig(message)) && message@
                    == problem.unwrap()
            } else if skills is Err {
                result matches Err(ComputeMoveError::InvalidBoardState(message)) && message@
                    == skills->Err_0
            } else if empty && input.sfen is None {
                result matches Err(ComputeMoveError::InvalidPosition(message)) && message@
                    == "legal_moves is empty and sfen is missing"@
            } else if empty && given_position(input) is None {
                result matches Err(ComputeMoveError::InvalidPosition(message)) && message@
                    == "legal_moves is empty and SFEN parse failed"@
            } else {
                exists|start: Instant, read: Seq<u128>|
                    {
                        &&& call_ensures(Instant::now, (), start)
                        &&& #[trigger] search::clock_run(start, read)
                        &&& forall|readings: spec_fn(nat) -> u128| #[trigger]
                            search::begins_with(readings, read) ==> is_right(
                                result,
                                input,
                                score,
                                judge,
                                chance,
                                spin,
                                readings,
                            )
                        &&& result matches Ok(answer) ==> exists|ms: u128| #[trigger]
                            search::read_since(start, ms) && answer.meta.think_ms == ms as u64
                    }
            }
        }),
{
    let cfg = config::applied(input.config_patch);
    if config::config_problem(input.config_patch) is None && rules::skills_of(
        input.board_state@,
    ) is Ok && ai_move::refusal(input) is None {
        let (start, read): (Instant, Seq<u128>) = choose|start: Instant, read: Seq<u128>|
            {
                &&& call_ensures(Instant::now, (), start)
                &&& #[trigger] search::clock_run(start, read)
                &&& ai_move::settles_in_time(
                    result,
                    input,
                    cfg,
                    score,
                    judge,
                    chance,
                    spin,
                    read,
                )
                &&& result matches Ok(answer) ==> ai_move::took(answer, start)
            };
        assert forall|readings: spec_fn(nat) -> u128| #[trigger]
            search::begins_with(readings, read) implies is_right(
            result,
            input,
            score,
            judge,
            chance,
            spin,
            readings,
        ) by {
            assert(ai_move::settles_run(
                result,
                input,
                cfg,
                score,
                judge,
                chance,
                spin,
                readings,
            ));
        }
        assert(search::clock_run(start, read));
    }
}

/// Functions that take anything they may be asked, score above the lowest number, and draw a place
/// among those given can be used with every request.
pub proof fn law_which_functions_can_be_used<
    S: Fn(Weights, EvalTerms) -> i32,
    M: Fn(Weights, MoveTerms) -> i32,
    B: Fn(StdRng, Real) -> (bool, StdRng),
    W: Fn(StdRng, Vec<i64>, Real) -> Option<usize>,
>(score: S, judge: M, chance: B, spin: W)
    requires
        forall|w: Weights, t: EvalTerms| call_requires(score, (w, t)),
        forall|w: Weights, t: EvalTerms, r: i32|
            call_ensures(score, (w, t), r) ==> r > -0x8000_0000,
        forall|w: Weights, t: MoveTerms| call_requires(judge, (w, t)),
        forall|rng: StdRng, rate: Real| call_requires(chance, (rng, rate)),
        forall|rng: StdRng, found: Vec<i64>, temperature: Real|
            found@.len() > 0 ==> call_requires(spin, (rng, found, temperature)),
        forall|rng: StdRng, found: Vec<i64>, temperature: Real, i: usize|
            call_ensures(spin, (rng, found, temperature), Some(i)) ==> i < found@.len(),
    ensures
        ai_move::are_usable(score, judge, chance, spin),
{
}

} // verus!
