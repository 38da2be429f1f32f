//! What a search is held to by its clock and its scores, and what its report says.

use crate::ai_move;
use crate::ai_move::{ComputeMoveError, Scales};
use crate::config::{EngineConfig, Weights};
use crate::heuristic;
use crate::heuristic::MoveTerms;
use crate::search;
use crate::search::{EvalTerms, Lookahead, SearchClock, SearchOutcome};
use crate::select;
use crate::shogi;
use crate::types::{EngineMove, EngineMoveView, Position, RulesView};
use std::collections::hash_map::DefaultHasher;
use std::time::{Duration, Instant};
use vstd::prelude::*;
use vstd::std_specs::hash::DefaultHasherAdditionalSpecFns;

verus! {

// ---------------------------------------------------------------------------
// The clock
// ---------------------------------------------------------------------------

/// The time is over once the milliseconds, counted up to 2^32 and then from zero again, have
/// reached the limit: without a limit at once, and then for good until the count starts anew.
pub proof fn law_when_the_time_is_over(ms: u128, limit_ms: u32)
    ensures
        search::time_over(ms, 0),
        ms < 0x1_0000_0000 ==> (search::time_over(ms, limit_ms) <==> ms >= limit_ms),
        ms + 0x1_0000_0000 <= u128::MAX ==> (search::time_over(
            (ms + 0x1_0000_0000) as u128,
            limit_ms,
        ) <==> search::time_over(ms, limit_ms)),
{
    let past = (ms + 0x1_0000_0000) as u128;
    assert(ms + 0x1_0000_0000 <= u128::MAX ==> past % 0x1_0000_0000 == ms % 0x1_0000_0000);
}

/// A reading is the milliseconds of the time that has gone by since the start.
pub proof fn law_what_a_reading_is(start: Instant, elapsed: Duration, ms: u128)
    requires
        call_ensures(Instant::elapsed, (&start,), elapsed),
        call_ensures(Duration::as_millis, (&elapsed,), ms),
    ensures
        search::read_since(start, ms),
        search::clock_run(start, seq![ms]),
{
}

/// Each reading of a run was taken since its start, and a reading more makes a longer run.
pub proof fn law_a_run_is_read_since_its_start(start: Instant, read: Seq<u128>, ms: u128)
    ensures
        search::clock_run(start, Seq::empty()),
        search::clock_run(start, read.push(ms)) <==> search::clock_run(start, read)
            && search::read_since(start, ms),
{
    let longer = read.push(ms);
    if search::clock_run(start, longer) {
        assert(longer[read.len() as int] == ms);
        assert forall|i: int| 0 <= i < read.len() implies search::read_since(
            start,
            #[trigger] read[i],
        ) by {
            assert(longer[i] == read[i]);
        }
    }
    if search::clock_run(start, read) && search::read_since(start, ms) {
        assert forall|i: int| 0 <= i < longer.len() implies search::read_since(
            start,
            #[trigger] longer[i],
        ) by {
            if i < read.len() {
                assert(longer[i] == read[i]);
            }
        }
    }
}

/// A clock answers each question by the reading that it takes for it.
pub proof fn law_a_clock_answers_by_its_readings(clock: SearchClock, i: int)
    requires
        0 <= i < clock.readings().len(),
    ensures
        clock.log().len() == clock.readings().len(),
        clock.log()[i] <==> clock.readings()[i] % 0x1_0000_0000 >= clock.limit(),
{
}

// ---------------------------------------------------------------------------
// Scores
// ---------------------------------------------------------------------------

/// The weights of a configuration.
pub open spec fn weights_of(cfg: EngineConfig) -> Weights {
    Weights {
        material: cfg.eval_material_weight,
        position: cfg.eval_position_weight,
        king_safety: cfg.eval_king_safety_weight,
        mobility: cfg.eval_mobility_weight,
    }
}

/// Scales tell what two functions say of positions and of moves exactly if they give the number
/// that the function gives for the weights of the configuration.
pub proof fn law_which_scales_tell<
    S: Fn(Weights, EvalTerms) -> i32,
    M: Fn(Weights, MoveTerms) -> i32,
>(scales: Scales, score: S, judge: M, cfg: EngineConfig)
    ensures
        ai_move::tell(scales, score, judge, cfg) <==> {
            &&& forall|t: EvalTerms, r: i32| #[trigger]
                call_ensures(score, (weights_of(cfg), t), r) ==> (scales.positions)(t) == r
            &&& forall|t: MoveTerms, r: i32| #[trigger]
                call_ensures(judge, (weights_of(cfg), t), r) ==> (scales.moves)(t) == r
        },
{
    assert(weights_of(cfg) == cfg.weighing());
}

/// The score of a move on its own is what the function says of the move's terms.
pub proof fn law_how_a_move_is_scored<F: Fn(Weights, MoveTerms) -> i32>(
    score: F,
    cfg: EngineConfig,
    mv: EngineMoveView,
    side_to_move: Seq<char>,
    value: i32,
)
    ensures
        heuristic::scores_move(score, cfg, mv, side_to_move, value) <==> call_ensures(
            score,
            (weights_of(cfg), heuristic::move_terms(mv, side_to_move)),
            value,
        ),
{
    assert(weights_of(cfg) == cfg.weighing());
}

// ---------------------------------------------------------------------------
// Reports
// ---------------------------------------------------------------------------

/// Whether a report says what a search has come to: the legal moves in order, for each its number
/// and its score, the nodes and the depth.
pub open spec fn tells_outcome(
    report: (Vec<EngineMove>, Vec<(usize, i32)>, u64, u32),
    pos: Position,
    rules: RulesView,
    outcome: SearchOutcome,
) -> bool {
    let roots = shogi::legal_moves(pos, rules, true);
    &&& report.0@.len() == roots.len()
    &&& report.1@.len() == roots.len()
    &&& outcome.scores.len() == roots.len()
    &&& forall|i: int|
        0 <= i < roots.len() ==> (#[trigger] report.0@[i])@ == shogi::engine_move(roots[i])
    &&& forall|i: int|
        0 <= i < roots.len() ==> #[trigger] report.1@[i] == (
            i as usize,
            outcome.scores[i] as i32,
        )
    &&& report.2 == outcome.nodes
    &&& report.3 == outcome.depth
}

/// What a search with these answers of the clock comes to.
pub open spec fn outcome_with(
    weigh: spec_fn(EvalTerms) -> int,
    late: spec_fn(nat) -> bool,
    pos: Position,
    rules: RulesView,
    cfg: EngineConfig,
) -> SearchOutcome {
    search::search_outcome(
        Lookahead { rules, max_nodes: cfg.max_nodes as nat, weigh, late },
        pos,
        cfg.max_depth as nat,
    )
}

proof fn lemma_reports(
    report: (Vec<EngineMove>, Vec<(usize, i32)>, u64, u32),
    pos: Position,
    rules: RulesView,
    outcome: SearchOutcome,
)
    requires
        search::reports(report, pos, rules, outcome),
    ensures
        tells_outcome(report, pos, rules, outcome),
{
    let roots = shogi::legal_moves(pos, rules, true);
    let views = search::move_views(report.0@);
    assert(views == search::root_moves(pos, rules));
    assert forall|i: int| 0 <= i < roots.len() implies (#[trigger] report.0@[i])@
        == shogi::engine_move(roots[i]) by {
        assert(views[i] == report.0@[i]@);
    }
}

/// A search of a fresh clock reports what the answers of that clock make of it, whatever it would
/// have answered later.
pub proof fn law_a_search_follows_its_clock<F: Fn(Weights, EvalTerms) -> i32>(
    report: (Vec<EngineMove>, Vec<(usize, i32)>, u64, u32),
    pos: Position,
    rules: RulesView,
    score: F,
    cfg: EngineConfig,
    clock: SearchClock,
    weigh: spec_fn(EvalTerms) -> int,
    late: spec_fn(nat) -> bool,
)
    requires
        forall|env: Lookahead| #[trigger]
            search::fits(env, score, cfg, rules, clock.log()) ==> search::reports(
                report,
                pos,
                rules,
                search::search_outcome(env, pos, cfg.max_depth as nat),
            ),
        forall|t: EvalTerms, r: i32| #[trigger]
            call_ensures(score, (weights_of(cfg), t), r) ==> weigh(t) == r,
        forall|i: int|
            0 <= i < clock.readings().len() ==> (late(i as nat) <==> #[trigger] clock.readings()[i]
                % 0x1_0000_0000 >= clock.limit()),
    ensures
        tells_outcome(report, pos, rules, outcome_with(weigh, late, pos, rules, cfg)),
{
    assert(weights_of(cfg) == cfg.weighing());
    let env = Lookahead { rules, max_nodes: cfg.max_nodes as nat, weigh, late };
    assert forall|i: int| 0 <= i < clock.log().len() implies late(i as nat)
        == #[trigger] clock.log()[i] by {
        law_a_clock_answers_by_its_readings(clock, i);
        assert(clock.readings()[i] % 0x1_0000_0000 >= clock.limit() <==> late(i as nat));
    }
    assert(search::fits(env, score, cfg, rules, clock.log()));
    lemma_reports(report, pos, rules, search::search_outcome(env, pos, cfg.max_depth as nat));
}

/// A report that follows from readings of the clock is what a search makes of them: the time is
/// over once a reading has reached the limit.
pub proof fn law_a_report_follows_its_readings<F: Fn(Weights, EvalTerms) -> i32>(
    report: (Vec<EngineMove>, Vec<(usize, i32)>, u64, u32),
    pos: Position,
    rules: RulesView,
    score: F,
    cfg: EngineConfig,
    read: Seq<u128>,
    weigh: spec_fn(EvalTerms) -> int,
    readings: spec_fn(nat) -> u128,
)
    requires
        search::follows_clock(report, pos, rules, score, cfg, read),
        forall|t: EvalTerms, r: i32| #[trigger]
            call_ensures(score, (weights_of(cfg), t), r) ==> weigh(t) == r,
        forall|i: int| 0 <= i < read.len() ==> readings(i as nat) == #[trigger] read[i],
    ensures
        tells_outcome(
            report,
            pos,
            rules,
            outcome_with(
                weigh,
                |i: nat| readings(i) % 0x1_0000_0000 >= cfg.time_limit_ms,
                pos,
                rules,
                cfg,
            ),
        ),
{
    assert(weights_of(cfg) == cfg.weighing());
    let late = |i: nat| readings(i) % 0x1_0000_0000 >= cfg.time_limit_ms;
    let env = Lookahead { rules, max_nodes: cfg.max_nodes as nat, weigh, late };
    let named = search::lookahead(weigh, cfg, rules, readings);
    assert(env.late =~= named.late);
    assert(env == named);
    assert(search::begins_with(readings, read));
    assert(search::reports_run(report, pos, rules, score, cfg, readings));
    assert(search::describes(weigh, score, cfg));
    lemma_reports(report, pos, rules, search::search_outcome(env, pos, cfg.max_depth as nat));
}

/// A report lists the legal moves of the position in order, each with a score under its number.
pub proof fn law_what_a_report_lists(
    report: (Vec<EngineMove>, Vec<(usize, i32)>, u64, u32),
    pos: Position,
    rules: RulesView,
)
    requires
        search::lists_roots(report, pos, rules),
    ensures
        ({
            let roots = shogi::legal_moves(pos, rules, true);
            &&& report.0@.len() == roots.len()
            &&& report.1@.len() == roots.len()
            &&& forall|i: int|
                0 <= i < roots.len() ==> (#[trigger] report.0@[i])@ == shogi::engine_move(roots[i])
            &&& forall|i: int| 0 <= i < roots.len() ==> (#[trigger] report.1@[i]).0 == i
        }),
{
    let roots = shogi::legal_moves(pos, rules, true);
    let views = search::move_views(report.0@);
    assert(views == search::root_moves(pos, rules));
    assert(views.len() == report.0@.len());
    assert forall|i: int| 0 <= i < roots.len() implies (#[trigger] report.0@[i])@
        == shogi::engine_move(roots[i]) by {
        assert(views[i] == report.0@[i]@);
    }
}

/// A report stays within the depth and the nodes allowed, except that it counts a depth of one and
/// a node for each legal move in any case.
pub proof fn law_how_far_a_report_goes(
    report: (Vec<EngineMove>, Vec<(usize, i32)>, u64, u32),
    cfg: EngineConfig,
)
    requires
        search::keeps_limits(report, cfg),
    ensures
        report.3 >= 1,
        report.3 == 1 || report.3 <= cfg.max_depth,
        report.2 >= report.0@.len(),
        report.2 == report.0@.len() || report.2 <= cfg.max_nodes,
        report.0@.len() == 0 ==> report.2 == 0 && report.3 == 1,
{
}

// ---------------------------------------------------------------------------
// Seeds and refusals
// ---------------------------------------------------------------------------

/// The seed of a game's move is the hash of the game's name, of a byte that no name contains, and
/// of the four bytes of the number, the lowest first.
pub proof fn law_what_a_seed_is_made_of(game_id: Seq<char>, move_no: u32, bytes: Seq<u8>)
    requires
        bytes.len() == 4,
        move_no == bytes[0] + 256 * (bytes[1] + 256 * (bytes[2] + 256 * bytes[3])),
    ensures
        select::seed_value(game_id, move_no) == DefaultHasher::spec_finish(
            seq![vstd::utf8::encode_utf8(game_id), seq![255u8], bytes],
        ),
{
    assert(select::number_bytes(move_no) =~= bytes);
}

/// A refusal has the code of its kind, and its own words for a message.
pub proof fn law_how_a_refusal_is_reported(error: ComputeMoveError)
    ensures
        error is InvalidEngineConfig <==> error.code_text() == "INVALID_ENGINE_CONFIG"@,
        error !is InvalidEngineConfig <==> error.code_text() == "INVALID_POSITION"@,
        error matches ComputeMoveError::InvalidEngineConfig(message) ==> error.text() == message@,
        error matches ComputeMoveError::InvalidPosition(message) ==> error.text() == message@,
        error matches ComputeMoveError::InvalidBoardState(message) ==> error.text() == message@,
{
    reveal_strlit("INVALID_ENGINE_CONFIG");
    reveal_strlit("INVALID_POSITION");
    assert("INVALID_ENGINE_CONFIG"@.len() != "INVALID_POSITION"@.len());
}

} // verus!
