//! What holds of every answer to a request.

use crate::ai_move;
use crate::ai_move::{
    ComputeMoveCommand, ComputeMoveError, ComputeMoveResult, Gathered, Scales,
};
use crate::config;
use crate::config::{EngineConfig, Real, Weights};
use crate::heuristic;
use crate::heuristic::MoveTerms;
use crate::rules;
use crate::search;
use crate::search::EvalTerms;
use crate::search_laws;
use crate::select;
use crate::shogi;
use crate::shogi_laws;
use crate::types;
use crate::types::{EngineMoveView, GenMove, PieceKind, Position, RulesView};
use rand::rngs::StdRng;
use std::time::Instant;
use vstd::prelude::*;

verus! {

/// Where moves are given, every candidate is one of those with valid coordinates.
pub proof fn law_candidates_are_among_the_moves_given(input: ComputeMoveCommand, mv: EngineMoveView)
    requires
        input.legal_moves@.len() > 0,
        ai_move::candidate_moves(input).contains(mv),
    ensures
        ai_move::listed(mv, ai_move::normalized(search::move_views(input.legal_moves@))),
{
    let legal = ai_move::normalized(search::move_views(input.legal_moves@));
    let candidates = ai_move::candidate_moves(input);
    let i = choose|i: int| 0 <= i < candidates.len() && candidates[i] == mv;
    if candidates == legal {
        assert(ai_move::same_move(mv, legal[i]));
    } else {
        let pos = ai_move::request_position(
            types::text_of(input.sfen),
            input.side_to_move@,
        ).unwrap();
        search::root_moves(pos, rules::rules_of(input.board_state@)).lemma_filter_pred(
            |mv: EngineMoveView| ai_move::listed(mv, legal),
            i,
        );
    }
}

/// Where a position is given but no moves, every candidate is a legal move of the position, with
/// the side that the request names to move.
pub proof fn law_candidates_are_legal_moves(input: ComputeMoveCommand, mv: EngineMoveView)
    requires
        input.legal_moves@.len() == 0,
        ai_move::refusal(input) is None,
        ai_move::candidate_moves(input).contains(mv),
    ensures
        ai_move::request_position(types::text_of(input.sfen), input.side_to_move@) matches Some(pos)
            && exists|legal: GenMove|
            {
                &&& #[trigger] shogi::legal_moves(
                    pos,
                    rules::rules_of(input.board_state@),
                    true,
                ).contains(legal)
                &&& mv == shogi::engine_move(legal)
            },
{
    let candidates = ai_move::candidate_moves(input);
    let i = choose|i: int| 0 <= i < candidates.len() && candidates[i] == mv;
    let pos = ai_move::request_position(
        types::text_of(input.sfen),
        input.side_to_move@,
    ).unwrap();
    let moves = shogi::legal_moves(pos, rules::rules_of(input.board_state@), true);
    assert(moves.contains(moves[i]));
}

/// The report keeps to the configuration: the depth is from 1 up to the limit, and the nodes do
/// not exceed the limit, but for one node for each legal move of the position.
pub proof fn law_report_keeps_limits<
    B: Fn(StdRng, Real) -> (bool, StdRng),
    W: Fn(StdRng, Vec<i64>, Real) -> Option<usize>,
>(
    input: ComputeMoveCommand,
    result: ComputeMoveResult,
    cfg: EngineConfig,
    scales: Scales,
    readings: spec_fn(nat) -> u128,
    seed: u64,
    chance: B,
    spin: W,
)
    requires
        cfg.valid(),
        ai_move::answers(
            result,
            ai_move::request_candidates(input, cfg, scales, readings),
            cfg,
            seed,
            chance,
            spin,
        ),
    ensures
        result.meta.config_applied == cfg,
        1 <= result.meta.search_depth <= cfg.max_depth,
        result.meta.searched_nodes > 0,
        match ai_move::request_position(types::text_of(input.sfen), input.side_to_move@) {
            Some(pos) => result.meta.searched_nodes <= search::larger(
                cfg.max_nodes as int,
                shogi::legal_moves(pos, rules::rules_of(input.board_state@), true).len() as int,
            ),
            None => result.meta.searched_nodes <= cfg.max_nodes,
        },
{
    let outcome = ai_move::request_outcome(input, cfg, scales, readings);
    if let Some(pos) = ai_move::request_position(
        types::text_of(input.sfen),
        input.side_to_move@,
    ) {
        search_laws::law_search_keeps_limits(
            search::lookahead(
                scales.positions,
                cfg,
                rules::rules_of(input.board_state@),
                readings,
            ),
            pos,
            cfg.max_depth as nat,
        );
    }
}

/// The reported evaluation is the best score among the candidates.
pub proof fn law_report_gives_the_best_score<
    B: Fn(StdRng, Real) -> (bool, StdRng),
    W: Fn(StdRng, Vec<i64>, Real) -> Option<usize>,
>(
    result: ComputeMoveResult,
    found: Gathered,
    cfg: EngineConfig,
    seed: u64,
    chance: B,
    spin: W,
)
    requires
        ai_move::answers(result, found, cfg, seed, chance, spin),
    ensures
        forall|i: int|
            0 <= i < found.moves.len() ==> (#[trigger] found.moves[i]).score
                <= result.meta.eval_cp,
        exists|i: int|
            0 <= i < found.moves.len() && (#[trigger] found.moves[i]).score == result.meta.eval_cp,
{
    let scored = ai_move::place_scores(found.moves);
    let (ranked, index): (Seq<(usize, i32)>, usize) = choose|
        ranked: Seq<(usize, i32)>,
        index: usize,
    |
        {
            &&& #[trigger] select::ranking(ranked, scored)
            &&& #[trigger] select::chosen(
                ranked,
                ranked[0].1,
                cfg,
                select::seeded_rng(seed),
                chance,
                spin,
                index,
            )
            &&& index < found.moves.len()
            &&& result.meta.eval_cp == ranked[0].1
        };
    ranked.to_multiset_ensures();
    scored.to_multiset_ensures();
    assert forall|i: int| 0 <= i < found.moves.len() implies (#[trigger] found.moves[i]).score
        <= result.meta.eval_cp by {
        assert(scored.contains(scored[i]));
        assert(ranked.to_multiset().count(scored[i]) > 0);
        let k = choose|k: int| 0 <= k < ranked.len() && ranked[k] == scored[i];
        if k > 0 {
            assert(select::before(ranked[0], ranked[k]));
        }
    }
    assert(ranked.len() == scored.len());
    assert(ranked.contains(ranked[0]));
    assert(scored.to_multiset().count(ranked[0]) > 0);
    let k = choose|k: int| 0 <= k < scored.len() && scored[k] == ranked[0];
    assert(found.moves[k].score == result.meta.eval_cp);
}

/// With no blunders and no temperature, as by default, the answer is a move with the best score,
/// and among those the first.
pub proof fn law_without_randomness_the_answer_is_best<
    B: Fn(StdRng, Real) -> (bool, StdRng),
    W: Fn(StdRng, Vec<i64>, Real) -> Option<usize>,
>(
    result: ComputeMoveResult,
    found: Gathered,
    cfg: EngineConfig,
    seed: u64,
    chance: B,
    spin: W,
)
    requires
        found.moves.len() <= usize::MAX,
        cfg.random_topk > 0,
        !cfg.blunder_rate.positive(),
        cfg.temperature.at_most_zero(),
        ai_move::answers(result, found, cfg, seed, chance, spin),
    ensures
        exists|i: int|
            {
                &&& 0 <= i < found.moves.len()
                &&& result.selected_move@ == (#[trigger] found.moves[i]).mv
                &&& found.moves[i].score == result.meta.eval_cp
                &&& forall|j: int|
                    0 <= j < i ==> (#[trigger] found.moves[j]).score < result.meta.eval_cp
            },
{
    let scored = ai_move::place_scores(found.moves);
    let (ranked, index): (Seq<(usize, i32)>, usize) = choose|
        ranked: Seq<(usize, i32)>,
        index: usize,
    |
        {
            &&& #[trigger] select::ranking(ranked, scored)
            &&& #[trigger] select::chosen(
                ranked,
                ranked[0].1,
                cfg,
                select::seeded_rng(seed),
                chance,
                spin,
                index,
            )
            &&& index < found.moves.len()
            &&& result.selected_move@ == found.moves[index as int].mv
            &&& result.meta.eval_cp == ranked[0].1
        };
    ranked.to_multiset_ensures();
    scored.to_multiset_ensures();
    assert(ranked.len() == scored.len());
    select::law_without_randomness_the_best_is_chosen(
        ranked,
        ranked[0].1,
        cfg,
        select::seeded_rng(seed),
        chance,
        spin,
        index,
    );
    assert(ranked.contains(ranked[0]));
    assert(scored.to_multiset().count(ranked[0]) > 0);
    let i = choose|i: int| 0 <= i < scored.len() && scored[i] == ranked[0];
    assert(i == index);
    assert forall|j: int| 0 <= j < i implies (#[trigger] found.moves[j]).score
        < result.meta.eval_cp by {
        assert(scored.contains(scored[j]));
        assert(ranked.to_multiset().count(scored[j]) > 0);
        let k = choose|k: int| 0 <= k < ranked.len() && ranked[k] == scored[j];
        if k > 0 {
            assert(select::before(ranked[0], ranked[k]));
        }
    }
    assert(found.moves[i].score == result.meta.eval_cp);
}

proof fn lemma_codes_differ(a: PieceKind, b: PieceKind)
    requires
        types::kind_code(a) == types::kind_code(b),
    ensures
        a == b,
{
    reveal_strlit("FU");
    reveal_strlit("KY");
    reveal_strlit("KE");
    reveal_strlit("GI");
    reveal_strlit("KI");
    reveal_strlit("KA");
    reveal_strlit("HI");
    reveal_strlit("OU");
    assert("FU"@[0] == 'F' && "FU"@[1] == 'U');
    assert("KY"@[0] == 'K' && "KY"@[1] == 'Y');
    assert("KE"@[0] == 'K' && "KE"@[1] == 'E');
    assert("GI"@[0] == 'G' && "GI"@[1] == 'I');
    assert("KI"@[0] == 'K' && "KI"@[1] == 'I');
    assert("KA"@[0] == 'K' && "KA"@[1] == 'A');
    assert("HI"@[0] == 'H' && "HI"@[1] == 'I');
    assert("OU"@[0] == 'O' && "OU"@[1] == 'U');
}

/// Every legal move is reported with valid coordinates.
pub proof fn law_legal_moves_have_valid_coordinates(
    pos: Position,
    rules: RulesView,
    strict: bool,
    mv: GenMove,
)
    requires
        pos.wf(),
        shogi::legal_moves(pos, rules, strict).contains(mv),
    ensures
        heuristic::coordinates_valid(shogi::engine_move(mv)),
{
    shogi_laws::law_legal_moves_fit(pos, rules, strict);
    let moves = shogi::legal_moves(pos, rules, strict);
    let i = choose|i: int| 0 <= i < moves.len() && moves[i] == mv;
    assert(shogi_laws::fits(pos, moves[i]));
}

/// Two legal moves of a position that do the same on the board are the same move: a move given
/// by its coordinates permits no other.
pub proof fn law_legal_moves_are_told_apart(
    pos: Position,
    rules: RulesView,
    strict: bool,
    a: GenMove,
    b: GenMove,
)
    requires
        pos.wf(),
        shogi::legal_moves(pos, rules, strict).contains(a),
        shogi::legal_moves(pos, rules, strict).contains(b),
        ai_move::same_move(shogi::engine_move(a), shogi::engine_move(b)),
    ensures
        a == b,
{
    shogi_laws::law_legal_moves_fit(pos, rules, strict);
    let moves = shogi::legal_moves(pos, rules, strict);
    let i = choose|i: int| 0 <= i < moves.len() && moves[i] == a;
    let j = choose|j: int| 0 <= j < moves.len() && moves[j] == b;
    assert(shogi_laws::fits(pos, moves[i]));
    assert(shogi_laws::fits(pos, moves[j]));
    assert(a.to == b.to);
    if a.from is Some {
        assert(a.from == b.from);
    } else {
        lemma_codes_differ(a.drop.unwrap(), b.drop.unwrap());
    }
}

/// Whether two results give the same move and the same report. The time that was spent does not
/// count.
pub open spec fn same_answer(a: ComputeMoveResult, b: ComputeMoveResult) -> bool {
    &&& a.selected_move@ == b.selected_move@
    &&& a.meta.searched_nodes == b.meta.searched_nodes
    &&& a.meta.search_depth == b.meta.search_depth
    &&& a.meta.eval_cp == b.meta.eval_cp
    &&& a.meta.candidate_count == b.meta.candidate_count
    &&& a.meta.config_applied == b.meta.config_applied
}

/// The same candidates, the same configuration and the same seed give the same answer, as far as
/// the draws have one outcome each.
pub proof fn law_same_seed_gives_the_same_answer<
    B: Fn(StdRng, Real) -> (bool, StdRng),
    W: Fn(StdRng, Vec<i64>, Real) -> Option<usize>,
>(
    a: ComputeMoveResult,
    b: ComputeMoveResult,
    found: Gathered,
    cfg: EngineConfig,
    seed: u64,
    chance: B,
    spin: W,
)
    requires
        select::chance_is_settled(chance),
        select::spin_is_settled(spin),
        ai_move::answers(a, found, cfg, seed, chance, spin),
        ai_move::answers(b, found, cfg, seed, chance, spin),
    ensures
        same_answer(a, b),
{
    let scored = ai_move::place_scores(found.moves);
    let rng = select::seeded_rng(seed);
    let (ra, i): (Seq<(usize, i32)>, usize) = choose|ra: Seq<(usize, i32)>, i: usize|
        {
            &&& #[trigger] select::ranking(ra, scored)
            &&& #[trigger] select::chosen(ra, ra[0].1, cfg, rng, chance, spin, i)
            &&& i < found.moves.len()
            &&& a.selected_move@ == found.moves[i as int].mv
            &&& a.meta.eval_cp == ra[0].1
        };
    let (rb, j): (Seq<(usize, i32)>, usize) = choose|rb: Seq<(usize, i32)>, j: usize|
        {
            &&& #[trigger] select::ranking(rb, scored)
            &&& #[trigger] select::chosen(rb, rb[0].1, cfg, rng, chance, spin, j)
            &&& j < found.moves.len()
            &&& b.selected_move@ == found.moves[j as int].mv
            &&& b.meta.eval_cp == rb[0].1
        };
    select::law_ranking_is_unique(ra, rb, scored);
    select::law_generator_decides_the_choice(ra, ra[0].1, cfg, rng, chance, spin, i, j);
}

/// A function of positions and a function of moves that give one score at most to the same terms.
pub open spec fn scores_are_settled<
    S: Fn(Weights, EvalTerms) -> i32,
    M: Fn(Weights, MoveTerms) -> i32,
>(score: S, judge: M, cfg: EngineConfig) -> bool {
    &&& forall|t: EvalTerms, a: i32, b: i32| #[trigger]
        call_ensures(score, (cfg.weighing(), t), a) && #[trigger] call_ensures(
            score,
            (cfg.weighing(), t),
            b,
        ) ==> a == b
    &&& forall|t: MoveTerms, a: i32, b: i32| #[trigger]
        call_ensures(judge, (cfg.weighing(), t), a) && #[trigger] call_ensures(
            judge,
            (cfg.weighing(), t),
            b,
        ) ==> a == b
}

/// The scales that two functions keep to.
spec fn scales_of<S: Fn(Weights, EvalTerms) -> i32, M: Fn(Weights, MoveTerms) -> i32>(
    score: S,
    judge: M,
    cfg: EngineConfig,
) -> Scales {
    Scales {
        positions: |t: EvalTerms|
            (choose|r: i32| call_ensures(score, (cfg.weighing(), t), r)) as int,
        moves: |t: MoveTerms| choose|r: i32| call_ensures(judge, (cfg.weighing(), t), r),
    }
}

proof fn lemma_scales_tell<S: Fn(Weights, EvalTerms) -> i32, M: Fn(Weights, MoveTerms) -> i32>(
    score: S,
    judge: M,
    cfg: EngineConfig,
)
    requires
        scores_are_settled(score, judge, cfg),
    ensures
        ai_move::tell(scales_of(score, judge, cfg), score, judge, cfg),
{
}

/// Two requests without a position that give the same moves, side and configuration get the same
/// answer if they set the same seed, whatever their games and move numbers are, or if they set
/// none and are about the same move of the same game. Nothing else is random.
pub proof fn law_without_a_position_the_seed_decides<
    S: Fn(Weights, EvalTerms) -> i32,
    M: Fn(Weights, MoveTerms) -> i32,
    B: Fn(StdRng, Real) -> (bool, StdRng),
    W: Fn(StdRng, Vec<i64>, Real) -> Option<usize>,
>(
    first: ComputeMoveCommand,
    second: ComputeMoveCommand,
    a: Result<ComputeMoveResult, ComputeMoveError>,
    b: Result<ComputeMoveResult, ComputeMoveError>,
    score: S,
    judge: M,
    chance: B,
    spin: W,
)
    requires
        config::config_problem(first.config_patch) is None,
        config::config_problem(second.config_patch) is None,
        config::applied(first.config_patch) == config::applied(second.config_patch),
        rules::skills_of(first.board_state@) is Ok,
        rules::skills_of(second.board_state@) is Ok,
        first.sfen is None,
        second.sfen is None,
        first.side_to_move@ == second.side_to_move@,
        search::move_views(first.legal_moves@) == search::move_views(second.legal_moves@),
        ai_move::normalized(search::move_views(first.legal_moves@)).len() > 0,
        config::applied(first.config_patch).random_seed is Some || (first.game_id@
            == second.game_id@ && first.move_no == second.move_no),
        scores_are_settled(score, judge, config::applied(first.config_patch)),
        select::chance_is_settled(chance),
        select::spin_is_settled(spin),
        ai_move::computes(a, first, score, judge, chance, spin),
        ai_move::computes(b, second, score, judge, chance, spin),
    ensures
        a matches Ok(x) && b matches Ok(y) && same_answer(x, y),
{
    let cfg = config::applied(first.config_patch);
    let views = search::move_views(first.legal_moves@);
    if first.legal_moves@.len() == 0 {
        assert(views =~= Seq::empty());
        reveal(Seq::filter);
    }
    assert(views.len() == search::move_views(second.legal_moves@).len());
    let (start, read): (Instant, Seq<u128>) = choose|start: Instant, read: Seq<u128>|
        #[trigger] search::clock_run(start, read) && ai_move::settles_in_time(
            a,
            first,
            cfg,
            score,
            judge,
            chance,
            spin,
            read,
        );
    let (other_start, other_read): (Instant, Seq<u128>) = choose|
        start: Instant,
        read: Seq<u128>,
    |
        #[trigger] search::clock_run(start, read) && ai_move::settles_in_time(
            b,
            second,
            cfg,
            score,
            judge,
            chance,
            spin,
            read,
        );
    let readings = search::continued(read);
    let other_readings = search::continued(other_read);
    assert(search::begins_with(readings, read));
    assert(search::begins_with(other_readings, other_read));
    let scales = scales_of(score, judge, cfg);
    lemma_scales_tell(score, judge, cfg);
    let found = ai_move::request_candidates(first, cfg, scales, readings);
    let other = ai_move::request_candidates(second, cfg, scales, other_readings);
    assert(found == other);
    assert(found.moves.len() == ai_move::candidate_moves(first).len());
    let seed = ai_move::request_seed(first, cfg);
    assert(seed == ai_move::request_seed(second, cfg));
    law_same_seed_gives_the_same_answer(a->Ok_0, b->Ok_0, found, cfg, seed, chance, spin);
}

/// Two answers to one request whose clocks read the same on the way are the same.
pub proof fn law_same_readings_give_the_same_answer<
    S: Fn(Weights, EvalTerms) -> i32,
    M: Fn(Weights, MoveTerms) -> i32,
    B: Fn(StdRng, Real) -> (bool, StdRng),
    W: Fn(StdRng, Vec<i64>, Real) -> Option<usize>,
>(
    input: ComputeMoveCommand,
    a: ComputeMoveResult,
    b: ComputeMoveResult,
    cfg: EngineConfig,
    score: S,
    judge: M,
    chance: B,
    spin: W,
    read: Seq<u128>,
)
    requires
        scores_are_settled(score, judge, cfg),
        select::chance_is_settled(chance),
        select::spin_is_settled(spin),
        ai_move::settles_in_time(Ok(a), input, cfg, score, judge, chance, spin, read),
        ai_move::settles_in_time(Ok(b), input, cfg, score, judge, chance, spin, read),
    ensures
        same_answer(a, b),
{
    let readings = search::continued(read);
    assert(search::begins_with(readings, read));
    assert(ai_move::settles_run(Ok(a), input, cfg, score, judge, chance, spin, readings));
    assert(ai_move::settles_run(Ok(b), input, cfg, score, judge, chance, spin, readings));
    lemma_scales_tell(score, judge, cfg);
    law_same_seed_gives_the_same_answer(
        a,
        b,
        ai_move::request_candidates(input, cfg, scales_of(score, judge, cfg), readings),
        cfg,
        ai_move::request_seed(input, cfg),
        chance,
        spin,
    );
}

/// Neither `quiescence_enabled` nor `max_repeat_draw_bias` counts for the candidates of a request,
/// their scores, the seed or the choice.
pub proof fn law_unused_settings_do_not_count<
    S: Fn(Weights, EvalTerms) -> i32,
    M: Fn(Weights, MoveTerms) -> i32,
    B: Fn(StdRng, Real) -> (bool, StdRng),
    W: Fn(StdRng, Vec<i64>, Real) -> Option<usize>,
>(
    input: ComputeMoveCommand,
    a: EngineConfig,
    b: EngineConfig,
    scales: Scales,
    score: S,
    judge: M,
    readings: spec_fn(nat) -> u128,
    ranked: Seq<(usize, i32)>,
    best_score: i32,
    rng: StdRng,
    chance: B,
    spin: W,
    index: usize,
)
    requires
        a.works_as(b),
    ensures
        ai_move::tell(scales, score, judge, a) <==> ai_move::tell(scales, score, judge, b),
        ai_move::request_candidates(input, a, scales, readings) == ai_move::request_candidates(
            input,
            b,
            scales,
            readings,
        ),
        ai_move::request_seed(input, a) == ai_move::request_seed(input, b),
        select::chosen(ranked, best_score, a, rng, chance, spin, index) <==> select::chosen(
            ranked,
            best_score,
            b,
            rng,
            chance,
            spin,
            index,
        ),
{
    assert(a.weighing() == b.weighing());
    assert(search::lookahead(
        scales.positions,
        a,
        rules::rules_of(input.board_state@),
        readings,
    ) == search::lookahead(scales.positions, b, rules::rules_of(input.board_state@), readings));
    let top = select::contenders(ranked, a);
    lemma_same_options(top, best_score, a, b);
}

proof fn lemma_same_options(
    list: Seq<(usize, i32)>,
    best_score: i32,
    a: EngineConfig,
    b: EngineConfig,
)
    requires
        a.works_as(b),
    ensures
        select::blunder_options(list, best_score, a) == select::blunder_options(
            list,
            best_score,
            b,
        ),
    decreases list.len(),
{
    if list.len() > 0 {
        lemma_same_options(list.drop_last(), best_score, a, b);
    }
}

} // verus!
