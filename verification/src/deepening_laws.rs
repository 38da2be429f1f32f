//! How a search goes about its work: what each position is worth to it, which replies it tries, and
//! which scores it reports when it stops.

use crate::search;
use crate::search::{Lookahead, Meter, SearchOutcome};
use crate::shogi;
use crate::types::{GenMove, Position};
use vstd::prelude::*;

verus! {

// ---------------------------------------------------------------------------
// Looking ahead
// ---------------------------------------------------------------------------

/// The score of a position as it stands.
pub open spec fn standing_score(env: Lookahead, pos: Position) -> int {
    (env.weigh)(search::eval_terms(pos, env.rules))
}

/// The meter after one more question to the clock.
pub open spec fn asked(meter: Meter) -> Meter {
    Meter { nodes: meter.nodes, answers: meter.answers + 1 }
}

/// A position that is not looked into, because no depth is left, the nodes are used up or the time
/// is over, is worth its score as it stands, and is not counted as a node.
pub proof fn law_where_a_search_ends_the_score_stands(
    env: Lookahead,
    pos: Position,
    depth: nat,
    alpha: int,
    beta: int,
    meter: Meter,
)
    ensures
        ({
            let (value, after) = search::negamax_value(env, pos, depth, alpha, beta, meter);
            &&& depth == 0 || meter.nodes >= env.max_nodes ==> value == standing_score(env, pos)
                && after == meter
            &&& depth > 0 && meter.nodes < env.max_nodes && (env.late)(meter.answers) ==> value
                == standing_score(env, pos) && after == asked(meter)
        }),
{
}

/// A player without a legal move has lost: the sooner, the worse.
pub proof fn law_without_a_move_the_game_is_lost(
    env: Lookahead,
    pos: Position,
    depth: nat,
    alpha: int,
    beta: int,
    meter: Meter,
)
    requires
        depth > 0,
        meter.nodes < env.max_nodes,
        !(env.late)(meter.answers),
        shogi::legal_moves(pos, env.rules, true).len() == 0,
    ensures
        search::negamax_value(env, pos, depth, alpha, beta, meter) == (
            depth - 29000,
            Meter { nodes: meter.nodes + 1, answers: meter.answers + 1 },
        ),
{
}

/// A pass over moves: the scores that it found, and the meter before each of them and at the end.
pub struct Pass {
    pub scores: Seq<int>,
    pub meters: Seq<Meter>,
}

impl Pass {
    /// The meter at the end.
    pub open spec fn end(self) -> Meter {
        self.meters.last()
    }
}

/// The best of the first `n` scores, no less than `floor`.
pub open spec fn best_of(scores: Seq<int>, floor: int, n: int) -> int
    decreases n,
{
    if n <= 0 {
        floor
    } else {
        let earlier = best_of(scores, floor, n - 1);
        if earlier < scores[n - 1] {
            scores[n - 1]
        } else {
            earlier
        }
    }
}

/// Whether a move has the value of the position after it for its player: from the opponent's view,
/// one move less ahead, between `beta` and the best found before.
pub open spec fn is_tried(
    env: Lookahead,
    pos: Position,
    mv: GenMove,
    depth: nat,
    bounds: (int, int),
    before: Meter,
    score: int,
    after: Meter,
) -> bool {
    let found = search::negamax_value(
        env,
        shogi::after_move(pos, mv),
        (depth - 1) as nat,
        -bounds.1,
        -bounds.0,
        before,
    );
    score == -found.0 && after == found.1
}

/// Whether a pass tries the first of `moves`, as many as it has scores, one after the other, each
/// with the best score before it for a bound; none but the last has reached `beta`.
pub open spec fn tries(
    env: Lookahead,
    pos: Position,
    moves: Seq<GenMove>,
    depth: nat,
    alpha: int,
    beta: int,
    pass: Pass,
) -> bool {
    &&& pass.scores.len() <= moves.len()
    &&& pass.meters.len() == pass.scores.len() + 1
    &&& forall|j: int|
        0 <= j < pass.scores.len() ==> is_tried(
            env,
            pos,
            moves[j],
            depth,
            (best_of(pass.scores, alpha, j), beta),
            pass.meters[j],
            #[trigger] pass.scores[j],
            pass.meters[j + 1],
        )
    &&& forall|j: int|
        1 <= j < pass.scores.len() ==> #[trigger] best_of(pass.scores, alpha, j) < beta
}

proof fn lemma_best_of_longer(scores: Seq<int>, more: int, floor: int, n: int)
    requires
        n <= scores.len(),
    ensures
        best_of(scores.push(more), floor, n) == best_of(scores, floor, n),
    decreases n,
{
    if n > 0 {
        lemma_best_of_longer(scores, more, floor, n - 1);
        assert(scores.push(more)[n - 1] == scores[n - 1]);
    }
}

proof fn lemma_one_more_tried(
    env: Lookahead,
    pos: Position,
    moves: Seq<GenMove>,
    depth: nat,
    alpha: int,
    beta: int,
    pass: Pass,
    score: int,
    after: Meter,
)
    requires
        tries(env, pos, moves, depth, alpha, beta, pass),
        pass.scores.len() < moves.len(),
        pass.scores.len() > 0 ==> best_of(pass.scores, alpha, pass.scores.len() as int) < beta,
        is_tried(
            env,
            pos,
            moves[pass.scores.len() as int],
            depth,
            (best_of(pass.scores, alpha, pass.scores.len() as int), beta),
            pass.end(),
            score,
            after,
        ),
    ensures
        tries(
            env,
            pos,
            moves,
            depth,
            alpha,
            beta,
            Pass { scores: pass.scores.push(score), meters: pass.meters.push(after) },
        ),
{
    let longer = Pass { scores: pass.scores.push(score), meters: pass.meters.push(after) };
    assert forall|j: int| 0 <= j < longer.scores.len() implies is_tried(
        env,
        pos,
        moves[j],
        depth,
        (best_of(longer.scores, alpha, j), beta),
        longer.meters[j],
        #[trigger] longer.scores[j],
        longer.meters[j + 1],
    ) by {
        lemma_best_of_longer(pass.scores, score, alpha, j);
        if j < pass.scores.len() {
            assert(longer.scores[j] == pass.scores[j]);
            assert(longer.meters[j] == pass.meters[j]);
            assert(longer.meters[j + 1] == pass.meters[j + 1]);
        } else {
            assert(longer.meters[j] == pass.end());
            assert(longer.meters[j + 1] == after);
        }
    }
    assert forall|j: int| 1 <= j < longer.scores.len() implies #[trigger] best_of(
        longer.scores,
        alpha,
        j,
    ) < beta by {
        lemma_best_of_longer(pass.scores, score, alpha, j);
        assert(best_of(pass.scores, alpha, j) < beta);
    }
}

proof fn lemma_replies(
    env: Lookahead,
    pos: Position,
    moves: Seq<GenMove>,
    depth: nat,
    alpha: int,
    beta: int,
    floor: int,
    pass: Pass,
) -> (whole: Pass)
    requires
        depth > 0,
        tries(env, pos, moves, depth, alpha, beta, pass),
        pass.scores.len() > 0 ==> best_of(pass.scores, alpha, pass.scores.len() as int) < beta,
    ensures
        tries(env, pos, moves, depth, alpha, beta, whole),
        whole.scores.len() >= pass.scores.len(),
        whole.meters[0] == pass.meters[0],
        whole.scores.len() == moves.len() || (whole.scores.len() > 0 && best_of(
            whole.scores,
            alpha,
            whole.scores.len() as int,
        ) >= beta),
        search::best_reply(
            env,
            pos,
            moves,
            pass.scores.len(),
            depth,
            best_of(pass.scores, alpha, pass.scores.len() as int),
            beta,
            best_of(pass.scores, floor, pass.scores.len() as int),
            pass.end(),
        ) == (best_of(whole.scores, floor, whole.scores.len() as int), whole.end()),
    decreases moves.len() - pass.scores.len(),
{
    let i = pass.scores.len();
    if i == moves.len() {
        pass
    } else {
        let bound = best_of(pass.scores, alpha, i as int);
        let (value, after) = search::negamax_value(
            env,
            shogi::after_move(pos, moves[i as int]),
            (depth - 1) as nat,
            -beta,
            -bound,
            pass.end(),
        );
        let longer = Pass { scores: pass.scores.push(-value), meters: pass.meters.push(after) };
        lemma_one_more_tried(env, pos, moves, depth, alpha, beta, pass, -value, after);
        lemma_best_of_longer(pass.scores, -value, alpha, i as int);
        lemma_best_of_longer(pass.scores, -value, floor, i as int);
        assert(longer.scores[i as int] == -value);
        assert(best_of(longer.scores, alpha, (i + 1) as int) == search::larger(bound, -value));
        assert(longer.end() == after);
        assert(longer.meters[0] == pass.meters[0]);
        if best_of(longer.scores, alpha, (i + 1) as int) >= beta {
            longer
        } else {
            lemma_replies(env, pos, moves, depth, alpha, beta, floor, longer)
        }
    }
}

/// A position that is looked into is worth the best of its replies, no less than -30000; they are
/// tried in order until one reaches `beta`. It is counted as a node.
pub proof fn law_a_position_is_worth_its_best_reply(
    env: Lookahead,
    pos: Position,
    depth: nat,
    alpha: int,
    beta: int,
    meter: Meter,
) -> (replies: Pass)
    requires
        depth > 0,
        meter.nodes < env.max_nodes,
        !(env.late)(meter.answers),
        shogi::legal_moves(pos, env.rules, true).len() > 0,
    ensures
        ({
            let moves = shogi::legal_moves(pos, env.rules, true);
            let n = replies.scores.len() as int;
            &&& tries(env, pos, moves, depth, alpha, beta, replies)
            &&& replies.meters[0] == (Meter { nodes: meter.nodes + 1, answers: meter.answers + 1 })
            &&& n == moves.len() || (n > 0 && best_of(replies.scores, alpha, n) >= beta)
            &&& search::negamax_value(env, pos, depth, alpha, beta, meter) == (
                best_of(replies.scores, -30000, n),
                replies.end(),
            )
        }),
{
    let moves = shogi::legal_moves(pos, env.rules, true);
    let counted = Meter { nodes: meter.nodes + 1, answers: meter.answers + 1 };
    let start = Pass { scores: Seq::empty(), meters: seq![counted] };
    assert(best_of(start.scores, alpha, 0) == alpha);
    assert(best_of(start.scores, -30000, 0) == -30000);
    assert(start.end() == counted);
    lemma_replies(env, pos, moves, depth, alpha, beta, -30000, start)
}

// ---------------------------------------------------------------------------
// Passes
// ---------------------------------------------------------------------------

/// Whether a search has to stop here.
pub open spec fn must_stop(env: Lookahead, meter: Meter) -> bool {
    meter.nodes >= env.max_nodes || (env.late)(meter.answers)
}

/// Whether a root move is scored by the value of the position after it, looked at `depth` moves
/// ahead in all, with nothing in the way.
pub open spec fn is_scored(
    env: Lookahead,
    pos: Position,
    root: GenMove,
    depth: nat,
    before: Meter,
    score: int,
    after: Meter,
) -> bool {
    let found = search::negamax_value(
        env,
        shogi::after_move(pos, root),
        (depth - 1) as nat,
        -30000,
        30000,
        asked(before),
    );
    &&& !must_stop(env, before)
    &&& score == -found.0
    &&& after == found.1
}

/// Whether a pass scores the first root moves, as many as it has scores.
pub open spec fn is_pass(
    env: Lookahead,
    pos: Position,
    roots: Seq<GenMove>,
    depth: nat,
    pass: Pass,
) -> bool {
    &&& pass.scores.len() <= roots.len()
    &&& pass.meters.len() == pass.scores.len() + 1
    &&& forall|j: int|
        0 <= j < pass.scores.len() ==> is_scored(
            env,
            pos,
            roots[j],
            depth,
            pass.meters[j],
            #[trigger] pass.scores[j],
            pass.meters[j + 1],
        )
}

proof fn lemma_pass(
    env: Lookahead,
    pos: Position,
    roots: Seq<GenMove>,
    i: nat,
    depth: nat,
    pass: Pass,
) -> (whole: Pass)
    requires
        i <= roots.len(),
        pass.scores.len() == i,
        is_pass(env, pos, roots, depth, pass),
    ensures
        is_pass(env, pos, roots, depth, whole),
        whole.meters[0] == pass.meters[0],
        search::depth_pass(env, pos, roots, i, depth, pass.scores, pass.end()).0 == whole.scores,
        whole.scores.len() == roots.len() ==> search::depth_pass(
            env,
            pos,
            roots,
            i,
            depth,
            pass.scores,
            pass.end(),
        ).1 == whole.end(),
        whole.scores.len() < roots.len() ==> must_stop(env, whole.end()) && search::depth_pass(
            env,
            pos,
            roots,
            i,
            depth,
            pass.scores,
            pass.end(),
        ).1.nodes == whole.end().nodes,
    decreases roots.len() - i,
{
    let meter = pass.end();
    if i >= roots.len() || must_stop(env, meter) {
        pass
    } else {
        let next = shogi::after_move(pos, roots[i as int]);
        let (value, after) = search::negamax_value(
            env,
            next,
            (depth - 1) as nat,
            -30000,
            30000,
            asked(meter),
        );
        let longer = Pass { scores: pass.scores.push(-value), meters: pass.meters.push(after) };
        assert(is_scored(env, pos, roots[i as int], depth, meter, -value, after));
        assert forall|j: int| 0 <= j < longer.scores.len() implies is_scored(
            env,
            pos,
            roots[j],
            depth,
            longer.meters[j],
            #[trigger] longer.scores[j],
            longer.meters[j + 1],
        ) by {
            if j < i {
                assert(longer.scores[j] == pass.scores[j]);
                assert(longer.meters[j] == pass.meters[j]);
                assert(longer.meters[j + 1] == pass.meters[j + 1]);
            } else {
                assert(longer.meters[j] == meter);
                assert(longer.meters[j + 1] == after);
            }
        }
        assert(is_pass(env, pos, roots, depth, longer));
        lemma_pass(env, pos, roots, i + 1, depth, longer)
    }
}

// ---------------------------------------------------------------------------
// Deepening
// ---------------------------------------------------------------------------

/// Whether a pass over all root moves looks `depth` moves ahead, no further than `max_depth`, and
/// begins where an earlier one ended.
pub open spec fn is_next(
    env: Lookahead,
    pos: Position,
    roots: Seq<GenMove>,
    max_depth: nat,
    depth: int,
    earlier: Pass,
    pass: Pass,
) -> bool {
    &&& depth <= max_depth
    &&& !must_stop(env, earlier.end())
    &&& is_pass(env, pos, roots, depth as nat, pass)
    &&& pass.scores.len() == roots.len()
    &&& pass.meters[0] == asked(earlier.end())
}

/// Whether a pass scores each root move by the position right after it, with nothing counted yet.
pub open spec fn is_first(
    env: Lookahead,
    pos: Position,
    roots: Seq<GenMove>,
    pass: Pass,
) -> bool {
    &&& pass.scores.len() == roots.len()
    &&& forall|j: int|
        0 <= j < roots.len() ==> #[trigger] pass.scores[j] == -standing_score(
            env,
            shogi::after_move(pos, roots[j]),
        )
    &&& pass.meters == seq![Meter { nodes: 0, answers: 0 }]
}

/// Whether these are the passes that a search completed: the first scores each root move by the
/// position right after it, each later one looks one move further ahead than the one before, no
/// further than `max_depth`, and begins where that one ended.
pub open spec fn is_history(
    env: Lookahead,
    pos: Position,
    roots: Seq<GenMove>,
    max_depth: nat,
    passes: Seq<Pass>,
) -> bool {
    &&& passes.len() >= 1
    &&& is_first(env, pos, roots, passes[0])
    &&& forall|k: int|
        1 <= k < passes.len() ==> is_next(
            env,
            pos,
            roots,
            max_depth,
            k + 1,
            passes[k - 1],
            #[trigger] passes[k],
        )
}

/// Whether a search that has completed these passes ends with so many nodes counted: because the
/// depth is reached, because it has to stop, or because it had to stop in the middle of a further
/// pass.
pub open spec fn ends_with(
    env: Lookahead,
    pos: Position,
    roots: Seq<GenMove>,
    max_depth: nat,
    passes: Seq<Pass>,
    nodes: nat,
) -> bool {
    let last = passes.last().end();
    ||| (passes.len() >= max_depth || must_stop(env, last)) && nodes == last.nodes
    ||| exists|cut: Pass|
        {
            &&& passes.len() < max_depth
            &&& !must_stop(env, last)
            &&& #[trigger] is_pass(env, pos, roots, passes.len() + 1, cut)
            &&& cut.scores.len() < roots.len()
            &&& cut.meters[0] == asked(last)
            &&& must_stop(env, cut.end())
            &&& nodes == cut.end().nodes
        }
}

#[verifier::rlimit(40)]
proof fn lemma_deepen(
    env: Lookahead,
    pos: Position,
    roots: Seq<GenMove>,
    max_depth: nat,
    passes: Seq<Pass>,
) -> (all: Seq<Pass>)
    requires
        is_history(env, pos, roots, max_depth, passes),
    ensures
        is_history(env, pos, roots, max_depth, all),
        ({
            let outcome = search::deepen(
                env,
                pos,
                roots,
                passes.len() + 1,
                max_depth,
                passes.last().scores,
                passes.len(),
                passes.last().end(),
            );
            &&& outcome.depth == all.len()
            &&& outcome.scores == all.last().scores
            &&& ends_with(env, pos, roots, max_depth, all, outcome.nodes)
        }),
    decreases max_depth + 1 - passes.len(),
{
    let depth = passes.len() + 1;
    let last = passes.last().end();
    if depth > max_depth || must_stop(env, last) {
        passes
    } else {
        let start = Pass { scores: Seq::empty(), meters: seq![asked(last)] };
        let pass = lemma_pass(env, pos, roots, 0, depth, start);
        assert(pass.meters[0] == asked(last));
        if pass.scores.len() == roots.len() {
            let more = passes.push(pass);
            assert(is_next(env, pos, roots, max_depth, depth as int, passes.last(), pass));
            assert forall|k: int| 1 <= k < more.len() implies is_next(
                env,
                pos,
                roots,
                max_depth,
                k + 1,
                more[k - 1],
                #[trigger] more[k],
            ) by {
                if k < passes.len() {
                    assert(more[k - 1] == passes[k - 1]);
                    assert(more[k] == passes[k]);
                } else {
                    assert(more[k - 1] == passes.last());
                    assert(more[k] == pass);
                }
            }
            assert(more[0] == passes[0]);
            assert(is_history(env, pos, roots, max_depth, more));
            lemma_deepen(env, pos, roots, max_depth, more)
        } else {
            assert(is_pass(env, pos, roots, passes.len() + 1, pass));
            passes
        }
    }
}

/// A search reports the scores of the last pass that it completed, and as its depth how many moves
/// that pass looked ahead, whatever made it stop; a pass that was cut off leaves them as they were.
/// It counts one node for each root move at least.
pub proof fn law_the_last_complete_pass_is_reported(
    env: Lookahead,
    pos: Position,
    max_depth: nat,
) -> (found: (Seq<Pass>, nat))
    requires
        shogi::legal_moves(pos, env.rules, true).len() > 0,
    ensures
        ({
            let roots = shogi::legal_moves(pos, env.rules, true);
            let outcome = search::search_outcome(env, pos, max_depth);
            &&& is_history(env, pos, roots, max_depth, found.0)
            &&& outcome.depth == found.0.len()
            &&& outcome.scores == found.0.last().scores
            &&& ends_with(env, pos, roots, max_depth, found.0, found.1)
            &&& outcome.nodes == (if found.1 < roots.len() {
                roots.len()
            } else {
                found.1
            })
        }),
{
    let roots = shogi::legal_moves(pos, env.rules, true);
    let first = Pass {
        scores: Seq::new(
            roots.len(),
            |j: int| -standing_score(env, shogi::after_move(pos, roots[j])),
        ),
        meters: seq![Meter { nodes: 0, answers: 0 }],
    };
    let passes = seq![first];
    assert(first.scores =~= search::shallow_scores(env, pos, roots));
    assert(is_first(env, pos, roots, first));
    let all = lemma_deepen(env, pos, roots, max_depth, passes);
    let outcome = search::deepening(env, pos, max_depth);
    (all, outcome.nodes)
}

/// Without a legal move there is nothing to score.
pub proof fn law_without_a_move_nothing_is_reported(env: Lookahead, pos: Position, max_depth: nat)
    requires
        shogi::legal_moves(pos, env.rules, true).len() == 0,
    ensures
        search::search_outcome(env, pos, max_depth) == (SearchOutcome {
            scores: Seq::empty(),
            nodes: 0,
            depth: 1,
        }),
{
}

} // verus!
