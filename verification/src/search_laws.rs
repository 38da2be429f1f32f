//! What holds of every search: it keeps to its limits, and without them alpha-beta search finds
//! what looking at every line of play would find.

use crate::search;
use crate::search::{Lookahead, Meter, SearchOutcome};
use crate::shogi;
use crate::types::{GenMove, Position, RulesView};
use vstd::prelude::*;

verus! {

/// The value of a position when every line of play is looked at to the end.
pub open spec fn full_value(env: Lookahead, pos: Position, depth: nat) -> int
    decreases depth, 1nat, 0nat,
{
    if depth == 0 {
        env.score(pos)
    } else {
        let moves = shogi::legal_moves(pos, env.rules, true);
        if moves.len() == 0 {
            -29000 + depth
        } else {
            full_best(env, pos, moves, moves.len(), depth)
        }
    }
}

/// The best value over the first `n` of `moves`, no less than -30000.
pub open spec fn full_best(
    env: Lookahead,
    pos: Position,
    moves: Seq<GenMove>,
    n: nat,
    depth: nat,
) -> int
    decreases depth, 0nat, n,
{
    if n == 0 || depth == 0 {
        -30000
    } else {
        search::larger(
            full_best(env, pos, moves, (n - 1) as nat, depth),
            -full_value(env, shogi::after_move(pos, moves[n - 1]), (depth - 1) as nat),
        )
    }
}

/// Whether the clock lets a search run to its end.
pub open spec fn never_late(env: Lookahead) -> bool {
    forall|i: nat| !#[trigger] (env.late)(i)
}

/// What a value found between bounds says of the full value: outside them it bounds the full
/// value, within them it is the full value.
pub open spec fn sound(found: int, full: int, alpha: int, beta: int) -> bool {
    &&& found <= alpha ==> full <= found
    &&& found >= beta ==> full >= found
    &&& alpha < found < beta ==> full == found
}

proof fn lemma_value_nodes(
    env: Lookahead,
    pos: Position,
    depth: nat,
    alpha: int,
    beta: int,
    meter: Meter,
)
    ensures
        ({
            let after = search::negamax_value(env, pos, depth, alpha, beta, meter).1;
            &&& meter.nodes <= after.nodes <= search::larger(
                meter.nodes as int,
                env.max_nodes as int,
            )
            &&& meter.answers <= after.answers
        }),
    decreases depth, 1nat, 0nat,
{
    if depth > 0 && meter.nodes < env.max_nodes && !(env.late)(meter.answers) {
        let counted = Meter { nodes: meter.nodes + 1, answers: meter.answers + 1 };
        let moves = shogi::legal_moves(pos, env.rules, true);
        if moves.len() > 0 {
            lemma_reply_nodes(env, pos, moves, 0, depth, alpha, beta, -30000, counted);
        }
    }
}

proof fn lemma_reply_nodes(
    env: Lookahead,
    pos: Position,
    moves: Seq<GenMove>,
    i: nat,
    depth: nat,
    alpha: int,
    beta: int,
    best: int,
    meter: Meter,
)
    ensures
        ({
            let after = search::best_reply(env, pos, moves, i, depth, alpha, beta, best, meter).1;
            &&& meter.nodes <= after.nodes <= search::larger(
                meter.nodes as int,
                env.max_nodes as int,
            )
            &&& meter.answers <= after.answers
        }),
    decreases depth, 0nat, moves.len() - i,
{
    if i < moves.len() && depth > 0 {
        let next = shogi::after_move(pos, moves[i as int]);
        lemma_value_nodes(env, next, (depth - 1) as nat, -beta, -alpha, meter);
        let (value, after) = search::negamax_value(
            env,
            next,
            (depth - 1) as nat,
            -beta,
            -alpha,
            meter,
        );
        let new_best = search::larger(best, -value);
        let new_alpha = search::larger(alpha, -value);
        if new_alpha < beta {
            lemma_reply_nodes(
                env,
                pos,
                moves,
                i + 1,
                depth,
                new_alpha,
                beta,
                new_best,
                after,
            );
        }
    }
}

proof fn lemma_full_best_grows(
    env: Lookahead,
    pos: Position,
    moves: Seq<GenMove>,
    m: nat,
    n: nat,
    depth: nat,
)
    requires
        m <= n,
        depth > 0,
    ensures
        full_best(env, pos, moves, m, depth) <= full_best(env, pos, moves, n, depth),
    decreases n - m,
{
    if m < n {
        lemma_full_best_grows(env, pos, moves, m, (n - 1) as nat, depth);
    }
}

/// Alpha-beta search within its limits is sound: between the bounds it finds the value that
/// looking at every line of play finds, and outside them a bound on that value.
pub proof fn law_alpha_beta_is_sound(
    env: Lookahead,
    pos: Position,
    depth: nat,
    alpha: int,
    beta: int,
    meter: Meter,
)
    requires
        never_late(env),
        alpha < beta,
        search::negamax_value(env, pos, depth, alpha, beta, meter).1.nodes < env.max_nodes,
    ensures
        sound(
            search::negamax_value(env, pos, depth, alpha, beta, meter).0,
            full_value(env, pos, depth),
            alpha,
            beta,
        ),
    decreases depth, 1nat, 0nat,
{
    lemma_value_nodes(env, pos, depth, alpha, beta, meter);
    assert(!(env.late)(meter.answers));
    if depth > 0 {
        let counted = Meter { nodes: meter.nodes + 1, answers: meter.answers + 1 };
        let moves = shogi::legal_moves(pos, env.rules, true);
        if moves.len() > 0 {
            lemma_reply_is_sound(
                env,
                pos,
                moves,
                0,
                depth,
                alpha,
                alpha,
                beta,
                -30000,
                counted,
            );
        }
    }
}

proof fn lemma_reply_is_sound(
    env: Lookahead,
    pos: Position,
    moves: Seq<GenMove>,
    i: nat,
    depth: nat,
    alpha0: int,
    alpha: int,
    beta: int,
    best: int,
    meter: Meter,
)
    requires
        never_late(env),
        depth > 0,
        i <= moves.len(),
        alpha0 <= alpha < beta,
        alpha == search::larger(alpha0, best) || (best == -30000 && alpha < best),
        best >= -30000,
        best <= alpha0 ==> full_best(env, pos, moves, i, depth) <= best,
        best > alpha0 ==> full_best(env, pos, moves, i, depth) == best,
        search::best_reply(env, pos, moves, i, depth, alpha, beta, best, meter).1.nodes
            < env.max_nodes,
    ensures
        sound(
            search::best_reply(env, pos, moves, i, depth, alpha, beta, best, meter).0,
            full_best(env, pos, moves, moves.len(), depth),
            alpha0,
            beta,
        ),
    decreases depth, 0nat, moves.len() - i,
{
    if i < moves.len() {
        let next = shogi::after_move(pos, moves[i as int]);
        let (value, after) = search::negamax_value(
            env,
            next,
            (depth - 1) as nat,
            -beta,
            -alpha,
            meter,
        );
        let new_best = search::larger(best, -value);
        let new_alpha = search::larger(alpha, -value);
        if new_alpha < beta {
            lemma_reply_nodes(
                env,
                pos,
                moves,
                i + 1,
                depth,
                new_alpha,
                beta,
                new_best,
                after,
            );
        }
        law_alpha_beta_is_sound(env, next, (depth - 1) as nat, -beta, -alpha, meter);
        assert(full_best(env, pos, moves, i + 1, depth) == search::larger(
            full_best(env, pos, moves, i, depth),
            -full_value(env, next, (depth - 1) as nat),
        ));
        if new_alpha < beta {
            lemma_reply_is_sound(
                env,
                pos,
                moves,
                i + 1,
                depth,
                alpha0,
                new_alpha,
                beta,
                new_best,
                after,
            );
        } else {
            lemma_full_best_grows(env, pos, moves, i + 1, moves.len(), depth);
        }
    }
}

/// The value that looking at every line of play `depth` moves ahead finds for the position after
/// a root move, from the opponent's view.
pub open spec fn full_root_value(
    env: Lookahead,
    pos: Position,
    root: GenMove,
    depth: nat,
) -> int {
    full_value(env, shogi::after_move(pos, root), (depth - 1) as nat)
}

proof fn lemma_pass_keeps_limits(
    env: Lookahead,
    pos: Position,
    roots: Seq<GenMove>,
    i: nat,
    depth: nat,
    scores: Seq<int>,
    meter: Meter,
)
    requires
        scores.len() == i,
        i <= roots.len(),
    ensures
        ({
            let (found, after) = search::depth_pass(env, pos, roots, i, depth, scores, meter);
            &&& found.len() <= roots.len()
            &&& meter.nodes <= after.nodes <= search::larger(
                meter.nodes as int,
                env.max_nodes as int,
            )
        }),
    decreases roots.len() - i,
{
    if i < roots.len() && meter.nodes < env.max_nodes && !(env.late)(meter.answers) {
        let asked = Meter { answers: meter.answers + 1, ..meter };
        let next = shogi::after_move(pos, roots[i as int]);
        lemma_value_nodes(env, next, (depth - 1) as nat, -30000, 30000, asked);
        let (value, after) = search::negamax_value(
            env,
            next,
            (depth - 1) as nat,
            -30000,
            30000,
            asked,
        );
        lemma_pass_keeps_limits(env, pos, roots, i + 1, depth, scores.push(-value), after);
    }
}

proof fn lemma_pass_is_sound(
    env: Lookahead,
    pos: Position,
    roots: Seq<GenMove>,
    i: nat,
    depth: nat,
    scores: Seq<int>,
    meter: Meter,
)
    requires
        never_late(env),
        scores.len() == i,
        i <= roots.len(),
        forall|j: int|
            0 <= j < i ==> sound(
                -#[trigger] scores[j],
                full_root_value(env, pos, roots[j], depth),
                -30000,
                30000,
            ),
        search::depth_pass(env, pos, roots, i, depth, scores, meter).1.nodes < env.max_nodes,
    ensures
        ({
            let found = search::depth_pass(env, pos, roots, i, depth, scores, meter).0;
            &&& found.len() == roots.len()
            &&& forall|j: int|
                0 <= j < roots.len() ==> sound(
                    -#[trigger] found[j],
                    full_root_value(env, pos, roots[j], depth),
                    -30000,
                    30000,
                )
        }),
    decreases roots.len() - i,
{
    lemma_pass_keeps_limits(env, pos, roots, i, depth, scores, meter);
    assert(!(env.late)(meter.answers));
    if i < roots.len() {
        let asked = Meter { answers: meter.answers + 1, ..meter };
        let next = shogi::after_move(pos, roots[i as int]);
        let (value, after) = search::negamax_value(
            env,
            next,
            (depth - 1) as nat,
            -30000,
            30000,
            asked,
        );
        lemma_pass_keeps_limits(env, pos, roots, i + 1, depth, scores.push(-value), after);
        law_alpha_beta_is_sound(env, next, (depth - 1) as nat, -30000, 30000, asked);
        lemma_pass_is_sound(env, pos, roots, i + 1, depth, scores.push(-value), after);
    }
}

proof fn lemma_deepen_keeps_limits(
    env: Lookahead,
    pos: Position,
    roots: Seq<GenMove>,
    depth: nat,
    max_depth: nat,
    scores: Seq<int>,
    reached: nat,
    meter: Meter,
)
    requires
        scores.len() == roots.len(),
        1 <= reached < depth,
        reached <= search::larger(1, max_depth as int),
    ensures
        ({
            let outcome = search::deepen(
                env,
                pos,
                roots,
                depth,
                max_depth,
                scores,
                reached,
                meter,
            );
            &&& outcome.scores.len() == roots.len()
            &&& 1 <= outcome.depth <= search::larger(1, max_depth as int)
            &&& meter.nodes <= outcome.nodes <= search::larger(
                meter.nodes as int,
                env.max_nodes as int,
            )
        }),
    decreases max_depth + 1 - depth,
{
    if depth <= max_depth && meter.nodes < env.max_nodes && !(env.late)(meter.answers) {
        let asked = Meter { answers: meter.answers + 1, ..meter };
        lemma_pass_keeps_limits(env, pos, roots, 0, depth, Seq::empty(), asked);
        let (deeper, after) = search::depth_pass(env, pos, roots, 0, depth, Seq::empty(), asked);
        if deeper.len() == roots.len() {
            lemma_deepen_keeps_limits(env, pos, roots, depth + 1, max_depth, deeper, depth, after);
        }
    }
}

/// A search gives every legal move a score, goes no deeper than asked, and counts no more nodes
/// than allowed, the legal moves themselves apart.
pub proof fn law_search_keeps_limits(env: Lookahead, pos: Position, max_depth: nat)
    ensures
        ({
            let roots = shogi::legal_moves(pos, env.rules, true);
            let outcome = search::search_outcome(env, pos, max_depth);
            &&& outcome.scores.len() == roots.len()
            &&& 1 <= outcome.depth <= search::larger(1, max_depth as int)
            &&& roots.len() <= outcome.nodes <= search::larger(
                roots.len() as int,
                env.max_nodes as int,
            )
        }),
{
    let roots = shogi::legal_moves(pos, env.rules, true);
    if roots.len() > 0 {
        lemma_deepen_keeps_limits(
            env,
            pos,
            roots,
            2,
            max_depth,
            search::shallow_scores(env, pos, roots),
            1,
            Meter { nodes: 0, answers: 0 },
        );
    }
}

proof fn lemma_deepen_is_sound(
    env: Lookahead,
    pos: Position,
    roots: Seq<GenMove>,
    depth: nat,
    max_depth: nat,
    scores: Seq<int>,
    reached: nat,
    meter: Meter,
)
    requires
        never_late(env),
        scores.len() == roots.len(),
        1 <= reached,
        depth == reached + 1,
        reached <= max_depth,
        forall|j: int|
            0 <= j < roots.len() ==> sound(
                -#[trigger] scores[j],
                full_root_value(env, pos, roots[j], reached),
                -30000,
                30000,
            ),
        search::deepen(env, pos, roots, depth, max_depth, scores, reached, meter).nodes
            < env.max_nodes,
    ensures
        ({
            let outcome = search::deepen(
                env,
                pos,
                roots,
                depth,
                max_depth,
                scores,
                reached,
                meter,
            );
            &&& outcome.depth == max_depth
            &&& outcome.scores.len() == roots.len()
            &&& forall|j: int|
                0 <= j < roots.len() ==> sound(
                    -#[trigger] outcome.scores[j],
                    full_root_value(env, pos, roots[j], max_depth),
                    -30000,
                    30000,
                )
        }),
    decreases max_depth + 1 - depth,
{
    lemma_deepen_keeps_limits(env, pos, roots, depth, max_depth, scores, reached, meter);
    assert(!(env.late)(meter.answers));
    if depth <= max_depth {
        let asked = Meter { answers: meter.answers + 1, ..meter };
        lemma_pass_keeps_limits(env, pos, roots, 0, depth, Seq::empty(), asked);
        let (deeper, after) = search::depth_pass(env, pos, roots, 0, depth, Seq::empty(), asked);
        if deeper.len() == roots.len() {
            lemma_deepen_keeps_limits(env, pos, roots, depth + 1, max_depth, deeper, depth, after);
        }
        lemma_pass_is_sound(env, pos, roots, 0, depth, Seq::empty(), asked);
        lemma_deepen_is_sound(env, pos, roots, depth + 1, max_depth, deeper, depth, after);
    }
}

/// A search that neither the clock nor the limit on nodes stops reaches the full depth, and
/// scores every root move by the full value of the position after it, as far as that value lies
/// between -30000 and 30000; else the score lies on the same side.
pub proof fn law_unhindered_search_finds_full_values(
    env: Lookahead,
    pos: Position,
    max_depth: nat,
)
    requires
        never_late(env),
        max_depth >= 1,
        shogi::legal_moves(pos, env.rules, true).len() > 0,
        max_depth == 1 || search::deepening(env, pos, max_depth).nodes < env.max_nodes,
    ensures
        ({
            let roots = shogi::legal_moves(pos, env.rules, true);
            let outcome = search::search_outcome(env, pos, max_depth);
            &&& outcome.depth == max_depth
            &&& outcome.scores.len() == roots.len()
            &&& forall|j: int|
                0 <= j < roots.len() ==> sound(
                    -#[trigger] outcome.scores[j],
                    full_root_value(env, pos, roots[j], max_depth),
                    -30000,
                    30000,
                )
        }),
{
    let roots = shogi::legal_moves(pos, env.rules, true);
    let first = search::shallow_scores(env, pos, roots);
    assert forall|j: int| 0 <= j < roots.len() implies sound(
        -#[trigger] first[j],
        full_root_value(env, pos, roots[j], 1),
        -30000,
        30000,
    ) by {
        assert(first[j] == -env.score(shogi::after_move(pos, roots[j])));
    }
    if max_depth > 1 {
        lemma_deepen_is_sound(
            env,
            pos,
            roots,
            2,
            max_depth,
            first,
            1,
            Meter { nodes: 0, answers: 0 },
        );
    }
}

/// Whether the time is over at the answer of this number and at every later one.
pub open spec fn late_from(env: Lookahead, n: nat) -> bool {
    forall|i: nat| i >= n ==> #[trigger] (env.late)(i)
}

/// Once the time is over, no position is looked into any more, no further root move is scored and
/// no further depth is begun: what was found before stands.
pub proof fn law_a_late_search_stops(
    env: Lookahead,
    pos: Position,
    roots: Seq<GenMove>,
    i: nat,
    depth: nat,
    max_depth: nat,
    alpha: int,
    beta: int,
    scores: Seq<int>,
    reached: nat,
    meter: Meter,
)
    requires
        late_from(env, meter.answers),
    ensures
        search::negamax_value(env, pos, depth, alpha, beta, meter).0 == env.score(pos),
        search::negamax_value(env, pos, depth, alpha, beta, meter).1.nodes == meter.nodes,
        search::depth_pass(env, pos, roots, i, depth, scores, meter).0 == scores,
        search::depth_pass(env, pos, roots, i, depth, scores, meter).1.nodes == meter.nodes,
        search::deepen(env, pos, roots, depth, max_depth, scores, reached, meter) == (
        SearchOutcome { scores, nodes: meter.nodes, depth: reached }),
{
    assert((env.late)(meter.answers));
}

/// Without any time a search looks one move ahead.
pub proof fn law_without_time_one_move_is_looked_ahead(
    env: Lookahead,
    pos: Position,
    max_depth: nat,
)
    requires
        (env.late)(0),
    ensures
        ({
            let roots = shogi::legal_moves(pos, env.rules, true);
            let outcome = search::search_outcome(env, pos, max_depth);
            &&& outcome.scores == search::shallow_scores(env, pos, roots)
            &&& outcome.nodes == roots.len()
            &&& outcome.depth == 1
        }),
{
    let roots = shogi::legal_moves(pos, env.rules, true);
    assert(roots.len() == 0 ==> search::shallow_scores(env, pos, roots) =~= Seq::empty());
}

proof fn lemma_terms_change_sign(pos: Position, rules: RulesView, n: nat)
    requires
        n <= 81,
    ensures
        ({
            let turned = Position { side_to_move: pos.side_to_move.other(), ..pos };
            &&& search::material(turned, rules, n) == -search::material(pos, rules, n)
            &&& search::center(turned, n) == -search::center(pos, n)
        }),
    decreases n,
{
    if n > 0 {
        lemma_terms_change_sign(pos, rules, (n - 1) as nat);
    }
}

/// Material and position are the opponent's with the opposite sign.
pub proof fn law_terms_change_sign_with_the_side(pos: Position, rules: RulesView)
    ensures
        ({
            let turned = Position { side_to_move: pos.side_to_move.other(), ..pos };
            &&& search::material(turned, rules, 81) == -search::material(pos, rules, 81)
            &&& search::center(turned, 81) == -search::center(pos, 81)
        }),
{
    lemma_terms_change_sign(pos, rules, 81);
}

} // verus!
