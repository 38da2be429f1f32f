//! Evaluation terms, alpha-beta search and iterative deepening.

use crate::config::{EngineConfig, Weights};
use crate::movegen::{apply_move, generate_legal_moves, to_move_input};
use crate::shogi;
use crate::shogi_laws;
use crate::types;
use crate::types::{
    piece_base_value, piece_code, EngineMove, EngineMoveView, GenMove, Piece, Position,
    RulesView, RuntimeRules, SearchState,
};
use std::time::{Duration, Instant};
use vstd::prelude::*;

verus! {

// ---------------------------------------------------------------------------
// Evaluation terms
// ---------------------------------------------------------------------------

/// What the evaluation of a position weighs, from the view of the player to move.
#[derive(Debug, Clone, Copy, PartialEq, Eq, Structural)]
pub struct EvalTerms {
    pub material: i64,
    pub center: i64,
    pub mobility: u64,
}

/// The bonus that a request gives to a kind of piece.
pub open spec fn kind_bonus(kind: types::PieceKind, rules: RulesView) -> int {
    if rules.bonus.contains_key(types::kind_code(kind)) {
        rules.bonus[types::kind_code(kind)] as int
    } else {
        0
    }
}

/// The worth of a piece on the board.
pub open spec fn piece_worth(piece: Piece, rules: RulesView) -> int {
    types::kind_value(piece.kind) + (if piece.promoted {
        80int
    } else {
        0int
    }) + kind_bonus(piece.kind, rules)
}

pub open spec fn distance(a: int, b: int) -> int {
    if a < b {
        b - a
    } else {
        a - b
    }
}

/// How central square `i` is: 8 in the middle, 0 in a corner.
pub open spec fn centrality(i: int) -> int {
    8 - (distance(i / 9, 4) + distance(i % 9, 4))
}

/// A quantity of a piece, counted for the player to move and against the opponent.
pub open spec fn signed(pos: Position, piece: Piece, quantity: int) -> int {
    if piece.side == pos.side_to_move {
        quantity
    } else {
        -quantity
    }
}

/// The balance of material on the first `n` squares.
pub open spec fn material(pos: Position, rules: RulesView, n: nat) -> int
    decreases n,
{
    if n == 0 {
        0
    } else {
        material(pos, rules, (n - 1) as nat) + match pos.board[n - 1] {
            Some(piece) => signed(pos, piece, piece_worth(piece, rules)),
            None => 0,
        }
    }
}

/// The balance of centrality on the first `n` squares.
pub open spec fn center(pos: Position, n: nat) -> int
    decreases n,
{
    if n == 0 {
        0
    } else {
        center(pos, (n - 1) as nat) + match pos.board[n - 1] {
            Some(piece) => signed(pos, piece, centrality(n - 1)),
            None => 0,
        }
    }
}

/// The terms of a position: material, centrality, and the number of moves, pawn drops for mate
/// included.
pub open spec fn eval_terms(pos: Position, rules: RulesView) -> EvalTerms {
    EvalTerms {
        material: material(pos, rules, 81) as i64,
        center: center(pos, 81) as i64,
        mobility: shogi::legal_moves(pos, rules, false).len() as u64,
    }
}

fn square_centrality(idx: usize) -> (central: i64)
    requires
        idx < 81,
    ensures
        central == centrality(idx as int),
        0 <= central <= 8,
{
    let row: i64 = (idx / 9) as i64;
    let col: i64 = (idx % 9) as i64;
    let row_distance: i64 = if row < 4 {
        4 - row
    } else {
        row - 4
    };
    let col_distance: i64 = if col < 4 {
        4 - col
    } else {
        col - 4
    };
    8 - (row_distance + col_distance)
}

fn worth_on_board(piece: Piece, rules: &RuntimeRules) -> (worth: i64)
    ensures
        worth == piece_worth(piece, rules@),
        -0x1_0000_0000 <= worth <= 0x1_0000_0000,
{
    let promoted: i64 = if piece.promoted {
        80
    } else {
        0
    };
    let bonus: i64 = match rules.eval_bonus_by_piece.get(piece_code(piece.kind)) {
        Some(b) => *b as i64,
        None => 0,
    };
    piece_base_value(piece.kind) as i64 + promoted + bonus
}

/// The terms that the evaluation of a position weighs.
pub fn evaluation_terms(state: &SearchState, rules: &RuntimeRules) -> (terms: EvalTerms)
    ensures
        terms == eval_terms(state@, rules@),
        terms.material == material(state@, rules@, 81),
        terms.center == center(state@, 81),
{
    let ghost pos = state@;
    let mut material_sum: i64 = 0;
    let mut center_sum: i64 = 0;
    for idx in 0..81usize
        invariant
            pos == state@,
            material_sum == material(pos, rules@, idx as nat),
            center_sum == center(pos, idx as nat),
            -0x1_0000_0000 * idx <= material_sum <= 0x1_0000_0000 * idx,
            -8 * idx <= center_sum <= 8 * idx,
    {
        if let Some(p) = state.board[idx] {
            let worth: i64 = worth_on_board(p, rules);
            let central: i64 = square_centrality(idx);
            if p.side == state.side_to_move {
                material_sum = material_sum + worth;
                center_sum = center_sum + central;
            } else {
                material_sum = material_sum - worth;
                center_sum = center_sum - central;
            }
        }
    }
    let moves = generate_legal_moves(state, rules, false);
    EvalTerms { material: material_sum, center: center_sum, mobility: moves.len() as u64 }
}

// ---------------------------------------------------------------------------
// Scoring and the clock
// ---------------------------------------------------------------------------

/// A function that weighs terms by the weights of a configuration: it accepts any terms, and gives
/// a score whose negation is a score too.
pub open spec fn is_scorer<F: Fn(Weights, EvalTerms) -> i32>(
    score: F,
    cfg: EngineConfig,
) -> bool {
    &&& forall|t: EvalTerms| call_requires(score, (cfg.weighing(), t))
    &&& forall|t: EvalTerms, r: i32| call_ensures(score, (cfg.weighing(), t), r) ==> r > i32::MIN
}

/// Whether `value` tells the score that the function gives to any terms.
pub open spec fn describes<F: Fn(Weights, EvalTerms) -> i32>(
    value: spec_fn(EvalTerms) -> int,
    score: F,
    cfg: EngineConfig,
) -> bool {
    forall|t: EvalTerms, r: i32| #[trigger]
        call_ensures(score, (cfg.weighing(), t), r) ==> r == value(t)
}

/// The score of a position, from the view of the player to move.
pub fn evaluate_state<F: Fn(Weights, EvalTerms) -> i32>(
    state: &SearchState,
    cfg: &EngineConfig,
    rules: &RuntimeRules,
    score: &F,
) -> (value: i32)
    requires
        is_scorer(*score, *cfg),
    ensures
        call_ensures(*score, (cfg.weighing(), eval_terms(state@, rules@)), value),
{
    let terms = evaluation_terms(state, rules);
    score(cfg.weights(), terms)
}

/// `std::time::Instant`, carried through unread.
#[verifier::external_type_specification]
#[verifier::external_body]
pub struct ExInstant(Instant);

/// `std::time::Instant::elapsed`: the time since an instant. Nothing is claimed of it, for it
/// depends on when the call is made.
pub assume_specification[ Instant::elapsed ](start: &Instant) -> (elapsed: Duration);

/// `std::time::Duration::as_millis`: a duration in whole milliseconds. Nothing is claimed of the
/// number: durations come from the clock alone.
pub assume_specification[ Duration::as_millis ](duration: &Duration) -> (ms: u128);

/// Whether a reading of so many milliseconds is past the limit. Of the reading only the low 32
/// bits count.
pub open spec fn time_over(ms: u128, limit_ms: u32) -> bool {
    ms % 0x1_0000_0000 >= limit_ms
}

pub fn time_is_over(ms: u128, limit_ms: u32) -> (late: bool)
    ensures
        late == time_over(ms, limit_ms),
{
    (ms % 0x1_0000_0000) as u32 >= limit_ms
}

/// Whether the time since `start` can be read as so many milliseconds.
pub open spec fn read_since(start: Instant, ms: u128) -> bool {
    exists|elapsed: Duration| #[trigger]
        call_ensures(Instant::elapsed, (&start,), elapsed) && call_ensures(
            Duration::as_millis,
            (&elapsed,),
            ms,
        )
}

/// Whether each of these milliseconds can have been read as the time since `start`.
pub open spec fn clock_run(start: Instant, read: Seq<u128>) -> bool {
    forall|i: int| 0 <= i < read.len() ==> read_since(start, #[trigger] read[i])
}

/// The milliseconds since `start`.
pub fn read_clock(start: &Instant) -> (ms: u128)
    ensures
        read_since(*start, ms),
{
    let elapsed = start.elapsed();
    elapsed.as_millis()
}

/// A clock that tells whether the time for a search is over, and remembers its readings.
pub struct SearchClock {
    start: Instant,
    limit_ms: u32,
    readings: Ghost<Seq<u128>>,
}

impl SearchClock {
    /// The milliseconds read so far.
    pub closed spec fn readings(self) -> Seq<u128> {
        self.readings@
    }

    /// The instant from which on the time counts.
    pub closed spec fn start(self) -> Instant {
        self.start
    }

    /// The milliseconds from which on the time is over.
    pub closed spec fn limit(self) -> u32 {
        self.limit_ms
    }

    /// The answers given so far.
    pub open spec fn log(self) -> Seq<bool> {
        self.readings().map_values(|ms: u128| time_over(ms, self.limit()))
    }

    /// Whether this clock goes on as `earlier` did: with the same start and limit, and with nothing
    /// but the time since its start among its readings, if `earlier` had nothing else.
    pub open spec fn runs_on(self, earlier: SearchClock) -> bool {
        &&& self.start() == earlier.start()
        &&& self.limit() == earlier.limit()
        &&& clock_run(earlier.start(), earlier.readings()) ==> clock_run(
            self.start(),
            self.readings(),
        )
    }

    pub fn new(start: Instant, limit_ms: u32) -> (clock: Self)
        ensures
            clock.readings().len() == 0,
            clock.start() == start,
            clock.limit() == limit_ms,
    {
        SearchClock { start, limit_ms, readings: Ghost(Seq::empty()) }
    }

    /// Whether the time is over now.
    pub fn is_late(&mut self) -> (late: bool)
        ensures
            exists|ms: u128|
                {
                    &&& #[trigger] read_since(old(self).start(), ms)
                    &&& final(self).readings() == old(self).readings().push(ms)
                    &&& late == time_over(ms, old(self).limit())
                },
            final(self).runs_on(*old(self)),
            final(self).log() == old(self).log().push(late),
    {
        let ms: u128 = read_clock(&self.start);
        let late = time_is_over(ms, self.limit_ms);
        let ghost before = self.log();
        self.readings = Ghost(self.readings@.push(ms));
        assert(self.log() =~= before.push(late));
        assert(read_since(old(self).start(), ms));
        late
    }
}

// ---------------------------------------------------------------------------
// Alpha-beta search
// ---------------------------------------------------------------------------

/// What a search runs with: the rules, the limit on nodes, the score of any terms, and the answers
/// of the clock, the first being number 0.
pub struct Lookahead {
    pub rules: RulesView,
    pub max_nodes: nat,
    pub weigh: spec_fn(EvalTerms) -> int,
    pub late: spec_fn(nat) -> bool,
}

impl Lookahead {
    /// The score of a position.
    pub open spec fn score(self, pos: Position) -> int {
        (self.weigh)(eval_terms(pos, self.rules))
    }
}

/// The nodes that a search has counted and the answers that it has had from the clock.
pub struct Meter {
    pub nodes: nat,
    pub answers: nat,
}

/// The value of a position for the player to move, looked at `depth` moves ahead between the
/// bounds `alpha` and `beta`, and the meter afterwards. Where the nodes are used up or the clock
/// says that the time is over, the position is scored as it stands.
pub open spec fn negamax_value(
    env: Lookahead,
    pos: Position,
    depth: nat,
    alpha: int,
    beta: int,
    meter: Meter,
) -> (int, Meter)
    decreases depth, 1nat, 0nat,
{
    if depth == 0 || meter.nodes >= env.max_nodes {
        (env.score(pos), meter)
    } else {
        let asked = Meter { answers: meter.answers + 1, ..meter };
        if (env.late)(meter.answers) {
            (env.score(pos), asked)
        } else {
            let counted = Meter { nodes: asked.nodes + 1, ..asked };
            let moves = shogi::legal_moves(pos, env.rules, true);
            if moves.len() == 0 {
                (-29000 + depth, counted)
            } else {
                best_reply(env, pos, moves, 0, depth, alpha, beta, -30000, counted)
            }
        }
    }
}

/// The value over `moves` from number `i` on, given the best value `best` of those before, until
/// `beta` is reached.
pub open spec fn best_reply(
    env: Lookahead,
    pos: Position,
    moves: Seq<GenMove>,
    i: nat,
    depth: nat,
    alpha: int,
    beta: int,
    best: int,
    meter: Meter,
) -> (int, Meter)
    decreases depth, 0nat, moves.len() - i,
{
    if i >= moves.len() || depth == 0 {
        (best, meter)
    } else {
        let next = shogi::after_move(pos, moves[i as int]);
        let (value, after) = negamax_value(env, next, (depth - 1) as nat, -beta, -alpha, meter);
        let new_best = larger(best, -value);
        let new_alpha = larger(alpha, -value);
        if new_alpha >= beta {
            (new_best, after)
        } else {
            best_reply(env, pos, moves, i + 1, depth, new_alpha, beta, new_best, after)
        }
    }
}

pub open spec fn larger(a: int, b: int) -> int {
    if a < b {
        b
    } else {
        a
    }
}

/// Whether a clock with these answers could have given the logged ones.
pub open spec fn agrees(late: spec_fn(nat) -> bool, log: Seq<bool>) -> bool {
    forall|i: int| 0 <= i < log.len() ==> late(i as nat) == #[trigger] log[i]
}

/// Whether a search with this configuration, scoring function and clock log is the one described.
pub open spec fn fits<F: Fn(Weights, EvalTerms) -> i32>(
    env: Lookahead,
    score: F,
    cfg: EngineConfig,
    rules: RulesView,
    log: Seq<bool>,
) -> bool {
    &&& env.rules == rules
    &&& env.max_nodes == cfg.max_nodes
    &&& describes(env.weigh, score, cfg)
    &&& agrees(env.late, log)
}

/// Whether `later` continues `earlier`.
pub open spec fn continues(earlier: Seq<bool>, later: Seq<bool>) -> bool {
    earlier.len() <= later.len() && later.take(earlier.len() as int) == earlier
}

proof fn lemma_agrees_earlier(late: spec_fn(nat) -> bool, earlier: Seq<bool>, later: Seq<bool>)
    requires
        agrees(late, later),
        continues(earlier, later),
    ensures
        agrees(late, earlier),
{
    assert forall|i: int| 0 <= i < earlier.len() implies late(i as nat)
        == #[trigger] earlier[i] by {
        assert(later.take(earlier.len() as int)[i] == later[i]);
    }
}

proof fn lemma_continues_on(a: Seq<bool>, b: Seq<bool>, c: Seq<bool>)
    requires
        continues(a, b),
        continues(b, c),
    ensures
        continues(a, c),
{
    assert(c.take(a.len() as int) =~= b.take(a.len() as int));
}

fn negamax<F: Fn(Weights, EvalTerms) -> i32>(
    state: &SearchState,
    depth: u32,
    alpha: i32,
    beta: i32,
    cfg: &EngineConfig,
    rules: &RuntimeRules,
    score: &F,
    clock: &mut SearchClock,
    nodes: &mut u64,
) -> (value: i32)
    requires
        is_scorer(*score, *cfg),
        depth <= i32::MAX,
        alpha > i32::MIN,
        beta > i32::MIN,
    ensures
        value > i32::MIN,
        *old(nodes) <= *final(nodes) <= larger(*old(nodes) as int, cfg.max_nodes as int),
        continues(old(clock).log(), final(clock).log()),
        final(clock).runs_on(*old(clock)),
        forall|env: Lookahead| #[trigger]
            fits(env, *score, *cfg, rules@, final(clock).log()) ==> negamax_value(
                env,
                state@,
                depth as nat,
                alpha as int,
                beta as int,
                Meter { nodes: *old(nodes) as nat, answers: old(clock).log().len() },
            ) == (
                value as int,
                Meter { nodes: *final(nodes) as nat, answers: final(clock).log().len() },
            ),
    decreases depth,
{
    let ghost log0 = clock.log();
    let ghost nodes0 = *nodes;
    let ghost meter0 = Meter { nodes: *nodes as nat, answers: log0.len() };
    if depth == 0 || *nodes >= cfg.max_nodes as u64 {
        assert(clock.log().take(log0.len() as int) =~= log0);
        return evaluate_state(state, cfg, rules, score);
    }
    let late_now = clock.is_late();
    let ghost log1 = clock.log();
    proof {
        assert(log1.take(log0.len() as int) =~= log0);
        assert forall|env: Lookahead| #[trigger]
            fits(env, *score, *cfg, rules@, log1) implies (env.late)(log0.len()) == late_now by {
            assert(log1[log0.len() as int] == late_now);
        }
    }
    if late_now {
        return evaluate_state(state, cfg, rules, score);
    }
    *nodes = *nodes + 1;
    let moves = generate_legal_moves(state, rules, true);
    if moves.len() == 0 {
        return -29000 + depth as i32;
    }
    proof {
        shogi_laws::law_legal_moves_fit(state@, rules@, true);
    }
    let ghost alpha0 = alpha;
    let mut alpha = alpha;
    let mut best: i32 = -30000;
    let mut i: usize = 0;
    let mut cut = false;
    while i < moves.len() && !cut
        invariant
            is_scorer(*score, *cfg),
            0 < depth <= i32::MAX,
            alpha > i32::MIN,
            beta > i32::MIN,
            best >= -30000,
            nodes0 <= *nodes <= larger(nodes0 as int, cfg.max_nodes as int),
            i <= moves@.len(),
            moves@ == shogi::legal_moves(state@, rules@, true),
            forall|j: int|
                0 <= j < moves@.len() ==> shogi::playable(state@, #[trigger] moves@[j]),
            continues(log0, clock.log()),
            clock.runs_on(*old(clock)),
            forall|env: Lookahead| #[trigger]
                fits(env, *score, *cfg, rules@, clock.log()) ==> negamax_value(
                    env,
                    state@,
                    depth as nat,
                    alpha0 as int,
                    beta as int,
                    meter0,
                ) == (if cut {
                    (
                        best as int,
                        Meter { nodes: *nodes as nat, answers: clock.log().len() },
                    )
                } else {
                    best_reply(
                        env,
                        state@,
                        moves@,
                        i as nat,
                        depth as nat,
                        alpha as int,
                        beta as int,
                        best as int,
                        Meter { nodes: *nodes as nat, answers: clock.log().len() },
                    )
                }),
        decreases moves.len() - i,
    {
        let ghost log_before = clock.log();
        assert(shogi::playable(state@, moves@[i as int]));
        let next = apply_move(state, &moves[i]);
        let value = negamax(
            &next,
            depth - 1,
            -beta,
            -alpha,
            cfg,
            rules,
            score,
            clock,
            nodes,
        );
        let reply: i32 = -value;
        if reply > best {
            best = reply;
        }
        if reply > alpha {
            alpha = reply;
        }
        if alpha >= beta {
            cut = true;
        }
        i = i + 1;
        proof {
            lemma_continues_on(log0, log_before, clock.log());
            assert forall|env: Lookahead| #[trigger]
                fits(env, *score, *cfg, rules@, clock.log()) implies fits(
                env,
                *score,
                *cfg,
                rules@,
                log_before,
            ) by {
                lemma_agrees_earlier(env.late, log_before, clock.log());
            }
        }
    }
    best
}

// ---------------------------------------------------------------------------
// Iterative deepening
// ---------------------------------------------------------------------------

/// The scores of `roots` from number `i` on, looked at `depth` moves ahead, after `scores`, until
/// the nodes or the time are used up.
pub open spec fn depth_pass(
    env: Lookahead,
    pos: Position,
    roots: Seq<GenMove>,
    i: nat,
    depth: nat,
    scores: Seq<int>,
    meter: Meter,
) -> (Seq<int>, Meter)
    decreases roots.len() - i,
{
    if i >= roots.len() || meter.nodes >= env.max_nodes {
        (scores, meter)
    } else {
        let asked = Meter { answers: meter.answers + 1, ..meter };
        if (env.late)(meter.answers) {
            (scores, asked)
        } else {
            let next = shogi::after_move(pos, roots[i as int]);
            let (value, after) = negamax_value(
                env,
                next,
                (depth - 1) as nat,
                -30000,
                30000,
                asked,
            );
            depth_pass(env, pos, roots, i + 1, depth, scores.push(-value), after)
        }
    }
}

/// What a search comes to: a score for each root move, the nodes counted, and the depth reached.
pub struct SearchOutcome {
    pub scores: Seq<int>,
    pub nodes: nat,
    pub depth: nat,
}

/// The outcome of deepening from `depth` on, given that of the last depth completed. A depth that
/// was not completed counts only by its nodes.
pub open spec fn deepen(
    env: Lookahead,
    pos: Position,
    roots: Seq<GenMove>,
    depth: nat,
    max_depth: nat,
    scores: Seq<int>,
    reached: nat,
    meter: Meter,
) -> SearchOutcome
    decreases max_depth + 1 - depth,
{
    if depth > max_depth || meter.nodes >= env.max_nodes || (env.late)(meter.answers) {
        SearchOutcome { scores, nodes: meter.nodes, depth: reached }
    } else {
        let asked = Meter { answers: meter.answers + 1, ..meter };
        let (deeper, after) = depth_pass(env, pos, roots, 0, depth, Seq::empty(), asked);
        if deeper.len() == roots.len() {
            deepen(env, pos, roots, depth + 1, max_depth, deeper, depth, after)
        } else {
            SearchOutcome { scores, nodes: after.nodes, depth: reached }
        }
    }
}

/// The scores of `roots` by the positions right after them.
pub open spec fn shallow_scores(env: Lookahead, pos: Position, roots: Seq<GenMove>) -> Seq<int> {
    roots.map_values(|mv: GenMove| -env.score(shogi::after_move(pos, mv)))
}

/// The outcome of deepening from the scores right after the root moves on.
pub open spec fn deepening(env: Lookahead, pos: Position, max_depth: nat) -> SearchOutcome {
    let roots = shogi::legal_moves(pos, env.rules, true);
    deepen(
        env,
        pos,
        roots,
        2,
        max_depth,
        shallow_scores(env, pos, roots),
        1,
        Meter { nodes: 0, answers: 0 },
    )
}

/// The outcome of a search from a position. Each root move counts as a node at least.
pub open spec fn search_outcome(env: Lookahead, pos: Position, max_depth: nat) -> SearchOutcome {
    let roots = shogi::legal_moves(pos, env.rules, true);
    if roots.len() == 0 {
        SearchOutcome { scores: Seq::empty(), nodes: 0, depth: 1 }
    } else {
        let outcome = deepening(env, pos, max_depth);
        SearchOutcome { nodes: larger(outcome.nodes as int, roots.len() as int) as nat, ..outcome }
    }
}

/// The root moves of a search, as they are reported.
pub open spec fn root_moves(pos: Position, rules: RulesView) -> Seq<EngineMoveView> {
    shogi::legal_moves(pos, rules, true).map_values(|mv: GenMove| shogi::engine_move(mv))
}

/// The views of a list of moves.
pub open spec fn move_views(moves: Seq<EngineMove>) -> Seq<EngineMoveView> {
    moves.map_values(|mv: EngineMove| mv@)
}

/// Scores as numbers.
pub open spec fn score_values(scores: Seq<i32>) -> Seq<int> {
    scores.map_values(|score: i32| score as int)
}

/// Each score with its place in the list.
pub open spec fn numbered(scores: Seq<int>) -> Seq<(usize, i32)> {
    Seq::new(scores.len(), |i: int| (i as usize, scores[i] as i32))
}

/// One depth of the search: the scores of the root moves, as far as the limits let it come.
fn score_roots<F: Fn(Weights, EvalTerms) -> i32>(
    state: &SearchState,
    roots: &Vec<GenMove>,
    depth: u32,
    cfg: &EngineConfig,
    rules: &RuntimeRules,
    score: &F,
    clock: &mut SearchClock,
    nodes: &mut u64,
) -> (scores: Vec<i32>)
    requires
        is_scorer(*score, *cfg),
        2 <= depth <= i32::MAX,
        forall|j: int| 0 <= j < roots@.len() ==> shogi::playable(state@, #[trigger] roots@[j]),
    ensures
        scores@.len() <= roots@.len(),
        *old(nodes) <= *final(nodes) <= larger(*old(nodes) as int, cfg.max_nodes as int),
        continues(old(clock).log(), final(clock).log()),
        final(clock).runs_on(*old(clock)),
        forall|env: Lookahead| #[trigger]
            fits(env, *score, *cfg, rules@, final(clock).log()) ==> depth_pass(
                env,
                state@,
                roots@,
                0,
                depth as nat,
                Seq::empty(),
                Meter { nodes: *old(nodes) as nat, answers: old(clock).log().len() },
            ) == (
                score_values(scores@),
                Meter { nodes: *final(nodes) as nat, answers: final(clock).log().len() },
            ),
{
    let ghost log0 = clock.log();
    let ghost nodes0 = *nodes;
    let ghost meter0 = Meter { nodes: *nodes as nat, answers: log0.len() };
    let mut scores: Vec<i32> = Vec::new();
    let mut stopped = false;
    assert(log0.take(log0.len() as int) =~= log0);
    assert(score_values(scores@) =~= Seq::<int>::empty());
    while scores.len() < roots.len() && !stopped
        invariant
            is_scorer(*score, *cfg),
            2 <= depth <= i32::MAX,
            forall|j: int| 0 <= j < roots@.len() ==> shogi::playable(state@, #[trigger] roots@[j]),
            scores@.len() <= roots@.len(),
            nodes0 <= *nodes <= larger(nodes0 as int, cfg.max_nodes as int),
            continues(log0, clock.log()),
            clock.runs_on(*old(clock)),
            forall|env: Lookahead| #[trigger]
                fits(env, *score, *cfg, rules@, clock.log()) ==> depth_pass(
                    env,
                    state@,
                    roots@,
                    0,
                    depth as nat,
                    Seq::empty(),
                    meter0,
                ) == (if stopped {
                    (
                        score_values(scores@),
                        Meter { nodes: *nodes as nat, answers: clock.log().len() },
                    )
                } else {
                    depth_pass(
                        env,
                        state@,
                        roots@,
                        scores@.len(),
                        depth as nat,
                        score_values(scores@),
                        Meter { nodes: *nodes as nat, answers: clock.log().len() },
                    )
                }),
        decreases (if stopped { 0int } else { 1int }), roots.len() - scores.len(),
    {
        if *nodes >= cfg.max_nodes as u64 {
            stopped = true;
        } else {
            let ghost log_before = clock.log();
            let late_now = clock.is_late();
            let ghost log_asked = clock.log();
            proof {
                assert(log_asked.take(log_before.len() as int) =~= log_before);
                lemma_continues_on(log0, log_before, log_asked);
                assert forall|env: Lookahead| #[trigger]
                    fits(env, *score, *cfg, rules@, log_asked) implies fits(
                    env,
                    *score,
                    *cfg,
                    rules@,
                    log_before,
                ) && (env.late)(log_before.len()) == late_now by {
                    lemma_agrees_earlier(env.late, log_before, log_asked);
                    assert(log_asked[log_before.len() as int] == late_now);
                }
            }
            if late_now {
                stopped = true;
            } else {
                let mv = roots[scores.len()];
                assert(shogi::playable(state@, roots@[scores@.len() as int]));
                let next = apply_move(state, &mv);
                let value = negamax(
                    &next,
                    depth - 1,
                    -30000,
                    30000,
                    cfg,
                    rules,
                    score,
                    clock,
                    nodes,
                );
                let ghost scores_before = scores@;
                scores.push(-value);
                proof {
                    assert(score_values(scores@) =~= score_values(scores_before).push(
                        -value as int,
                    ));
                    lemma_continues_on(log0, log_asked, clock.log());
                    assert forall|env: Lookahead| #[trigger]
                        fits(env, *score, *cfg, rules@, clock.log()) implies fits(
                        env,
                        *score,
                        *cfg,
                        rules@,
                        log_asked,
                    ) by {
                        lemma_agrees_earlier(env.late, log_asked, clock.log());
                    }
                }
            }
        }
    }
    scores
}

/// Whether a report gives the root moves of a position, each with one score that bears the number
/// of its place.
pub open spec fn lists_roots(
    report: (Vec<EngineMove>, Vec<(usize, i32)>, u64, u32),
    pos: Position,
    rules: RulesView,
) -> bool {
    &&& move_views(report.0@) == root_moves(pos, rules)
    &&& report.1@.len() == report.0@.len()
    &&& forall|i: int| 0 <= i < report.1@.len() ==> (#[trigger] report.1@[i]).0 == i
}

/// Whether a report keeps to its limits, whatever the scores are and whatever the clock reads: the
/// depth is from 1 up to the one asked for, the nodes are at least the root moves and no more than
/// allowed otherwise, and without a root move there is no node.
pub open spec fn keeps_limits(
    report: (Vec<EngineMove>, Vec<(usize, i32)>, u64, u32),
    cfg: EngineConfig,
) -> bool {
    let roots = report.0@.len() as int;
    &&& 1 <= report.3 <= larger(1, cfg.max_depth as int)
    &&& roots <= report.2 <= larger(roots, cfg.max_nodes as int)
    &&& roots == 0 ==> report.2 == 0 && report.3 == 1
}

/// Whether a report gives the root moves of a search, its scores by number, its nodes and its
/// depth.
pub open spec fn reports(
    report: (Vec<EngineMove>, Vec<(usize, i32)>, u64, u32),
    pos: Position,
    rules: RulesView,
    outcome: SearchOutcome,
) -> bool {
    &&& move_views(report.0@) == root_moves(pos, rules)
    &&& report.1@ == numbered(outcome.scores)
    &&& outcome.scores.len() == report.0@.len()
    &&& report.2 == outcome.nodes
    &&& report.3 == outcome.depth
}

fn shallow_pass<F: Fn(Weights, EvalTerms) -> i32>(
    state: &SearchState,
    roots: &Vec<GenMove>,
    cfg: &EngineConfig,
    rules: &RuntimeRules,
    score: &F,
) -> (result: (Vec<EngineMove>, Vec<i32>))
    requires
        is_scorer(*score, *cfg),
        forall|j: int| 0 <= j < roots@.len() ==> shogi::playable(state@, #[trigger] roots@[j]),
    ensures
        result.0@.len() == roots@.len(),
        forall|j: int|
            0 <= j < roots@.len() ==> (#[trigger] result.0@[j])@ == shogi::engine_move(roots@[j]),
        result.1@.len() == roots@.len(),
        forall|j: int|
            0 <= j < roots@.len() ==> #[trigger] result.1@[j] > i32::MIN && call_ensures(
                *score,
                (cfg.weighing(), eval_terms(shogi::after_move(state@, roots@[j]), rules@)),
                (-result.1@[j]) as i32,
            ),
{
    let mut inputs: Vec<EngineMove> = Vec::new();
    let mut scores: Vec<i32> = Vec::new();
    for i in 0..roots.len()
        invariant
            is_scorer(*score, *cfg),
            forall|j: int| 0 <= j < roots@.len() ==> shogi::playable(state@, #[trigger] roots@[j]),
            inputs@.len() == i,
            forall|j: int| 0 <= j < i ==> (#[trigger] inputs@[j])@ == shogi::engine_move(roots@[j]),
            scores@.len() == i,
            forall|j: int|
                0 <= j < i ==> #[trigger] scores@[j] > i32::MIN && call_ensures(
                    *score,
                    (cfg.weighing(), eval_terms(shogi::after_move(state@, roots@[j]), rules@)),
                    (-scores@[j]) as i32,
                ),
    {
        assert(shogi::playable(state@, roots@[i as int]));
        let next = apply_move(state, &roots[i]);
        let value = evaluate_state(&next, cfg, rules, score);
        inputs.push(to_move_input(&roots[i]));
        scores.push(-value);
    }
    (inputs, scores)
}

fn number_scores(scores: &Vec<i32>) -> (result: Vec<(usize, i32)>)
    ensures
        result@ == numbered(score_values(scores@)),
{
    let mut result: Vec<(usize, i32)> = Vec::new();
    for i in 0..scores.len()
        invariant
            result@.len() == i,
            forall|j: int| 0 <= j < i ==> #[trigger] result@[j] == (j as usize, scores@[j]),
    {
        result.push((i, scores[i]));
    }
    assert(result@ =~= numbered(score_values(scores@)));
    result
}

/// Searches with a fresh clock: the report follows from the clock's answers, whatever they are.
pub fn search_with_clock<F: Fn(Weights, EvalTerms) -> i32>(
    state: &SearchState,
    cfg: &EngineConfig,
    rules: &RuntimeRules,
    score: &F,
    clock: &mut SearchClock,
) -> (report: (Vec<EngineMove>, Vec<(usize, i32)>, u64, u32))
    requires
        is_scorer(*score, *cfg),
        cfg.max_depth <= i32::MAX,
        old(clock).readings().len() == 0,
    ensures
        final(clock).runs_on(*old(clock)),
        lists_roots(report, state@, rules@),
        keeps_limits(report, *cfg),
        forall|env: Lookahead| #[trigger]
            fits(env, *score, *cfg, rules@, final(clock).log()) ==> reports(
                report,
                state@,
                rules@,
                search_outcome(
                    env,
                    state@,
                    cfg.max_depth as nat,
                ),
            ),
{
    let ghost log0 = clock.log();
    let ghost meter0 = Meter { nodes: 0, answers: 0 };
    let mut nodes: u64 = 0;
    let root = generate_legal_moves(state, rules, true);
    proof {
        shogi_laws::law_legal_moves_fit(state@, rules@, true);
    }
    let (root_inputs, first_scores) = shallow_pass(state, &root, cfg, rules, score);
    assert(move_views(root_inputs@) =~= root_moves(state@, rules@));
    if root.len() == 0 {
        let scored: Vec<(usize, i32)> = Vec::new();
        assert(scored@ =~= numbered(Seq::empty()));
        return (root_inputs, scored, 0, 1);
    }
    let mut last_scores = first_scores;
    let mut reached_depth: u32 = 1;
    let mut depth: u32 = 2;
    let mut stopped = false;
    proof {
        assert forall|env: Lookahead| #[trigger]
            fits(env, *score, *cfg, rules@, clock.log()) implies score_values(last_scores@)
            == shallow_scores(env, state@, root@) by {
            assert(score_values(last_scores@) =~= shallow_scores(
                env,
                state@,
                root@,
            ));
        }
        assert(log0.take(log0.len() as int) =~= log0);
    }
    while depth <= cfg.max_depth && !stopped
        invariant
            is_scorer(*score, *cfg),
            cfg.max_depth <= i32::MAX,
            2 <= depth <= i32::MAX + 1,
            1 <= reached_depth <= larger(1, cfg.max_depth as int),
            nodes <= cfg.max_nodes,
            clock.runs_on(*old(clock)),
            root@ == shogi::legal_moves(state@, rules@, true),
            forall|j: int| 0 <= j < root@.len() ==> shogi::playable(state@, #[trigger] root@[j]),
            last_scores@.len() == root@.len(),
            forall|env: Lookahead| #[trigger]
                fits(env, *score, *cfg, rules@, clock.log()) ==> deepen(
                    env,
                    state@,
                    root@,
                    2,
                    cfg.max_depth as nat,
                    shallow_scores(
                        env,
                        state@,
                        root@,
                    ),
                    1,
                    meter0,
                ) == (if stopped {
                    SearchOutcome {
                        scores: score_values(last_scores@),
                        nodes: nodes as nat,
                        depth: reached_depth as nat,
                    }
                } else {
                    deepen(
                        env,
                        state@,
                        root@,
                        depth as nat,
                        cfg.max_depth as nat,
                        score_values(last_scores@),
                        reached_depth as nat,
                        Meter { nodes: nodes as nat, answers: clock.log().len() },
                    )
                }),
        decreases (if stopped { 0int } else { 1int }), cfg.max_depth + 1 - depth,
    {
        if nodes >= cfg.max_nodes as u64 {
            stopped = true;
        } else {
            let ghost log_before = clock.log();
            let late_now = clock.is_late();
            let ghost log_asked = clock.log();
            proof {
                assert(log_asked.take(log_before.len() as int) =~= log_before);
                assert forall|env: Lookahead| #[trigger]
                    fits(env, *score, *cfg, rules@, log_asked) implies fits(
                    env,
                    *score,
                    *cfg,
                    rules@,
                    log_before,
                ) && (env.late)(log_before.len()) == late_now by {
                    lemma_agrees_earlier(env.late, log_before, log_asked);
                    assert(log_asked[log_before.len() as int] == late_now);
                }
            }
            if late_now {
                stopped = true;
            } else {
                let depth_scores = score_roots(
                    state,
                    &root,
                    depth,
                    cfg,
                    rules,
                    score,
                    clock,
                    &mut nodes,
                );
                proof {
                    assert forall|env: Lookahead| #[trigger]
                        fits(env, *score, *cfg, rules@, clock.log()) implies fits(
                        env,
                        *score,
                        *cfg,
                        rules@,
                        log_asked,
                    ) by {
                        lemma_agrees_earlier(env.late, log_asked, clock.log());
                    }
                }
                if depth_scores.len() == root.len() {
                    last_scores = depth_scores;
                    reached_depth = depth;
                    depth = depth + 1;
                } else {
                    stopped = true;
                }
            }
        }
    }
    let scored = number_scores(&last_scores);
    let counted: u64 = if nodes < root.len() as u64 {
        root.len() as u64
    } else {
        nodes
    };
    (root_inputs, scored, counted, reached_depth)
}

/// The answers of a clock with these readings and this limit.
pub open spec fn late_by(readings: spec_fn(nat) -> u128, limit_ms: u32) -> spec_fn(nat) -> bool {
    |i: nat| time_over(readings(i), limit_ms)
}

/// What a search runs with when its scores are described by `weigh` and its clock reads so.
pub open spec fn lookahead(
    weigh: spec_fn(EvalTerms) -> int,
    cfg: EngineConfig,
    rules: RulesView,
    readings: spec_fn(nat) -> u128,
) -> Lookahead {
    Lookahead {
        rules,
        max_nodes: cfg.max_nodes as nat,
        weigh,
        late: late_by(readings, cfg.time_limit_ms),
    }
}

/// Whether a report is that of a search whose clock reads so.
pub open spec fn reports_run<F: Fn(Weights, EvalTerms) -> i32>(
    report: (Vec<EngineMove>, Vec<(usize, i32)>, u64, u32),
    pos: Position,
    rules: RulesView,
    score: F,
    cfg: EngineConfig,
    readings: spec_fn(nat) -> u128,
) -> bool {
    forall|weigh: spec_fn(EvalTerms) -> int| #[trigger]
        describes(weigh, score, cfg) ==> reports(
            report,
            pos,
            rules,
            search_outcome(lookahead(weigh, cfg, rules, readings), pos, cfg.max_depth as nat),
        )
}

/// Whether the readings begin with these.
pub open spec fn begins_with(readings: spec_fn(nat) -> u128, read: Seq<u128>) -> bool {
    forall|i: int| 0 <= i < read.len() ==> readings(i as nat) == #[trigger] read[i]
}

/// The readings that begin with these, with no time gone in those that are missing.
pub open spec fn continued(read: Seq<u128>) -> spec_fn(nat) -> u128 {
    |i: nat|
        if i < read.len() {
            read[i as int]
        } else {
            0u128
        }
}

/// Whether a report is that of a search whose clock has read this: later readings would not
/// matter, for there are none.
pub open spec fn follows_clock<F: Fn(Weights, EvalTerms) -> i32>(
    report: (Vec<EngineMove>, Vec<(usize, i32)>, u64, u32),
    pos: Position,
    rules: RulesView,
    score: F,
    cfg: EngineConfig,
    read: Seq<u128>,
) -> bool {
    forall|readings: spec_fn(nat) -> u128| #[trigger]
        begins_with(readings, read) ==> reports_run(report, pos, rules, score, cfg, readings)
}

/// Searches a position by iterative deepening until the depth, the nodes or the time since
/// `start` are used up. The report follows from what the clock reads on the way.
pub fn search_with_iterative_deepening<F: Fn(Weights, EvalTerms) -> i32>(
    state: &SearchState,
    cfg: &EngineConfig,
    rules: &RuntimeRules,
    start: Instant,
    score: &F,
) -> (report: (Vec<EngineMove>, Vec<(usize, i32)>, u64, u32))
    requires
        is_scorer(*score, *cfg),
        cfg.max_depth <= i32::MAX,
    ensures
        lists_roots(report, state@, rules@),
        keeps_limits(report, *cfg),
        exists|read: Seq<u128>|
            clock_run(start, read) && #[trigger] follows_clock(
                report,
                state@,
                rules@,
                *score,
                *cfg,
                read,
            ),
{
    let mut clock = SearchClock::new(start, cfg.time_limit_ms);
    let report = search_with_clock(state, cfg, rules, score, &mut clock);
    proof {
        let read = clock.readings();
        assert forall|readings: spec_fn(nat) -> u128| #[trigger]
            begins_with(readings, read) implies reports_run(
            report,
            state@,
            rules@,
            *score,
            *cfg,
            readings,
        ) by {
            assert(agrees(late_by(readings, cfg.time_limit_ms), clock.log()));
            assert forall|weigh: spec_fn(EvalTerms) -> int| #[trigger]
                describes(weigh, *score, *cfg) implies reports(
                report,
                state@,
                rules@,
                search_outcome(
                    lookahead(weigh, *cfg, rules@, readings),
                    state@,
                    cfg.max_depth as nat,
                ),
            ) by {
                let env = lookahead(weigh, *cfg, rules@, readings);
                assert(fits(env, *score, *cfg, rules@, clock.log()));
            }
        }
        assert(clock_run(start, read));
        assert(follows_clock(report, state@, rules@, *score, *cfg, read));
    }
    report
}

} // verus!
