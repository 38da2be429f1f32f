//! The final choice among scored moves, and the random numbers that it uses.

use crate::config::{EngineConfig, Real};
use rand::rngs::StdRng;
use rand::{Rng, SeedableRng};
use std::collections::hash_map::DefaultHasher;
use std::hash::Hasher;
use vstd::prelude::*;
use vstd::std_specs::hash::DefaultHasherAdditionalSpecFns;

verus! {

// ---------------------------------------------------------------------------
// Seeds and random numbers
// ---------------------------------------------------------------------------

/// The bytes of a number, lowest first, on every machine.
pub open spec fn number_bytes(n: u32) -> Seq<u8> {
    seq![
        (n % 0x100) as u8,
        (n / 0x100 % 0x100) as u8,
        (n / 0x1_0000 % 0x100) as u8,
        (n / 0x100_0000) as u8,
    ]
}

/// The seed of a game's move: the standard hash of the game's name, closed by a byte that occurs
/// in no name, and of the move's number.
pub open spec fn seed_value(game_id: Seq<char>, move_no: u32) -> u64 {
    DefaultHasher::spec_finish(
        seq![vstd::utf8::encode_utf8(game_id), seq![0xffu8], number_bytes(move_no)],
    )
}

/// The seed for a request that gives none.
pub fn make_seed(game_id: &str, move_no: u32) -> (seed: u64)
    ensures
        seed == seed_value(game_id@, move_no),
{
    let mut hasher = DefaultHasher::new();
    hasher.write(game_id.as_bytes());
    let end: [u8; 1] = [0xff];
    hasher.write(&end);
    let number: [u8; 4] = [
        (move_no % 0x100) as u8,
        (move_no / 0x100 % 0x100) as u8,
        (move_no / 0x1_0000 % 0x100) as u8,
        (move_no / 0x100_0000) as u8,
    ];
    hasher.write(&number);
    assert(end@ =~= seq![0xffu8]);
    assert(number@ =~= number_bytes(move_no));
    assert(hasher@ =~= seq![
        vstd::utf8::encode_utf8(game_id@),
        seq![0xffu8],
        number_bytes(move_no),
    ]);
    hasher.finish()
}

/// The same game and the same move number give the same seed.
pub proof fn law_seed_is_stable(a: Seq<char>, b: Seq<char>, m: u32, n: u32)
    requires
        a == b,
        m == n,
    ensures
        seed_value(a, m) == seed_value(b, n),
{
}

/// `rand::rngs::StdRng`, carried through unread.
#[verifier::external_type_specification]
#[verifier::external_body]
pub struct ExStdRng(StdRng);

/// The generator that `StdRng::seed_from_u64` gives for a seed.
pub uninterp spec fn seeded_rng(seed: u64) -> StdRng;

/// `rand`'s `SeedableRng::seed_from_u64` for `StdRng`: a generator that depends on the seed alone.
#[verifier::external_body]
pub(crate) fn rng_from_seed(seed: u64) -> (rng: StdRng)
    ensures
        rng == seeded_rng(seed),
{
    StdRng::seed_from_u64(seed)
}

/// The number that `Rng::gen_range` draws for `0..bound` with a generator, where `usize` has so
/// many bits.
pub uninterp spec fn drawn_below(rng: StdRng, bound: usize, width: u32) -> usize;

/// `rand`'s `Rng::gen_range` for `0..bound`: a number below the bound, which depends on the
/// generator, the bound and the width of `usize` alone. What the draw does to the generator is
/// left open: it is not used again.
#[verifier::external_body]
pub(crate) fn number_below(rng: &mut StdRng, bound: usize) -> (number: usize)
    requires
        bound > 0,
    ensures
        number < bound,
        number == drawn_below(*old(rng), bound, usize::BITS),
{
    rng.gen_range(0..bound)
}

// ---------------------------------------------------------------------------
// Ranking
// ---------------------------------------------------------------------------

/// Whether `a` ranks before `b`: by the higher score, or else by the lower number.
pub open spec fn before(a: (usize, i32), b: (usize, i32)) -> bool {
    a.1 > b.1 || (a.1 == b.1 && a.0 < b.0)
}

/// Best score first; among equal scores, lowest number first.
pub open spec fn is_ranked(list: Seq<(usize, i32)>) -> bool {
    forall|i: int, j: int|
        0 <= i < j < list.len() ==> before(#[trigger] list[i], #[trigger] list[j])
}

/// Whether the numbers rise from each entry to the next.
pub open spec fn is_numbered(list: Seq<(usize, i32)>) -> bool {
    forall|i: int, j: int|
        0 <= i < j < list.len() ==> (#[trigger] list[i]).0 < (#[trigger] list[j]).0
}

/// Whether `ranked` holds the entries of `scored`, each as often, in order of rank.
pub open spec fn ranking(ranked: Seq<(usize, i32)>, scored: Seq<(usize, i32)>) -> bool {
    is_ranked(ranked) && ranked.to_multiset() == scored.to_multiset()
}

/// Puts an entry with a number above all those of the list into its place.
fn insert_ranked(list: &mut Vec<(usize, i32)>, entry: (usize, i32))
    requires
        is_ranked(old(list)@),
        forall|i: int| 0 <= i < old(list)@.len() ==> (#[trigger] old(list)@[i]).0 < entry.0,
    ensures
        is_ranked(final(list)@),
        final(list)@.to_multiset() == old(list)@.to_multiset().insert(entry),
        exists|at: int|
            0 <= at <= old(list)@.len() && final(list)@ == #[trigger] old(list)@.insert(at, entry),
{
    let mut at: usize = list.len();
    while at > 0 && list[at - 1].1 < entry.1
        invariant
            at <= list@.len(),
            forall|i: int| at <= i < list@.len() ==> (#[trigger] list@[i]).1 < entry.1,
        decreases at,
    {
        at = at - 1;
    }
    let ghost start = list@;
    assert(start == old(list)@);
    list.insert(at, entry);
    proof {
        let end = list@;
        assert(end == start.insert(at as int, entry));
        start.to_multiset_ensures();
        vstd::seq_lib::to_multiset_insert(start, at as int, entry);
        assert forall|i: int, j: int| 0 <= i < j < end.len() implies before(
            #[trigger] end[i],
            #[trigger] end[j],
        ) by {
            let a = if i < at {
                i
            } else {
                i - 1
            };
            let b = if j < at {
                j
            } else {
                j - 1
            };
            if i != at && j != at {
                assert(before(start[a], start[b]));
            } else if j == at {
                if i < at - 1 {
                    assert(before(start[i], start[at - 1]));
                }
            }
        }
    }
}

/// Ranks scored moves, given in the order of their numbers.
pub fn rank_moves(scored: &Vec<(usize, i32)>) -> (ranked: Vec<(usize, i32)>)
    requires
        is_numbered(scored@),
    ensures
        ranking(ranked@, scored@),
{
    let mut ranked: Vec<(usize, i32)> = Vec::new();
    assert(scored@.take(0) =~= ranked@);
    let mut k: usize = 0;
    while k < scored.len()
        invariant
            k <= scored@.len(),
            is_numbered(scored@),
            is_ranked(ranked@),
            ranked@.to_multiset() == scored@.take(k as int).to_multiset(),
            forall|i: int|
                0 <= i < ranked@.len() ==> k > 0 && (#[trigger] ranked@[i]).0 <= scored@[k - 1].0,
        decreases scored@.len() - k,
    {
        let ghost earlier = ranked@;
        insert_ranked(&mut ranked, scored[k]);
        proof {
            let entry = scored@[k as int];
            assert(scored@.take(k + 1) =~= scored@.take(k as int).push(entry));
            scored@.take(k as int).to_multiset_ensures();
            let at = choose|at: int|
                0 <= at <= earlier.len() && ranked@ == #[trigger] earlier.insert(at, entry);
            assert forall|i: int| 0 <= i < ranked@.len() implies (#[trigger] ranked@[i]).0
                <= entry.0 by {
                if i < at {
                    assert(ranked@[i] == earlier[i]);
                } else if i > at {
                    assert(ranked@[i] == earlier[i - 1]);
                }
            }
        }
        k = k + 1;
    }
    assert(scored@.take(scored@.len() as int) =~= scored@);
    ranked
}

/// A list has one ranking only.
pub proof fn law_ranking_is_unique(
    a: Seq<(usize, i32)>,
    b: Seq<(usize, i32)>,
    scored: Seq<(usize, i32)>,
)
    requires
        ranking(a, scored),
        ranking(b, scored),
    ensures
        a == b,
    decreases a.len(),
{
    a.to_multiset_ensures();
    b.to_multiset_ensures();
    if a.len() > 0 {
        let x = a.last();
        let y = b.last();
        assert(a.contains(x));
        assert(b.contains(y));
        assert(b.to_multiset().count(x) > 0 && a.to_multiset().count(y) > 0);
        let j = choose|j: int| 0 <= j < b.len() && b[j] == x;
        let i = choose|i: int| 0 <= i < a.len() && a[i] == y;
        if x != y {
            assert(before(b[j], b[b.len() - 1]));
            assert(before(a[i], a[a.len() - 1]));
        }
        let rest_a = a.drop_last();
        let rest_b = b.drop_last();
        rest_a.to_multiset_ensures();
        rest_b.to_multiset_ensures();
        assert(a =~= rest_a.push(x));
        assert(b =~= rest_b.push(x));
        assert(rest_a.to_multiset().insert(x).remove(x) =~= rest_a.to_multiset());
        assert(rest_b.to_multiset().insert(x).remove(x) =~= rest_b.to_multiset());
        law_ranking_is_unique(rest_a, rest_b, rest_b);
    } else {
        assert(a =~= b);
    }
}

// ---------------------------------------------------------------------------
// Selection
// ---------------------------------------------------------------------------

/// The best moves, as many as the configuration lets compete.
pub open spec fn contenders(scored: Seq<(usize, i32)>, cfg: EngineConfig) -> Seq<(usize, i32)> {
    if cfg.random_topk < scored.len() {
        scored.take(cfg.random_topk as int)
    } else {
        scored
    }
}

/// Whether a score lies no further below the best than a blunder may cost.
pub open spec fn forgivable(score: i32, best_score: i32, cfg: EngineConfig) -> bool {
    best_score - score <= cfg.blunder_max_loss_cp as i32
}

/// The numbers of those entries that a blunder may choose, in order.
pub open spec fn blunder_options(
    list: Seq<(usize, i32)>,
    best_score: i32,
    cfg: EngineConfig,
) -> Seq<usize>
    decreases list.len(),
{
    if list.len() == 0 {
        Seq::empty()
    } else {
        let earlier = blunder_options(list.drop_last(), best_score, cfg);
        if forgivable(list.last().1, best_score, cfg) {
            earlier.push(list.last().0)
        } else {
            earlier
        }
    }
}

/// How far each score lies from the best.
pub open spec fn gaps(list: Seq<(usize, i32)>, best_score: i32) -> Seq<i64> {
    list.map_values(|entry: (usize, i32)| (entry.1 - best_score) as i64)
}

fn contending(scored: &Vec<(usize, i32)>, cfg: &EngineConfig) -> (top: Vec<(usize, i32)>)
    ensures
        top@ == contenders(scored@, *cfg),
{
    let mut top: Vec<(usize, i32)> = Vec::new();
    assert(scored@.take(0) =~= top@);
    while top.len() < scored.len() && (top.len() as u64) < cfg.random_topk as u64
        invariant
            top@.len() <= scored@.len(),
            top@.len() <= cfg.random_topk,
            top@ == scored@.take(top@.len() as int),
        decreases scored@.len() - top@.len(),
    {
        let k = top.len();
        top.push(scored[k]);
        assert(scored@.take(k + 1) =~= scored@.take(k as int).push(scored@[k as int]));
    }
    assert(scored@.take(scored@.len() as int) =~= scored@);
    top
}

fn forgivable_moves(list: &Vec<(usize, i32)>, best_score: i32, cfg: &EngineConfig) -> (options: Vec<
    usize,
>)
    ensures
        options@ == blunder_options(list@, best_score, *cfg),
{
    let mut options: Vec<usize> = Vec::new();
    assert(list@.take(0) =~= Seq::empty());
    for k in 0..list.len()
        invariant
            options@ == blunder_options(list@.take(k as int), best_score, *cfg),
    {
        assert(list@.take(k + 1).drop_last() =~= list@.take(k as int));
        assert(list@.take(k + 1).last() == list@[k as int]);
        if best_score as i64 - list[k].1 as i64 <= (cfg.blunder_max_loss_cp as i32) as i64 {
            options.push(list[k].0);
        }
    }
    assert(list@.take(list@.len() as int) =~= list@);
    options
}

fn score_gaps(list: &Vec<(usize, i32)>, best_score: i32) -> (found: Vec<i64>)
    ensures
        found@ == gaps(list@, best_score),
{
    let mut found: Vec<i64> = Vec::new();
    for k in 0..list.len()
        invariant
            found@.len() == k,
            forall|i: int| 0 <= i < k ==> #[trigger] found@[i] == list@[i].1 - best_score,
    {
        found.push(list[k].1 as i64 - best_score as i64);
    }
    assert(found@ =~= gaps(list@, best_score));
    found
}

/// The number of the move at the place that a spin gives; without a place, of the first move.
pub open spec fn spun_move(top: Seq<(usize, i32)>, place: Option<usize>) -> usize {
    match place {
        Some(i) => top[i as int].0,
        None => top[0].0,
    }
}

/// Whether `index` can be chosen once no blunder was made: the best move if the temperature is
/// zero or nothing competes with it, else the one that the spin gives for the score gaps.
pub open spec fn chosen_by_spin<W: Fn(StdRng, Vec<i64>, Real) -> Option<usize>>(
    top: Seq<(usize, i32)>,
    best_score: i32,
    cfg: EngineConfig,
    rng: StdRng,
    spin: W,
    index: usize,
) -> bool {
    if cfg.temperature.at_most_zero() || top.len() == 1 {
        index == top[0].0
    } else {
        exists|found: Vec<i64>, place: Option<usize>| #[trigger]
            call_ensures(spin, (rng, found, cfg.temperature), place) && found@ == gaps(
                top,
                best_score,
            ) && index == spun_move(top, place)
    }
}

/// The option of a blunder that a generator draws.
pub open spec fn drawn_option(options: Seq<usize>, rng: StdRng) -> usize {
    options[drawn_below(rng, options.len() as usize, usize::BITS) as int]
}

/// Whether `index` can be chosen: if blunders are configured and one is drawn, the option that
/// the generator draws next, should there be any; else as [`chosen_by_spin`] says.
pub open spec fn chosen<
    B: Fn(StdRng, Real) -> (bool, StdRng),
    W: Fn(StdRng, Vec<i64>, Real) -> Option<usize>,
>(
    scored: Seq<(usize, i32)>,
    best_score: i32,
    cfg: EngineConfig,
    rng: StdRng,
    chance: B,
    spin: W,
    index: usize,
) -> bool {
    let top = contenders(scored, cfg);
    let options = blunder_options(top, best_score, cfg);
    if cfg.blunder_rate.positive() {
        exists|blunder: bool, next: StdRng| #[trigger]
            call_ensures(chance, (rng, cfg.blunder_rate), (blunder, next)) && (if blunder
                && options.len() > 0 {
                index == drawn_option(options, next) && options.contains(index)
            } else {
                chosen_by_spin(top, best_score, cfg, next, spin, index)
            })
    } else {
        chosen_by_spin(top, best_score, cfg, rng, spin, index)
    }
}

/// A draw with a probability: it can be made with any generator.
pub open spec fn is_chance<B: Fn(StdRng, Real) -> (bool, StdRng)>(
    chance: B,
    rate: Real,
) -> bool {
    forall|rng: StdRng| call_requires(chance, (rng, rate))
}

/// A draw of a place by score gaps: it can be made with any generator and any gaps, as long as
/// there are some, and a place that it gives is one of theirs.
pub open spec fn is_spin<W: Fn(StdRng, Vec<i64>, Real) -> Option<usize>>(
    spin: W,
    temperature: Real,
) -> bool {
    &&& forall|rng: StdRng, found: Vec<i64>|
        found@.len() > 0 ==> call_requires(spin, (rng, found, temperature))
    &&& forall|rng: StdRng, found: Vec<i64>, i: usize|
        call_ensures(spin, (rng, found, temperature), Some(i)) ==> i < found@.len()
}

/// The option of a blunder that a drawn number stands for.
pub fn blunder_choice(options: &Vec<usize>, number: usize) -> (index: usize)
    requires
        number < options@.len(),
    ensures
        index == options@[number as int],
        options@.contains(index),
{
    options[number]
}

/// Chooses among ranked moves. `chance` draws whether something of a given probability happens,
/// and `spin` draws a place by the score gaps and the temperature; both come from the caller, for
/// they compute with fractions.
pub fn select_move_index<
    B: Fn(StdRng, Real) -> (bool, StdRng),
    W: Fn(StdRng, Vec<i64>, Real) -> Option<usize>,
>(
    scored: &Vec<(usize, i32)>,
    best_score: i32,
    cfg: &EngineConfig,
    rng: StdRng,
    chance: &B,
    spin: &W,
) -> (index: usize)
    requires
        scored@.len() > 0,
        cfg.random_topk > 0,
        is_chance(*chance, cfg.blunder_rate),
        is_spin(*spin, cfg.temperature),
    ensures
        chosen(scored@, best_score, *cfg, rng, *chance, *spin, index),
{
    let top = contending(scored, cfg);
    let mut rng = rng;
    if cfg.blunder_rate.is_positive() {
        let (blunder, next) = chance(rng, cfg.blunder_rate);
        rng = next;
        if blunder {
            let options = forgivable_moves(&top, best_score, cfg);
            if options.len() > 0 {
                let number = number_below(&mut rng, options.len());
                return blunder_choice(&options, number);
            }
        }
    }
    if cfg.temperature.is_at_most_zero() || top.len() == 1 {
        return top[0].0;
    }
    let found = score_gaps(&top, best_score);
    match spin(rng, found, cfg.temperature) {
        Some(place) => top[place].0,
        None => top[0].0,
    }
}

proof fn lemma_option_is_forgivable(
    list: Seq<(usize, i32)>,
    best_score: i32,
    cfg: EngineConfig,
    index: usize,
) -> (i: int)
    requires
        blunder_options(list, best_score, cfg).contains(index),
    ensures
        0 <= i < list.len(),
        list[i].0 == index,
        forgivable(list[i].1, best_score, cfg),
    decreases list.len(),
{
    let options = blunder_options(list, best_score, cfg);
    let earlier = blunder_options(list.drop_last(), best_score, cfg);
    let k = choose|k: int| 0 <= k < options.len() && options[k] == index;
    if forgivable(list.last().1, best_score, cfg) && k == options.len() - 1 {
        list.len() - 1
    } else {
        assert(earlier[k] == index);
        lemma_option_is_forgivable(list.drop_last(), best_score, cfg, index)
    }
}

/// A blunder never chooses a move whose score lies further below the best than configured, nor
/// one outside the contenders.
pub proof fn law_blunders_are_bounded(
    list: Seq<(usize, i32)>,
    best_score: i32,
    cfg: EngineConfig,
    index: usize,
)
    requires
        blunder_options(list, best_score, cfg).contains(index),
    ensures
        exists|i: int|
            0 <= i < list.len() && (#[trigger] list[i]).0 == index && forgivable(
                list[i].1,
                best_score,
                cfg,
            ),
{
    let i = lemma_option_is_forgivable(list, best_score, cfg, index);
    assert(list[i].0 == index);
}

/// The choice is always one of the contenders.
pub proof fn law_choice_is_a_contender<
    B: Fn(StdRng, Real) -> (bool, StdRng),
    W: Fn(StdRng, Vec<i64>, Real) -> Option<usize>,
>(
    scored: Seq<(usize, i32)>,
    best_score: i32,
    cfg: EngineConfig,
    rng: StdRng,
    chance: B,
    spin: W,
    index: usize,
)
    requires
        scored.len() > 0,
        cfg.random_topk > 0,
        is_spin(spin, cfg.temperature),
        chosen(scored, best_score, cfg, rng, chance, spin, index),
    ensures
        exists|i: int|
            0 <= i < contenders(scored, cfg).len() && (#[trigger] contenders(scored, cfg)[i]).0
                == index,
{
    let top = contenders(scored, cfg);
    let options = blunder_options(top, best_score, cfg);
    assert(top[0] == scored[0]);
    if options.contains(index) {
        law_blunders_are_bounded(top, best_score, cfg, index);
    } else if cfg.blunder_rate.positive() {
        let (blunder, next): (bool, StdRng) = choose|blunder: bool, next: StdRng| #[trigger]
            call_ensures(chance, (rng, cfg.blunder_rate), (blunder, next)) && (if blunder
                && options.len() > 0 {
                options.contains(index)
            } else {
                chosen_by_spin(top, best_score, cfg, next, spin, index)
            });
        lemma_spun_contender(top, best_score, cfg, next, spin, index);
    } else {
        lemma_spun_contender(top, best_score, cfg, rng, spin, index);
    }
}

proof fn lemma_spun_contender<W: Fn(StdRng, Vec<i64>, Real) -> Option<usize>>(
    top: Seq<(usize, i32)>,
    best_score: i32,
    cfg: EngineConfig,
    rng: StdRng,
    spin: W,
    index: usize,
)
    requires
        top.len() > 0,
        is_spin(spin, cfg.temperature),
        chosen_by_spin(top, best_score, cfg, rng, spin, index),
    ensures
        exists|i: int| 0 <= i < top.len() && (#[trigger] top[i]).0 == index,
{
    assert(0 <= 0 < top.len());
    if !(cfg.temperature.at_most_zero() || top.len() == 1) {
        let (found, place): (Vec<i64>, Option<usize>) = choose|
            found: Vec<i64>,
            place: Option<usize>,
        | #[trigger]
            call_ensures(spin, (rng, found, cfg.temperature), place) && found@ == gaps(
                top,
                best_score,
            ) && index == spun_move(top, place);
        if let Some(i) = place {
            assert(call_ensures(spin, (rng, found, cfg.temperature), Some(i)));
            assert(top[i as int].0 == index);
        } else {
            assert(top[0].0 == index);
        }
    } else {
        assert(top[0].0 == index);
    }
}

/// With no blunders and no temperature the best move is chosen, whatever the generator.
pub proof fn law_without_randomness_the_best_is_chosen<
    B: Fn(StdRng, Real) -> (bool, StdRng),
    W: Fn(StdRng, Vec<i64>, Real) -> Option<usize>,
>(
    scored: Seq<(usize, i32)>,
    best_score: i32,
    cfg: EngineConfig,
    rng: StdRng,
    chance: B,
    spin: W,
    index: usize,
)
    requires
        scored.len() > 0,
        cfg.random_topk > 0,
        !cfg.blunder_rate.positive(),
        cfg.temperature.at_most_zero(),
        chosen(scored, best_score, cfg, rng, chance, spin, index),
    ensures
        index == scored[0].0,
{
}

/// With a single contender the best move is chosen, whatever is drawn.
pub proof fn law_single_contender_is_chosen<
    B: Fn(StdRng, Real) -> (bool, StdRng),
    W: Fn(StdRng, Vec<i64>, Real) -> Option<usize>,
>(
    scored: Seq<(usize, i32)>,
    best_score: i32,
    cfg: EngineConfig,
    rng: StdRng,
    chance: B,
    spin: W,
    index: usize,
)
    requires
        scored.len() > 0,
        cfg.random_topk == 1,
        is_spin(spin, cfg.temperature),
        chosen(scored, best_score, cfg, rng, chance, spin, index),
    ensures
        index == scored[0].0,
{
    law_choice_is_a_contender(scored, best_score, cfg, rng, chance, spin, index);
    let top = contenders(scored, cfg);
    assert(top[0] == scored[0] && top.len() == 1);
}

/// A draw with a probability that has one outcome at most for each generator.
pub open spec fn chance_is_settled<B: Fn(StdRng, Real) -> (bool, StdRng)>(chance: B) -> bool {
    forall|rng: StdRng, rate: Real, a: (bool, StdRng), b: (bool, StdRng)| #[trigger]
        call_ensures(chance, (rng, rate), a) && #[trigger] call_ensures(chance, (rng, rate), b)
            ==> a == b
}

/// A draw of a place that has one outcome at most for each generator and each list of gaps.
pub open spec fn spin_is_settled<W: Fn(StdRng, Vec<i64>, Real) -> Option<usize>>(spin: W) -> bool {
    forall|
        rng: StdRng,
        f: Vec<i64>,
        g: Vec<i64>,
        temperature: Real,
        a: Option<usize>,
        b: Option<usize>,
    |
        f@ == g@ && #[trigger] call_ensures(spin, (rng, f, temperature), a)
            && #[trigger] call_ensures(spin, (rng, g, temperature), b) ==> a == b
}

proof fn lemma_spin_settles<W: Fn(StdRng, Vec<i64>, Real) -> Option<usize>>(
    top: Seq<(usize, i32)>,
    best_score: i32,
    cfg: EngineConfig,
    rng: StdRng,
    spin: W,
    i: usize,
    j: usize,
)
    requires
        spin_is_settled(spin),
        chosen_by_spin(top, best_score, cfg, rng, spin, i),
        chosen_by_spin(top, best_score, cfg, rng, spin, j),
    ensures
        i == j,
{
    if !(cfg.temperature.at_most_zero() || top.len() == 1) {
        let (f, a): (Vec<i64>, Option<usize>) = choose|f: Vec<i64>, a: Option<usize>| #[trigger]
            call_ensures(spin, (rng, f, cfg.temperature), a) && f@ == gaps(top, best_score) && i
                == spun_move(top, a);
        let (g, b): (Vec<i64>, Option<usize>) = choose|g: Vec<i64>, b: Option<usize>| #[trigger]
            call_ensures(spin, (rng, g, cfg.temperature), b) && g@ == gaps(top, best_score) && j
                == spun_move(top, b);
        assert(a == b);
    }
}

/// The moves, the configuration and the generator decide the choice, as far as the draws have one
/// outcome each.
pub proof fn law_generator_decides_the_choice<
    B: Fn(StdRng, Real) -> (bool, StdRng),
    W: Fn(StdRng, Vec<i64>, Real) -> Option<usize>,
>(
    scored: Seq<(usize, i32)>,
    best_score: i32,
    cfg: EngineConfig,
    rng: StdRng,
    chance: B,
    spin: W,
    i: usize,
    j: usize,
)
    requires
        chance_is_settled(chance),
        spin_is_settled(spin),
        chosen(scored, best_score, cfg, rng, chance, spin, i),
        chosen(scored, best_score, cfg, rng, chance, spin, j),
    ensures
        i == j,
{
    let top = contenders(scored, cfg);
    let options = blunder_options(top, best_score, cfg);
    if cfg.blunder_rate.positive() {
        let (a, next): (bool, StdRng) = choose|a: bool, next: StdRng| #[trigger]
            call_ensures(chance, (rng, cfg.blunder_rate), (a, next)) && (if a && options.len()
                > 0 {
                i == drawn_option(options, next) && options.contains(i)
            } else {
                chosen_by_spin(top, best_score, cfg, next, spin, i)
            });
        let (b, other): (bool, StdRng) = choose|b: bool, other: StdRng| #[trigger]
            call_ensures(chance, (rng, cfg.blunder_rate), (b, other)) && (if b && options.len()
                > 0 {
                j == drawn_option(options, other) && options.contains(j)
            } else {
                chosen_by_spin(top, best_score, cfg, other, spin, j)
            });
        assert((a, next) == (b, other));
        if !(a && options.len() > 0) {
            lemma_spin_settles(top, best_score, cfg, next, spin, i, j);
        }
    } else {
        lemma_spin_settles(top, best_score, cfg, rng, spin, i, j);
    }
}

} // verus!
