//! How the final move is chosen among ranked ones.

use crate::config::{EngineConfig, Real};
use crate::select;
use rand::rngs::StdRng;
use vstd::prelude::*;

verus! {

/// The entries that compete: the first `random_topk`, or all if there are fewer.
pub open spec fn competing(scored: Seq<(usize, i32)>, cfg: EngineConfig) -> Seq<(usize, i32)> {
    if scored.len() <= cfg.random_topk {
        scored
    } else {
        scored.subrange(0, cfg.random_topk as int)
    }
}

/// Those of the competing entries that lie at most `blunder_max_loss_cp` below the best score, in
/// order.
pub open spec fn tolerable(
    scored: Seq<(usize, i32)>,
    best_score: i32,
    cfg: EngineConfig,
) -> Seq<(usize, i32)> {
    competing(scored, cfg).filter(
        |entry: (usize, i32)| best_score - entry.1 <= cfg.blunder_max_loss_cp,
    )
}

/// Whether the encoded number is above zero.
pub open spec fn above_zero(x: Real) -> bool {
    1 <= x.bits <= 0x7ff0_0000_0000_0000
}

/// Whether the encoded number is zero or below.
pub open spec fn zero_or_below(x: Real) -> bool {
    x.bits == 0 || 0x8000_0000_0000_0000 <= x.bits <= 0xfff0_0000_0000_0000
}

/// The choice where no blunder is made: the first entry if the temperature is zero or nothing
/// competes with it, else the one at the place that `spin` draws for the differences to the best
/// score, or the first if it draws none.
pub open spec fn is_sober_choice<W: Fn(StdRng, Vec<i64>, Real) -> Option<usize>>(
    scored: Seq<(usize, i32)>,
    best_score: i32,
    cfg: EngineConfig,
    rng: StdRng,
    spin: W,
    index: usize,
) -> bool {
    let top = competing(scored, cfg);
    if zero_or_below(cfg.temperature) || top.len() == 1 {
        index == scored[0].0
    } else {
        exists|found: Vec<i64>, place: Option<usize>|
            {
                &&& #[trigger] call_ensures(spin, (rng, found, cfg.temperature), place)
                &&& found@.len() == top.len()
                &&& forall|i: int|
                    0 <= i < top.len() ==> #[trigger] found@[i] == top[i].1 - best_score
                &&& index == (match place {
                    Some(p) => top[p as int].0,
                    None => scored[0].0,
                })
            }
    }
}

/// The numbers of entries.
pub open spec fn numbers_of(entries: Seq<(usize, i32)>) -> Seq<usize> {
    Seq::new(entries.len(), |i: int| entries[i].0)
}

/// The choice of a blunder: of the tolerable entries the one whose place the generator draws.
pub open spec fn is_blunder(
    scored: Seq<(usize, i32)>,
    best_score: i32,
    cfg: EngineConfig,
    rng: StdRng,
    index: usize,
) -> bool {
    let options = numbers_of(tolerable(scored, best_score, cfg));
    let place = select::drawn_below(rng, options.len() as usize, usize::BITS);
    index == options[place as int] && options.contains(index)
}

proof fn lemma_options_are_tolerable(list: Seq<(usize, i32)>, best_score: i32, cfg: EngineConfig)
    requires
        cfg.blunder_max_loss_cp <= i32::MAX,
    ensures
        ({
            let kept = list.filter(
                |entry: (usize, i32)| best_score - entry.1 <= cfg.blunder_max_loss_cp,
            );
            select::blunder_options(list, best_score, cfg) == numbers_of(kept)
        }),
    decreases list.len(),
{
    reveal(Seq::filter);
    let kept = list.filter(|entry: (usize, i32)| best_score - entry.1 <= cfg.blunder_max_loss_cp);
    if list.len() > 0 {
        lemma_options_are_tolerable(list.drop_last(), best_score, cfg);
    }
    assert(select::blunder_options(list, best_score, cfg) =~= numbers_of(kept));
}

proof fn lemma_sober<W: Fn(StdRng, Vec<i64>, Real) -> Option<usize>>(
    scored: Seq<(usize, i32)>,
    best_score: i32,
    cfg: EngineConfig,
    rng: StdRng,
    spin: W,
    index: usize,
)
    requires
        scored.len() > 0,
        cfg.random_topk > 0,
        select::chosen_by_spin(
            select::contenders(scored, cfg),
            best_score,
            cfg,
            rng,
            spin,
            index,
        ),
    ensures
        is_sober_choice(scored, best_score, cfg, rng, spin, index),
{
    let top = select::contenders(scored, cfg);
    assert(top =~= competing(scored, cfg));
    if !(zero_or_below(cfg.temperature) || top.len() == 1) {
        let (found, place): (Vec<i64>, Option<usize>) = choose|
            found: Vec<i64>,
            place: Option<usize>,
        | #[trigger]
            call_ensures(spin, (rng, found, cfg.temperature), place) && found@ == select::gaps(
                top,
                best_score,
            ) && index == select::spun_move(top, place);
        assert forall|i: int| 0 <= i < top.len() implies #[trigger] found@[i] == top[i].1
            - best_score by {
            assert(select::gaps(top, best_score)[i] == top[i].1 - best_score);
        }
        assert(call_ensures(spin, (rng, found, cfg.temperature), place));
    }
}

/// Whether a choice is made so: where blunders are configured, `chance` draws whether one is made;
/// if it is and there is a tolerable entry, one of those is drawn, with the generator that `chance`
/// leaves. All else is chosen without a blunder, with the generator that is left.
pub open spec fn is_choice<
    B: Fn(StdRng, Real) -> (bool, StdRng),
    W: Fn(StdRng, Vec<i64>, Real) -> Option<usize>,
>(
    scored: Seq<(usize, i32)>,
    best_score: i32,
    cfg: EngineConfig,
    rng: StdRng,
    chance: B,
    spin: W,
    index: usize,
) -> bool {
    if above_zero(cfg.blunder_rate) {
        exists|blunder: bool, next: StdRng|
            {
                &&& #[trigger] call_ensures(chance, (rng, cfg.blunder_rate), (blunder, next))
                &&& if blunder && tolerable(scored, best_score, cfg).len() > 0 {
                    is_blunder(scored, best_score, cfg, next, index)
                } else {
                    is_sober_choice(scored, best_score, cfg, next, spin, index)
                }
            }
    } else {
        is_sober_choice(scored, best_score, cfg, rng, spin, index)
    }
}

proof fn lemma_blunder(
    scored: Seq<(usize, i32)>,
    best_score: i32,
    cfg: EngineConfig,
    rng: StdRng,
    index: usize,
)
    requires
        cfg.blunder_max_loss_cp <= i32::MAX,
        ({
            let options = select::blunder_options(
                select::contenders(scored, cfg),
                best_score,
                cfg,
            );
            &&& index == select::drawn_option(options, rng)
            &&& options.contains(index)
        }),
    ensures
        is_blunder(scored, best_score, cfg, rng, index),
{
    let top = select::contenders(scored, cfg);
    assert(top =~= competing(scored, cfg));
    lemma_options_are_tolerable(top, best_score, cfg);
}

/// A chosen move is chosen so.
pub proof fn law_how_a_move_is_chosen<
    B: Fn(StdRng, Real) -> (bool, StdRng),
    W: Fn(StdRng, Vec<i64>, Real) -> Option<usize>,
>(
    scored: Seq<(usize, i32)>,
    best_score: i32,
    cfg: EngineConfig,
    rng: StdRng,
    chance: B,
    spin: W,
    index: usize,
)
    requires
        scored.len() > 0,
        cfg.random_topk > 0,
        cfg.blunder_max_loss_cp <= 3000,
        select::chosen(scored, best_score, cfg, rng, chance, spin, index),
    ensures
        is_choice(scored, best_score, cfg, rng, chance, spin, index),
{
    let top = select::contenders(scored, cfg);
    let options = select::blunder_options(top, best_score, cfg);
    assert(top =~= competing(scored, cfg));
    lemma_options_are_tolerable(top, best_score, cfg);
    if above_zero(cfg.blunder_rate) {
        let (blunder, next): (bool, StdRng) = choose|blunder: bool, next: StdRng| #[trigger]
            call_ensures(chance, (rng, cfg.blunder_rate), (blunder, next)) && (if blunder
                && options.len() > 0 {
                index == select::drawn_option(options, next) && options.contains(index)
            } else {
                select::chosen_by_spin(top, best_score, cfg, next, spin, index)
            });
        if blunder && options.len() > 0 {
            lemma_blunder(scored, best_score, cfg, next, index);
        } else {
            lemma_sober(scored, best_score, cfg, next, spin, index);
        }
        assert(call_ensures(chance, (rng, cfg.blunder_rate), (blunder, next)));
    } else {
        lemma_sober(scored, best_score, cfg, rng, spin, index);
    }
}

/// Where the draw says that no blunder is made, the move is chosen as it would be with no blunders
/// configured, by the generator that the draw leaves.
pub proof fn law_without_a_drawn_blunder_there_is_none<
    B: Fn(StdRng, Real) -> (bool, StdRng),
    W: Fn(StdRng, Vec<i64>, Real) -> Option<usize>,
>(
    scored: Seq<(usize, i32)>,
    best_score: i32,
    cfg: EngineConfig,
    rng: StdRng,
    chance: B,
    spin: W,
    index: usize,
)
    requires
        scored.len() > 0,
        cfg.random_topk > 0,
        above_zero(cfg.blunder_rate),
        forall|blunder: bool, next: StdRng|
            call_ensures(chance, (rng, cfg.blunder_rate), (blunder, next)) ==> !blunder,
        select::chosen(scored, best_score, cfg, rng, chance, spin, index),
    ensures
        exists|next: StdRng|
            {
                &&& #[trigger] call_ensures(chance, (rng, cfg.blunder_rate), (false, next))
                &&& select::chosen(
                    scored,
                    best_score,
                    EngineConfig { blunder_rate: Real { bits: 0 }, ..cfg },
                    next,
                    chance,
                    spin,
                    index,
                )
            },
{
    let sober = EngineConfig { blunder_rate: Real { bits: 0 }, ..cfg };
    let top = select::contenders(scored, cfg);
    let options = select::blunder_options(top, best_score, cfg);
    let (blunder, next): (bool, StdRng) = choose|blunder: bool, next: StdRng| #[trigger]
        call_ensures(chance, (rng, cfg.blunder_rate), (blunder, next)) && (if blunder
            && options.len() > 0 {
            index == select::drawn_option(options, next) && options.contains(index)
        } else {
            select::chosen_by_spin(top, best_score, cfg, next, spin, index)
        });
    assert(!blunder);
    assert(select::contenders(scored, sober) == top);
    assert(select::chosen(scored, best_score, sober, next, chance, spin, index));
    assert(call_ensures(chance, (rng, cfg.blunder_rate), (false, next)));
}

/// At temperature zero the choice is the best-ranked move, unless a blunder is drawn; and then it
/// is one of the competing moves and lies no further below the best than a blunder may cost.
pub proof fn law_at_temperature_zero_only_blunders_miss_the_best<
    B: Fn(StdRng, Real) -> (bool, StdRng),
    W: Fn(StdRng, Vec<i64>, Real) -> Option<usize>,
>(
    scored: Seq<(usize, i32)>,
    cfg: EngineConfig,
    rng: StdRng,
    chance: B,
    spin: W,
    index: usize,
)
    requires
        scored.len() > 0,
        cfg.random_topk > 0,
        cfg.blunder_max_loss_cp <= 3000,
        zero_or_below(cfg.temperature),
        select::chosen(scored, scored[0].1, cfg, rng, chance, spin, index),
    ensures
        exists|i: int|
            {
                &&& 0 <= i < scored.len()
                &&& i < cfg.random_topk
                &&& (#[trigger] scored[i]).0 == index
                &&& scored[0].1 - scored[i].1 <= cfg.blunder_max_loss_cp
            },
        index == scored[0].0 || exists|next: StdRng|
            call_ensures(chance, (rng, cfg.blunder_rate), (true, next)),
        !above_zero(cfg.blunder_rate) ==> index == scored[0].0,
{
    law_how_a_move_is_chosen(scored, scored[0].1, cfg, rng, chance, spin, index);
    let top = competing(scored, cfg);
    let keep = |entry: (usize, i32)| scored[0].1 - entry.1 <= cfg.blunder_max_loss_cp;
    let kept = tolerable(scored, scored[0].1, cfg);
    if index != scored[0].0 {
        let (blunder, next): (bool, StdRng) = choose|blunder: bool, next: StdRng|
            {
                &&& #[trigger] call_ensures(chance, (rng, cfg.blunder_rate), (blunder, next))
                &&& if blunder && kept.len() > 0 {
                    is_blunder(scored, scored[0].1, cfg, next, index)
                } else {
                    is_sober_choice(scored, scored[0].1, cfg, next, spin, index)
                }
            };
        assert(blunder);
        let numbers = numbers_of(kept);
        let k = choose|k: int| 0 <= k < numbers.len() && numbers[k] == index;
        top.lemma_filter_pred(keep, k);
        lemma_kept_is_in(top, keep, kept[k]);
        let i = choose|i: int| 0 <= i < top.len() && top[i] == kept[k];
        assert(scored[i] == top[i]);
    } else {
        assert(scored[0].0 == index);
    }
}

proof fn lemma_kept_is_in(
    list: Seq<(usize, i32)>,
    keep: spec_fn((usize, i32)) -> bool,
    entry: (usize, i32),
)
    requires
        list.filter(keep).contains(entry),
    ensures
        list.contains(entry),
    decreases list.len(),
{
    reveal(Seq::filter);
    if list.len() > 0 {
        let rest = list.drop_last();
        let kept = list.filter(keep);
        let k = choose|k: int| 0 <= k < kept.len() && kept[k] == entry;
        if keep(list.last()) && k == kept.len() - 1 {
            assert(list[list.len() - 1] == entry);
        } else {
            assert(rest.filter(keep)[k] == entry);
            lemma_kept_is_in(rest, keep, entry);
            let i = choose|i: int| 0 <= i < rest.len() && rest[i] == entry;
            assert(list[i] == entry);
        }
    }
}

/// A ranking holds the same entries, each as often, the higher score first and of equal scores the
/// lower number.
pub proof fn law_how_moves_are_ranked(
    ranked: Seq<(usize, i32)>,
    scored: Seq<(usize, i32)>,
    i: int,
    j: int,
)
    requires
        select::ranking(ranked, scored),
        0 <= i < j < ranked.len(),
    ensures
        ranked[i].1 >= ranked[j].1,
        ranked[i].1 == ranked[j].1 ==> ranked[i].0 < ranked[j].0,
        ranked.len() == scored.len(),
        forall|entry: (usize, i32)| #[trigger] ranked.contains(entry) <==> scored.contains(entry),
{
    ranked.to_multiset_ensures();
    scored.to_multiset_ensures();
    assert(select::before(ranked[i], ranked[j]));
    assert forall|entry: (usize, i32)| #[trigger] ranked.contains(entry) <==> scored.contains(
        entry,
    ) by {
        assert(ranked.to_multiset().count(entry) == scored.to_multiset().count(entry));
    }
}

} // verus!
