//! Which settings are accepted, what they become, and how a refusal is worded.

use crate::config;
use crate::config::{EngineConfigPatch, Real, RealSetting};
use crate::text;
use vstd::prelude::*;

verus! {

/// Whether a whole number is left out or lies from `min` up to `max`.
pub open spec fn unsigned_fits(value: Option<u32>, min: int, max: int) -> bool {
    value matches Some(v) ==> min <= v <= max
}

/// Whether a number is left out or is encoded by a magnitude of at most `above` with a plus sign or
/// of at most `below` with a minus sign. Of two numbers with the same sign the one with the larger
/// magnitude is encoded by the larger one, and a magnitude of zero stands for zero.
pub open spec fn real_fits(value: Option<RealSetting>, below: u64, above: u64) -> bool {
    value matches Some(v) ==> {
        ||| v.value.bits <= above
        ||| 0x8000_0000_0000_0000 <= v.value.bits <= 0x8000_0000_0000_0000 + below
    }
}

/// Whether the settings before number `n`, in the order in which they are looked at, are in range.
pub open spec fn first_fit(patch: EngineConfigPatch, n: int) -> bool {
    &&& n > 0 ==> unsigned_fits(patch.max_depth, 1, 12)
    &&& n > 1 ==> unsigned_fits(patch.max_nodes, 100, 5_000_000)
    &&& n > 2 ==> unsigned_fits(patch.time_limit_ms, 10, 60_000)
    &&& n > 3 ==> real_fits(patch.eval_material_weight, 0, 0x4024_0000_0000_0000)
    &&& n > 4 ==> real_fits(patch.eval_position_weight, 0, 0x4024_0000_0000_0000)
    &&& n > 5 ==> real_fits(patch.eval_king_safety_weight, 0, 0x4024_0000_0000_0000)
    &&& n > 6 ==> real_fits(patch.eval_mobility_weight, 0, 0x4024_0000_0000_0000)
    &&& n > 7 ==> real_fits(patch.blunder_rate, 0, 0x3ff0_0000_0000_0000)
    &&& n > 8 ==> unsigned_fits(patch.blunder_max_loss_cp, 0, 3000)
    &&& n > 9 ==> unsigned_fits(patch.random_topk, 1, 20)
    &&& n > 10 ==> real_fits(patch.temperature, 0, 0x4000_0000_0000_0000)
    &&& n > 11 ==> real_fits(
        patch.max_repeat_draw_bias,
        0x3ff0_0000_0000_0000,
        0x3ff0_0000_0000_0000,
    )
    &&& n > 12 ==> patch.always_legal_move != Some(false)
    &&& n > 13 ==> patch.mate_avoidance != Some(false)
}

/// A request is accepted exactly if all its settings are in range and it turns no safeguard off.
pub proof fn law_which_settings_are_accepted(patch: EngineConfigPatch)
    ensures
        config::config_problem(patch) is None <==> {
            &&& unsigned_fits(patch.max_depth, 1, 12)
            &&& unsigned_fits(patch.max_nodes, 100, 5_000_000)
            &&& unsigned_fits(patch.time_limit_ms, 10, 60_000)
            &&& real_fits(patch.eval_material_weight, 0, 0x4024_0000_0000_0000)
            &&& real_fits(patch.eval_position_weight, 0, 0x4024_0000_0000_0000)
            &&& real_fits(patch.eval_king_safety_weight, 0, 0x4024_0000_0000_0000)
            &&& real_fits(patch.eval_mobility_weight, 0, 0x4024_0000_0000_0000)
            &&& real_fits(patch.blunder_rate, 0, 0x3ff0_0000_0000_0000)
            &&& unsigned_fits(patch.blunder_max_loss_cp, 0, 3000)
            &&& unsigned_fits(patch.random_topk, 1, 20)
            &&& real_fits(patch.temperature, 0, 0x4000_0000_0000_0000)
            &&& real_fits(patch.max_repeat_draw_bias, 0x3ff0_0000_0000_0000, 0x3ff0_0000_0000_0000)
            &&& patch.always_legal_move != Some(false)
            &&& patch.mate_avoidance != Some(false)
        },
{
}

/// The value that a setting has: the one that a request gives it, or else the default.
pub open spec fn given_or<T>(value: Option<T>, default: T) -> T {
    if value is Some {
        value.unwrap()
    } else {
        default
    }
}

/// The encoding that a setting has: the one that a request gives it, or else the default.
pub open spec fn bits_or(value: Option<RealSetting>, default: u64) -> u64 {
    if value is Some {
        value.unwrap().value.bits
    } else {
        default
    }
}

/// Each setting has the value that the request gives it, or else its default. The safeguards are
/// on.
pub proof fn law_what_settings_become(patch: EngineConfigPatch)
    ensures
        ({
            let cfg = config::applied(patch);
            &&& cfg.max_depth == given_or(patch.max_depth, 3)
            &&& cfg.max_nodes == given_or(patch.max_nodes, 20_000)
            &&& cfg.time_limit_ms == given_or(patch.time_limit_ms, 300)
            &&& cfg.eval_material_weight.bits == bits_or(
                patch.eval_material_weight,
                0x3ff0_0000_0000_0000,
            )
            &&& cfg.eval_position_weight.bits == bits_or(
                patch.eval_position_weight,
                0x3fd6_6666_6666_6666,
            )
            &&& cfg.eval_king_safety_weight.bits == bits_or(
                patch.eval_king_safety_weight,
                0x3fd0_0000_0000_0000,
            )
            &&& cfg.eval_mobility_weight.bits == bits_or(
                patch.eval_mobility_weight,
                0x3fc9_9999_9999_999a,
            )
            &&& cfg.blunder_rate.bits == bits_or(patch.blunder_rate, 0)
            &&& cfg.blunder_max_loss_cp == given_or(patch.blunder_max_loss_cp, 0)
            &&& cfg.random_topk == given_or(patch.random_topk, 1)
            &&& cfg.temperature.bits == bits_or(patch.temperature, 0)
            &&& cfg.max_repeat_draw_bias.bits == bits_or(patch.max_repeat_draw_bias, 0)
            &&& cfg.quiescence_enabled == given_or(patch.quiescence_enabled, true)
            &&& cfg.always_legal_move
            &&& cfg.mate_avoidance
            &&& cfg.random_seed == patch.random_seed
        }),
{
}

/// A sentence about a setting that is out of range.
pub open spec fn out_of_range(name: Seq<char>, range: Seq<char>, got: Seq<char>) -> Seq<char> {
    name + " must be in "@ + range + " (got "@ + got + ")"@
}

/// A range from one shown number up to another.
pub open spec fn shown_range(min: Seq<char>, max: Seq<char>) -> Seq<char> {
    min + "..="@ + max
}

proof fn lemma_range_message(name: Seq<char>, min: Seq<char>, max: Seq<char>, got: Seq<char>)
    ensures
        config::range_message(name, min, max, got) == out_of_range(
            name,
            shown_range(min, max),
            got,
        ),
{
    assert(config::range_message(name, min, max, got) =~= out_of_range(
        name,
        shown_range(min, max),
        got,
    ));
}

/// What is said of a whole number that is out of range.
pub open spec fn unsigned_message(
    name: Seq<char>,
    value: Option<u32>,
    min: nat,
    max: nat,
) -> Option<Seq<char>> {
    Some(
        out_of_range(
            name,
            shown_range(text::decimal(min), text::decimal(max)),
            text::decimal(value.unwrap() as nat),
        ),
    )
}

/// What is said of a number that is out of range.
pub open spec fn real_message(
    name: Seq<char>,
    value: Option<RealSetting>,
    min: Seq<char>,
    max: Seq<char>,
) -> Option<Seq<char>> {
    Some(out_of_range(name, shown_range(min, max), value.unwrap().shown@))
}

/// A refusal names the first setting that is out of range, with its range and the value given, or
/// else the first safeguard that is turned off.
pub proof fn law_how_a_refusal_is_worded(patch: EngineConfigPatch)
    ensures
        ({
            let problem = config::config_problem(patch);
            &&& first_fit(patch, 0) && !unsigned_fits(patch.max_depth, 1, 12)
                ==> problem == unsigned_message(
                "max_depth"@,
                patch.max_depth,
                1,
                12,
            )
            &&& first_fit(patch, 1) && !unsigned_fits(patch.max_nodes, 100, 5_000_000)
                ==> problem == unsigned_message(
                "max_nodes"@,
                patch.max_nodes,
                100,
                5_000_000,
            )
            &&& first_fit(patch, 2) && !unsigned_fits(patch.time_limit_ms, 10, 60_000)
                ==> problem == unsigned_message(
                "time_limit_ms"@,
                patch.time_limit_ms,
                10,
                60_000,
            )
            &&& first_fit(patch, 3) && !real_fits(
                patch.eval_material_weight,
                0,
                0x4024_0000_0000_0000,
            )
                ==> problem == real_message(
                "eval_material_weight"@,
                patch.eval_material_weight,
                "0"@,
                "10"@,
            )
            &&& first_fit(patch, 4) && !real_fits(
                patch.eval_position_weight,
                0,
                0x4024_0000_0000_0000,
            )
                ==> problem == real_message(
                "eval_position_weight"@,
                patch.eval_position_weight,
                "0"@,
                "10"@,
            )
            &&& first_fit(patch, 5) && !real_fits(
                patch.eval_king_safety_weight,
                0,
                0x4024_0000_0000_0000,
            )
                ==> problem == real_message(
                "eval_king_safety_weight"@,
                patch.eval_king_safety_weight,
                "0"@,
                "10"@,
            )
            &&& first_fit(patch, 6) && !real_fits(
                patch.eval_mobility_weight,
                0,
                0x4024_0000_0000_0000,
            )
                ==> problem == real_message(
                "eval_mobility_weight"@,
                patch.eval_mobility_weight,
                "0"@,
                "10"@,
            )
            &&& first_fit(patch, 7) && !real_fits(patch.blunder_rate, 0, 0x3ff0_0000_0000_0000)
                ==> problem == real_message(
                "blunder_rate"@,
                patch.blunder_rate,
                "0"@,
                "1"@,
            )
            &&& first_fit(patch, 8) && !unsigned_fits(patch.blunder_max_loss_cp, 0, 3000)
                ==> problem == unsigned_message(
                "blunder_max_loss_cp"@,
                patch.blunder_max_loss_cp,
                0,
                3000,
            )
            &&& first_fit(patch, 9) && !unsigned_fits(patch.random_topk, 1, 20)
                ==> problem == unsigned_message(
                "random_topk"@,
                patch.random_topk,
                1,
                20,
            )
            &&& first_fit(patch, 10) && !real_fits(patch.temperature, 0, 0x4000_0000_0000_0000)
                ==> problem == real_message(
                "temperature"@,
                patch.temperature,
                "0"@,
                "2"@,
            )
            &&& first_fit(patch, 11) && !real_fits(
                patch.max_repeat_draw_bias,
                0x3ff0_0000_0000_0000,
                0x3ff0_0000_0000_0000,
            )
                ==> problem == real_message(
                "max_repeat_draw_bias"@,
                patch.max_repeat_draw_bias,
                "-1"@,
                "1"@,
            )
            &&& first_fit(patch, 12) && patch.always_legal_move == Some(false) ==> problem == Some(
                "always_legal_move must be true"@,
            )
            &&& first_fit(patch, 13) && patch.mate_avoidance == Some(false) ==> problem == Some(
                "mate_avoidance must be true"@,
            )
        }),
{
    if let Some(v) = patch.max_depth {
        lemma_range_message(
            "max_depth"@,
            text::decimal(1),
            text::decimal(12),
            text::decimal(v as nat),
        );
    }
    if let Some(v) = patch.max_nodes {
        lemma_range_message(
            "max_nodes"@,
            text::decimal(100),
            text::decimal(5_000_000),
            text::decimal(v as nat),
        );
    }
    if let Some(v) = patch.time_limit_ms {
        lemma_range_message(
            "time_limit_ms"@,
            text::decimal(10),
            text::decimal(60_000),
            text::decimal(v as nat),
        );
    }
    if let Some(v) = patch.eval_material_weight {
        lemma_range_message("eval_material_weight"@, "0"@, "10"@, v.shown@);
    }
    if let Some(v) = patch.eval_position_weight {
        lemma_range_message("eval_position_weight"@, "0"@, "10"@, v.shown@);
    }
    if let Some(v) = patch.eval_king_safety_weight {
        lemma_range_message("eval_king_safety_weight"@, "0"@, "10"@, v.shown@);
    }
    if let Some(v) = patch.eval_mobility_weight {
        lemma_range_message("eval_mobility_weight"@, "0"@, "10"@, v.shown@);
    }
    if let Some(v) = patch.blunder_rate {
        lemma_range_message("blunder_rate"@, "0"@, "1"@, v.shown@);
    }
    if let Some(v) = patch.blunder_max_loss_cp {
        lemma_range_message(
            "blunder_max_loss_cp"@,
            text::decimal(0),
            text::decimal(3000),
            text::decimal(v as nat),
        );
    }
    if let Some(v) = patch.random_topk {
        lemma_range_message(
            "random_topk"@,
            text::decimal(1),
            text::decimal(20),
            text::decimal(v as nat),
        );
    }
    if let Some(v) = patch.temperature {
        lemma_range_message("temperature"@, "0"@, "2"@, v.shown@);
    }
    if let Some(v) = patch.max_repeat_draw_bias {
        lemma_range_message("max_repeat_draw_bias"@, "-1"@, "1"@, v.shown@);
    }
}

/// The decimal notation of a number: a digit for each power of ten, without leading zeros.
pub proof fn law_decimal_notation(n: nat)
    ensures
        text::decimal(n).len() >= 1,
        n < 10 ==> text::decimal(n).len() == 1 && text::decimal(n)[0] as int == 48 + n,
        n >= 10 ==> text::decimal(n).drop_last() == text::decimal(n / 10)
            && text::decimal(n).last() as int == 48 + n % 10,
{
    reveal_strlit("0");
    reveal_strlit("1");
    reveal_strlit("2");
    reveal_strlit("3");
    reveal_strlit("4");
    reveal_strlit("5");
    reveal_strlit("6");
    reveal_strlit("7");
    reveal_strlit("8");
    reveal_strlit("9");
    if n >= 10 {
        assert(text::decimal(n).drop_last() =~= text::decimal(n / 10));
    }
}

/// The signs of encoded numbers: which are above zero and which are not, infinities included.
pub proof fn law_signs(x: Real)
    ensures
        x.positive() <==> 0 < x.bits <= 0x7ff0_0000_0000_0000,
        x.at_most_zero() <==> x.bits == 0 || 0x8000_0000_0000_0000 <= x.bits
            <= 0xfff0_0000_0000_0000,
{
}

} // verus!
