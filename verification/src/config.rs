//! The engine's configuration: defaults, the values a request may set, and their limits.

use crate::text;
use vstd::prelude::*;
use vstd::string::StringExecFns;

verus! {

/// A double-precision number, held as the bits of its IEEE 754 encoding.
#[derive(Debug, Clone, Copy, PartialEq, Eq, Structural)]
pub struct Real {
    pub bits: u64,
}

impl Real {
    /// The encoding without its sign.
    pub open spec fn magnitude(self) -> int {
        if self.bits < 0x8000_0000_0000_0000 {
            self.bits as int
        } else {
            self.bits - 0x8000_0000_0000_0000
        }
    }

    /// Neither infinite nor "not a number".
    pub open spec fn finite(self) -> bool {
        self.magnitude() < 0x7ff0_0000_0000_0000
    }

    /// An integer by which finite numbers are ordered: both zeros have rank 0.
    pub open spec fn rank(self) -> int {
        if self.bits < 0x8000_0000_0000_0000 {
            self.magnitude()
        } else {
            -self.magnitude()
        }
    }

    /// A finite number from `min` up to `max`.
    pub open spec fn within(self, min: Real, max: Real) -> bool {
        self.finite() && min.rank() <= self.rank() <= max.rank()
    }

    /// Greater than zero, infinity included.
    pub open spec fn positive(self) -> bool {
        0 < self.rank() <= 0x7ff0_0000_0000_0000
    }

    /// Not greater than zero, negative infinity included.
    pub open spec fn at_most_zero(self) -> bool {
        -0x7ff0_0000_0000_0000 <= self.rank() <= 0
    }

    fn order(self) -> (rank: i64)
        ensures
            rank == self.rank(),
    {
        if self.bits < 0x8000_0000_0000_0000 {
            self.bits as i64
        } else {
            -((self.bits - 0x8000_0000_0000_0000) as i64)
        }
    }

    fn is_within(self, min: Real, max: Real) -> (result: bool)
        ensures
            result == self.within(min, max),
    {
        let rank: i64 = self.order();
        -0x7ff0_0000_0000_0000 < rank && rank < 0x7ff0_0000_0000_0000 && min.order() <= rank
            && rank <= max.order()
    }

    pub fn is_positive(self) -> (result: bool)
        ensures
            result == self.positive(),
    {
        let rank: i64 = self.order();
        0 < rank && rank <= 0x7ff0_0000_0000_0000
    }

    pub fn is_at_most_zero(self) -> (result: bool)
        ensures
            result == self.at_most_zero(),
    {
        let rank: i64 = self.order();
        -0x7ff0_0000_0000_0000 <= rank && rank <= 0
    }
}

/// The bits of -1.
pub const MINUS_ONE: u64 = 0xbff0_0000_0000_0000;

/// The bits of 0.
pub const ZERO: u64 = 0;

/// The bits of 0.2.
pub const ONE_FIFTH: u64 = 0x3fc9_9999_9999_999a;

/// The bits of 0.25.
pub const ONE_QUARTER: u64 = 0x3fd0_0000_0000_0000;

/// The bits of 0.35.
pub const SEVEN_TWENTIETHS: u64 = 0x3fd6_6666_6666_6666;

/// The bits of 1.
pub const ONE: u64 = 0x3ff0_0000_0000_0000;

/// The bits of 2.
pub const TWO: u64 = 0x4000_0000_0000_0000;

/// The bits of 10.
pub const TEN: u64 = 0x4024_0000_0000_0000;

/// A number that a request sets, with the decimal form in which messages show it.
#[derive(Debug)]
pub struct RealSetting {
    pub value: Real,
    pub shown: String,
}

/// The values that a request sets. What it leaves out keeps its default.
#[derive(Debug)]
pub struct EngineConfigPatch {
    pub max_depth: Option<u32>,
    pub max_nodes: Option<u32>,
    pub time_limit_ms: Option<u32>,
    pub quiescence_enabled: Option<bool>,
    pub eval_material_weight: Option<RealSetting>,
    pub eval_position_weight: Option<RealSetting>,
    pub eval_king_safety_weight: Option<RealSetting>,
    pub eval_mobility_weight: Option<RealSetting>,
    pub blunder_rate: Option<RealSetting>,
    pub blunder_max_loss_cp: Option<u32>,
    pub random_topk: Option<u32>,
    pub temperature: Option<RealSetting>,
    pub always_legal_move: Option<bool>,
    pub mate_avoidance: Option<bool>,
    pub max_repeat_draw_bias: Option<RealSetting>,
    pub random_seed: Option<u64>,
}

impl EngineConfigPatch {
    /// Whether the request sets nothing.
    pub open spec fn empty(self) -> bool {
        self == (EngineConfigPatch {
            max_depth: None,
            max_nodes: None,
            time_limit_ms: None,
            quiescence_enabled: None,
            eval_material_weight: None,
            eval_position_weight: None,
            eval_king_safety_weight: None,
            eval_mobility_weight: None,
            blunder_rate: None,
            blunder_max_loss_cp: None,
            random_topk: None,
            temperature: None,
            always_legal_move: None,
            mate_avoidance: None,
            max_repeat_draw_bias: None,
            random_seed: None,
        })
    }
}

impl Default for EngineConfigPatch {
    fn default() -> (patch: Self)
        ensures
            patch.empty(),
    {
        EngineConfigPatch {
            max_depth: None,
            max_nodes: None,
            time_limit_ms: None,
            quiescence_enabled: None,
            eval_material_weight: None,
            eval_position_weight: None,
            eval_king_safety_weight: None,
            eval_mobility_weight: None,
            blunder_rate: None,
            blunder_max_loss_cp: None,
            random_topk: None,
            temperature: None,
            always_legal_move: None,
            mate_avoidance: None,
            max_repeat_draw_bias: None,
            random_seed: None,
        }
    }
}

#[derive(Debug, Clone, Copy, PartialEq, Eq)]
pub struct EngineConfig {
    pub max_depth: u32,
    pub max_nodes: u32,
    pub time_limit_ms: u32,
    pub quiescence_enabled: bool,
    pub eval_material_weight: Real,
    pub eval_position_weight: Real,
    pub eval_king_safety_weight: Real,
    pub eval_mobility_weight: Real,
    pub blunder_rate: Real,
    pub blunder_max_loss_cp: u32,
    pub random_topk: u32,
    pub temperature: Real,
    pub always_legal_move: bool,
    pub mate_avoidance: bool,
    pub max_repeat_draw_bias: Real,
    pub random_seed: Option<u64>,
}

/// The weights of an evaluation: all that it reads of a configuration.
#[derive(Debug, Clone, Copy, PartialEq, Eq)]
pub struct Weights {
    pub material: Real,
    pub position: Real,
    pub king_safety: Real,
    pub mobility: Real,
}

impl EngineConfig {
    /// The weights of the configuration.
    pub open spec fn weighing(self) -> Weights {
        Weights {
            material: self.eval_material_weight,
            position: self.eval_position_weight,
            king_safety: self.eval_king_safety_weight,
            mobility: self.eval_mobility_weight,
        }
    }

    /// Whether two configurations differ at most in the settings that nothing reads yet.
    pub open spec fn works_as(self, other: EngineConfig) -> bool {
        other == (EngineConfig {
            quiescence_enabled: other.quiescence_enabled,
            max_repeat_draw_bias: other.max_repeat_draw_bias,
            ..self
        })
    }

    pub fn weights(&self) -> (weights: Weights)
        ensures
            weights == self.weighing(),
    {
        Weights {
            material: self.eval_material_weight,
            position: self.eval_position_weight,
            king_safety: self.eval_king_safety_weight,
            mobility: self.eval_mobility_weight,
        }
    }

    /// The configuration of a request that sets nothing.
    pub open spec fn standard() -> EngineConfig {
        EngineConfig {
            max_depth: 3,
            max_nodes: 20_000,
            time_limit_ms: 300,
            quiescence_enabled: true,
            eval_material_weight: Real { bits: ONE },
            eval_position_weight: Real { bits: SEVEN_TWENTIETHS },
            eval_king_safety_weight: Real { bits: ONE_QUARTER },
            eval_mobility_weight: Real { bits: ONE_FIFTH },
            blunder_rate: Real { bits: ZERO },
            blunder_max_loss_cp: 0,
            random_topk: 1,
            temperature: Real { bits: ZERO },
            always_legal_move: true,
            mate_avoidance: true,
            max_repeat_draw_bias: Real { bits: ZERO },
            random_seed: None,
        }
    }

    /// Every value within its limits.
    pub open spec fn valid(self) -> bool {
        let zero = Real { bits: ZERO };
        let ten = Real { bits: TEN };
        &&& 1 <= self.max_depth <= 12
        &&& 100 <= self.max_nodes <= 5_000_000
        &&& 10 <= self.time_limit_ms <= 60_000
        &&& self.eval_material_weight.within(zero, ten)
        &&& self.eval_position_weight.within(zero, ten)
        &&& self.eval_king_safety_weight.within(zero, ten)
        &&& self.eval_mobility_weight.within(zero, ten)
        &&& self.blunder_rate.within(zero, Real { bits: ONE })
        &&& self.blunder_max_loss_cp <= 3000
        &&& 1 <= self.random_topk <= 20
        &&& self.temperature.within(zero, Real { bits: TWO })
        &&& self.always_legal_move
        &&& self.mate_avoidance
        &&& self.max_repeat_draw_bias.within(Real { bits: MINUS_ONE }, Real { bits: ONE })
    }
}

impl Default for EngineConfig {
    fn default() -> (cfg: Self)
        ensures
            cfg == EngineConfig::standard(),
    {
        EngineConfig {
            max_depth: 3,
            max_nodes: 20_000,
            time_limit_ms: 300,
            quiescence_enabled: true,
            eval_material_weight: Real { bits: ONE },
            eval_position_weight: Real { bits: SEVEN_TWENTIETHS },
            eval_king_safety_weight: Real { bits: ONE_QUARTER },
            eval_mobility_weight: Real { bits: ONE_FIFTH },
            blunder_rate: Real { bits: ZERO },
            blunder_max_loss_cp: 0,
            random_topk: 1,
            temperature: Real { bits: ZERO },
            always_legal_move: true,
            mate_avoidance: true,
            max_repeat_draw_bias: Real { bits: ZERO },
            random_seed: None,
        }
    }
}

/// Why a configuration was refused.
#[derive(Debug)]
pub enum ConfigError {
    Invalid(String),
}

impl ConfigError {
    /// The characters of the message.
    pub open spec fn text(self) -> Seq<char> {
        match self {
            ConfigError::Invalid(message) => message@,
        }
    }

    pub fn message(&self) -> (message: String)
        ensures
            message@ == self.text(),
    {
        match self {
            ConfigError::Invalid(message) => message.clone(),
        }
    }
}

/// The message about a value outside its limits.
pub open spec fn range_message(
    name: Seq<char>,
    min: Seq<char>,
    max: Seq<char>,
    got: Seq<char>,
) -> Seq<char> {
    name + " must be in "@ + min + "..="@ + max + " (got "@ + got + ")"@
}

fn range_error(name: &str, min: &str, max: &str, got: &str) -> (error: ConfigError)
    ensures
        error.text() == range_message(name@, min@, max@, got@),
{
    let mut message = name.to_string();
    message.append(" must be in ");
    message.append(min);
    message.append("..=");
    message.append(max);
    message.append(" (got ");
    message.append(got);
    message.append(")");
    ConfigError::Invalid(message)
}

/// What is wrong with an integer setting, if anything.
pub open spec fn u32_problem(
    name: Seq<char>,
    value: Option<u32>,
    min: u32,
    max: u32,
) -> Option<Seq<char>> {
    match value {
        Some(v) => if v < min || v > max {
            Some(
                range_message(
                    name,
                    text::decimal(min as nat),
                    text::decimal(max as nat),
                    text::decimal(v as nat),
                ),
            )
        } else {
            None
        },
        None => None,
    }
}

/// What is wrong with a setting that is a double-precision number, if anything. The limits are
/// given by their bits and as messages show them.
pub open spec fn real_problem(
    name: Seq<char>,
    value: Option<RealSetting>,
    min: (u64, Seq<char>),
    max: (u64, Seq<char>),
) -> Option<Seq<char>> {
    match value {
        Some(v) => if v.value.within(Real { bits: min.0 }, Real { bits: max.0 }) {
            None
        } else {
            Some(range_message(name, min.1, max.1, v.shown@))
        },
        None => None,
    }
}

/// What is wrong with a safeguard that a request may not turn off, if anything.
pub open spec fn flag_problem(message: Seq<char>, value: Option<bool>) -> Option<Seq<char>> {
    if value == Some(false) {
        Some(message)
    } else {
        None
    }
}

/// The first of two problems, if there is any.
pub open spec fn first_of(a: Option<Seq<char>>, b: Option<Seq<char>>) -> Option<Seq<char>> {
    if a is Some {
        a
    } else {
        b
    }
}

fn ensure_range_u32(name: &str, value: Option<u32>, min: u32, max: u32) -> (result: Result<
    (),
    ConfigError,
>)
    ensures
        match result {
            Ok(_) => u32_problem(name@, value, min, max) is None,
            Err(e) => u32_problem(name@, value, min, max) == Some(e.text()),
        },
{
    if let Some(v) = value {
        if v < min || v > max {
            let min_text = text::decimal_text(min);
            let max_text = text::decimal_text(max);
            let got_text = text::decimal_text(v);
            return Err(
                range_error(name, min_text.as_str(), max_text.as_str(), got_text.as_str()),
            );
        }
    }
    Ok(())
}

fn ensure_range_real(
    name: &str,
    value: &Option<RealSetting>,
    min: (u64, &str),
    max: (u64, &str),
) -> (result: Result<(), ConfigError>)
    ensures
        match result {
            Ok(_) => real_problem(name@, *value, (min.0, min.1@), (max.0, max.1@)) is None,
            Err(e) => real_problem(name@, *value, (min.0, min.1@), (max.0, max.1@)) == Some(
                e.text(),
            ),
        },
{
    if let Some(v) = value {
        if !v.value.is_within(Real { bits: min.0 }, Real { bits: max.0 }) {
            return Err(range_error(name, min.1, max.1, v.shown.as_str()));
        }
    }
    Ok(())
}

fn ensure_true(message: &str, value: Option<bool>) -> (result: Result<(), ConfigError>)
    ensures
        match result {
            Ok(_) => flag_problem(message@, value) is None,
            Err(e) => flag_problem(message@, value) == Some(e.text()),
        },
{
    if let Some(v) = value {
        if !v {
            return Err(ConfigError::Invalid(message.to_string()));
        }
    }
    Ok(())
}

/// The first problem with a request's settings, in the order in which they are looked at.
pub open spec fn config_problem(patch: EngineConfigPatch) -> Option<Seq<char>> {
    let zero = (ZERO, "0"@);
    let ten = (TEN, "10"@);
    first_of(
        u32_problem("max_depth"@, patch.max_depth, 1, 12),
        first_of(
            u32_problem("max_nodes"@, patch.max_nodes, 100, 5_000_000),
            first_of(
                u32_problem("time_limit_ms"@, patch.time_limit_ms, 10, 60_000),
                first_of(
                    real_problem("eval_material_weight"@, patch.eval_material_weight, zero, ten),
                    first_of(
                        real_problem(
                            "eval_position_weight"@,
                            patch.eval_position_weight,
                            zero,
                            ten,
                        ),
                        first_of(
                            real_problem(
                                "eval_king_safety_weight"@,
                                patch.eval_king_safety_weight,
                                zero,
                                ten,
                            ),
                            first_of(
                                real_problem(
                                    "eval_mobility_weight"@,
                                    patch.eval_mobility_weight,
                                    zero,
                                    ten,
                                ),
                                selection_problem(patch),
                            ),
                        ),
                    ),
                ),
            ),
        ),
    )
}

/// The first problem with the settings that govern the choice among scored moves.
pub open spec fn selection_problem(patch: EngineConfigPatch) -> Option<Seq<char>> {
    let zero = (ZERO, "0"@);
    let one = (ONE, "1"@);
    first_of(
        real_problem("blunder_rate"@, patch.blunder_rate, zero, one),
        first_of(
            u32_problem("blunder_max_loss_cp"@, patch.blunder_max_loss_cp, 0, 3000),
            first_of(
                u32_problem("random_topk"@, patch.random_topk, 1, 20),
                first_of(
                    real_problem("temperature"@, patch.temperature, zero, (TWO, "2"@)),
                    first_of(
                        real_problem(
                            "max_repeat_draw_bias"@,
                            patch.max_repeat_draw_bias,
                            (MINUS_ONE, "-1"@),
                            one,
                        ),
                        first_of(
                            flag_problem(
                                "always_legal_move must be true"@,
                                patch.always_legal_move,
                            ),
                            flag_problem("mate_avoidance must be true"@, patch.mate_avoidance),
                        ),
                    ),
                ),
            ),
        ),
    )
}

/// The value that a request sets, or else the default.
pub open spec fn set_or<T>(value: Option<T>, default: T) -> T {
    match value {
        Some(v) => v,
        None => default,
    }
}

/// The number that a request sets, or else the default.
pub open spec fn real_or(value: Option<RealSetting>, default: Real) -> Real {
    match value {
        Some(v) => v.value,
        None => default,
    }
}

/// The defaults with a request's settings in their places.
pub open spec fn applied(patch: EngineConfigPatch) -> EngineConfig {
    let d = EngineConfig::standard();
    EngineConfig {
        max_depth: set_or(patch.max_depth, d.max_depth),
        max_nodes: set_or(patch.max_nodes, d.max_nodes),
        time_limit_ms: set_or(patch.time_limit_ms, d.time_limit_ms),
        quiescence_enabled: set_or(patch.quiescence_enabled, d.quiescence_enabled),
        eval_material_weight: real_or(patch.eval_material_weight, d.eval_material_weight),
        eval_position_weight: real_or(patch.eval_position_weight, d.eval_position_weight),
        eval_king_safety_weight: real_or(patch.eval_king_safety_weight, d.eval_king_safety_weight),
        eval_mobility_weight: real_or(patch.eval_mobility_weight, d.eval_mobility_weight),
        blunder_rate: real_or(patch.blunder_rate, d.blunder_rate),
        blunder_max_loss_cp: set_or(patch.blunder_max_loss_cp, d.blunder_max_loss_cp),
        random_topk: set_or(patch.random_topk, d.random_topk),
        temperature: real_or(patch.temperature, d.temperature),
        always_legal_move: true,
        mate_avoidance: true,
        max_repeat_draw_bias: real_or(patch.max_repeat_draw_bias, d.max_repeat_draw_bias),
        random_seed: patch.random_seed,
    }
}

fn real_value(value: &Option<RealSetting>, default: Real) -> (number: Real)
    ensures
        number == real_or(*value, default),
{
    match value {
        Some(v) => v.value,
        None => default,
    }
}

/// Fills in the defaults and holds every setting to its limits.
pub(crate) fn config_for(input: &EngineConfigPatch) -> (result: Result<EngineConfig, ConfigError>)
    ensures
        match result {
            Ok(cfg) => config_problem(*input) is None && cfg == applied(*input),
            Err(e) => config_problem(*input) == Some(e.text()),
        },
{
    let zero: (u64, &str) = (ZERO, "0");
    let one: (u64, &str) = (ONE, "1");
    let two: (u64, &str) = (TWO, "2");
    let ten: (u64, &str) = (TEN, "10");
    let minus_one: (u64, &str) = (MINUS_ONE, "-1");
    let d = EngineConfig::default();
    ensure_range_u32("max_depth", input.max_depth, 1, 12)?;
    ensure_range_u32("max_nodes", input.max_nodes, 100, 5_000_000)?;
    ensure_range_u32("time_limit_ms", input.time_limit_ms, 10, 60_000)?;
    ensure_range_real("eval_material_weight", &input.eval_material_weight, zero, ten)?;
    ensure_range_real("eval_position_weight", &input.eval_position_weight, zero, ten)?;
    ensure_range_real("eval_king_safety_weight", &input.eval_king_safety_weight, zero, ten)?;
    ensure_range_real("eval_mobility_weight", &input.eval_mobility_weight, zero, ten)?;
    ensure_range_real("blunder_rate", &input.blunder_rate, zero, one)?;
    ensure_range_u32("blunder_max_loss_cp", input.blunder_max_loss_cp, 0, 3000)?;
    ensure_range_u32("random_topk", input.random_topk, 1, 20)?;
    ensure_range_real("temperature", &input.temperature, zero, two)?;
    ensure_range_real("max_repeat_draw_bias", &input.max_repeat_draw_bias, minus_one, one)?;
    ensure_true("always_legal_move must be true", input.always_legal_move)?;
    ensure_true("mate_avoidance must be true", input.mate_avoidance)?;
    Ok(
        EngineConfig {
            max_depth: input.max_depth.unwrap_or(d.max_depth),
            max_nodes: input.max_nodes.unwrap_or(d.max_nodes),
            time_limit_ms: input.time_limit_ms.unwrap_or(d.time_limit_ms),
            quiescence_enabled: input.quiescence_enabled.unwrap_or(d.quiescence_enabled),
            eval_material_weight: real_value(&input.eval_material_weight, d.eval_material_weight),
            eval_position_weight: real_value(&input.eval_position_weight, d.eval_position_weight),
            eval_king_safety_weight: real_value(
                &input.eval_king_safety_weight,
                d.eval_king_safety_weight,
            ),
            eval_mobility_weight: real_value(&input.eval_mobility_weight, d.eval_mobility_weight),
            blunder_rate: real_value(&input.blunder_rate, d.blunder_rate),
            blunder_max_loss_cp: input.blunder_max_loss_cp.unwrap_or(d.blunder_max_loss_cp),
            random_topk: input.random_topk.unwrap_or(d.random_topk),
            temperature: real_value(&input.temperature, d.temperature),
            always_legal_move: d.always_legal_move,
            mate_avoidance: d.mate_avoidance,
            max_repeat_draw_bias: real_value(&input.max_repeat_draw_bias, d.max_repeat_draw_bias),
            random_seed: input.random_seed,
        },
    )
}

/// The configuration for a request that sets these values.
pub fn build_engine_config(input: EngineConfigPatch) -> (result: Result<EngineConfig, ConfigError>)
    ensures
        match result {
            Ok(cfg) => config_problem(input) is None && cfg == applied(input),
            Err(e) => config_problem(input) == Some(e.text()),
        },
{
    config_for(&input)
}

/// An accepted configuration has every value within its limits.
pub proof fn law_accepted_config_is_valid(patch: EngineConfigPatch)
    requires
        config_problem(patch) is None,
    ensures
        applied(patch).valid(),
{
}

/// A request that sets nothing is accepted and gets the defaults.
pub proof fn law_empty_patch_gives_defaults(patch: EngineConfigPatch)
    requires
        patch.empty(),
    ensures
        config_problem(patch) is None,
        applied(patch) == EngineConfig::standard(),
{
}

/// A request that turns off a safeguard is refused.
pub proof fn law_safeguards_cannot_be_turned_off(patch: EngineConfigPatch)
    requires
        patch.always_legal_move == Some(false) || patch.mate_avoidance == Some(false),
    ensures
        config_problem(patch) is Some,
{
}

} // verus!
