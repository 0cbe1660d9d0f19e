//! Radial profiles: the parametric scalar shapes that generate both
//! convolution kernels and growth maps.
//!
//! A profile maps a SCALE-unit input to a SCALE-unit output in [0, SCALE]
//! (or, re-centered, in [-HALF, HALF]). The shapes are fixed-point
//! renderings of the usual bump/decay/sigmoid family: the exponential is
//! `fixed::exp_neg`, and every division rounds toward zero on non-negative
//! operands, so each shape is an exactly specified integer function.

use vstd::prelude::*;

use crate::conv::{
    conv_at, conv_cell, entries_in, grid_dims_ok, kernel_dims_ok, lemma_entry_le_total,
    lemma_norm_sum, lemma_sum_prefix_bounds, seq_total, sum_prefix, GRID_CELL_LIMIT,
};
use crate::fixed::{
    clamp_unit, clamp_unit_spec, exp_neg, exp_neg_spec, isqrt, sdiv, sdiv_spec, sqrt_floor, HALF,
    KSCALE, PARAM_LIMIT, SCALE,
};

verus! {

/// Largest accepted kernel radius.
pub const RADIUS_LIMIT: usize = 1_000;

/// Largest accepted number of layers feeding one channel.
pub const LAYER_LIMIT: usize = 256;

/// Largest accepted number of channels in one ecosystem.
pub const CHANNEL_LIMIT: usize = 256;

/// Offset of the two side lobes of `TripleBump` (0.25 in SCALE-units).
pub const LOBE_OFFSET: i64 = 250_000;

/// Inputs whose ratio magnitude exceeds this bound are flushed to zero by
/// the bump-shaped profiles (their true value is below one SCALE-unit).
pub const BUMP_CUTOFF: i64 = 7_000_000;

#[derive(Clone, Copy, Debug, PartialEq, Eq, Structural)]
pub enum Shape {
    GaussianBump,
    ExponentialDecay,
    SmoothTransition,
    MexicanHat,
    TripleBump,
}

/// A closed enumeration that interactive tuning can step through.
pub trait Cycle: Sized {
    spec fn cycle_next(&self) -> Self;

    spec fn cycle_previous(&self) -> Self;

    fn next(&mut self) -> (r: Self)
        ensures
            *final(self) == *old(self),
            r == old(self).cycle_next(),
    ;

    fn previous(&mut self) -> (r: Self)
        ensures
            *final(self) == *old(self),
            r == old(self).cycle_previous(),
    ;
}

impl Cycle for Shape {
    open spec fn cycle_next(&self) -> Self {
        match self {
            Shape::GaussianBump => Shape::ExponentialDecay,
            Shape::ExponentialDecay => Shape::SmoothTransition,
            Shape::SmoothTransition => Shape::MexicanHat,
            Shape::MexicanHat => Shape::TripleBump,
            Shape::TripleBump => Shape::GaussianBump,
        }
    }

    open spec fn cycle_previous(&self) -> Self {
        match self {
            Shape::GaussianBump => Shape::TripleBump,
            Shape::ExponentialDecay => Shape::GaussianBump,
            Shape::SmoothTransition => Shape::ExponentialDecay,
            Shape::MexicanHat => Shape::SmoothTransition,
            Shape::TripleBump => Shape::MexicanHat,
        }
    }

    fn next(&mut self) -> (r: Self) {
        match self {
            Shape::GaussianBump => Shape::ExponentialDecay,
            Shape::ExponentialDecay => Shape::SmoothTransition,
            Shape::SmoothTransition => Shape::MexicanHat,
            Shape::MexicanHat => Shape::TripleBump,
            Shape::TripleBump => Shape::GaussianBump,
        }
    }

    fn previous(&mut self) -> (r: Self) {
        match self {
            Shape::GaussianBump => Shape::TripleBump,
            Shape::ExponentialDecay => Shape::GaussianBump,
            Shape::SmoothTransition => Shape::ExponentialDecay,
            Shape::MexicanHat => Shape::SmoothTransition,
            Shape::TripleBump => Shape::MexicanHat,
        }
    }
}

/// Stepping forward and then back through the shape cycle is the identity.
pub proof fn lemma_shape_cycle_round_trip(s: Shape)
    ensures
        s.cycle_next().cycle_previous() == s,
        s.cycle_previous().cycle_next() == s,
{
}

impl Shape {
    /// The shape's name, for display by callers.
    pub fn name(&self) -> &'static str {
        match self {
            Shape::GaussianBump => "GaussianBump",
            Shape::ExponentialDecay => "ExponentialDecay",
            Shape::SmoothTransition => "SmoothTransition",
            Shape::MexicanHat => "MexicanHat",
            Shape::TripleBump => "TripleBump",
        }
    }
}

/// The configuration faults that are rejected eagerly, at construction or
/// kernel-initialization time, so that no tick can divide by zero or
/// address out of bounds.
#[derive(Clone, Copy, Debug, PartialEq, Eq, Structural)]
pub enum ConfigError {
    /// A profile needs at least a width and an offset parameter.
    MissingParameters,
    /// The width parameter is zero: every shape divides by it.
    ZeroWidth,
    /// A parameter's magnitude exceeds PARAM_LIMIT.
    ParameterOutOfRange,
    /// A kernel-shaping profile must not be re-centered.
    CenteredKernelProfile,
    /// A kernel radius must be at least 1 and fit the grid.
    BadRadius,
    /// A layer names a channel the ecosystem does not have.
    BadChannelRef,
    /// A channel's cell count does not match the grid dimensions.
    DimensionMismatch,
    /// A cell state lies outside the unit interval.
    CellOutOfRange,
    /// The kernel table is all zero, so it cannot be normalized.
    ZeroSumKernel,
    /// An ecosystem needs at least one channel.
    NoChannels,
    /// An ecosystem holds more channels than CHANNEL_LIMIT.
    TooManyChannels,
    /// An ecosystem holds more layers than LAYER_LIMIT.
    TooManyLayers,
    /// The global timestep must lie in (0, SCALE].
    BadDelta,
}

impl ConfigError {
    /// A short description, for display by callers.
    pub fn describe(&self) -> &'static str {
        match self {
            ConfigError::MissingParameters => "profile needs width and offset parameters",
            ConfigError::ZeroWidth => "profile width parameter is zero",
            ConfigError::ParameterOutOfRange => "profile parameter magnitude too large",
            ConfigError::CenteredKernelProfile => "kernel profile must not be centered",
            ConfigError::BadRadius => "kernel radius must be at least 1 and fit the grid",
            ConfigError::BadChannelRef => "layer names a nonexistent channel",
            ConfigError::DimensionMismatch => "cell count does not match grid dimensions",
            ConfigError::CellOutOfRange => "cell state outside the unit interval",
            ConfigError::ZeroSumKernel => "kernel table sums to zero",
            ConfigError::NoChannels => "ecosystem has no channels",
            ConfigError::TooManyChannels => "ecosystem holds too many channels",
            ConfigError::TooManyLayers => "ecosystem holds too many layers",
            ConfigError::BadDelta => "timestep must lie in (0, SCALE]",
        }
    }
}

/// Validity of a profile parameter list: width and offset present, width
/// nonzero (every shape divides by it), magnitudes bounded so that no
/// intermediate product can overflow.
pub open spec fn params_valid(params: Seq<i64>) -> bool {
    &&& params.len() >= 2
    &&& params[0] != 0
    &&& forall|i: int| 0 <= i < params.len() ==> -PARAM_LIMIT <= #[trigger] params[i] <= PARAM_LIMIT
}

/// The magnitude of (x - c) / w in SCALE-units, rounded down.
pub open spec fn ratio_mag(x: int, c: int, w: int) -> int {
    let d = if x >= c { x - c } else { c - x };
    let a = if w >= 0 { w } else { -w };
    d * SCALE / a
}

/// Whether (x - c) / w is strictly negative.
pub open spec fn ratio_neg(x: int, c: int, w: int) -> bool {
    x != c && ((x < c) != (w < 0))
}

/// exp(-u^2 / 2) in SCALE-units, for a ratio magnitude u; far tails flush
/// to zero (their true value is below one SCALE-unit).
pub open spec fn gauss_half_spec(u: int) -> int {
    if u > BUMP_CUTOFF {
        0
    } else {
        exp_neg_spec(u * u / (2 * SCALE))
    }
}

/// exp(-u^2) in SCALE-units, the lobe shape of TripleBump.
pub open spec fn gauss_full_spec(u: int) -> int {
    if u > BUMP_CUTOFF {
        0
    } else {
        exp_neg_spec(u * u / (SCALE as int))
    }
}

/// The raw (pre-clamp, pre-centering) value of each shape at input x, with
/// width w and offset o.
pub open spec fn shape_y(shape: Shape, w: int, o: int, x: int) -> int {
    let u = ratio_mag(x, o, w);
    match shape {
        Shape::GaussianBump => gauss_half_spec(u),
        Shape::ExponentialDecay => {
            if ratio_neg(x, o, w) {
                SCALE as int
            } else {
                exp_neg_spec(u)
            }
        },
        Shape::SmoothTransition => {
            let e = exp_neg_spec(u);
            if ratio_neg(x, o, w) {
                SCALE * SCALE / (SCALE + e)
            } else {
                SCALE * e / (SCALE + e)
            }
        },
        Shape::MexicanHat => {
            if u > BUMP_CUTOFF {
                0
            } else {
                let q = u * u / (SCALE as int);
                let m2 = (q - SCALE) * (q - SCALE) / (SCALE as int);
                SCALE * SCALE / (SCALE + m2)
            }
        },
        Shape::TripleBump => {
            let u1 = ratio_mag(x, o - LOBE_OFFSET, w);
            let u3 = ratio_mag(x, o + LOBE_OFFSET, w);
            (6 * gauss_full_spec(u1) + 8 * gauss_full_spec(u) + 6 * gauss_full_spec(u3)) / 10
        },
    }
}

/// A radial profile: a shape, its parameters [width, offset], and whether
/// the output is re-centered around zero.
#[derive(Debug)]
pub struct Function {
    pub shape: Shape,
    pub centering: bool,
    pub parameters: Vec<i64>,
}

/// The profile's value at x: the shape clamped into [0, SCALE], then
/// shifted down by HALF when centering is set.
pub open spec fn calc_spec(shape: Shape, centering: bool, w: int, o: int, x: int) -> int {
    let y = clamp_unit_spec(shape_y(shape, w, o, x));
    if centering {
        y - HALF
    } else {
        y
    }
}

impl Function {
    pub open spec fn valid(&self) -> bool {
        params_valid(self.parameters@)
    }

    /// The profile's value at x, as a spec-level function of the struct.
    pub open spec fn value_at(&self, x: int) -> int {
        calc_spec(self.shape, self.centering, self.parameters@[0] as int, self.parameters@[1] as int, x)
    }

    /// Builds a profile, rejecting invalid parameter lists eagerly so that
    /// `calc` never divides by zero.
    pub fn new(shape: Shape, centering: bool, parameters: Vec<i64>) -> (r: Result<Function, ConfigError>)
        ensures
            match r {
                Ok(f) => {
                    &&& params_valid(parameters@)
                    &&& f.shape == shape
                    &&& f.centering == centering
                    &&& f.parameters@ == parameters@
                },
                Err(e) => {
                    &&& !params_valid(parameters@)
                    &&& (e == ConfigError::MissingParameters <==> parameters@.len() < 2)
                    &&& (e == ConfigError::ZeroWidth <==> (parameters@.len() >= 2
                        && parameters@[0] == 0))
                },
            },
    {
        if parameters.len() < 2 {
            return Err(ConfigError::MissingParameters);
        }
        if parameters[0] == 0 {
            return Err(ConfigError::ZeroWidth);
        }
        let mut i: usize = 0;
        while i < parameters.len()
            invariant
                0 <= i <= parameters@.len(),
                parameters@.len() >= 2,
                parameters@[0] != 0,
                forall|j: int| 0 <= j < i ==> -PARAM_LIMIT <= #[trigger] parameters@[j] <= PARAM_LIMIT,
            decreases parameters@.len() - i,
        {
            if parameters[i] < -PARAM_LIMIT || parameters[i] > PARAM_LIMIT {
                proof {
                    assert(!(-PARAM_LIMIT <= parameters@[i as int] <= PARAM_LIMIT));
                    assert(parameters@.len() >= 2);
                    assert(parameters@[0] != 0);
                }
                return Err(ConfigError::ParameterOutOfRange);
            }
            i = i + 1;
        }
        Ok(Function { shape, centering, parameters })
    }

    /// A field-for-field copy of the profile.
    pub fn duplicate(&self) -> (r: Function)
        ensures
            r.shape == self.shape,
            r.centering == self.centering,
            r.parameters@ == self.parameters@,
    {
        Function {
            shape: self.shape,
            centering: self.centering,
            parameters: crate::conv::copy_cells(&self.parameters),
        }
    }

    /// Checks the profile's parameter list, reporting the same faults as
    /// `new` does at construction.
    pub fn check(&self) -> (r: Result<(), ConfigError>)
        ensures
            r is Ok <==> self.valid(),
            match r {
                Ok(()) => true,
                Err(e) => {
                    &&& (e == ConfigError::MissingParameters || e == ConfigError::ZeroWidth
                        || e == ConfigError::ParameterOutOfRange)
                    &&& (e == ConfigError::MissingParameters <==> self.parameters@.len() < 2)
                    &&& (e == ConfigError::ZeroWidth <==> (self.parameters@.len() >= 2
                        && self.parameters@[0] == 0))
                },
            },
    {
        if self.parameters.len() < 2 {
            return Err(ConfigError::MissingParameters);
        }
        if self.parameters[0] == 0 {
            return Err(ConfigError::ZeroWidth);
        }
        let mut i: usize = 0;
        while i < self.parameters.len()
            invariant
                0 <= i <= self.parameters@.len(),
                self.parameters@.len() >= 2,
                self.parameters@[0] != 0,
                forall|j: int| 0 <= j < i
                    ==> -PARAM_LIMIT <= #[trigger] self.parameters@[j] <= PARAM_LIMIT,
            decreases self.parameters@.len() - i,
        {
            if self.parameters[i] < -PARAM_LIMIT || self.parameters[i] > PARAM_LIMIT {
                proof {
                    assert(!(-PARAM_LIMIT <= self.parameters@[i as int] <= PARAM_LIMIT));
                }
                return Err(ConfigError::ParameterOutOfRange);
            }
            i = i + 1;
        }
        Ok(())
    }

    /// Evaluates the profile at x. The output is in [0, SCALE], or in
    /// [-HALF, HALF] for a centered profile.
    pub fn calc(&self, x: i64) -> (y: i64)
        requires
            self.valid(),
            -PARAM_LIMIT <= x <= PARAM_LIMIT,
        ensures
            y == self.value_at(x as int),
            !self.centering ==> 0 <= y <= SCALE,
            self.centering ==> -HALF <= y <= HALF,
    {
        let w: i64 = self.parameters[0];
        let o: i64 = self.parameters[1];
        let raw: i64 = match self.shape {
            Shape::GaussianBump => gauss_half(ratio_mag_exec(x, o, w)),
            Shape::ExponentialDecay => {
                if ratio_neg_exec(x, o, w) {
                    SCALE
                } else {
                    exp_neg(ratio_mag_exec(x, o, w))
                }
            },
            Shape::SmoothTransition => {
                let e: i64 = exp_neg(ratio_mag_exec(x, o, w));
                proof {
                    vstd::arithmetic::div_mod::lemma_div_pos_is_pos(
                        SCALE * SCALE, SCALE + e);
                    vstd::arithmetic::div_mod::lemma_div_pos_is_pos(
                        SCALE * e, SCALE + e);
                    vstd::arithmetic::div_mod::lemma_div_is_ordered_by_denominator(
                        SCALE * SCALE, SCALE as int, (SCALE + e) as int);
                    assert(SCALE * SCALE / (SCALE as int) == SCALE) by (nonlinear_arith);
                    assert(SCALE * e <= SCALE * SCALE) by (nonlinear_arith)
                        requires 0 <= e <= SCALE;
                    vstd::arithmetic::div_mod::lemma_div_is_ordered(
                        SCALE * e, SCALE * SCALE, (SCALE + e) as int);
                }
                if ratio_neg_exec(x, o, w) {
                    (SCALE * SCALE) / (SCALE + e)
                } else {
                    (SCALE * e) / (SCALE + e)
                }
            },
            Shape::MexicanHat => {
                let u: i64 = ratio_mag_exec(x, o, w);
                if u > BUMP_CUTOFF {
                    0
                } else {
                    proof {
                        assert(0 <= u * u <= 49_000_000_000_000) by (nonlinear_arith)
                            requires 0 <= u <= 7_000_000;
                        vstd::arithmetic::div_mod::lemma_div_pos_is_pos(u * u, SCALE as int);
                        vstd::arithmetic::div_mod::lemma_div_is_ordered(
                            u * u, 49_000_000_000_000, SCALE as int);
                        assert(49_000_000_000_000int / (SCALE as int) == 49_000_000);
                    }
                    let q: i64 = u * u / SCALE;
                    proof {
                        assert(0 <= (q - SCALE) * (q - SCALE) <= 2_401_000_000_000_000) by (nonlinear_arith)
                            requires -1_000_000 <= q - SCALE <= 49_000_000;
                        vstd::arithmetic::div_mod::lemma_div_pos_is_pos(
                            (q - SCALE) * (q - SCALE), SCALE as int);
                    }
                    let m2: i64 = (q - SCALE) * (q - SCALE) / SCALE;
                    proof {
                        vstd::arithmetic::div_mod::lemma_div_pos_is_pos(
                            SCALE * SCALE, SCALE + m2);
                        vstd::arithmetic::div_mod::lemma_div_is_ordered_by_denominator(
                            SCALE * SCALE, SCALE as int, (SCALE + m2) as int);
                        assert(SCALE * SCALE / (SCALE as int) == SCALE) by (nonlinear_arith);
                    }
                    (SCALE * SCALE) / (SCALE + m2)
                }
            },
            Shape::TripleBump => {
                let e1: i64 = gauss_full(ratio_mag_exec(x, o - LOBE_OFFSET, w));
                let e2: i64 = gauss_full(ratio_mag_exec(x, o, w));
                let e3: i64 = gauss_full(ratio_mag_exec(x, o + LOBE_OFFSET, w));
                proof {
                    vstd::arithmetic::div_mod::lemma_div_pos_is_pos(
                        6 * e1 + 8 * e2 + 6 * e3, 10);
                }
                (6 * e1 + 8 * e2 + 6 * e3) / 10
            },
        };
        let y: i64 = clamp_unit(raw);
        if self.centering {
            y - HALF
        } else {
            y
        }
    }
}

/// The ratio magnitude |x - c| * SCALE / |w|, exactly as `ratio_mag`.
fn ratio_mag_exec(x: i64, c: i64, w: i64) -> (u: i64)
    requires
        w != 0,
        -PARAM_LIMIT <= x <= PARAM_LIMIT,
        -PARAM_LIMIT - LOBE_OFFSET <= c <= PARAM_LIMIT + LOBE_OFFSET,
        -PARAM_LIMIT <= w <= PARAM_LIMIT,
    ensures
        u == ratio_mag(x as int, c as int, w as int),
        0 <= u,
{
    let d: i64 = if x >= c { x - c } else { c - x };
    let a: i64 = if w >= 0 { w } else { -w };
    proof {
        vstd::arithmetic::div_mod::lemma_div_pos_is_pos(d * SCALE, a as int);
        assert(d * SCALE <= (PARAM_LIMIT + PARAM_LIMIT + LOBE_OFFSET) * SCALE) by (nonlinear_arith)
            requires 0 <= d <= PARAM_LIMIT + PARAM_LIMIT + LOBE_OFFSET;
        assert(0 <= d * SCALE) by (nonlinear_arith)
            requires 0 <= d;
    }
    (d * SCALE) / a
}

/// Whether (x - c) / w is strictly negative, exactly as `ratio_neg`.
fn ratio_neg_exec(x: i64, c: i64, w: i64) -> (b: bool)
    ensures
        b == ratio_neg(x as int, c as int, w as int),
{
    x != c && ((x < c) != (w < 0))
}

/// exp(-u^2 / 2), exactly as `gauss_half_spec`.
fn gauss_half(u: i64) -> (y: i64)
    requires
        0 <= u,
    ensures
        y == gauss_half_spec(u as int),
        0 <= y <= SCALE,
{
    if u > BUMP_CUTOFF {
        0
    } else {
        proof {
            assert(0 <= u * u <= BUMP_CUTOFF * BUMP_CUTOFF) by (nonlinear_arith)
                requires 0 <= u <= BUMP_CUTOFF;
            vstd::arithmetic::div_mod::lemma_div_pos_is_pos(u * u, 2 * SCALE);
        }
        exp_neg(u * u / (2 * SCALE))
    }
}

/// exp(-u^2), exactly as `gauss_full_spec`.
fn gauss_full(u: i64) -> (y: i64)
    requires
        0 <= u,
    ensures
        y == gauss_full_spec(u as int),
        0 <= y <= SCALE,
{
    if u > BUMP_CUTOFF {
        0
    } else {
        proof {
            assert(0 <= u * u <= BUMP_CUTOFF * BUMP_CUTOFF) by (nonlinear_arith)
                requires 0 <= u <= BUMP_CUTOFF;
            vstd::arithmetic::div_mod::lemma_div_pos_is_pos(u * u, SCALE as int);
        }
        exp_neg(u * u / SCALE)
    }
}

/// What a kernel stores at offsets whose true distance exceeds the radius
/// (the corners of the square table). This is a deliberate configuration
/// knob: the two policies shift kernel mass at the margin.
#[derive(Clone, Copy, Debug, PartialEq, Eq, Structural)]
pub enum CornerPolicy {
    /// Keep the profile's own value at normalized inputs above one.
    NaturalDecay,
    /// Hard-mask the cells outside the disk of the kernel radius to zero.
    MaskDisk,
}

/// The squared offset distance of kernel cell k: cell k covers the offset
/// (k % side - radius, k / side - radius) of the square table.
pub open spec fn kernel_d2(radius: int, k: int) -> int {
    let side = 2 * radius + 1;
    let dy = k / side - radius;
    let dx = k % side - radius;
    dx * dx + dy * dy
}

/// The profile input of a kernel cell at squared distance d2: the true
/// distance in SCALE-units, divided by the radius.
pub open spec fn kernel_input(d2: int, radius: int) -> int {
    sqrt_floor(d2 * SCALE * SCALE) / radius
}

/// The raw (pre-normalization) kernel weight of cell k.
pub open spec fn kernel_raw_at(p: Function, radius: int, policy: CornerPolicy, k: int) -> int {
    let d2 = kernel_d2(radius, k);
    if policy == CornerPolicy::MaskDisk && d2 > radius * radius {
        0
    } else {
        p.value_at(kernel_input(d2, radius))
    }
}

/// The whole raw kernel table.
pub open spec fn kernel_raw_seq(p: Function, radius: int, policy: CornerPolicy) -> Seq<i64> {
    Seq::new((((2 * radius + 1) * (2 * radius + 1)) as nat),
        |k: int| kernel_raw_at(p, radius, policy, k) as i64)
}

/// The raw kernel mass, the divisor of normalization.
pub open spec fn kernel_total(p: Function, radius: int, policy: CornerPolicy) -> int {
    seq_total(kernel_raw_seq(p, radius, policy))
}

/// The normalized kernel weight of cell k, in KSCALE-units.
pub open spec fn kernel_norm_at(p: Function, radius: int, policy: CornerPolicy, k: int) -> int {
    kernel_raw_at(p, radius, policy, k) * KSCALE / kernel_total(p, radius, policy)
}

/// The whole normalized kernel table.
pub open spec fn kernel_lookup_seq(p: Function, radius: int, policy: CornerPolicy) -> Seq<i64> {
    Seq::new((((2 * radius + 1) * (2 * radius + 1)) as nat),
        |k: int| kernel_norm_at(p, radius, policy, k) as i64)
}

/// The kernel weight of a cell depends on its offset only through the
/// squared distance, so the table is radially symmetric: cells at equal
/// distance carry equal weight, raw and normalized alike.
pub proof fn lemma_kernel_radial_symmetry(
    p: Function, radius: int, policy: CornerPolicy, k1: int, k2: int,
)
    requires
        kernel_d2(radius, k1) == kernel_d2(radius, k2),
    ensures
        kernel_raw_at(p, radius, policy, k1) == kernel_raw_at(p, radius, policy, k2),
        kernel_norm_at(p, radius, policy, k1) == kernel_norm_at(p, radius, policy, k2),
{
}

/// One kernel-and-growth pairing: convolves its source channel with the
/// normalized kernel table and maps the result through the growth profile.
#[derive(Debug)]
pub struct Layer {
    /// The kernel-shaping profile.
    pub kernel: Function,
    /// Derived: the normalized kernel table, regenerated whenever the
    /// kernel profile or the radius changes.
    pub kernel_lookup: Vec<i64>,
    /// The growth-shaping profile.
    pub growth_map: Function,
    /// Index of the channel read as convolution input.
    pub channel_id: usize,
    /// Transient: this tick's growth contribution.
    pub matrix_out: Vec<i64>,
    /// Kernel radius: the table spans offsets in [-radius, radius]^2.
    pub radius: usize,
    /// The corner policy the table is generated under.
    pub corner_policy: CornerPolicy,
}

impl Layer {
    /// The layer's profiles and radius admit kernel generation.
    pub open spec fn config_ok(&self) -> bool {
        &&& self.kernel.valid()
        &&& !self.kernel.centering
        &&& self.growth_map.valid()
        &&& 1 <= self.radius <= RADIUS_LIMIT
    }

    /// The derived kernel table matches the layer's profile and radius and
    /// carries its normalization bounds: the table is non-negative and its
    /// mass is KSCALE, short at most one rounding unit per cell.
    pub open spec fn kernel_ready(&self) -> bool {
        let len = (2 * self.radius + 1) * (2 * self.radius + 1);
        &&& self.kernel_lookup@.len() == len
        &&& self.kernel_lookup@ == kernel_lookup_seq(self.kernel, self.radius as int,
            self.corner_policy)
        &&& entries_in(self.kernel_lookup@, 0, KSCALE as int)
        &&& KSCALE - len <= seq_total(self.kernel_lookup@) <= KSCALE
        &&& 1 <= kernel_total(self.kernel, self.radius as int, self.corner_policy)
    }

    /// Binds a kernel profile, a growth profile, a source channel and a
    /// radius. The kernel table starts empty: `generate_kernel_lookup`
    /// derives it before first use.
    pub fn new(kernel: Function, growth_map: Function, channel_id: usize, radius: usize) -> (l:
        Layer)
        ensures
            l.kernel == kernel,
            l.growth_map == growth_map,
            l.channel_id == channel_id,
            l.radius == radius,
            l.corner_policy == CornerPolicy::NaturalDecay,
            l.kernel_lookup@.len() == 0,
            l.matrix_out@.len() == 0,
    {
        Layer {
            kernel,
            kernel_lookup: Vec::new(),
            growth_map,
            channel_id,
            matrix_out: Vec::new(),
            radius,
            corner_policy: CornerPolicy::NaturalDecay,
        }
    }

    /// Regenerates the normalized kernel table from the kernel profile and
    /// radius. Rejects invalid configurations eagerly; a table whose raw
    /// mass is zero cannot be normalized and is a fatal configuration
    /// error, never a silent division by zero.
    #[verifier::loop_isolation(false)]
    pub fn generate_kernel_lookup(&mut self) -> (r: Result<(), ConfigError>)
        ensures
            r is Ok <==> (old(self).config_ok() && 1 <= kernel_total(old(self).kernel,
                old(self).radius as int, old(self).corner_policy)),
            match r {
                Ok(()) => {
                    &&& final(self).kernel_ready()
                    &&& final(self).kernel == old(self).kernel
                    &&& final(self).growth_map == old(self).growth_map
                    &&& final(self).channel_id == old(self).channel_id
                    &&& final(self).matrix_out == old(self).matrix_out
                    &&& final(self).radius == old(self).radius
                    &&& final(self).corner_policy == old(self).corner_policy
                },
                Err(e) => {
                    &&& *final(self) == *old(self)
                    &&& (e == ConfigError::MissingParameters || e == ConfigError::ZeroWidth
                        || e == ConfigError::ParameterOutOfRange
                        || e == ConfigError::CenteredKernelProfile || e == ConfigError::BadRadius
                        || e == ConfigError::ZeroSumKernel)
                    &&& (e == ConfigError::CenteredKernelProfile ==> (old(self).kernel.valid()
                        && old(self).kernel.centering))
                    &&& (e == ConfigError::BadRadius ==> !(1 <= old(self).radius <= RADIUS_LIMIT))
                    &&& (e == ConfigError::ZeroSumKernel ==> (old(self).config_ok()
                        && kernel_total(old(self).kernel, old(self).radius as int,
                            old(self).corner_policy) == 0))
                },
            },
    {
        match self.kernel.check() {
            Ok(()) => {},
            Err(e) => {
                return Err(e);
            },
        }
        if self.kernel.centering {
            return Err(ConfigError::CenteredKernelProfile);
        }
        match self.growth_map.check() {
            Ok(()) => {},
            Err(e) => {
                return Err(e);
            },
        }
        if self.radius < 1 || self.radius > RADIUS_LIMIT {
            return Err(ConfigError::BadRadius);
        }
        let radius: usize = self.radius;
        let side: usize = 2 * radius + 1;
        proof {
            assert(side * side <= 4_004_001) by (nonlinear_arith)
                requires 1 <= side <= 2_001;
        }
        let klen: usize = side * side;
        let ghost rad: int = radius as int;
        let ghost raw_spec: Seq<i64> = kernel_raw_seq(self.kernel, rad, self.corner_policy);

        let mut raw: Vec<i64> = Vec::new();
        let mut k: usize = 0;
        while k < klen
            invariant
                0 <= k <= klen,
                raw@.len() == k,
                forall|j: int| 0 <= j < k ==> #[trigger] raw@[j] == raw_spec[j],
                forall|j: int| 0 <= j < k ==> 0 <= #[trigger] raw@[j] <= SCALE,
            decreases klen - k,
        {
            proof {
                vstd::arithmetic::div_mod::lemma_div_pos_is_pos(k as int, side as int);
                vstd::arithmetic::div_mod::lemma_multiply_divide_lt(
                    k as int, side as int, side as int);
                vstd::arithmetic::div_mod::lemma_mod_bound(k as int, side as int);
            }
            let dy: i64 = (k / side) as i64 - radius as i64;
            let dx: i64 = (k % side) as i64 - radius as i64;
            proof {
                assert(0 <= dx * dx <= (RADIUS_LIMIT as int) * (RADIUS_LIMIT as int))
                    by (nonlinear_arith)
                    requires -(RADIUS_LIMIT as int) <= dx <= RADIUS_LIMIT as int;
                assert(0 <= dy * dy <= (RADIUS_LIMIT as int) * (RADIUS_LIMIT as int))
                    by (nonlinear_arith)
                    requires -(RADIUS_LIMIT as int) <= dy <= RADIUS_LIMIT as int;
                assert(dx * dx <= rad * rad && dy * dy <= rad * rad) by (nonlinear_arith)
                    requires -rad <= dx <= rad, -rad <= dy <= rad;
            }
            let d2: i64 = dx * dx + dy * dy;
            proof {
                assert(d2 == kernel_d2(rad, k as int));
            }
            let masked: bool = match self.corner_policy {
                CornerPolicy::MaskDisk => {
                    proof {
                        assert(0 <= radius * radius <= 1_000_000) by (nonlinear_arith)
                            requires 1 <= radius <= 1_000;
                    }
                    d2 > (radius * radius) as i64
                },
                CornerPolicy::NaturalDecay => false,
            };
            let val: i64 = if masked {
                0
            } else {
                let s: i64 = isqrt(d2 * SCALE * SCALE);
                proof {
                    assert(s <= 1_414_214 * rad) by (nonlinear_arith)
                        requires
                            0 <= s,
                            s * s <= d2 * 1_000_000_000_000,
                            d2 <= rad * rad + rad * rad,
                            1 <= rad <= 1_000;
                    vstd::arithmetic::div_mod::lemma_multiply_divide_le(
                        s as int, rad, 1_414_214);
                    vstd::arithmetic::div_mod::lemma_div_pos_is_pos(s as int, rad);
                }
                let x: i64 = s / (radius as i64);
                self.kernel.calc(x)
            };
            raw.push(val);
            proof {
                assert(raw@[k as int] == raw_spec[k as int]);
            }
            k = k + 1;
        }

        let mut total: i64 = 0;
        let mut k2: usize = 0;
        while k2 < klen
            invariant
                0 <= k2 <= klen,
                total == sum_prefix(raw@, k2 as int),
                0 <= total <= (k2 as int) * (SCALE as int),
            decreases klen - k2,
        {
            proof {
                lemma_sum_prefix_bounds(raw@, k2 as int, 0, SCALE as int);
                lemma_sum_prefix_bounds(raw@, k2 + 1, 0, SCALE as int);
            }
            total = total + raw[k2];
            k2 = k2 + 1;
        }
        proof {
            assert(raw@ =~= raw_spec);
            assert(total == kernel_total(self.kernel, rad, self.corner_policy));
        }
        if total == 0 {
            return Err(ConfigError::ZeroSumKernel);
        }

        let ghost norm_spec: Seq<i64> = kernel_lookup_seq(self.kernel, rad, self.corner_policy);
        let mut lookup: Vec<i64> = Vec::new();
        let mut k3: usize = 0;
        while k3 < klen
            invariant
                0 <= k3 <= klen,
                lookup@.len() == k3,
                forall|j: int| 0 <= j < k3 ==> #[trigger] lookup@[j] == norm_spec[j],
                forall|j: int| 0 <= j < k3 ==> 0 <= #[trigger] lookup@[j] <= KSCALE,
            decreases klen - k3,
        {
            let e: i64 = raw[k3];
            proof {
                lemma_entry_le_total(raw@, k3 as int);
                assert(0 <= e * KSCALE <= total * KSCALE) by (nonlinear_arith)
                    requires 0 <= e <= total, 0 < KSCALE;
                vstd::arithmetic::div_mod::lemma_div_pos_is_pos(e * KSCALE, total as int);
                assert(e * KSCALE <= (total as int) * (KSCALE as int)) by (nonlinear_arith)
                    requires 0 <= e <= total, 0 < KSCALE;
                vstd::arithmetic::div_mod::lemma_multiply_divide_le(
                    e * KSCALE, total as int, KSCALE as int);
            }
            let v: i64 = e * KSCALE / total;
            lookup.push(v);
            k3 = k3 + 1;
        }
        proof {
            assert(lookup@ =~= norm_spec);
            lemma_norm_sum(raw@, lookup@, total as int, KSCALE as int, klen as int);
            assert((total as int) * (KSCALE as int) == (KSCALE as int) * (total as int))
                by (nonlinear_arith);
            vstd::arithmetic::div_mod::lemma_div_multiples_vanish(KSCALE as int, total as int);
        }
        self.kernel_lookup = lookup;
        Ok(())
    }

    /// Overwrites one growth-profile parameter, leaving everything else
    /// (the kernel table included) untouched.
    pub fn set_growth_param(&mut self, idx: usize, v: i64)
        requires
            idx < old(self).growth_map.parameters@.len(),
        ensures
            final(self).growth_map.parameters@
                == old(self).growth_map.parameters@.update(idx as int, v),
            final(self).growth_map.shape == old(self).growth_map.shape,
            final(self).growth_map.centering == old(self).growth_map.centering,
            final(self).kernel == old(self).kernel,
            final(self).kernel_lookup == old(self).kernel_lookup,
            final(self).channel_id == old(self).channel_id,
            final(self).matrix_out == old(self).matrix_out,
            final(self).radius == old(self).radius,
            final(self).corner_policy == old(self).corner_policy,
    {
        self.growth_map.parameters[idx] = v;
    }

    /// The growth contribution of this layer at flat cell index i of its
    /// source channel: the circular convolution mapped through the growth
    /// profile.
    pub open spec fn growth_at(&self, cells: Seq<i64>, width: int, height: int, i: int) -> int {
        let y = i / width;
        let x = i % width;
        self.growth_map.value_at(
            conv_at(cells, width, height, self.kernel_lookup@, self.radius as int, y, x)
                / (KSCALE as int),
        )
    }

    /// One tick of this layer: convolve the source channel with the kernel
    /// table and map every cell through the growth profile. The result is
    /// held in `matrix_out` until the channel reduction reads it; it
    /// carries no cross-tick state.
    #[verifier::loop_isolation(false)]
    pub fn run(&mut self, channel: &Channel)
        requires
            old(self).growth_map.valid(),
            old(self).kernel_ready(),
            kernel_dims_ok(old(self).radius as int, channel.width as int, channel.height as int),
            channel.wf(),
        ensures
            final(self).matrix_out@.len() == channel.width * channel.height,
            forall|i: int| 0 <= i < final(self).matrix_out@.len()
                ==> #[trigger] final(self).matrix_out@[i] == old(self).growth_at(
                    channel.matrix@, channel.width as int, channel.height as int, i),
            entries_in(final(self).matrix_out@, -(SCALE as int), SCALE as int),
            final(self).kernel == old(self).kernel,
            final(self).kernel_lookup == old(self).kernel_lookup,
            final(self).growth_map == old(self).growth_map,
            final(self).channel_id == old(self).channel_id,
            final(self).radius == old(self).radius,
            final(self).corner_policy == old(self).corner_policy,
    {
        let width: usize = channel.width;
        let height: usize = channel.height;
        proof {
            assert(width <= GRID_CELL_LIMIT && height <= GRID_CELL_LIMIT) by (nonlinear_arith)
                requires
                    1 <= width,
                    1 <= height,
                    width * height <= GRID_CELL_LIMIT;
        }
        let area: usize = width * height;
        let mut out: Vec<i64> = Vec::new();
        let mut i: usize = 0;
        while i < area
            invariant
                0 <= i <= area,
                out@.len() == i,
                forall|j: int| 0 <= j < i ==> #[trigger] out@[j] == self.growth_at(
                    channel.matrix@, width as int, height as int, j),
                entries_in(out@, -(SCALE as int), SCALE as int),
                *self == *old(self),
            decreases area - i,
        {
            proof {
                vstd::arithmetic::div_mod::lemma_div_pos_is_pos(i as int, width as int);
                vstd::arithmetic::div_mod::lemma_multiply_divide_lt(
                    i as int, width as int, height as int);
                vstd::arithmetic::div_mod::lemma_mod_bound(i as int, width as int);
            }
            let y: usize = i / width;
            let x: usize = i % width;
            let s: i64 = conv_cell(
                &channel.matrix, width, height, &self.kernel_lookup, self.radius, y, x);
            proof {
                vstd::arithmetic::div_mod::lemma_div_pos_is_pos(s as int, KSCALE as int);
                assert((KSCALE as int) * (SCALE as int) == (SCALE as int) * (KSCALE as int))
                    by (nonlinear_arith);
                vstd::arithmetic::div_mod::lemma_multiply_divide_le(
                    s as int, KSCALE as int, SCALE as int);
            }
            let v: i64 = s / KSCALE;
            let g: i64 = self.growth_map.calc(v);
            out.push(g);
            i = i + 1;
        }
        self.matrix_out = out;
    }
}

/// The accumulator entries stay within `counter` growth contributions.
pub open spec fn acc_entries_ok(out: Seq<i64>, counter: int) -> bool {
    forall|i: int| 0 <= i < out.len()
        ==> -(counter * SCALE) <= #[trigger] out[i] <= counter * SCALE
}

/// The channel update of one cell: average the accumulated growth over
/// the contributing layers, scale by the timestep, integrate and clamp.
pub open spec fn finish_cell(cell: int, acc: int, counter: int, delta: int) -> int {
    clamp_unit_spec(cell + sdiv_spec(sdiv_spec(acc, counter) * delta, SCALE as int))
}

/// One 2D state field with all cells in the unit interval, plus the
/// transient per-tick accumulator of growth contributions.
#[derive(Debug)]
pub struct Channel {
    /// The state field, row-major, every cell in [0, SCALE].
    pub matrix: Vec<i64>,
    pub width: usize,
    pub height: usize,
    /// Transient: sum of the growth contributions of this tick.
    pub matrix_out: Vec<i64>,
    /// Transient: how many layers have contributed this tick.
    pub layer_counter: usize,
}

impl Channel {
    pub open spec fn wf(&self) -> bool {
        &&& grid_dims_ok(self.width as int, self.height as int)
        &&& self.matrix@.len() == self.width * self.height
        &&& entries_in(self.matrix@, 0, SCALE as int)
        &&& self.matrix_out@.len() == self.width * self.height
        &&& self.layer_counter <= LAYER_LIMIT
        &&& acc_entries_ok(self.matrix_out@, self.layer_counter as int)
    }

    /// Between ticks the accumulator is all zero and unclaimed.
    pub open spec fn quiescent(&self) -> bool {
        &&& self.layer_counter == 0
        &&& forall|i: int| 0 <= i < self.matrix_out@.len() ==> #[trigger] self.matrix_out@[i] == 0
    }

    /// Wraps a state field of the given dimensions, rejecting eagerly a
    /// field whose cell count does not match or whose cells leave the unit
    /// interval.
    #[verifier::loop_isolation(false)]
    pub fn new(matrix: Vec<i64>, width: usize, height: usize) -> (r: Result<Channel, ConfigError>)
        ensures
            r is Ok <==> (grid_dims_ok(width as int, height as int)
                && matrix@.len() == width * height && entries_in(matrix@, 0, SCALE as int)),
            match r {
                Ok(ch) => {
                    &&& grid_dims_ok(width as int, height as int)
                    &&& matrix@.len() == width * height
                    &&& entries_in(matrix@, 0, SCALE as int)
                    &&& ch.matrix@ == matrix@
                    &&& ch.width == width
                    &&& ch.height == height
                    &&& ch.wf()
                    &&& ch.quiescent()
                },
                Err(e) => {
                    &&& (e == ConfigError::DimensionMismatch <==> !(grid_dims_ok(width as int,
                        height as int) && matrix@.len() == width * height))
                    &&& (e == ConfigError::CellOutOfRange <==> (grid_dims_ok(width as int,
                        height as int) && matrix@.len() == width * height
                        && !entries_in(matrix@, 0, SCALE as int)))
                },
            },
    {
        if width == 0 || height == 0 || width > GRID_CELL_LIMIT || height > GRID_CELL_LIMIT {
            proof {
                if grid_dims_ok(width as int, height as int) {
                    assert(width <= GRID_CELL_LIMIT && height <= GRID_CELL_LIMIT)
                        by (nonlinear_arith)
                        requires
                            1 <= width,
                            1 <= height,
                            width * height <= GRID_CELL_LIMIT;
                }
            }
            return Err(ConfigError::DimensionMismatch);
        }
        if width > GRID_CELL_LIMIT / height {
            proof {
                vstd::arithmetic::div_mod::lemma_fundamental_div_mod(
                    GRID_CELL_LIMIT as int, height as int);
                vstd::arithmetic::div_mod::lemma_mod_bound(
                    GRID_CELL_LIMIT as int, height as int);
                assert(width * height > GRID_CELL_LIMIT) by (nonlinear_arith)
                    requires
                        width >= (GRID_CELL_LIMIT as int) / (height as int) + 1,
                        ((GRID_CELL_LIMIT as int) / (height as int)) * height
                            > GRID_CELL_LIMIT - height,
                        1 <= height;
            }
            return Err(ConfigError::DimensionMismatch);
        }
        proof {
            vstd::arithmetic::div_mod::lemma_fundamental_div_mod(
                GRID_CELL_LIMIT as int, height as int);
            vstd::arithmetic::div_mod::lemma_mod_bound(GRID_CELL_LIMIT as int, height as int);
            assert(width * height <= GRID_CELL_LIMIT) by (nonlinear_arith)
                requires
                    1 <= width <= (GRID_CELL_LIMIT as int) / (height as int),
                    ((GRID_CELL_LIMIT as int) / (height as int)) * height <= GRID_CELL_LIMIT,
                    1 <= height;
        }
        let area: usize = width * height;
        if matrix.len() != area {
            return Err(ConfigError::DimensionMismatch);
        }
        let mut i: usize = 0;
        while i < area
            invariant
                0 <= i <= area,
                forall|j: int| 0 <= j < i ==> 0 <= #[trigger] matrix@[j] <= SCALE,
            decreases area - i,
        {
            if matrix[i] < 0 || matrix[i] > SCALE {
                proof {
                    assert(!(0 <= matrix@[i as int] <= SCALE));
                }
                return Err(ConfigError::CellOutOfRange);
            }
            i = i + 1;
        }
        let mut out: Vec<i64> = Vec::new();
        let mut k: usize = 0;
        while k < area
            invariant
                0 <= k <= area,
                out@.len() == k,
                forall|j: int| 0 <= j < k ==> #[trigger] out@[j] == 0,
            decreases area - k,
        {
            out.push(0);
            k = k + 1;
        }
        Ok(Channel { matrix, width, height, matrix_out: out, layer_counter: 0 })
    }

    /// Re-derives the transient scratch: a zero accumulator with no
    /// contributors.
    #[verifier::loop_isolation(false)]
    pub fn reset(&mut self)
        ensures
            final(self).matrix == old(self).matrix,
            final(self).width == old(self).width,
            final(self).height == old(self).height,
            final(self).layer_counter == 0,
            final(self).matrix_out@.len() == old(self).matrix@.len(),
            forall|i: int| 0 <= i < final(self).matrix_out@.len()
                ==> #[trigger] final(self).matrix_out@[i] == 0,
    {
        let area: usize = self.matrix.len();
        let mut z: Vec<i64> = Vec::new();
        let mut k: usize = 0;
        while k < area
            invariant
                0 <= k <= area,
                z@.len() == k,
                forall|j: int| 0 <= j < k ==> #[trigger] z@[j] == 0,
            decreases area - k,
        {
            z.push(0);
            k = k + 1;
        }
        self.matrix_out = z;
        self.layer_counter = 0;
    }

    /// Adds one layer's growth contribution into the accumulator and
    /// counts the contributor.
    #[verifier::loop_isolation(false)]
    pub fn accumulate(&mut self, contribution: &Vec<i64>)
        requires
            old(self).wf(),
            old(self).layer_counter < LAYER_LIMIT,
            contribution@.len() == old(self).width * old(self).height,
            entries_in(contribution@, -(SCALE as int), SCALE as int),
        ensures
            final(self).wf(),
            final(self).matrix == old(self).matrix,
            final(self).width == old(self).width,
            final(self).height == old(self).height,
            final(self).layer_counter == old(self).layer_counter + 1,
            final(self).matrix_out@.len() == old(self).matrix_out@.len(),
            forall|i: int| 0 <= i < final(self).matrix_out@.len()
                ==> #[trigger] final(self).matrix_out@[i]
                    == old(self).matrix_out@[i] + contribution@[i],
    {
        let ghost cnt: int = self.layer_counter as int;
        let area: usize = self.matrix_out.len();
        let mut i: usize = 0;
        while i < area
            invariant
                0 <= i <= area,
                self.matrix_out@.len() == area,
                self.matrix == old(self).matrix,
                self.width == old(self).width,
                self.height == old(self).height,
                self.layer_counter == old(self).layer_counter,
                forall|j: int| 0 <= j < i ==> #[trigger] self.matrix_out@[j]
                    == old(self).matrix_out@[j] + contribution@[j],
                forall|j: int| i <= j < area ==> #[trigger] self.matrix_out@[j]
                    == old(self).matrix_out@[j],
            decreases area - i,
        {
            proof {
                assert(-(cnt * SCALE) <= old(self).matrix_out@[i as int] <= cnt * SCALE);
                assert(cnt * SCALE + SCALE == (cnt + 1) * SCALE) by (nonlinear_arith);
                assert(cnt * SCALE <= (LAYER_LIMIT as int) * (SCALE as int)) by (nonlinear_arith)
                    requires 0 <= cnt <= LAYER_LIMIT as int;
            }
            let v: i64 = self.matrix_out[i] + contribution[i];
            self.matrix_out[i] = v;
            i = i + 1;
        }
        proof {
            assert((cnt + 1) * SCALE == cnt * SCALE + SCALE) by (nonlinear_arith);
        }
        self.layer_counter = self.layer_counter + 1;
    }

    /// Ends the tick for this channel: divide the accumulator by the
    /// number of contributors (an arithmetic mean, so adding layers does
    /// not amplify), scale by the timestep, integrate into the state and
    /// clamp every cell back into the unit interval, then zero the
    /// accumulator for the next tick. A channel no layer contributed to is
    /// left frozen.
    #[verifier::loop_isolation(false)]
    pub fn finish(&mut self, delta: i64)
        requires
            old(self).wf(),
            1 <= delta <= SCALE,
        ensures
            final(self).wf(),
            final(self).quiescent(),
            final(self).width == old(self).width,
            final(self).height == old(self).height,
            final(self).matrix@.len() == old(self).matrix@.len(),
            old(self).layer_counter == 0 ==> final(self).matrix@ == old(self).matrix@,
            old(self).layer_counter >= 1 ==> forall|i: int| 0 <= i < final(self).matrix@.len()
                ==> #[trigger] final(self).matrix@[i] == finish_cell(old(self).matrix@[i] as int,
                    old(self).matrix_out@[i] as int, old(self).layer_counter as int, delta as int),
    {
        if self.layer_counter == 0 {
            proof {
                assert forall|i: int| 0 <= i < self.matrix_out@.len()
                    implies #[trigger] self.matrix_out@[i] == 0 by {
                    assert(-(0 * (SCALE as int)) <= self.matrix_out@[i] <= 0 * (SCALE as int));
                    assert(0 * (SCALE as int) == 0) by (nonlinear_arith);
                }
            }
            return;
        }
        let cnt: i64 = self.layer_counter as i64;
        let ghost cnti: int = cnt as int;
        let area: usize = self.matrix.len();
        let mut i: usize = 0;
        while i < area
            invariant
                0 <= i <= area,
                self.matrix@.len() == area,
                self.matrix_out@.len() == old(self).matrix_out@.len(),
                self.width == old(self).width,
                self.height == old(self).height,
                self.layer_counter == old(self).layer_counter,
                forall|j: int| 0 <= j < i ==> #[trigger] self.matrix@[j] == finish_cell(
                    old(self).matrix@[j] as int, old(self).matrix_out@[j] as int, cnti, delta as int),
                forall|j: int| 0 <= j < i ==> 0 <= #[trigger] self.matrix@[j] <= SCALE,
                forall|j: int| i <= j < area ==> #[trigger] self.matrix@[j]
                    == old(self).matrix@[j],
                forall|j: int| 0 <= j < i ==> #[trigger] self.matrix_out@[j] == 0,
                forall|j: int| i <= j < old(self).matrix_out@.len()
                    ==> #[trigger] self.matrix_out@[j] == old(self).matrix_out@[j],
            decreases area - i,
        {
            let acc: i64 = self.matrix_out[i];
            proof {
                assert(-(cnti * SCALE) <= acc <= cnti * SCALE);
                assert(cnti * SCALE <= (LAYER_LIMIT as int) * (SCALE as int)) by (nonlinear_arith)
                    requires 1 <= cnti <= LAYER_LIMIT as int;
            }
            let avg: i64 = sdiv(acc, cnt);
            proof {
                if acc >= 0 {
                    vstd::arithmetic::div_mod::lemma_multiply_divide_le(
                        acc as int, cnti, SCALE as int);
                } else {
                    vstd::arithmetic::div_mod::lemma_multiply_divide_le(
                        -(acc as int), cnti, SCALE as int);
                }
                assert(-(SCALE as int) <= avg <= SCALE);
                assert(-(SCALE as int) * (SCALE as int) <= avg * delta
                    <= (SCALE as int) * (SCALE as int)) by (nonlinear_arith)
                    requires -(SCALE as int) <= avg <= SCALE, 1 <= delta <= SCALE;
            }
            let scaled: i64 = sdiv(avg * delta, SCALE);
            let v: i64 = clamp_unit(self.matrix[i] + scaled);
            self.matrix[i] = v;
            self.matrix_out[i] = 0;
            i = i + 1;
        }
        self.layer_counter = 0;
    }
}

/// The growth contribution of layer l at flat cell index i, read from the
/// layer's source channel.
pub open spec fn layer_growth(eco: Eco, l: int, i: int) -> int {
    eco.layers@[l].growth_at(
        eco.channels@[eco.layers@[l].channel_id as int].matrix@,
        eco.size.0 as int,
        eco.size.1 as int,
        i,
    )
}

/// The accumulated growth at cell i after the first l layers have
/// contributed. Every layer contributes to every channel, so the
/// accumulator is the same for each channel.
pub open spec fn acc_at(eco: Eco, i: int, l: int) -> int
    decreases l,
{
    if l <= 0 {
        0
    } else {
        acc_at(eco, i, l - 1) + layer_growth(eco, l - 1, i)
    }
}

/// The next state of cell i of channel c: the accumulated growth averaged
/// over the layers, scaled by the timestep, integrated and clamped. With
/// no layers the channel is frozen.
pub open spec fn next_cell(eco: Eco, c: int, i: int) -> int {
    let n = eco.layers@.len() as int;
    if n == 0 {
        eco.channels@[c].matrix@[i] as int
    } else {
        finish_cell(eco.channels@[c].matrix@[i] as int, acc_at(eco, i, n), n, eco.delta as int)
    }
}

/// The next state of channel c's whole field.
pub open spec fn next_matrix(eco: Eco, c: int) -> Seq<i64> {
    Seq::new(eco.channels@[c].matrix@.len(), |i: int| next_cell(eco, c, i) as i64)
}

/// The mean of a sequence of cells, rounded down.
pub open spec fn mean_of(s: Seq<i64>) -> int {
    seq_total(s) / (s.len() as int)
}

/// Sum of the means of the first c next-state channel fields.
pub open spec fn fit_sum(eco: Eco, c: int) -> int
    decreases c,
{
    if c <= 0 {
        0
    } else {
        fit_sum(eco, c - 1) + mean_of(next_matrix(eco, c - 1))
    }
}

/// The aggregate fitness after a tick: the mean over channels of the mean
/// cell value, a health signal for the autotuner, not a conserved
/// quantity.
pub open spec fn next_fitness(eco: Eco) -> int {
    fit_sum(eco, eco.channels@.len() as int) / (eco.channels@.len() as int)
}

/// The channels' state fields, one sequence per channel.
pub open spec fn fields_of(eco: Eco) -> Seq<Seq<i64>> {
    Seq::new(eco.channels@.len(), |c: int| eco.channels@[c].matrix@)
}

/// The growth contribution of layer l at cell i, over explicitly given
/// fields: the tick's transition with the static configuration (layers,
/// timestep, dimensions) taken from `eco`, so it can be iterated.
pub open spec fn layer_growth_on(eco: Eco, fields: Seq<Seq<i64>>, l: int, i: int) -> int {
    eco.layers@[l].growth_at(
        fields[eco.layers@[l].channel_id as int],
        eco.size.0 as int,
        eco.size.1 as int,
        i,
    )
}

/// The accumulated growth at cell i after the first l layers, over
/// explicitly given fields.
pub open spec fn acc_on(eco: Eco, fields: Seq<Seq<i64>>, i: int, l: int) -> int
    decreases l,
{
    if l <= 0 {
        0
    } else {
        acc_on(eco, fields, i, l - 1) + layer_growth_on(eco, fields, l - 1, i)
    }
}

/// The next state of cell i of channel c, over explicitly given fields.
pub open spec fn next_cell_on(eco: Eco, fields: Seq<Seq<i64>>, c: int, i: int) -> int {
    let n = eco.layers@.len() as int;
    if n == 0 {
        fields[c][i] as int
    } else {
        finish_cell(fields[c][i] as int, acc_on(eco, fields, i, n), n, eco.delta as int)
    }
}

/// One whole tick on the fields alone.
pub open spec fn next_fields(eco: Eco, fields: Seq<Seq<i64>>) -> Seq<Seq<i64>> {
    Seq::new(fields.len(), |c: int|
        Seq::new(fields[c].len(), |i: int| next_cell_on(eco, fields, c, i) as i64))
}

/// `n` ticks on the fields alone.
pub open spec fn iter_fields(eco: Eco, fields: Seq<Seq<i64>>, n: nat) -> Seq<Seq<i64>>
    decreases n,
{
    if n == 0 {
        fields
    } else {
        iter_fields(eco, next_fields(eco, fields), (n - 1) as nat)
    }
}

/// Over the ecosystem's own fields, the explicit-field transition agrees
/// with `next_matrix`.
pub proof fn lemma_next_matrix_on_fields(eco: Eco, c: int)
    requires
        eco.ready(),
        0 <= c < eco.channels@.len(),
    ensures
        next_fields(eco, fields_of(eco))[c] == next_matrix(eco, c),
{
    assert forall|i: int, l: int| 0 <= l <= eco.layers@.len() && 0 <= i
        implies #[trigger] acc_on(eco, fields_of(eco), i, l) == acc_at(eco, i, l) by {
        lemma_acc_on_eq(eco, i, l);
    }
    assert(next_fields(eco, fields_of(eco))[c] =~= next_matrix(eco, c));
}

proof fn lemma_acc_on_eq(eco: Eco, i: int, l: int)
    requires
        eco.ready(),
        0 <= l <= eco.layers@.len(),
    ensures
        acc_on(eco, fields_of(eco), i, l) == acc_at(eco, i, l),
    decreases l,
{
    if l > 0 {
        lemma_acc_on_eq(eco, i, l - 1);
    }
}

/// The ecosystem: all channels and layers, the global timestep, and the
/// tick bookkeeping (cycle counter and fitness).
#[derive(Debug)]
pub struct Eco {
    pub channels: Vec<Channel>,
    pub layers: Vec<Layer>,
    /// Global timestep in (0, SCALE], applied to the averaged growth.
    pub delta: i64,
    /// Grid dimensions (width, height) shared by every channel.
    pub size: (usize, usize),
    /// How many ticks this configuration has survived.
    pub cycles: usize,
    /// Aggregate health scalar, recomputed every tick.
    pub fitness: i64,
}

impl Eco {
    /// The configuration that `init` accepts: consistent dimensions,
    /// valid profiles, in-range cells, and a normalizable kernel for
    /// every layer.
    pub open spec fn config_valid(&self) -> bool {
        &&& 1 <= self.channels@.len() <= CHANNEL_LIMIT
        &&& self.layers@.len() <= LAYER_LIMIT
        &&& 1 <= self.delta <= SCALE
        &&& grid_dims_ok(self.size.0 as int, self.size.1 as int)
        &&& forall|c: int| 0 <= c < self.channels@.len() ==> {
            &&& (#[trigger] self.channels@[c]).width == self.size.0
            &&& self.channels@[c].height == self.size.1
            &&& self.channels@[c].matrix@.len() == self.size.0 * self.size.1
            &&& entries_in(self.channels@[c].matrix@, 0, SCALE as int)
        }
        &&& forall|l: int| 0 <= l < self.layers@.len() ==> {
            &&& (#[trigger] self.layers@[l]).config_ok()
            &&& self.layers@[l].channel_id < self.channels@.len()
            &&& kernel_dims_ok(self.layers@[l].radius as int, self.size.0 as int,
                self.size.1 as int)
            &&& 1 <= kernel_total(self.layers@[l].kernel, self.layers@[l].radius as int,
                self.layers@[l].corner_policy)
        }
    }

    /// An initialized ecosystem, fit to tick: valid configuration, every
    /// kernel table derived, every accumulator quiescent.
    pub open spec fn ready(&self) -> bool {
        &&& self.config_valid()
        &&& forall|c: int| 0 <= c < self.channels@.len() ==> {
            &&& (#[trigger] self.channels@[c]).wf()
            &&& self.channels@[c].quiescent()
        }
        &&& forall|l: int| 0 <= l < self.layers@.len()
            ==> (#[trigger] self.layers@[l]).kernel_ready()
    }

    /// Assembles an ecosystem. Validation and kernel derivation happen in
    /// `init`, which must run before the first tick.
    pub fn new(
        size: (usize, usize), delta: i64, cycles: usize, channels: Vec<Channel>,
        layers: Vec<Layer>,
    ) -> (eco: Eco)
        ensures
            eco.channels == channels,
            eco.layers == layers,
            eco.delta == delta,
            eco.size == size,
            eco.cycles == cycles,
            eco.fitness == 0,
    {
        Eco { channels, layers, delta, size, cycles, fitness: 0 }
    }

    /// Validates the whole configuration and derives every layer's kernel
    /// table; re-derives the channels' transient accumulators. Succeeds
    /// exactly on valid configurations; a failure reports the first fault
    /// found and leaves every channel's state field untouched.
    #[verifier::loop_isolation(false)]
    pub fn init(&mut self) -> (r: Result<(), ConfigError>)
        ensures
            r is Ok <==> old(self).config_valid(),
            final(self).channels@.len() == old(self).channels@.len(),
            forall|c: int| 0 <= c < final(self).channels@.len() ==> {
                &&& (#[trigger] final(self).channels@[c]).matrix@
                    == old(self).channels@[c].matrix@
                &&& final(self).channels@[c].width == old(self).channels@[c].width
                &&& final(self).channels@[c].height == old(self).channels@[c].height
            },
            final(self).layers@.len() == old(self).layers@.len(),
            forall|l: int| 0 <= l < final(self).layers@.len() ==> {
                &&& (#[trigger] final(self).layers@[l]).kernel == old(self).layers@[l].kernel
                &&& final(self).layers@[l].growth_map == old(self).layers@[l].growth_map
                &&& final(self).layers@[l].channel_id == old(self).layers@[l].channel_id
                &&& final(self).layers@[l].radius == old(self).layers@[l].radius
                &&& final(self).layers@[l].corner_policy == old(self).layers@[l].corner_policy
            },
            final(self).delta == old(self).delta,
            final(self).size == old(self).size,
            final(self).cycles == old(self).cycles,
            final(self).fitness == old(self).fitness,
            r is Ok ==> final(self).ready(),
            match r {
                Ok(()) => true,
                Err(e) => {
                    &&& (e == ConfigError::NoChannels <==> old(self).channels@.len() == 0)
                    &&& (e == ConfigError::TooManyChannels
                        <==> old(self).channels@.len() > CHANNEL_LIMIT)
                    &&& (e == ConfigError::TooManyLayers
                        <==> (1 <= old(self).channels@.len() <= CHANNEL_LIMIT
                            && old(self).layers@.len() > LAYER_LIMIT))
                    &&& (e == ConfigError::BadDelta
                        <==> (1 <= old(self).channels@.len() <= CHANNEL_LIMIT
                            && old(self).layers@.len() <= LAYER_LIMIT
                            && !(1 <= old(self).delta <= SCALE)))
                    &&& (e == ConfigError::DimensionMismatch
                        ==> (!grid_dims_ok(old(self).size.0 as int, old(self).size.1 as int)
                            || exists|c: int| 0 <= c < old(self).channels@.len()
                                && !((#[trigger] old(self).channels@[c]).width
                                        == old(self).size.0
                                    && old(self).channels@[c].height == old(self).size.1
                                    && old(self).channels@[c].matrix@.len()
                                        == old(self).size.0 * old(self).size.1)))
                    &&& (e == ConfigError::CellOutOfRange
                        ==> exists|c: int| 0 <= c < old(self).channels@.len()
                            && !entries_in((#[trigger] old(self).channels@[c]).matrix@, 0,
                                SCALE as int))
                    &&& (e == ConfigError::BadChannelRef
                        ==> exists|l: int| 0 <= l < old(self).layers@.len()
                            && (#[trigger] old(self).layers@[l]).channel_id
                                >= old(self).channels@.len())
                    &&& (e == ConfigError::BadRadius
                        ==> exists|l: int| 0 <= l < old(self).layers@.len()
                            && !(1 <= (#[trigger] old(self).layers@[l]).radius <= RADIUS_LIMIT
                                && kernel_dims_ok(old(self).layers@[l].radius as int,
                                    old(self).size.0 as int, old(self).size.1 as int)))
                    &&& (e == ConfigError::ZeroSumKernel
                        ==> exists|l: int| 0 <= l < old(self).layers@.len()
                            && (#[trigger] old(self).layers@[l]).config_ok()
                            && kernel_total(old(self).layers@[l].kernel,
                                old(self).layers@[l].radius as int,
                                old(self).layers@[l].corner_policy) == 0)
                },
            },
    {
        if self.channels.len() == 0 {
            return Err(ConfigError::NoChannels);
        }
        if self.channels.len() > CHANNEL_LIMIT {
            return Err(ConfigError::TooManyChannels);
        }
        if self.layers.len() > LAYER_LIMIT {
            return Err(ConfigError::TooManyLayers);
        }
        if self.delta < 1 || self.delta > SCALE {
            return Err(ConfigError::BadDelta);
        }
        let width: usize = self.size.0;
        let height: usize = self.size.1;
        if width == 0 || height == 0 || width > GRID_CELL_LIMIT || height > GRID_CELL_LIMIT {
            proof {
                if grid_dims_ok(width as int, height as int) {
                    assert(width <= GRID_CELL_LIMIT && height <= GRID_CELL_LIMIT)
                        by (nonlinear_arith)
                        requires
                            1 <= width,
                            1 <= height,
                            width * height <= GRID_CELL_LIMIT;
                }
            }
            return Err(ConfigError::DimensionMismatch);
        }
        if width > GRID_CELL_LIMIT / height {
            proof {
                vstd::arithmetic::div_mod::lemma_fundamental_div_mod(
                    GRID_CELL_LIMIT as int, height as int);
                vstd::arithmetic::div_mod::lemma_mod_bound(
                    GRID_CELL_LIMIT as int, height as int);
                assert(width * height > GRID_CELL_LIMIT) by (nonlinear_arith)
                    requires
                        width >= (GRID_CELL_LIMIT as int) / (height as int) + 1,
                        ((GRID_CELL_LIMIT as int) / (height as int)) * height
                            > GRID_CELL_LIMIT - height,
                        1 <= height;
            }
            return Err(ConfigError::DimensionMismatch);
        }
        proof {
            vstd::arithmetic::div_mod::lemma_fundamental_div_mod(
                GRID_CELL_LIMIT as int, height as int);
            vstd::arithmetic::div_mod::lemma_mod_bound(GRID_CELL_LIMIT as int, height as int);
            assert(width * height <= GRID_CELL_LIMIT) by (nonlinear_arith)
                requires
                    1 <= width <= (GRID_CELL_LIMIT as int) / (height as int),
                    ((GRID_CELL_LIMIT as int) / (height as int)) * height <= GRID_CELL_LIMIT,
                    1 <= height;
        }
        let area: usize = width * height;

        let mut c: usize = 0;
        while c < self.channels.len()
            invariant
                0 <= c <= self.channels@.len(),
                self.channels@.len() == old(self).channels@.len(),
                forall|j: int| 0 <= j < self.channels@.len() ==> {
                    &&& (#[trigger] self.channels@[j]).matrix@ == old(self).channels@[j].matrix@
                    &&& self.channels@[j].width == old(self).channels@[j].width
                    &&& self.channels@[j].height == old(self).channels@[j].height
                },
                self.layers == old(self).layers,
                self.delta == old(self).delta,
                self.size == old(self).size,
                self.cycles == old(self).cycles,
                self.fitness == old(self).fitness,
                forall|j: int| 0 <= j < c ==> {
                    &&& (#[trigger] self.channels@[j]).wf()
                    &&& self.channels@[j].quiescent()
                    &&& self.channels@[j].width == width
                    &&& self.channels@[j].height == height
                },
            decreases self.channels@.len() - c,
        {
            if self.channels[c].width != width || self.channels[c].height != height {
                proof {
                    assert(!((old(self).channels@[c as int].width == old(self).size.0)
                        && old(self).channels@[c as int].height == old(self).size.1));
                }
                return Err(ConfigError::DimensionMismatch);
            }
            if self.channels[c].matrix.len() != area {
                proof {
                    assert(old(self).channels@[c as int].matrix@.len()
                        != old(self).size.0 * old(self).size.1);
                }
                return Err(ConfigError::DimensionMismatch);
            }
            let mut i: usize = 0;
            while i < area
                invariant
                    0 <= i <= area,
                    c < self.channels@.len(),
                    self.channels@[c as int].matrix@.len() == area,
                    forall|j: int| 0 <= j < i
                        ==> 0 <= #[trigger] self.channels@[c as int].matrix@[j] <= SCALE,
                decreases area - i,
            {
                let v: i64 = self.channels[c].matrix[i];
                if v < 0 || v > SCALE {
                    proof {
                        assert(!(0 <= self.channels@[c as int].matrix@[i as int] <= SCALE));
                        assert(!entries_in(old(self).channels@[c as int].matrix@, 0,
                            SCALE as int));
                    }
                    return Err(ConfigError::CellOutOfRange);
                }
                i = i + 1;
            }
            self.channels[c].reset();
            c = c + 1;
        }

        let mut l: usize = 0;
        while l < self.layers.len()
            invariant
                0 <= l <= self.layers@.len(),
                self.channels@.len() == old(self).channels@.len(),
                forall|j: int| 0 <= j < self.channels@.len() ==> {
                    &&& (#[trigger] self.channels@[j]).matrix@ == old(self).channels@[j].matrix@
                    &&& self.channels@[j].width == old(self).channels@[j].width
                    &&& self.channels@[j].height == old(self).channels@[j].height
                },
                forall|j: int| 0 <= j < self.channels@.len() ==> {
                    &&& (#[trigger] self.channels@[j]).wf()
                    &&& self.channels@[j].quiescent()
                    &&& self.channels@[j].width == width
                    &&& self.channels@[j].height == height
                },
                self.layers@.len() == old(self).layers@.len(),
                forall|j: int| 0 <= j < self.layers@.len() ==> {
                    &&& (#[trigger] self.layers@[j]).kernel == old(self).layers@[j].kernel
                    &&& self.layers@[j].growth_map == old(self).layers@[j].growth_map
                    &&& self.layers@[j].channel_id == old(self).layers@[j].channel_id
                    &&& self.layers@[j].radius == old(self).layers@[j].radius
                    &&& self.layers@[j].corner_policy == old(self).layers@[j].corner_policy
                },
                self.delta == old(self).delta,
                self.size == old(self).size,
                self.cycles == old(self).cycles,
                self.fitness == old(self).fitness,
                forall|j: int| 0 <= j < l ==> {
                    &&& (#[trigger] self.layers@[j]).config_ok()
                    &&& self.layers@[j].kernel_ready()
                    &&& self.layers@[j].channel_id < self.channels@.len()
                    &&& kernel_dims_ok(self.layers@[j].radius as int, width as int,
                        height as int)
                    &&& 1 <= kernel_total(self.layers@[j].kernel, self.layers@[j].radius as int,
                        self.layers@[j].corner_policy)
                },
            decreases self.layers@.len() - l,
        {
            if self.layers[l].channel_id >= self.channels.len() {
                proof {
                    assert(old(self).layers@[l as int].channel_id
                        >= old(self).channels@.len());
                }
                return Err(ConfigError::BadChannelRef);
            }
            if self.layers[l].radius < 1 || self.layers[l].radius >= width
                || self.layers[l].radius >= height {
                proof {
                    assert(!(1 <= (old(self).layers@[l as int]).radius <= RADIUS_LIMIT
                        && kernel_dims_ok(old(self).layers@[l as int].radius as int,
                            old(self).size.0 as int, old(self).size.1 as int)));
                }
                return Err(ConfigError::BadRadius);
            }
            let ghost pre_layer: Layer = self.layers@[l as int];
            match self.layers[l].generate_kernel_lookup() {
                Ok(()) => {},
                Err(e) => {
                    proof {
                        if e == ConfigError::BadRadius {
                            assert(!(1 <= (old(self).layers@[l as int]).radius
                                <= RADIUS_LIMIT));
                        }
                        if e == ConfigError::ZeroSumKernel {
                            assert(pre_layer.config_ok());
                            assert(old(self).layers@[l as int].config_ok());
                            assert(kernel_total(old(self).layers@[l as int].kernel,
                                old(self).layers@[l as int].radius as int,
                                old(self).layers@[l as int].corner_policy) == 0);
                        }
                    }
                    return Err(e);
                },
            }
            l = l + 1;
        }
        proof {
            assert forall|j: int| 0 <= j < old(self).channels@.len() implies {
                &&& (#[trigger] old(self).channels@[j]).width == old(self).size.0
                &&& old(self).channels@[j].height == old(self).size.1
                &&& old(self).channels@[j].matrix@.len() == old(self).size.0 * old(self).size.1
                &&& entries_in(old(self).channels@[j].matrix@, 0, SCALE as int)
            } by {
                assert(self.channels@[j].wf());
                assert(self.channels@[j].matrix@ == old(self).channels@[j].matrix@);
            }
            assert forall|j: int| 0 <= j < old(self).layers@.len() implies {
                &&& (#[trigger] old(self).layers@[j]).config_ok()
                &&& old(self).layers@[j].channel_id < old(self).channels@.len()
                &&& kernel_dims_ok(old(self).layers@[j].radius as int, old(self).size.0 as int,
                    old(self).size.1 as int)
                &&& 1 <= kernel_total(old(self).layers@[j].kernel,
                    old(self).layers@[j].radius as int, old(self).layers@[j].corner_policy)
            } by {
                assert(self.layers@[j].config_ok());
                assert(old(self).layers@[j].kernel == self.layers@[j].kernel);
                assert(old(self).layers@[j].growth_map == self.layers@[j].growth_map);
            }
            assert(old(self).config_valid());
        }
        Ok(())
    }

    /// One simulation tick. Phase 1 runs every layer on its source
    /// channel; phase 2 reduces every layer's contribution into every
    /// channel and finishes it; then the cycle counter advances and the
    /// fitness is recomputed. The whole new state is a function of the
    /// old state alone, so identically constructed ecosystems stay
    /// bitwise identical tick after tick.
    #[verifier::loop_isolation(false)]
    pub fn evaluate(&mut self)
        requires
            old(self).ready(),
            old(self).cycles < usize::MAX,
        ensures
            final(self).ready(),
            final(self).channels@.len() == old(self).channels@.len(),
            forall|c: int| 0 <= c < final(self).channels@.len() ==> {
                &&& (#[trigger] final(self).channels@[c]).matrix@ == next_matrix(*old(self), c)
                &&& final(self).channels@[c].width == old(self).channels@[c].width
                &&& final(self).channels@[c].height == old(self).channels@[c].height
                &&& final(self).channels@[c].quiescent()
            },
            final(self).layers@.len() == old(self).layers@.len(),
            forall|l: int| 0 <= l < final(self).layers@.len() ==> {
                &&& (#[trigger] final(self).layers@[l]).kernel == old(self).layers@[l].kernel
                &&& final(self).layers@[l].kernel_lookup == old(self).layers@[l].kernel_lookup
                &&& final(self).layers@[l].growth_map == old(self).layers@[l].growth_map
                &&& final(self).layers@[l].channel_id == old(self).layers@[l].channel_id
                &&& final(self).layers@[l].radius == old(self).layers@[l].radius
                &&& final(self).layers@[l].corner_policy == old(self).layers@[l].corner_policy
                &&& final(self).layers@[l].matrix_out@.len() == old(self).size.0
                    * old(self).size.1
                &&& forall|i: int| 0 <= i < final(self).layers@[l].matrix_out@.len()
                    ==> #[trigger] final(self).layers@[l].matrix_out@[i]
                        == layer_growth(*old(self), l, i)
            },
            final(self).delta == old(self).delta,
            final(self).size == old(self).size,
            final(self).cycles == old(self).cycles + 1,
            final(self).fitness == next_fitness(*old(self)),
            fields_of(*final(self)) == next_fields(*old(self), fields_of(*old(self))),
    {
        let ghost old_eco: Eco = *old(self);
        let width: usize = self.size.0;
        let height: usize = self.size.1;
        proof {
            assert(width <= GRID_CELL_LIMIT && height <= GRID_CELL_LIMIT) by (nonlinear_arith)
                requires
                    1 <= width,
                    1 <= height,
                    width * height <= GRID_CELL_LIMIT;
        }
        let area: usize = width * height;
        let nlayers: usize = self.layers.len();
        let nch: usize = self.channels.len();

        let mut l: usize = 0;
        while l < nlayers
            invariant
                0 <= l <= nlayers,
                self.layers@.len() == nlayers,
                self.channels == old_eco.channels,
                self.delta == old_eco.delta,
                self.size == old_eco.size,
                self.cycles == old_eco.cycles,
                self.fitness == old_eco.fitness,
                forall|j: int| l <= j < nlayers
                    ==> #[trigger] self.layers@[j] == old_eco.layers@[j],
                forall|j: int| 0 <= j < nlayers ==> {
                    &&& (#[trigger] self.layers@[j]).kernel == old_eco.layers@[j].kernel
                    &&& self.layers@[j].kernel_lookup == old_eco.layers@[j].kernel_lookup
                    &&& self.layers@[j].growth_map == old_eco.layers@[j].growth_map
                    &&& self.layers@[j].channel_id == old_eco.layers@[j].channel_id
                    &&& self.layers@[j].radius == old_eco.layers@[j].radius
                    &&& self.layers@[j].corner_policy == old_eco.layers@[j].corner_policy
                },
                forall|j: int| 0 <= j < l ==> {
                    &&& (#[trigger] self.layers@[j]).matrix_out@.len() == area
                    &&& entries_in(self.layers@[j].matrix_out@, -(SCALE as int), SCALE as int)
                    &&& forall|i: int| 0 <= i < area
                        ==> #[trigger] self.layers@[j].matrix_out@[i]
                            == layer_growth(old_eco, j, i)
                },
            decreases nlayers - l,
        {
            let cid: usize = self.layers[l].channel_id;
            self.layers[l].run(&self.channels[cid]);
            l = l + 1;
        }

        let mut c: usize = 0;
        while c < nch
            invariant
                0 <= c <= nch,
                self.channels@.len() == nch,
                self.layers@.len() == nlayers,
                self.delta == old_eco.delta,
                self.size == old_eco.size,
                self.cycles == old_eco.cycles,
                self.fitness == old_eco.fitness,
                forall|j: int| 0 <= j < nlayers ==> {
                    &&& (#[trigger] self.layers@[j]).kernel == old_eco.layers@[j].kernel
                    &&& self.layers@[j].kernel_lookup == old_eco.layers@[j].kernel_lookup
                    &&& self.layers@[j].growth_map == old_eco.layers@[j].growth_map
                    &&& self.layers@[j].channel_id == old_eco.layers@[j].channel_id
                    &&& self.layers@[j].radius == old_eco.layers@[j].radius
                    &&& self.layers@[j].corner_policy == old_eco.layers@[j].corner_policy
                    &&& self.layers@[j].matrix_out@.len() == area
                    &&& entries_in(self.layers@[j].matrix_out@, -(SCALE as int), SCALE as int)
                    &&& forall|i: int| 0 <= i < area
                        ==> #[trigger] self.layers@[j].matrix_out@[i]
                            == layer_growth(old_eco, j, i)
                },
                forall|j: int| c <= j < nch
                    ==> #[trigger] self.channels@[j] == old_eco.channels@[j],
                forall|j: int| 0 <= j < c ==> {
                    &&& (#[trigger] self.channels@[j]).wf()
                    &&& self.channels@[j].quiescent()
                    &&& self.channels@[j].width == old_eco.channels@[j].width
                    &&& self.channels@[j].height == old_eco.channels@[j].height
                    &&& self.channels@[j].matrix@ == next_matrix(old_eco, j)
                },
            decreases nch - c,
        {
            let ghost ch0: Channel = self.channels@[c as int];
            let mut l2: usize = 0;
            while l2 < nlayers
                invariant
                    0 <= l2 <= nlayers,
                    self.channels@.len() == nch,
                    c < nch,
                    self.layers@.len() == nlayers,
                    self.delta == old_eco.delta,
                    self.size == old_eco.size,
                    self.cycles == old_eco.cycles,
                    self.fitness == old_eco.fitness,
                    forall|j: int| 0 <= j < nlayers ==> {
                        &&& (#[trigger] self.layers@[j]).kernel == old_eco.layers@[j].kernel
                        &&& self.layers@[j].kernel_lookup == old_eco.layers@[j].kernel_lookup
                        &&& self.layers@[j].growth_map == old_eco.layers@[j].growth_map
                        &&& self.layers@[j].channel_id == old_eco.layers@[j].channel_id
                        &&& self.layers@[j].radius == old_eco.layers@[j].radius
                        &&& self.layers@[j].corner_policy == old_eco.layers@[j].corner_policy
                        &&& self.layers@[j].matrix_out@.len() == area
                        &&& entries_in(self.layers@[j].matrix_out@, -(SCALE as int),
                            SCALE as int)
                        &&& forall|i: int| 0 <= i < area
                            ==> #[trigger] self.layers@[j].matrix_out@[i]
                                == layer_growth(old_eco, j, i)
                    },
                    forall|j: int| c < j < nch
                        ==> #[trigger] self.channels@[j] == old_eco.channels@[j],
                    forall|j: int| 0 <= j < c ==> {
                        &&& (#[trigger] self.channels@[j]).wf()
                        &&& self.channels@[j].quiescent()
                        &&& self.channels@[j].width == old_eco.channels@[j].width
                        &&& self.channels@[j].height == old_eco.channels@[j].height
                        &&& self.channels@[j].matrix@ == next_matrix(old_eco, j)
                    },
                    self.channels@[c as int].wf(),
                    self.channels@[c as int].matrix == ch0.matrix,
                    self.channels@[c as int].width == ch0.width,
                    self.channels@[c as int].height == ch0.height,
                    self.channels@[c as int].layer_counter == l2,
                    self.channels@[c as int].matrix_out@.len() == area,
                    forall|i: int| 0 <= i < area
                        ==> #[trigger] self.channels@[c as int].matrix_out@[i]
                            == acc_at(old_eco, i, l2 as int),
                decreases nlayers - l2,
            {
                self.channels[c].accumulate(&self.layers[l2].matrix_out);
                l2 = l2 + 1;
            }
            self.channels[c].finish(self.delta);
            proof {
                assert(self.channels@[c as int].matrix@ =~= next_matrix(old_eco, c as int));
            }
            c = c + 1;
        }

        self.cycles = self.cycles + 1;

        let mut fsum: i64 = 0;
        let mut c2: usize = 0;
        while c2 < nch
            invariant
                0 <= c2 <= nch,
                fsum == fit_sum(old_eco, c2 as int),
                0 <= fsum <= (c2 as int) * (SCALE as int),
            decreases nch - c2,
        {
            let m: &Vec<i64> = &self.channels[c2].matrix;
            let ghost mseq: Seq<i64> = m@;
            let ch_area: usize = m.len();
            let mut t: i64 = 0;
            let mut i: usize = 0;
            while i < ch_area
                invariant
                    0 <= i <= ch_area,
                    t == sum_prefix(mseq, i as int),
                    0 <= t <= (i as int) * (SCALE as int),
                decreases ch_area - i,
            {
                proof {
                    assert(0 <= mseq[i as int] <= SCALE);
                    assert((i as int) * (SCALE as int) + SCALE
                        == (i as int + 1) * (SCALE as int)) by (nonlinear_arith);
                    assert((i as int + 1) * (SCALE as int)
                        <= (GRID_CELL_LIMIT as int) * (SCALE as int)) by (nonlinear_arith)
                        requires 0 <= i as int + 1 <= GRID_CELL_LIMIT as int;
                }
                t = t + m[i];
                i = i + 1;
            }
            proof {
                assert(self.channels@[c2 as int].wf());
                assert(1 <= self.channels@[c2 as int].width * self.channels@[c2 as int].height)
                    by (nonlinear_arith)
                    requires
                        1 <= self.channels@[c2 as int].width,
                        1 <= self.channels@[c2 as int].height;
                assert(1 <= ch_area);
                vstd::arithmetic::div_mod::lemma_div_pos_is_pos(t as int, ch_area as int);
                assert(t <= (ch_area as int) * (SCALE as int)) by (nonlinear_arith)
                    requires t <= (ch_area as int) * (SCALE as int);
                vstd::arithmetic::div_mod::lemma_multiply_divide_le(
                    t as int, ch_area as int, SCALE as int);
                assert((c2 as int) * (SCALE as int) + SCALE
                    == (c2 as int + 1) * (SCALE as int)) by (nonlinear_arith);
                assert((c2 as int + 1) * (SCALE as int)
                    <= (CHANNEL_LIMIT as int) * (SCALE as int)) by (nonlinear_arith)
                    requires 0 <= c2 as int + 1 <= CHANNEL_LIMIT as int;
            }
            let mean: i64 = t / (ch_area as i64);
            fsum = fsum + mean;
            c2 = c2 + 1;
        }
        proof {
            vstd::arithmetic::div_mod::lemma_div_pos_is_pos(fsum as int, nch as int);
        }
        self.fitness = fsum / (nch as i64);
        proof {
            assert forall|j: int| 0 <= j < nch
                implies #[trigger] next_fields(old_eco, fields_of(old_eco))[j]
                    == fields_of(*self)[j] by {
                lemma_next_matrix_on_fields(old_eco, j);
            }
            assert(fields_of(*self) =~= next_fields(old_eco, fields_of(old_eco)));
        }
    }
}

/// A derived kernel table always carries unit mass: its weights sum to
/// KSCALE, short at most one rounding unit per kernel cell, whatever the
/// radius, profile and corner policy it was generated from.
pub proof fn lemma_kernel_mass_bounds(l: Layer)
    requires
        l.kernel_ready(),
    ensures
        KSCALE - (2 * l.radius + 1) * (2 * l.radius + 1) <= seq_total(l.kernel_lookup@)
            <= KSCALE,
{
}

/// The channel update can never leave the unit interval: whatever growth
/// was accumulated and whatever the timestep, the new cell value is
/// clamped into [0, SCALE].
pub proof fn lemma_finish_cell_in_unit(cell: int, acc: int, counter: int, delta: int)
    ensures
        0 <= finish_cell(cell, acc, counter, delta) <= SCALE,
{
}

/// The growth profiles do not expand a dead field: their value at input
/// zero is not positive (the standard centered configuration).
pub open spec fn growth_rests_at_zero(eco: Eco) -> bool {
    forall|l: int| 0 <= l < eco.layers@.len()
        ==> (#[trigger] eco.layers@[l]).growth_map.value_at(0) <= 0
}

/// All-zero fields of the ecosystem's grid shape.
pub open spec fn fields_all_zero(eco: Eco, fields: Seq<Seq<i64>>) -> bool {
    &&& fields.len() == eco.channels@.len()
    &&& forall|c: int| 0 <= c < fields.len()
        ==> (#[trigger] fields[c]).len() == eco.size.0 * eco.size.1
    &&& forall|c: int, i: int| 0 <= c < fields.len() && 0 <= i < fields[c].len()
        ==> #[trigger] fields[c][i] == 0
}

/// One tick maps all-zero fields to all-zero fields when no growth
/// profile expands at zero.
proof fn lemma_zero_fields_step(eco: Eco, fields: Seq<Seq<i64>>)
    requires
        eco.ready(),
        growth_rests_at_zero(eco),
        fields_all_zero(eco, fields),
    ensures
        fields_all_zero(eco, next_fields(eco, fields)),
{
    let w = eco.size.0 as int;
    let h = eco.size.1 as int;
    let n = eco.layers@.len() as int;
    assert forall|l: int, i: int| 0 <= l < n && 0 <= i
        implies #[trigger] layer_growth_on(eco, fields, l, i) <= 0 by {
        let layer = eco.layers@[l];
        let cells = fields[layer.channel_id as int];
        crate::conv::lemma_conv_prefix_zero(cells, w, h, layer.kernel_lookup@,
            layer.radius as int, i / w, i % w,
            (2 * layer.radius + 1) * (2 * layer.radius + 1));
        vstd::arithmetic::div_mod::lemma_div_of0(KSCALE as int);
        assert(layer.growth_at(cells, w, h, i) == layer.growth_map.value_at(0));
    }
    assert forall|i: int, l: int| 0 <= i && 0 <= l <= n
        implies #[trigger] acc_on(eco, fields, i, l) <= 0 by {
        lemma_acc_on_nonpos(eco, fields, i, l);
    }
    assert forall|c: int, i: int| 0 <= c < fields.len() && 0 <= i < fields[c].len()
        implies next_cell_on(eco, fields, c, i) == 0 by {
        if n > 0 {
            let acc = acc_on(eco, fields, i, n);
            let avg = sdiv_spec(acc, n);
            assert(avg <= 0) by {
                if acc < 0 {
                    vstd::arithmetic::div_mod::lemma_div_pos_is_pos(-acc, n);
                }
            }
            let scaled_num = avg * (eco.delta as int);
            assert(avg * (eco.delta as int) <= 0) by (nonlinear_arith)
                requires avg <= 0, eco.delta >= 1;
            assert(sdiv_spec(scaled_num, SCALE as int) <= 0) by {
                if scaled_num < 0 {
                    vstd::arithmetic::div_mod::lemma_div_pos_is_pos(
                        -scaled_num, SCALE as int);
                } else {
                    vstd::arithmetic::div_mod::lemma_div_pos_is_pos(
                        scaled_num, SCALE as int);
                }
            }
        }
    }
}

/// Accumulated growth over layers that each contribute non-positively is
/// non-positive.
proof fn lemma_acc_on_nonpos(eco: Eco, fields: Seq<Seq<i64>>, i: int, l: int)
    requires
        0 <= l <= eco.layers@.len(),
        forall|j: int, k: int| 0 <= j < eco.layers@.len() && 0 <= k
            ==> #[trigger] layer_growth_on(eco, fields, j, k) <= 0,
        0 <= i,
    ensures
        acc_on(eco, fields, i, l) <= 0,
    decreases l,
{
    if l > 0 {
        lemma_acc_on_nonpos(eco, fields, i, l - 1);
    }
}

/// An all-zero ecosystem whose growth profiles do not expand at zero is a
/// fixed point of one tick: `next_matrix` is all zero again.
pub proof fn lemma_zero_state_fixed_point(eco: Eco)
    requires
        eco.ready(),
        forall|c: int, i: int| 0 <= c < eco.channels@.len()
            && 0 <= i < eco.channels@[c].matrix@.len()
            ==> #[trigger] eco.channels@[c].matrix@[i] == 0,
        growth_rests_at_zero(eco),
    ensures
        forall|c: int, i: int| 0 <= c < eco.channels@.len()
            && 0 <= i < eco.channels@[c].matrix@.len()
            ==> #[trigger] next_matrix(eco, c)[i] == 0,
{
    assert(fields_all_zero(eco, fields_of(eco)));
    lemma_zero_fields_step(eco, fields_of(eco));
    assert forall|c: int, i: int| 0 <= c < eco.channels@.len()
        && 0 <= i < eco.channels@[c].matrix@.len()
        implies #[trigger] next_matrix(eco, c)[i] == 0 by {
        lemma_next_matrix_on_fields(eco, c);
        assert(next_fields(eco, fields_of(eco))[c][i] == 0);
    }
}

/// An all-zero ecosystem whose growth profiles do not expand at zero
/// stays all-zero under any number of ticks: the dead state is a fixed
/// point of the whole evolution, not just of one step.
pub proof fn lemma_zero_state_stays_zero(eco: Eco, n: nat)
    requires
        eco.ready(),
        forall|c: int, i: int| 0 <= c < eco.channels@.len()
            && 0 <= i < eco.channels@[c].matrix@.len()
            ==> #[trigger] eco.channels@[c].matrix@[i] == 0,
        growth_rests_at_zero(eco),
    ensures
        fields_all_zero(eco, iter_fields(eco, fields_of(eco), n)),
{
    assert(fields_all_zero(eco, fields_of(eco)));
    lemma_zero_fields_iter(eco, fields_of(eco), n);
}

proof fn lemma_zero_fields_iter(eco: Eco, fields: Seq<Seq<i64>>, n: nat)
    requires
        eco.ready(),
        growth_rests_at_zero(eco),
        fields_all_zero(eco, fields),
    ensures
        fields_all_zero(eco, iter_fields(eco, fields, n)),
    decreases n,
{
    if n > 0 {
        lemma_zero_fields_step(eco, fields);
        lemma_zero_fields_iter(eco, next_fields(eco, fields), (n - 1) as nat);
    }
}

/// The tick is a function of the ecosystem state alone: equal states have
/// equal next states. Together with `evaluate`'s contract — which pins
/// the whole post-state to `next_matrix` and `next_fitness` of the
/// pre-state — two identically constructed ecosystems stay bitwise
/// identical however many ticks they run, and identically drawn autotuner
/// perturbations keep them identical.
pub proof fn lemma_tick_deterministic(e1: Eco, e2: Eco)
    requires
        e1 == e2,
    ensures
        forall|c: int| #[trigger] next_matrix(e1, c) == next_matrix(e2, c),
        next_fitness(e1) == next_fitness(e2),
        forall|n: nat| #[trigger] iter_fields(e1, fields_of(e1), n)
            == iter_fields(e2, fields_of(e2), n),
{
}

} // verus!
