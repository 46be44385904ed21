use vstd::prelude::*;
use crate::rng::Randomness;

verus! {

// ---------------------------------------------------------------------------
// Scalar noise fields in fixed-point arithmetic
//
// Field values are integers in thousandths: a generator emits values in
// [-1000, 1000]; composition may grow them up to the working bound, and
// normalization at the end maps the final field onto [0, 1000]. All
// divisions below are taken on non-negative operands, so executable and
// mathematical division agree.
// ---------------------------------------------------------------------------

/// Working bound on the magnitude of any stored field value.
pub const NOISE_BOUND: i64 = 1000000;

/// Clamps a composed value back into the working range.
pub open spec fn clamp_bound(v: int) -> int {
    if v > NOISE_BOUND {
        NOISE_BOUND as int
    } else if v < -NOISE_BOUND {
        -NOISE_BOUND as int
    } else {
        v
    }
}

/// Pseudo-random lattice value for a cell, in [-1000, 1000]: an integer
/// mix of the seed and the coordinates, folded into range.
#[verifier::opaque]
pub open spec fn cell_noise(seed: int, x: int, y: int) -> int {
    (seed + x * 49297 + y * 98731 + x * y * 13007) % 2001 - 1000
}

/// The weighted corner sum of the bilinear interpolation over the four
/// lattice corners of the period-`p` cell around (x, y).
#[verifier::opaque]
pub open spec fn smooth_sum(seed: int, p: int, x: int, y: int) -> int {
    let x0 = x / p;
    let fx = x % p;
    let y0 = y / p;
    let fy = y % p;
    cell_noise(seed, x0, y0) * (p - fx) * (p - fy) + cell_noise(seed, x0 + 1, y0) * fx * (p - fy)
        + cell_noise(seed, x0, y0 + 1) * (p - fx) * fy + cell_noise(seed, x0 + 1, y0 + 1) * fx * fy
}

/// Smooth value noise: the corner sum averaged over the cell's area,
/// shifted into [-1000, 1000].
#[verifier::opaque]
pub open spec fn smooth_at(seed: int, p: int, x: int, y: int) -> int {
    (smooth_sum(seed, p, x, y) + 1000 * p * p) / (p * p) - 1000
}

/// Two octaves of smooth noise, the second at half period and weight.
pub open spec fn fractal_at(seed: int, p: int, x: int, y: int) -> int {
    let p2 = if p / 2 >= 1 {
        p / 2
    } else {
        1
    };
    (smooth_at(seed, p, x, y) + smooth_at(seed + 1, p2, x, y) + 4000) / 2 - 2000
}

/// The billowed variant: folded absolute value of the fractal sum.
pub open spec fn billow_at(seed: int, p: int, x: int, y: int) -> int {
    let v = fractal_at(seed, p, x, y);
    2 * (if v >= 0 {
        v
    } else {
        -v
    }) - 1000
}

/// Checkerboard of period-`p` squares.
pub open spec fn checker_at(p: int, x: int, y: int) -> int {
    if (x / p + y / p) % 2 == 0 {
        1000
    } else {
        -1000
    }
}

/// Concentric square-distance bands around a centre.
pub open spec fn bands_at(p: int, cx: int, cy: int, x: int, y: int) -> int {
    let dx = if x >= cx {
        x - cx
    } else {
        cx - x
    };
    let dy = if y >= cy {
        y - cy
    } else {
        cy - y
    };
    if ((dx * dx + dy * dy) / (p * p)) % 2 == 0 {
        1000
    } else {
        -1000
    }
}

/// The catalogue of base generators, each with its randomized
/// parameters.
pub enum GeneratorKind {
    Value { seed: u64 },
    Smooth { seed: u64, period: u64 },
    Fractal { seed: u64, period: u64 },
    Billow { seed: u64, period: u64 },
    Checker { period: u64 },
    Bands { period: u64, cx: u64, cy: u64 },
}

pub open spec fn wf_generator(g: GeneratorKind) -> bool {
    match g {
        GeneratorKind::Value { seed } => seed <= 999999,
        GeneratorKind::Smooth { seed, period } => seed <= 999999 && 1 <= period <= 64,
        GeneratorKind::Fractal { seed, period } => seed <= 999999 && 1 <= period <= 64,
        GeneratorKind::Billow { seed, period } => seed <= 999999 && 1 <= period <= 64,
        GeneratorKind::Checker { period } => 1 <= period <= 64,
        GeneratorKind::Bands { period, cx, cy } => 1 <= period <= 64 && cx <= 10000 && cy
            <= 10000,
    }
}

/// The value a generator takes at a cell.
pub open spec fn generator_at(g: GeneratorKind, x: int, y: int) -> int {
    match g {
        GeneratorKind::Value { seed } => cell_noise(seed as int, x, y),
        GeneratorKind::Smooth { seed, period } => smooth_at(seed as int, period as int, x, y),
        GeneratorKind::Fractal { seed, period } => fractal_at(seed as int, period as int, x, y),
        GeneratorKind::Billow { seed, period } => billow_at(seed as int, period as int, x, y),
        GeneratorKind::Checker { period } => checker_at(period as int, x, y),
        GeneratorKind::Bands { period, cx, cy } => bands_at(
            period as int,
            cx as int,
            cy as int,
            x,
            y,
        ),
    }
}

fn cell_noise_exec(seed: u64, x: u64, y: u64) -> (r: i64)
    requires
        seed <= 1000001,
        x <= 20001,
        y <= 20001,
    ensures
        r == cell_noise(seed as int, x as int, y as int),
        -1000 <= r <= 1000,
{
    proof {
        reveal(cell_noise);
        assert(x * 49297 <= 20001 * 49297 && y * 98731 <= 20001 * 98731 && x * y <= 20001 * 20001
            && x * y * 13007 <= 20001 * 20001 * 13007) by (nonlinear_arith)
            requires
                x <= 20001,
                y <= 20001,
        ;
    }
    let mix = (seed + x * 49297 + y * 98731 + x * y * 13007) % 2001;
    (mix as i64) - 1000
}

fn smooth_exec(seed: u64, p: u64, x: u64, y: u64) -> (r: i64)
    requires
        seed <= 1000000,
        1 <= p <= 64,
        x <= 20000,
        y <= 20000,
    ensures
        r == smooth_at(seed as int, p as int, x as int, y as int),
        -1000 <= r <= 1000,
{
    let x0 = x / p;
    let fx = (x % p) as i64;
    let y0 = y / p;
    let fy = (y % p) as i64;
    let pi = p as i64;
    let v00 = cell_noise_exec(seed, x0, y0);
    let v10 = cell_noise_exec(seed, x0 + 1, y0);
    let v01 = cell_noise_exec(seed, x0, y0 + 1);
    let v11 = cell_noise_exec(seed, x0 + 1, y0 + 1);
    let w00 = weight_product(pi - fx, pi - fy);
    let w10 = weight_product(fx, pi - fy);
    let w01 = weight_product(pi - fx, fy);
    let w11 = weight_product(fx, fy);
    let t00 = corner_term(v00, w00);
    let t10 = corner_term(v10, w10);
    let t01 = corner_term(v01, w01);
    let t11 = corner_term(v11, w11);
    let pp = weight_product(pi, pi);
    proof {
        assert(pp >= 1) by (nonlinear_arith)
            requires
                pp == pi * pi,
                pi >= 1,
        ;
    }
    let sum = t00 + t10 + t01 + t11;
    proof {
        lemma_corner_sum_range(
            v00 as int,
            v10 as int,
            v01 as int,
            v11 as int,
            pi as int,
            fx as int,
            fy as int,
            t00 as int,
            t10 as int,
            t01 as int,
            t11 as int,
            pp as int,
            sum as int,
        );
    }
    let shifted = (sum + 1000 * pp) as u64;
    let quotient = shifted / (pp as u64);
    proof {
        assert(shifted as int <= 2000 * pp ==> shifted as int / (pp as int) <= 2000)
            by (nonlinear_arith)
            requires
                1 <= pp,
        ;
    }
    let result = (quotient as i64) - 1000;
    proof {
        lemma_smooth_fold(
            seed as int,
            p as int,
            x as int,
            y as int,
            v00 as int,
            v10 as int,
            v01 as int,
            v11 as int,
            t00 as int,
            t10 as int,
            t01 as int,
            t11 as int,
            pp as int,
            sum as int,
            quotient as int,
            result as int,
        );
    }
    result
}

/// The staged corner sum lies within 1000 times the squared period.
proof fn lemma_corner_sum_range(
    v00: int,
    v10: int,
    v01: int,
    v11: int,
    p: int,
    fx: int,
    fy: int,
    t00: int,
    t10: int,
    t01: int,
    t11: int,
    pp: int,
    sum: int,
)
    requires
        1 <= p,
        0 <= fx < p,
        0 <= fy < p,
        -1000 <= v00 <= 1000,
        -1000 <= v10 <= 1000,
        -1000 <= v01 <= 1000,
        -1000 <= v11 <= 1000,
        t00 == v00 * ((p - fx) * (p - fy)),
        t10 == v10 * (fx * (p - fy)),
        t01 == v01 * ((p - fx) * fy),
        t11 == v11 * (fx * fy),
        pp == p * p,
        sum == t00 + t10 + t01 + t11,
    ensures
        -1000 * pp <= sum <= 1000 * pp,
{
    let a = (p - fx) * (p - fy);
    let b = fx * (p - fy);
    let c = (p - fx) * fy;
    let d = fx * fy;
    assert(a >= 0 && b >= 0 && c >= 0 && d >= 0 && a + b + c + d == p * p) by (nonlinear_arith)
        requires
            0 <= fx < p,
            0 <= fy < p,
            a == (p - fx) * (p - fy),
            b == fx * (p - fy),
            c == (p - fx) * fy,
            d == fx * fy,
    ;
    assert(-1000 * a <= t00 <= 1000 * a) by (nonlinear_arith)
        requires
            t00 == v00 * a,
            -1000 <= v00 <= 1000,
            a >= 0,
    ;
    assert(-1000 * b <= t10 <= 1000 * b) by (nonlinear_arith)
        requires
            t10 == v10 * b,
            -1000 <= v10 <= 1000,
            b >= 0,
    ;
    assert(-1000 * c <= t01 <= 1000 * c) by (nonlinear_arith)
        requires
            t01 == v01 * c,
            -1000 <= v01 <= 1000,
            c >= 0,
    ;
    assert(-1000 * d <= t11 <= 1000 * d) by (nonlinear_arith)
        requires
            t11 == v11 * d,
            -1000 <= v11 <= 1000,
            d >= 0,
    ;
}

/// Folds the staged integer computation back into the defining formula.
proof fn lemma_smooth_fold(
    seed: int,
    p: int,
    x: int,
    y: int,
    v00: int,
    v10: int,
    v01: int,
    v11: int,
    t00: int,
    t10: int,
    t01: int,
    t11: int,
    pp: int,
    sum: int,
    quotient: int,
    result: int,
)
    requires
        1 <= p,
        v00 == cell_noise(seed, x / p, y / p),
        v10 == cell_noise(seed, x / p + 1, y / p),
        v01 == cell_noise(seed, x / p, y / p + 1),
        v11 == cell_noise(seed, x / p + 1, y / p + 1),
        t00 == v00 * ((p - x % p) * (p - y % p)),
        t10 == v10 * ((x % p) * (p - y % p)),
        t01 == v01 * ((p - x % p) * (y % p)),
        t11 == v11 * ((x % p) * (y % p)),
        pp == p * p,
        sum == t00 + t10 + t01 + t11,
        quotient == (sum + 1000 * pp) / pp,
        result == quotient - 1000,
    ensures
        result == smooth_at(seed, p, x, y),
{
    reveal(smooth_sum);
    reveal(smooth_at);
    assert(t00 == v00 * (p - x % p) * (p - y % p) && t10 == v10 * (x % p) * (p - y % p) && t01
        == v01 * (p - x % p) * (y % p) && t11 == v11 * (x % p) * (y % p)) by (nonlinear_arith)
        requires
            t00 == v00 * ((p - x % p) * (p - y % p)),
            t10 == v10 * ((x % p) * (p - y % p)),
            t01 == v01 * ((p - x % p) * (y % p)),
            t11 == v11 * ((x % p) * (y % p)),
    ;
    assert(sum == smooth_sum(seed, p, x, y));
    assert(1000 * p * p == 1000 * (p * p)) by (nonlinear_arith);
}

/// Product of two bilinear weights, each below the period.
fn weight_product(a: i64, b: i64) -> (r: i64)
    requires
        0 <= a <= 64,
        0 <= b <= 64,
    ensures
        r == a * b,
        0 <= r <= 4096,
{
    proof {
        assert(0 <= a * b <= 4096) by (nonlinear_arith)
            requires
                0 <= a <= 64,
                0 <= b <= 64,
        ;
    }
    a * b
}

/// One weighted corner contribution.
fn corner_term(v: i64, w: i64) -> (r: i64)
    requires
        -1000 <= v <= 1000,
        0 <= w <= 4096,
    ensures
        r == v * w,
        -4096000 <= r <= 4096000,
{
    proof {
        assert(-4096000 <= v * w <= 4096000) by (nonlinear_arith)
            requires
                -1000 <= v <= 1000,
                0 <= w <= 4096,
        ;
    }
    v * w
}

fn fractal_exec(seed: u64, period: u64, x: u64, y: u64) -> (r: i64)
    requires
        seed <= 999999,
        1 <= period <= 64,
        x <= 10000,
        y <= 10000,
    ensures
        r == fractal_at(seed as int, period as int, x as int, y as int),
        -1000 <= r <= 1000,
{
    let p2 = if period / 2 >= 1 {
        period / 2
    } else {
        1
    };
    let a = smooth_exec(seed, period, x, y);
    let b = smooth_exec(seed + 1, p2, x, y);
    let shifted = (a + b + 4000) as u64;
    (shifted / 2) as i64 - 2000
}

fn generator_value(g: &GeneratorKind, x: u64, y: u64) -> (r: i64)
    requires
        wf_generator(*g),
        x <= 10000,
        y <= 10000,
    ensures
        r == generator_at(*g, x as int, y as int),
        -1000 <= r <= 1000,
{
    match g {
        GeneratorKind::Value { seed } => cell_noise_exec(*seed, x, y),
        GeneratorKind::Smooth { seed, period } => smooth_exec(*seed, *period, x, y),
        GeneratorKind::Fractal { seed, period } => fractal_exec(*seed, *period, x, y),
        GeneratorKind::Billow { seed, period } => {
            let v = fractal_exec(*seed, *period, x, y);
            let folded = if v >= 0 {
                v
            } else {
                -v
            };
            2 * folded - 1000
        },
        GeneratorKind::Checker { period } => {
            if (x / *period + y / *period) % 2 == 0 {
                1000
            } else {
                -1000
            }
        },
        GeneratorKind::Bands { period, cx, cy } => bands_exec(*period, *cx, *cy, x, y),
    }
}

fn bands_exec(period: u64, cx: u64, cy: u64, x: u64, y: u64) -> (r: i64)
    requires
        1 <= period <= 64,
        cx <= 10000,
        cy <= 10000,
        x <= 10000,
        y <= 10000,
    ensures
        r == bands_at(period as int, cx as int, cy as int, x as int, y as int),
        -1000 <= r <= 1000,
{
    let dx = if x >= cx {
        x - cx
    } else {
        cx - x
    };
    let dy = if y >= cy {
        y - cy
    } else {
        cy - y
    };
    proof {
        assert(dx * dx <= 10000 * 10000 && dy * dy <= 10000 * 10000 && period * period <= 64 * 64
            && period * period >= 1) by (nonlinear_arith)
            requires
                dx <= 10000,
                dy <= 10000,
                1 <= period <= 64,
        ;
    }
    let d2 = dx * dx + dy * dy;
    if (d2 / (period * period)) % 2 == 0 {
        1000
    } else {
        -1000
    }
}

/// A baked scalar field at the grid's resolution, stored row-major like
/// the grid itself.
pub struct NoiseField {
    pub values: Vec<i64>,
    pub dimensions: (usize, usize),
}

impl NoiseField {
    pub open spec fn width(self) -> int {
        self.dimensions.0 as int
    }

    pub open spec fn height(self) -> int {
        self.dimensions.1 as int
    }

    pub open spec fn wf(self) -> bool {
        &&& 1 <= self.width() <= 10000
        &&& 1 <= self.height() <= 10000
        &&& self.values@.len() == self.width() * self.height()
        &&& forall|i: int|
            0 <= i < self.values@.len() ==> -NOISE_BOUND <= #[trigger] self.values@[i]
                <= NOISE_BOUND
    }

    /// A deep copy.
    pub fn duplicate(&self) -> (r: NoiseField)
        ensures
            r.values@ == self.values@,
            r.dimensions == self.dimensions,
    {
        let n = self.values.len();
        let mut values: Vec<i64> = Vec::new();
        for i in 0..n
            invariant
                n == self.values@.len(),
                values@ == self.values@.take(i as int),
        {
            values.push(self.values[i]);
            proof {
                assert(values@ =~= self.values@.take(i + 1));
            }
        }
        proof {
            assert(self.values@.take(n as int) =~= self.values@);
        }
        NoiseField { values, dimensions: self.dimensions }
    }
}

/// Bakes one generator into a dense field over a w-by-h grid.
pub fn bake_generator(g: &GeneratorKind, width: usize, height: usize) -> (r: NoiseField)
    requires
        wf_generator(*g),
        1 <= width <= 10000,
        1 <= height <= 10000,
    ensures
        r.wf(),
        r.dimensions == (width, height),
        forall|i: int|
            0 <= i < r.values@.len() ==> #[trigger] r.values@[i] == generator_at(
                *g,
                i % (width as int),
                i / (width as int),
            ),
        forall|i: int| 0 <= i < r.values@.len() ==> -1000 <= #[trigger] r.values@[i] <= 1000,
{
    proof {
        assert(width * height <= 10000 * 10000) by (nonlinear_arith)
            requires
                width <= 10000,
                height <= 10000,
        ;
    }
    let size = width * height;
    let mut values: Vec<i64> = Vec::new();
    for i in 0..size
        invariant
            wf_generator(*g),
            1 <= width <= 10000,
            1 <= height <= 10000,
            size == width * height,
            values@.len() == i,
            forall|k: int|
                0 <= k < i ==> #[trigger] values@[k] == generator_at(
                    *g,
                    k % (width as int),
                    k / (width as int),
                ),
            forall|k: int| 0 <= k < i ==> -1000 <= #[trigger] values@[k] <= 1000,
    {
        let x = i % width;
        let y = i / width;
        proof {
            crate::grid::lemma_row_major_index_inverse(
                i as int,
                width as int,
                height as int,
            );
        }
        let v = generator_value(g, x as u64, y as u64);
        values.push(v);
    }
    NoiseField { values, dimensions: (width, height) }
}

// ---------------------------------------------------------------------------
// Modifiers and combiners
// ---------------------------------------------------------------------------

/// Signed fixed-point product: magnitudes multiply in thousandths, the
/// sign follows the factors.
pub open spec fn mul_permille(a: int, b: int) -> int {
    let aa = if a >= 0 {
        a
    } else {
        -a
    };
    let ab = if b >= 0 {
        b
    } else {
        -b
    };
    if (a >= 0) == (b >= 0) {
        aa * ab / 1000
    } else {
        -(aa * ab / 1000)
    }
}

/// Signed scaling by a thousandths factor.
pub open spec fn scale_permille(v: int, scale: int) -> int {
    if v >= 0 {
        v * scale / 1000
    } else {
        -((-v) * scale / 1000)
    }
}

/// The catalogue of single-source modifiers.
pub enum ModifierKind {
    Abs,
    Clamp { lo: i64, hi: i64 },
    Exponent,
    Negate,
    ScaleBias { scale: i64, bias: i64 },
}

pub open spec fn wf_modifier(m: ModifierKind) -> bool {
    match m {
        ModifierKind::Clamp { lo, hi } => -NOISE_BOUND <= lo <= hi <= NOISE_BOUND,
        ModifierKind::ScaleBias { scale, bias } => 0 <= scale <= 3000 && 0 <= bias <= 1000,
        _ => true,
    }
}

/// The value a modifier turns a source value into. The exponent variant
/// squares at fixed-point scale.
pub open spec fn apply_modifier(m: ModifierKind, v: int) -> int {
    match m {
        ModifierKind::Abs => if v >= 0 {
            v
        } else {
            -v
        },
        ModifierKind::Clamp { lo, hi } => if v < lo {
            lo as int
        } else if v > hi {
            hi as int
        } else {
            v
        },
        ModifierKind::Exponent => clamp_bound(mul_permille(v, v)),
        ModifierKind::Negate => -v,
        ModifierKind::ScaleBias { scale, bias } => clamp_bound(
            scale_permille(v, scale as int) + bias,
        ),
    }
}

fn clamp_bound_exec(v: i64) -> (r: i64)
    requires
        -4000000000 <= v <= 4000000000,
    ensures
        r == clamp_bound(v as int),
        -NOISE_BOUND <= r <= NOISE_BOUND,
{
    if v > NOISE_BOUND {
        NOISE_BOUND
    } else if v < -NOISE_BOUND {
        -NOISE_BOUND
    } else {
        v
    }
}

fn mul_permille_exec(a: i64, b: i64) -> (r: i64)
    requires
        -NOISE_BOUND <= a <= NOISE_BOUND,
        -NOISE_BOUND <= b <= NOISE_BOUND,
    ensures
        r == mul_permille(a as int, b as int),
        -1000000000000 <= r <= 1000000000000,
{
    let aa: u64 = if a >= 0 {
        a as u64
    } else {
        (-a) as u64
    };
    let ab: u64 = if b >= 0 {
        b as u64
    } else {
        (-b) as u64
    };
    proof {
        assert(aa * ab <= 1000000 * 1000000) by (nonlinear_arith)
            requires
                aa <= 1000000,
                ab <= 1000000,
        ;
    }
    let magnitude = aa * ab / 1000;
    if (a >= 0) == (b >= 0) {
        magnitude as i64
    } else {
        -(magnitude as i64)
    }
}

fn modifier_value(m: &ModifierKind, v: i64) -> (r: i64)
    requires
        wf_modifier(*m),
        -NOISE_BOUND <= v <= NOISE_BOUND,
    ensures
        r == apply_modifier(*m, v as int),
        -NOISE_BOUND <= r <= NOISE_BOUND,
{
    match m {
        ModifierKind::Abs => if v >= 0 {
            v
        } else {
            -v
        },
        ModifierKind::Clamp { lo, hi } => {
            if v < *lo {
                *lo
            } else if v > *hi {
                *hi
            } else {
                v
            }
        },
        ModifierKind::Exponent => {
            let squared = mul_permille_exec(v, v);
            clamp_bound_exec(if squared > 2000000000 {
                2000000000
            } else {
                squared
            })
        },
        ModifierKind::Negate => -v,
        ModifierKind::ScaleBias { scale, bias } => {
            let av: u64 = if v >= 0 {
                v as u64
            } else {
                (-v) as u64
            };
            proof {
                assert(av * (*scale as u64) <= 1000000 * 3000) by (nonlinear_arith)
                    requires
                        av <= 1000000,
                        *scale as u64 <= 3000,
                ;
            }
            let scaled_mag = av * (*scale as u64) / 1000;
            let scaled: i64 = if v >= 0 {
                scaled_mag as i64
            } else {
                -(scaled_mag as i64)
            };
            clamp_bound_exec(scaled + *bias)
        },
    }
}

/// The catalogue of two-source combiners.
pub enum CombinerKind {
    Add,
    Max,
    Min,
    Multiply,
    Power,
}

/// Repeated fixed-point self-product, clamped at every step.
pub open spec fn pow_fixed(a: int, e: int) -> int
    decreases e,
{
    if e <= 1 {
        a
    } else {
        clamp_bound(mul_permille(a, pow_fixed(a, e - 1)))
    }
}

/// The exponent the power combiner takes from its second source.
pub open spec fn power_exponent(b: int) -> int {
    if b < 1000 {
        1
    } else if b < 2000 {
        2
    } else {
        3
    }
}

/// The value a combiner gives two source values.
pub open spec fn apply_combiner(c: CombinerKind, a: int, b: int) -> int {
    match c {
        CombinerKind::Add => clamp_bound(a + b),
        CombinerKind::Max => if a >= b {
            a
        } else {
            b
        },
        CombinerKind::Min => if a <= b {
            a
        } else {
            b
        },
        CombinerKind::Multiply => clamp_bound(mul_permille(a, b)),
        CombinerKind::Power => pow_fixed(a, power_exponent(b)),
    }
}

fn combiner_value(c: &CombinerKind, a: i64, b: i64) -> (r: i64)
    requires
        -NOISE_BOUND <= a <= NOISE_BOUND,
        -NOISE_BOUND <= b <= NOISE_BOUND,
    ensures
        r == apply_combiner(*c, a as int, b as int),
        -NOISE_BOUND <= r <= NOISE_BOUND,
{
    match c {
        CombinerKind::Add => clamp_bound_exec(a + b),
        CombinerKind::Max => if a >= b {
            a
        } else {
            b
        },
        CombinerKind::Min => if a <= b {
            a
        } else {
            b
        },
        CombinerKind::Multiply => {
            let product = mul_permille_exec(a, b);
            clamp_bound_exec(if product > 2000000000 {
                2000000000
            } else if product < -2000000000 {
                -2000000000
            } else {
                product
            })
        },
        CombinerKind::Power => {
            let e: u64 = if b < 1000 {
                1
            } else if b < 2000 {
                2
            } else {
                3
            };
            let mut acc = a;
            let mut step: u64 = 1;
            while step < e
                invariant
                    1 <= step <= e <= 3,
                    -NOISE_BOUND <= a <= NOISE_BOUND,
                    -NOISE_BOUND <= acc <= NOISE_BOUND,
                    acc == pow_fixed(a as int, step as int),
                decreases e - step,
            {
                let product = mul_permille_exec(a, acc);
                acc = clamp_bound_exec(if product > 2000000000 {
                    2000000000
                } else if product < -2000000000 {
                    -2000000000
                } else {
                    product
                });
                step = step + 1;
                proof {
                    assert(pow_fixed(a as int, step as int) == clamp_bound(
                        mul_permille(a as int, pow_fixed(a as int, step - 1)),
                    ));
                }
            }
            acc
        },
    }
}

/// A modifier applied over every cell of a field.
pub fn modify_field(f: &NoiseField, m: &ModifierKind) -> (r: NoiseField)
    requires
        f.wf(),
        wf_modifier(*m),
    ensures
        r.wf(),
        r.dimensions == f.dimensions,
        forall|i: int|
            0 <= i < r.values@.len() ==> #[trigger] r.values@[i] == apply_modifier(
                *m,
                f.values@[i] as int,
            ),
{
    let n = f.values.len();
    let mut values: Vec<i64> = Vec::new();
    for i in 0..n
        invariant
            f.wf(),
            wf_modifier(*m),
            n == f.values@.len(),
            values@.len() == i,
            forall|k: int|
                0 <= k < i ==> #[trigger] values@[k] == apply_modifier(*m, f.values@[k] as int),
            forall|k: int| 0 <= k < i ==> -NOISE_BOUND <= #[trigger] values@[k] <= NOISE_BOUND,
    {
        values.push(modifier_value(m, f.values[i]));
    }
    NoiseField { values, dimensions: f.dimensions }
}

/// A combiner applied cell by cell over two fields of equal size.
pub fn combine_fields(a: &NoiseField, b: &NoiseField, c: &CombinerKind) -> (r: NoiseField)
    requires
        a.wf(),
        b.wf(),
        a.dimensions == b.dimensions,
    ensures
        r.wf(),
        r.dimensions == a.dimensions,
        forall|i: int|
            0 <= i < r.values@.len() ==> #[trigger] r.values@[i] == apply_combiner(
                *c,
                a.values@[i] as int,
                b.values@[i] as int,
            ),
{
    let n = a.values.len();
    let mut values: Vec<i64> = Vec::new();
    for i in 0..n
        invariant
            a.wf(),
            b.wf(),
            a.dimensions == b.dimensions,
            n == a.values@.len(),
            values@.len() == i,
            forall|k: int|
                0 <= k < i ==> #[trigger] values@[k] == apply_combiner(
                    *c,
                    a.values@[k] as int,
                    b.values@[k] as int,
                ),
            forall|k: int| 0 <= k < i ==> -NOISE_BOUND <= #[trigger] values@[k] <= NOISE_BOUND,
    {
        values.push(combiner_value(c, a.values[i], b.values[i]));
    }
    NoiseField { values, dimensions: a.dimensions }
}

// ---------------------------------------------------------------------------
// Normalization
// ---------------------------------------------------------------------------

/// Smallest value of a nonempty sequence.
pub open spec fn seq_min(s: Seq<i64>) -> int
    decreases s.len(),
{
    if s.len() <= 1 {
        if s.len() == 1 {
            s[0] as int
        } else {
            0
        }
    } else {
        let m = seq_min(s.drop_last());
        if s.last() < m {
            s.last() as int
        } else {
            m
        }
    }
}

/// Largest value of a nonempty sequence.
pub open spec fn seq_max(s: Seq<i64>) -> int
    decreases s.len(),
{
    if s.len() <= 1 {
        if s.len() == 1 {
            s[0] as int
        } else {
            0
        }
    } else {
        let m = seq_max(s.drop_last());
        if s.last() > m {
            s.last() as int
        } else {
            m
        }
    }
}

/// Every element lies between the sequence's minimum and maximum.
pub proof fn lemma_minmax(s: Seq<i64>)
    requires
        s.len() >= 1,
    ensures
        forall|i: int| 0 <= i < s.len() ==> seq_min(s) <= #[trigger] s[i] <= seq_max(s),
    decreases s.len(),
{
    if s.len() > 1 {
        lemma_minmax(s.drop_last());
        assert(forall|i: int| 0 <= i < s.len() - 1 ==> s.drop_last()[i] == s[i]);
    }
}

/// A nonempty sequence attains its minimum and its maximum.
pub proof fn lemma_minmax_attained(s: Seq<i64>)
    requires
        s.len() >= 1,
    ensures
        exists|i: int| 0 <= i < s.len() && #[trigger] s[i] == seq_min(s),
        exists|j: int| 0 <= j < s.len() && #[trigger] s[j] == seq_max(s),
    decreases s.len(),
{
    if s.len() == 1 {
        assert(s[0] == seq_min(s) && s[0] == seq_max(s));
    } else {
        lemma_minmax_attained(s.drop_last());
        let i = choose|i: int| 0 <= i < s.drop_last().len() && #[trigger] s.drop_last()[i]
            == seq_min(s.drop_last());
        let j = choose|j: int| 0 <= j < s.drop_last().len() && #[trigger] s.drop_last()[j]
            == seq_max(s.drop_last());
        assert(s.drop_last()[i] == s[i] && s.drop_last()[j] == s[j]);
        assert(s[s.len() - 1] == s.last());
        if s.last() < seq_min(s.drop_last()) {
            assert(s[s.len() - 1] == seq_min(s));
        } else {
            assert(s[i] == seq_min(s));
        }
        if s.last() > seq_max(s.drop_last()) {
            assert(s[s.len() - 1] == seq_max(s));
        } else {
            assert(s[j] == seq_max(s));
        }
    }
}

impl NoiseField {
    /// Rescales the field linearly so the minimum lands on 0 and the
    /// maximum on 1000, every value in between; a flat field (minimum
    /// equal to maximum) is set to the midpoint 500 instead of dividing
    /// by zero.
    pub fn normalize(&mut self)
        requires
            old(self).wf(),
        ensures
            final(self).wf(),
            final(self).dimensions == old(self).dimensions,
            final(self).values@.len() == old(self).values@.len(),
            forall|i: int|
                0 <= i < final(self).values@.len() ==> 0 <= #[trigger] final(self).values@[i]
                    <= 1000,
            seq_min(old(self).values@) < seq_max(old(self).values@) ==> forall|i: int|
                0 <= i < final(self).values@.len() ==> #[trigger] final(self).values@[i] == (old(
                self,
                ).values@[i] - seq_min(old(self).values@)) * 1000 / (seq_max(old(self).values@)
                    - seq_min(old(self).values@)),
            seq_min(old(self).values@) < seq_max(old(self).values@) ==> forall|i: int|
                0 <= i < final(self).values@.len() && old(self).values@[i] == seq_min(
                    old(self).values@,
                ) ==> #[trigger] final(self).values@[i] == 0,
            seq_min(old(self).values@) < seq_max(old(self).values@) ==> forall|i: int|
                0 <= i < final(self).values@.len() && old(self).values@[i] == seq_max(
                    old(self).values@,
                ) ==> #[trigger] final(self).values@[i] == 1000,
            seq_min(old(self).values@) == seq_max(old(self).values@) ==> forall|i: int|
                0 <= i < final(self).values@.len() ==> #[trigger] final(self).values@[i] == 500,
    {
        let n = self.values.len();
        proof {
            let w = old(self).width();
            let h = old(self).height();
            assert(w * h >= 1) by (nonlinear_arith)
                requires
                    w >= 1,
                    h >= 1,
            ;
        }
        let mut lowest = self.values[0];
        let mut highest = self.values[0];
        proof {
            assert(self.values@.take(1).drop_last() =~= Seq::<i64>::empty());
            assert(self.values@.take(1).len() == 1);
            assert(self.values@.take(1)[0] == self.values@[0]);
        }
        for i in 1..n
            invariant
                self.wf(),
                1 <= i <= n,
                n == self.values@.len(),
                lowest == seq_min(self.values@.take(i as int)),
                highest == seq_max(self.values@.take(i as int)),
                -NOISE_BOUND <= lowest <= highest <= NOISE_BOUND,
        {
            let v = self.values[i];
            proof {
                assert(self.values@.take(i + 1).drop_last() =~= self.values@.take(i as int));
                assert(self.values@.take(i + 1).last() == self.values@[i as int]);
            }
            if v < lowest {
                lowest = v;
            }
            if v > highest {
                highest = v;
            }
        }
        proof {
            assert(self.values@.take(n as int) =~= self.values@);
            lemma_minmax(self.values@);
        }
        if lowest == highest {
            let mut values: Vec<i64> = Vec::new();
            for i in 0..n
                invariant
                    values@.len() == i,
                    forall|k: int| 0 <= k < i ==> #[trigger] values@[k] == 500,
            {
                values.push(500);
            }
            self.values = values;
        } else {
            let range = (highest - lowest) as u64;
            let ghost before = self.values@;
            let mut values: Vec<i64> = Vec::new();
            for i in 0..n
                invariant
                    n == before.len(),
                    before == self.values@,
                    self.wf(),
                    values@.len() == i,
                    lowest == seq_min(before),
                    highest == seq_max(before),
                    lowest < highest,
                    -NOISE_BOUND <= lowest <= highest <= NOISE_BOUND,
                    range == highest - lowest,
                    forall|k: int| 0 <= k < before.len() ==> lowest <= #[trigger] before[k]
                        <= highest,
                    forall|k: int|
                        0 <= k < i ==> #[trigger] values@[k] == (before[k] - lowest) * 1000 / (
                        highest - lowest),
                    forall|k: int| 0 <= k < i ==> 0 <= #[trigger] values@[k] <= 1000,
                    forall|k: int|
                        0 <= k < i && before[k] == lowest ==> #[trigger] values@[k] == 0,
                    forall|k: int|
                        0 <= k < i && before[k] == highest ==> #[trigger] values@[k] == 1000,
            {
                let diff = (self.values[i] - lowest) as u64;
                let scaled = diff * 1000;
                let q = scaled / range;
                proof {
                    assert(diff as int * 1000 / (range as int) <= 1000) by (nonlinear_arith)
                        requires
                            diff <= range,
                            range >= 1,
                    ;
                    if before[i as int] == highest {
                        assert(range as int * 1000 / (range as int) == 1000) by (nonlinear_arith)
                            requires
                                range >= 1,
                        ;
                    }
                }
                values.push(q as i64);
            }
            self.values = values;
        }
    }
}

// ---------------------------------------------------------------------------
// Random composition and seeding
// ---------------------------------------------------------------------------

/// Probabilities, in thousandths, steering the composition graph.
pub struct NoiseSettings {
    pub generator_chance: u32,
    pub modify_chance: u32,
    pub combine_chance: u32,
}

impl NoiseSettings {
    /// Each probability comes from its own fixed sub-range.
    pub fn random(rng: &mut Randomness) -> (r: NoiseSettings)
        ensures
            100 <= r.generator_chance <= 499,
            200 <= r.modify_chance <= 899,
            200 <= r.combine_chance <= 899,
    {
        NoiseSettings {
            generator_chance: rng.between(100, 499) as u32,
            modify_chance: rng.between(200, 899) as u32,
            combine_chance: rng.between(200, 899) as u32,
        }
    }
}

/// The parameter ranges the generator sampler draws from: tighter than
/// the envelope the baking arithmetic accepts.
pub open spec fn generator_drawn(g: GeneratorKind, width: int, height: int) -> bool {
    match g {
        GeneratorKind::Value { seed } => seed < 1000000,
        GeneratorKind::Smooth { seed, period } => seed < 1000000 && 2 <= period <= 32,
        GeneratorKind::Fractal { seed, period } => seed < 1000000 && 2 <= period <= 32,
        GeneratorKind::Billow { seed, period } => seed < 1000000 && 2 <= period <= 32,
        GeneratorKind::Checker { period } => 1 <= period <= 10,
        GeneratorKind::Bands { period, cx, cy } => 1 <= period <= 10 && cx == width / 2 && cy
            == height / 2,
    }
}

/// Draws one base generator with randomized parameters.
pub fn random_generator(rng: &mut Randomness, width: usize, height: usize) -> (r: GeneratorKind)
    requires
        width <= 10000,
        height <= 10000,
    ensures
        wf_generator(r),
        generator_drawn(r, width as int, height as int),
{
    let pick = rng.below(6);
    if pick == 0 {
        GeneratorKind::Value { seed: rng.below(1000000) }
    } else if pick == 1 {
        GeneratorKind::Smooth { seed: rng.below(1000000), period: rng.between(2, 32) }
    } else if pick == 2 {
        GeneratorKind::Fractal { seed: rng.below(1000000), period: rng.between(2, 32) }
    } else if pick == 3 {
        GeneratorKind::Billow { seed: rng.below(1000000), period: rng.between(2, 32) }
    } else if pick == 4 {
        GeneratorKind::Checker { period: rng.between(1, 10) }
    } else {
        GeneratorKind::Bands {
            period: rng.between(1, 10),
            cx: (width / 2) as u64,
            cy: (height / 2) as u64,
        }
    }
}

/// The parameter ranges the modifier sampler draws from: tighter than
/// the envelope the pointwise arithmetic accepts.
pub open spec fn modifier_drawn(m: ModifierKind) -> bool {
    match m {
        ModifierKind::Clamp { lo, hi } => -1000 <= lo <= 0 <= hi <= 1000,
        ModifierKind::ScaleBias { scale, bias } => 100 <= scale <= 3000 && 0 <= bias <= 1000,
        _ => true,
    }
}

/// Draws one modifier with randomized parameters.
pub fn random_modifier(rng: &mut Randomness) -> (r: ModifierKind)
    ensures
        wf_modifier(r),
        modifier_drawn(r),
{
    let pick = rng.below(5);
    if pick == 0 {
        ModifierKind::Abs
    } else if pick == 1 {
        let lo = -(rng.below(1001) as i64);
        let hi = rng.below(1001) as i64;
        ModifierKind::Clamp { lo, hi }
    } else if pick == 2 {
        ModifierKind::Exponent
    } else if pick == 3 {
        ModifierKind::Negate
    } else {
        ModifierKind::ScaleBias {
            scale: rng.between(100, 3000) as i64,
            bias: rng.below(1001) as i64,
        }
    }
}

/// Draws one combiner.
pub fn random_combiner(rng: &mut Randomness) -> (r: CombinerKind)
{
    let pick = rng.below(5);
    if pick == 0 {
        CombinerKind::Add
    } else if pick == 1 {
        CombinerKind::Max
    } else if pick == 2 {
        CombinerKind::Min
    } else if pick == 3 {
        CombinerKind::Multiply
    } else {
        CombinerKind::Power
    }
}

/// Builds a random composition of base generators, modifiers and
/// combiners, bakes it densely, and normalizes the result onto
/// [0, 1000]. Beyond the one mandatory generator, further generators
/// keep arriving while a draw stays under the generator chance, up to a
/// small cap; each reduction round combines at least one random pair,
/// may combine more, and modifies or carries the rest.
pub fn random_noise(rng: &mut Randomness, width: usize, height: usize) -> (r: NoiseField)
    requires
        1 <= width <= 10000,
        1 <= height <= 10000,
    ensures
        r.wf(),
        r.dimensions == (width, height),
        forall|i: int| 0 <= i < r.values@.len() ==> 0 <= #[trigger] r.values@[i] <= 1000,
        ((exists|i: int| 0 <= i < r.values@.len() && #[trigger] r.values@[i] == 0) && (exists|
            j: int,
        |
            0 <= j < r.values@.len() && #[trigger] r.values@[j] == 1000)) || (forall|i: int|
            0 <= i < r.values@.len() ==> #[trigger] r.values@[i] == 500),
{
    let settings = NoiseSettings::random(rng);
    let mut layer: Vec<NoiseField> = Vec::new();
    let first = random_generator(rng, width, height);
    layer.push(bake_generator(&first, width, height));
    let mut extra: usize = 0;
    while extra < 8
        invariant
            1 <= width <= 10000,
            1 <= height <= 10000,
            layer@.len() >= 1,
            forall|q: int|
                0 <= q < layer@.len() ==> (#[trigger] layer@[q]).wf() && layer@[q].dimensions == (
                width,
                height,
            ),
        decreases 8 - extra,
    {
        if rng.chance(settings.generator_chance) {
            let g = random_generator(rng, width, height);
            layer.push(bake_generator(&g, width, height));
            extra = extra + 1;
        } else {
            break ;
        }
    }
    while layer.len() > 1
        invariant
            1 <= width <= 10000,
            1 <= height <= 10000,
            layer@.len() >= 1,
            forall|q: int|
                0 <= q < layer@.len() ==> (#[trigger] layer@[q]).wf() && layer@[q].dimensions == (
                width,
                height,
            ),
        decreases layer@.len(),
    {
        let len = layer.len();
        let mut next: Vec<NoiseField> = Vec::new();
        // one mandatory combine of two distinct nodes keeps every round
        // shrinking the layer
        let i = rng.index_below(len);
        let j0 = rng.index_below(len - 1);
        let j = if j0 >= i {
            j0 + 1
        } else {
            j0
        };
        let c0 = random_combiner(rng);
        next.push(combine_fields(&layer[i], &layer[j], &c0));
        let mut unused: Vec<usize> = Vec::new();
        for k in 0..len
            invariant
                i < len,
                j < len,
                i != j,
                forall|q: int| 0 <= q < unused@.len() ==> #[trigger] unused@[q] < len,
                unused@.len() == k - (if (i as int) < k {
                    1int
                } else {
                    0int
                }) - (if (j as int) < k {
                    1int
                } else {
                    0int
                }),
        {
            if k != i && k != j {
                unused.push(k);
            }
        }
        // optional further combines over nodes not yet consumed
        while unused.len() >= 2
            invariant
                1 <= width <= 10000,
                1 <= height <= 10000,
                len == layer@.len(),
                forall|q: int|
                    0 <= q < layer@.len() ==> (#[trigger] layer@[q]).wf() && layer@[q].dimensions
                        == (width, height),
                forall|q: int| 0 <= q < unused@.len() ==> #[trigger] unused@[q] < len,
                forall|q: int|
                    0 <= q < next@.len() ==> (#[trigger] next@[q]).wf() && next@[q].dimensions == (
                    width,
                    height,
                ),
                next@.len() + unused@.len() <= len - 1,
                next@.len() >= 1,
            decreases unused@.len(),
        {
            if rng.chance(settings.combine_chance) {
                let a_pos = rng.index_below(unused.len());
                let a = unused[a_pos];
                let last = unused.len() - 1;
                let moved = unused[last];
                unused[a_pos] = moved;
                unused.pop();
                let b_pos = rng.index_below(unused.len());
                let b = unused[b_pos];
                let last2 = unused.len() - 1;
                let moved2 = unused[last2];
                unused[b_pos] = moved2;
                unused.pop();
                let c = random_combiner(rng);
                next.push(combine_fields(&layer[a], &layer[b], &c));
            } else {
                break ;
            }
        }
        // modify or carry over what is left
        let m = unused.len();
        for t in 0..m
            invariant
                1 <= width <= 10000,
                1 <= height <= 10000,
                m == unused@.len(),
                len == layer@.len(),
                forall|q: int|
                    0 <= q < layer@.len() ==> (#[trigger] layer@[q]).wf() && layer@[q].dimensions
                        == (width, height),
                forall|q: int| 0 <= q < unused@.len() ==> #[trigger] unused@[q] < len,
                forall|q: int|
                    0 <= q < next@.len() ==> (#[trigger] next@[q]).wf() && next@[q].dimensions == (
                    width,
                    height,
                ),
                next@.len() + m - t <= len - 1,
                next@.len() >= 1,
        {
            let k = unused[t];
            if rng.chance(settings.modify_chance) {
                let mk = random_modifier(rng);
                next.push(modify_field(&layer[k], &mk));
            } else {
                next.push(layer[k].duplicate());
            }
        }
        layer = next;
    }
    let mut field = layer[0].duplicate();
    proof {
        assert(field.wf());
    }
    let ghost pre = field.values@;
    proof {
        let w = field.width();
        let h = field.height();
        assert(w * h >= 1) by (nonlinear_arith)
            requires
                w >= 1,
                h >= 1,
        ;
    }
    field.normalize();
    proof {
        lemma_minmax_attained(pre);
        if seq_min(pre) < seq_max(pre) {
            let i = choose|i: int| 0 <= i < pre.len() && #[trigger] pre[i] == seq_min(pre);
            let j = choose|j: int| 0 <= j < pre.len() && #[trigger] pre[j] == seq_max(pre);
            assert(field.values@[i] == 0);
            assert(field.values@[j] == 1000);
        }
    }
    field
}

/// The keys a palette holds, in storage order.
pub open spec fn palette_keys(p: crate::palette::Palette) -> Seq<char> {
    p.entries@.map_values(|e: (char, [u8; 4])| e.0)
}

/// The crude colour distance the grouping uses: the channels summed.
pub open spec fn color_sum(c: [u8; 4]) -> int {
    c[0] + c[1] + c[2] + c[3]
}

/// Two colours within the fixed grouping threshold of each other.
pub open spec fn close_colors(a: [u8; 4], b: [u8; 4]) -> bool {
    crate::gen::abs_diff(color_sum(a), color_sum(b)) < 100
}

/// The symbols whose colour sits close to entry `i`'s, scanned from
/// entry `j` onward.
pub open spec fn group_tail(entries: Seq<(char, [u8; 4])>, i: int, j: int) -> Seq<char>
    decreases entries.len() - j,
{
    if j < 0 || j >= entries.len() {
        Seq::empty()
    } else if close_colors(entries[i].1, entries[j].1) {
        seq![entries[j].0] + group_tail(entries, i, j + 1)
    } else {
        group_tail(entries, i, j + 1)
    }
}

/// Entry `i`'s letter group: its own symbol, then every symbol (its own
/// again among them) whose colour sits within the threshold.
pub open spec fn plateau_group(entries: Seq<(char, [u8; 4])>, i: int) -> Seq<char> {
    seq![entries[i].0] + group_tail(entries, i, 0)
}

/// Groups the palette's symbols by colour proximity (the absolute
/// difference of summed channel values under a fixed threshold), draws
/// ascending thresholds, and pairs them up: the symbol-bucket table used
/// to discretize a normalized field.
pub fn noise_plateau(rng: &mut Randomness, palette: &crate::palette::Palette) -> (r: Vec<
    (u32, Vec<char>),
>)
    requires
        palette.wf(),
        1 <= palette.entries@.len() <= 1000,
    ensures
        r@.len() == palette.entries@.len(),
        forall|i: int|
            0 <= i < r@.len() ==> (#[trigger] r@[i]).1@ == plateau_group(palette.entries@, i),
        forall|i: int| 0 <= i < r@.len() ==> (#[trigger] r@[i]).1@.len() >= 1,
        forall|i: int, m: int|
            0 <= i < r@.len() && 0 <= m < r@[i].1@.len() ==> palette_keys(*palette).contains(
                #[trigger] r@[i].1@[m],
            ),
        forall|i: int, j: int| 0 <= i < j < r@.len() ==> r@[i].0 <= r@[j].0,
        forall|i: int| 0 <= i < r@.len() ==> (#[trigger] r@[i]).0 <= 1000,
        r@[r@.len() - 1].0 == 1000,
{
    let n = palette.entries.len();
    let mut sums: Vec<u32> = Vec::new();
    for i in 0..n
        invariant
            n == palette.entries@.len(),
            sums@.len() == i,
            forall|k: int|
                0 <= k < i ==> #[trigger] sums@[k] == color_sum(palette.entries@[k].1),
    {
        let color = palette.entries[i].1;
        sums.push(
            color[0] as u32 + color[1] as u32 + color[2] as u32 + color[3] as u32,
        );
    }
    let mut groups: Vec<Vec<char>> = Vec::new();
    for i in 0..n
        invariant
            n == palette.entries@.len(),
            sums@.len() == n,
            forall|k: int|
                0 <= k < n ==> #[trigger] sums@[k] == color_sum(palette.entries@[k].1),
            groups@.len() == i,
            forall|q: int|
                0 <= q < groups@.len() ==> (#[trigger] groups@[q])@ == plateau_group(
                    palette.entries@,
                    q,
                ),
            forall|q: int| 0 <= q < groups@.len() ==> (#[trigger] groups@[q])@.len() >= 1,
            forall|q: int, m: int|
                0 <= q < groups@.len() && 0 <= m < groups@[q]@.len() ==> palette_keys(
                    *palette,
                ).contains(#[trigger] groups@[q]@[m]),
    {
        let own_key = palette.entries[i].0;
        let mut group: Vec<char> = Vec::new();
        group.push(own_key);
        proof {
            assert(palette_keys(*palette)[i as int] == own_key);
        }
        for j in 0..n
            invariant
                n == palette.entries@.len(),
                sums@.len() == n,
                forall|k: int|
                    0 <= k < n ==> #[trigger] sums@[k] == color_sum(palette.entries@[k].1),
                i < n,
                group@.len() >= 1,
                seq![palette.entries@[i as int].0] + group_tail(palette.entries@, i as int, 0)
                    =~= group@ + group_tail(palette.entries@, i as int, j as int),
                forall|m: int|
                    0 <= m < group@.len() ==> palette_keys(*palette).contains(
                        #[trigger] group@[m],
                    ),
        {
            let own = sums[i];
            let other = sums[j];
            let diff = if own >= other {
                own - other
            } else {
                other - own
            };
            let ghost before = group@;
            if diff < 100 {
                let other_key = palette.entries[j].0;
                proof {
                    assert(palette_keys(*palette)[j as int] == other_key);
                    assert(close_colors(
                        palette.entries@[i as int].1,
                        palette.entries@[j as int].1,
                    ));
                    assert(group_tail(palette.entries@, i as int, j as int) == seq![other_key]
                        + group_tail(palette.entries@, i as int, j + 1));
                }
                group.push(other_key);
                proof {
                    assert(before + (seq![other_key] + group_tail(
                        palette.entries@,
                        i as int,
                        j + 1,
                    )) =~= group@ + group_tail(palette.entries@, i as int, j + 1));
                }
            } else {
                proof {
                    assert(!close_colors(
                        palette.entries@[i as int].1,
                        palette.entries@[j as int].1,
                    ));
                    assert(group_tail(palette.entries@, i as int, j as int) == group_tail(
                        palette.entries@,
                        i as int,
                        j + 1,
                    ));
                }
            }
        }
        proof {
            assert(group_tail(palette.entries@, i as int, n as int) =~= Seq::<char>::empty());
            assert(group@ + Seq::<char>::empty() =~= group@);
            assert(group@ =~= plateau_group(palette.entries@, i as int));
        }
        groups.push(group);
    }
    let mut thresholds: Vec<u32> = Vec::new();
    let mut drawn: usize = 0;
    while drawn + 1 < n
        invariant
            n >= 1,
            drawn < n,
            thresholds@.len() == drawn,
            forall|q: int| 0 <= q < thresholds@.len() ==> #[trigger] thresholds@[q] <= 1000,
            forall|q: int, w: int|
                0 <= q < w < thresholds@.len() ==> thresholds@[q] <= thresholds@[w],
        decreases n - drawn,
    {
        let value = rng.below(1000) as u32;
        insert_sorted(&mut thresholds, value);
        drawn = drawn + 1;
    }
    thresholds.push(1000);
    let mut out: Vec<(u32, Vec<char>)> = Vec::new();
    let total = groups.len();
    for i in 0..total
        invariant
            total == groups@.len() == n,
            thresholds@.len() == n,
            out@.len() == i,
            forall|q: int| 0 <= q < thresholds@.len() ==> #[trigger] thresholds@[q] <= 1000,
            forall|q: int, w: int|
                0 <= q < w < thresholds@.len() ==> thresholds@[q] <= thresholds@[w],
            thresholds@[n - 1] == 1000,
            forall|q: int|
                0 <= q < groups@.len() ==> (#[trigger] groups@[q])@ == plateau_group(
                    palette.entries@,
                    q,
                ),
            forall|q: int| 0 <= q < groups@.len() ==> (#[trigger] groups@[q])@.len() >= 1,
            forall|q: int, m: int|
                0 <= q < groups@.len() && 0 <= m < groups@[q]@.len() ==> palette_keys(
                    *palette,
                ).contains(#[trigger] groups@[q]@[m]),
            forall|q: int| 0 <= q < i ==> (#[trigger] out@[q]).0 == thresholds@[q],
            forall|q: int| 0 <= q < i ==> (#[trigger] out@[q]).1@ == groups@[q]@,
    {
        let threshold = thresholds[i];
        let group = clone_chars(&groups[i]);
        out.push((threshold, group));
    }
    out
}

/// A fresh copy of a character vector.
fn clone_chars(v: &Vec<char>) -> (r: Vec<char>)
    ensures
        r@ == v@,
{
    let n = v.len();
    let mut out: Vec<char> = Vec::new();
    for i in 0..n
        invariant
            n == v@.len(),
            out@ == v@.take(i as int),
    {
        out.push(v[i]);
        proof {
            assert(out@ =~= v@.take(i + 1));
        }
    }
    proof {
        assert(v@.take(n as int) =~= v@);
    }
    out
}

/// Inserts a value into an ascending vector, keeping it ascending.
fn insert_sorted(v: &mut Vec<u32>, value: u32)
    requires
        forall|q: int, w: int| 0 <= q < w < old(v)@.len() ==> old(v)@[q] <= old(v)@[w],
        old(v)@.len() < usize::MAX,
    ensures
        final(v)@.len() == old(v)@.len() + 1,
        forall|q: int, w: int| 0 <= q < w < final(v)@.len() ==> final(v)@[q] <= final(v)@[w],
        forall|q: int|
            0 <= q < final(v)@.len() ==> #[trigger] final(v)@[q] == value || old(v)@.contains(
                final(v)@[q],
            ),
{
    let n = v.len();
    let mut p: usize = 0;
    while p < n && v[p] <= value
        invariant
            n == v@.len(),
            *v == *old(v),
            p <= n,
            forall|q: int| 0 <= q < p ==> #[trigger] v@[q] <= value,
        decreases n - p,
    {
        p = p + 1;
    }
    v.insert(p, value);
    proof {
        assert forall|q: int|
            0 <= q < v@.len() implies #[trigger] v@[q] == value || old(v)@.contains(v@[q]) by {
            if q < p {
                assert(v@[q] == old(v)@[q]);
            } else if q > p {
                assert(v@[q] == old(v)@[q - 1]);
            }
        }
        assert forall|q: int, w: int|
            0 <= q < w < v@.len() implies v@[q] <= v@[w] by {
            if w < p {
                assert(v@[q] == old(v)@[q] && v@[w] == old(v)@[w]);
            } else if q > p {
                assert(v@[q] == old(v)@[q - 1] && v@[w] == old(v)@[w - 1]);
            } else if q < p && w == p {
                assert(v@[q] == old(v)@[q] && v@[w] == value);
            } else if q < p && w > p {
                assert(v@[q] == old(v)@[q] && v@[w] == old(v)@[w - 1]);
                assert(q < w - 1);
            } else {
                assert(q == p && w > p);
                assert(v@[q] == value && v@[w] == old(v)@[w - 1]);
                assert(p <= w - 1 < old(v)@.len());
                assert(!(v@[p as int] <= value) || v@[p as int] == value);
                assert(value < old(v)@[p as int]);
                assert(old(v)@[p as int] <= old(v)@[w - 1]);
            }
        }
    }
}

/// Reruns only the seeding step against an existing grid and palette:
/// bakes a fresh random field, buckets it through a fresh plateau, and
/// sets every cell to a random member of its bucket's letter group.
/// Whatever the random draws, every cell ends up holding a symbol the
/// palette knows; rules and palette are untouched.
pub fn noise_fill(sprite: &mut crate::engine::SpriteGen, rng: &mut Randomness)
    requires
        old(sprite).char_texture.wf(),
        old(sprite).char_texture.width() <= 10000,
        old(sprite).char_texture.height() <= 10000,
        old(sprite).char_color.wf(),
        1 <= old(sprite).char_color.entries@.len() <= 1000,
    ensures
        final(sprite).char_texture.wf(),
        final(sprite).char_texture.dimensions == old(sprite).char_texture.dimensions,
        final(sprite).rules@ == old(sprite).rules@,
        final(sprite).char_color == old(sprite).char_color,
        forall|i: int|
            0 <= i < final(sprite).char_texture.pixels@.len() ==> palette_keys(
                final(sprite).char_color,
            ).contains(#[trigger] final(sprite).char_texture.pixels@[i]),
{
    let width = sprite.char_texture.dimensions.0;
    let height = sprite.char_texture.dimensions.1;
    let field = random_noise(rng, width, height);
    let plateau = noise_plateau(rng, &sprite.char_color);
    let n = sprite.char_texture.pixels.len();
    proof {
        assert(field.width() * field.height() == sprite.char_texture.width()
            * sprite.char_texture.height());
    }
    for index in 0..n
        invariant
            sprite.char_texture.wf(),
            sprite.char_texture.dimensions == old(sprite).char_texture.dimensions,
            sprite.rules@ == old(sprite).rules@,
            sprite.char_color == old(sprite).char_color,
            n == sprite.char_texture.pixels@.len(),
            field.wf(),
            field.dimensions == sprite.char_texture.dimensions,
            field.values@.len() == n,
            forall|q: int| 0 <= q < field.values@.len() ==> 0 <= #[trigger] field.values@[q]
                <= 1000,
            plateau@.len() >= 1,
            forall|q: int| 0 <= q < plateau@.len() ==> (#[trigger] plateau@[q]).1@.len() >= 1,
            forall|q: int, m: int|
                0 <= q < plateau@.len() && 0 <= m < plateau@[q].1@.len() ==> palette_keys(
                    sprite.char_color,
                ).contains(#[trigger] plateau@[q].1@[m]),
            forall|i: int|
                0 <= i < index ==> palette_keys(sprite.char_color).contains(
                    #[trigger] sprite.char_texture.pixels@[i],
                ),
    {
        let (x, y) = sprite.char_texture.xy_from_index(index);
        let sample = field.values[index];
        let level = get_noise_plateau_level(&plateau, sample as u32);
        let group = &plateau[level].1;
        let letter = group[rng.index_below(group.len())];
        proof {
            assert(palette_keys(sprite.char_color).contains(letter));
        }
        let ghost before = sprite.char_texture.pixels@;
        sprite.char_texture.set(x, y, letter);
        proof {
            assert(sprite.char_texture.pixels@ == before.update(index as int, letter));
            assert forall|i: int|
                0 <= i < index + 1 implies palette_keys(sprite.char_color).contains(
                #[trigger] sprite.char_texture.pixels@[i],
            ) by {
                if i < index {
                    assert(sprite.char_texture.pixels@[i] == before[i]);
                }
            }
        }
    }
}

/// The first bucket whose band [previous bound, bound] holds the value;
/// the first bucket when none does.
pub open spec fn pick_from(th: Seq<u32>, v: int, i: int, prev: int) -> int
    decreases th.len() - i,
{
    if i < 0 || i >= th.len() {
        0
    } else if prev <= v <= th[i] {
        i
    } else {
        pick_from(th, v, i + 1, th[i] as int)
    }
}

/// The thresholds of a plateau table.
pub open spec fn plateau_thresholds(levels: Seq<(u32, Vec<char>)>) -> Seq<u32> {
    levels.map_values(|p: (u32, Vec<char>)| p.0)
}

/// Scans the plateau in ascending order for the first bucket whose band
/// holds the sampled value; defaults to the first bucket.
pub fn get_noise_plateau_level(levels: &Vec<(u32, Vec<char>)>, value: u32) -> (r: usize)
    requires
        levels@.len() >= 1,
    ensures
        r < levels@.len(),
        r == pick_from(plateau_thresholds(levels@), value as int, 0, 0),
{
    let n = levels.len();
    let mut prev: u32 = 0;
    let mut i: usize = 0;
    while i < n
        invariant
            n == levels@.len() >= 1,
            i <= n,
            pick_from(plateau_thresholds(levels@), value as int, 0, 0) == pick_from(
                plateau_thresholds(levels@),
                value as int,
                i as int,
                prev as int,
            ),
        decreases n - i,
    {
        let threshold = levels[i].0;
        proof {
            assert(plateau_thresholds(levels@)[i as int] == threshold);
        }
        if prev <= value && value <= threshold {
            return i;
        }
        prev = threshold;
        i = i + 1;
    }
    0
}

} // verus!
