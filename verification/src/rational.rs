use vstd::prelude::*;

verus! {

use vstd::arithmetic::div_mod::lemma_fundamental_div_mod;
use vstd::arithmetic::div_mod::lemma_mod_self_0;
use vstd::arithmetic::div_mod::lemma_mod_multiples_basic;
use vstd::arithmetic::div_mod::lemma_add_mod_noop;
use vstd::arithmetic::div_mod::lemma_small_mod;
use vstd::arithmetic::div_mod::lemma_div_multiples_vanish;
use vstd::arithmetic::div_mod::lemma_div_nonincreasing;
use vstd::arithmetic::div_mod::lemma_div_is_ordered;
use vstd::arithmetic::div_mod::lemma_div_by_self;

/// Mathematical value of a scalar: the fraction `n / d` over unbounded integers.
/// Every specification about scalars is stated over this type.
pub struct Ratio {
    pub n: int,
    pub d: int,
}

/// A ratio is well formed when its denominator is positive.
pub open spec fn rwf(a: Ratio) -> bool {
    a.d >= 1
}

/// Two ratios denote the same rational number (cross multiplication).
pub open spec fn req(a: Ratio, b: Ratio) -> bool {
    a.n * b.d == b.n * a.d
}

pub open spec fn rzero() -> Ratio {
    Ratio { n: 0, d: 1 }
}

pub open spec fn rone() -> Ratio {
    Ratio { n: 1, d: 1 }
}

pub open spec fn radd(a: Ratio, b: Ratio) -> Ratio {
    Ratio { n: a.n * b.d + b.n * a.d, d: a.d * b.d }
}

pub open spec fn rneg(a: Ratio) -> Ratio {
    Ratio { n: -a.n, d: a.d }
}

pub open spec fn rsub(a: Ratio, b: Ratio) -> Ratio {
    radd(a, rneg(b))
}

pub open spec fn rmul(a: Ratio, b: Ratio) -> Ratio {
    Ratio { n: a.n * b.n, d: a.d * b.d }
}

/// Reciprocal, with the sign moved into the numerator so the
/// denominator stays positive.  Meaningful only when `b.n != 0`.
pub open spec fn rinv(b: Ratio) -> Ratio {
    if b.n >= 0 {
        Ratio { n: b.d, d: b.n }
    } else {
        Ratio { n: -b.d, d: -b.n }
    }
}

pub open spec fn rdiv(a: Ratio, b: Ratio) -> Ratio {
    rmul(a, rinv(b))
}

pub open spec fn rle(a: Ratio, b: Ratio) -> bool {
    a.n * b.d <= b.n * a.d
}

pub open spec fn rlt(a: Ratio, b: Ratio) -> bool {
    a.n * b.d < b.n * a.d
}

pub open spec fn iabs(n: int) -> int {
    if n >= 0 {
        n
    } else {
        -n
    }
}

pub open spec fn rabs(a: Ratio) -> Ratio {
    if a.n >= 0 {
        a
    } else {
        rneg(a)
    }
}

/// The shared tolerance of all approximate comparisons.
pub open spec fn reps() -> Ratio {
    Ratio { n: 1, d: 100_000 }
}

/// Approximate equality: the two values differ by less than the tolerance.
pub open spec fn rapprox(a: Ratio, b: Ratio) -> bool {
    rlt(rabs(rsub(a, b)), reps())
}

/// Truncation of a value to the fixed precision grid: the numerator is
/// scaled to denominator `PREC` and the fraction is cut toward zero.
pub open spec fn rround(x: Ratio) -> Ratio
    recommends
        rwf(x),
{
    Ratio {
        n: if x.n >= 0 {
            (x.n * PREC as int) / x.d
        } else {
            -(((-x.n) * PREC as int) / x.d)
        },
        d: PREC as int,
    }
}

/// What every coarsening operation returns: the value truncated onto the
/// precision grid, so that every coarsened denominator is exactly `PREC`.
pub open spec fn rfix(x: Ratio) -> Ratio
    recommends
        rwf(x),
{
    rround(x)
}

/// Scale factor chosen for the square root so that the result's
/// denominator is close to `PREC` but never coarser than the input's.
pub open spec fn sqrt_scale(d: int) -> int
    recommends
        d >= 1,
{
    if d >= PREC as int {
        1
    } else {
        (PREC as int) / d
    }
}

/// The square root approximation: with `s = sqrt_scale(a.d)`, the result is
/// `isqrt(a.n * a.d * s * s) / (a.d * s)`, the floor of the true root on a
/// grid of spacing `1 / (a.d * s)`.
pub open spec fn rsqrt(a: Ratio) -> Ratio
    recommends
        rwf(a),
        a.n >= 0,
{
    let s = sqrt_scale(a.d);
    Ratio { n: isqrt_spec(a.n * a.d * s * s), d: a.d * s }
}

/// Product truncated to the precision grid.
pub open spec fn rmulr(a: Ratio, b: Ratio) -> Ratio {
    rround(rmul(a, b))
}

/// Quotient truncated to the precision grid.
pub open spec fn rdivr(a: Ratio, b: Ratio) -> Ratio {
    rround(rdiv(a, b))
}

/// Iterated product with truncation to the precision grid after each step.
pub open spec fn rpow(a: Ratio, e: nat) -> Ratio
    decreases e,
{
    if e == 0 {
        rone()
    } else {
        rround(rmul(rpow(a, (e - 1) as nat), a))
    }
}

/// The integer nearest to the value, halves rounded away from zero.
pub open spec fn rround_int(x: Ratio) -> int
    recommends
        rwf(x),
{
    if x.n >= 0 {
        (2 * x.n + x.d) / (2 * x.d)
    } else {
        -((2 * (-x.n) + x.d) / (2 * x.d))
    }
}

/// The value cut toward zero to an integer.
pub open spec fn rtrunc(x: Ratio) -> int
    recommends
        rwf(x),
{
    if x.n >= 0 {
        x.n / x.d
    } else {
        -((-x.n) / x.d)
    }
}

pub open spec fn gcd_spec(a: int, b: int) -> int
    recommends
        a >= 0,
        b >= 0,
    decreases b,
{
    if b <= 0 {
        a
    } else {
        gcd_spec(b, a % b)
    }
}

/// The greatest common divisor of a nonnegative value and a positive value
/// is positive, at most the second value, and divides both.
pub proof fn lemma_gcd_properties(a: int, b: int)
    requires
        a >= 0,
        b >= 1,
    ensures
        1 <= gcd_spec(a, b),
        gcd_spec(a, b) <= b,
        a % gcd_spec(a, b) == 0,
        b % gcd_spec(a, b) == 0,
    decreases b,
{
    let g = gcd_spec(a, b);
    let r = a % b;
    assert(0 <= r < b);
    if r == 0 {
        assert(gcd_spec(b, 0) == b);
        lemma_mod_self_0(b);
    } else {
        lemma_gcd_properties(b, r);
        assert(g == gcd_spec(b, r));
        lemma_fundamental_div_mod(a, b);
        let q = a / b;
        // b and r are multiples of g, hence so is a == b * q + r.
        lemma_fundamental_div_mod(b, g);
        let kb = b / g;
        assert(b == g * kb);
        lemma_fundamental_div_mod(r, g);
        let kr = r / g;
        assert(r == g * kr);
        assert(a == g * (kb * q + kr)) by (nonlinear_arith)
            requires
                a == b * q + r,
                b == g * kb,
                r == g * kr,
        ;
        lemma_mod_multiples_basic(kb * q + kr, g);
    }
}

/// A canonical representative: both components divided by their gcd.
pub open spec fn rcanon(x: Ratio) -> Ratio
    recommends
        rwf(x),
{
    let g = gcd_spec(iabs(x.n), x.d);
    Ratio { n: x.n / g, d: x.d / g }
}

/// The canonical representative denotes the same rational number.
pub proof fn lemma_rcanon(x: Ratio)
    requires
        rwf(x),
    ensures
        rwf(rcanon(x)),
        req(rcanon(x), x),
        iabs(rcanon(x).n) <= iabs(x.n),
        rcanon(x).d <= x.d,
        rcanon(x).n == 0 <==> x.n == 0,
{
    let a = iabs(x.n);
    let g = gcd_spec(a, x.d);
    lemma_gcd_properties(a, x.d);
    lemma_fundamental_div_mod(a, g);
    let ka = a / g;
    assert(a == g * ka);
    lemma_fundamental_div_mod(x.d, g);
    let kd = x.d / g;
    assert(x.d == g * kd);
    assert(kd >= 1) by (nonlinear_arith)
        requires
            x.d == g * kd,
            x.d >= 1,
            g >= 1,
            kd == x.d / g,
            g <= x.d,
    ;
    assert(g * ka == 0 && g >= 1 ==> ka == 0) by (nonlinear_arith);
    if x.n >= 0 {
        assert(x.n / g == ka);
        assert(ka * x.d == x.n * kd) by (nonlinear_arith)
            requires
                x.n == g * ka,
                x.d == g * kd,
        ;
        assert(ka == 0 ==> x.n == 0) by (nonlinear_arith)
            requires
                x.n == g * ka,
        ;
        lemma_div_nonincreasing(x.n, g);
        lemma_div_nonincreasing(x.d, g);
    } else {
        assert(-x.n == g * ka);
        assert(g * (-ka) == -(g * ka)) by (nonlinear_arith);
        assert(x.n == g * (-ka));
        lemma_div_multiples_vanish(-ka, g);
        assert(x.n / g == -ka);
        assert((-ka) * x.d == x.n * kd) by (nonlinear_arith)
            requires
                x.n == g * (-ka),
                x.d == g * kd,
        ;
        assert(ka >= 0) by (nonlinear_arith)
            requires
                g * ka == -x.n,
                -x.n > 0,
                g >= 1,
        ;
        lemma_div_nonincreasing(-x.n, g);
        lemma_div_nonincreasing(x.d, g);
    }
}

/// The integer square root: the largest `r` with `r * r <= n`.
pub open spec fn isqrt_spec(n: int) -> int
    recommends
        n >= 0,
    decreases n,
{
    if n <= 0 {
        0
    } else {
        let r = isqrt_spec(n - 1);
        if (r + 1) * (r + 1) <= n {
            r + 1
        } else {
            r
        }
    }
}

pub proof fn lemma_isqrt_bracket(n: int)
    requires
        n >= 0,
    ensures
        isqrt_spec(n) >= 0,
        isqrt_spec(n) * isqrt_spec(n) <= n,
        (isqrt_spec(n) + 1) * (isqrt_spec(n) + 1) > n,
    decreases n,
{
    if n > 0 {
        lemma_isqrt_bracket(n - 1);
        let r = isqrt_spec(n - 1);
        if (r + 1) * (r + 1) <= n {
            assert((r + 2) * (r + 2) > (r + 1) * (r + 1)) by (nonlinear_arith)
                requires
                    r >= 0,
            ;
            assert((r + 1) * (r + 1) >= n);
        }
    }
}

pub proof fn lemma_isqrt_unique(n: int, r: int)
    requires
        n >= 0,
        r >= 0,
        r * r <= n,
        (r + 1) * (r + 1) > n,
    ensures
        r == isqrt_spec(n),
{
    let s = isqrt_spec(n);
    lemma_isqrt_bracket(n);
    assert(r == s) by (nonlinear_arith)
        requires
            r >= 0,
            s >= 0,
            r * r <= n,
            (r + 1) * (r + 1) > n,
            s * s <= n,
            (s + 1) * (s + 1) > n,
    ;
}

/// Largest magnitude a numerator may take.
pub const NUM_CAP: i64 = 9_000_000_000_000_000_000;

/// Largest value a denominator may take.
pub const DEN_CAP: i64 = 1_000_000_000_000_000_000;

/// Denominator used when a value is coarsened to fixed precision.
pub const PREC: i64 = 1_000_000_000;

pub open spec fn in_caps(x: Ratio) -> bool {
    &&& -(NUM_CAP as int) <= x.n <= NUM_CAP as int
    &&& 1 <= x.d <= DEN_CAP as int
}

/// An exact rational scalar with bounded components.  The value denoted is
/// `num / den`; all arithmetic is computed exactly in 128-bit intermediates
/// and reduced to canonical form, failing (with `None`) only when a result
/// leaves the representable range.
#[derive(Clone, Copy, Debug)]
pub struct Rat {
    num: i64,
    den: i64,
}

impl View for Rat {
    type V = Ratio;

    closed spec fn view(&self) -> Ratio {
        Ratio { n: self.num as int, d: self.den as int }
    }
}

pub proof fn lemma_mul_abs_bound(a: int, b: int, ca: int, cb: int)
    by (nonlinear_arith)
    requires
        iabs(a) <= ca,
        iabs(b) <= cb,
    ensures
        iabs(a * b) <= ca * cb,
{
}

pub proof fn lemma_pos_mul(a: int, b: int)
    by (nonlinear_arith)
    requires
        a >= 1,
        b >= 1,
    ensures
        a * b >= 1,
{
}

fn gcd_i128(a0: i128, b0: i128) -> (g: i128)
    requires
        0 <= a0,
        1 <= b0,
    ensures
        g == gcd_spec(a0 as int, b0 as int),
        1 <= g <= b0,
        (a0 as int) % (g as int) == 0,
        (b0 as int) % (g as int) == 0,
{
    proof {
        lemma_gcd_properties(a0 as int, b0 as int);
    }
    let mut x = a0;
    let mut y = b0;
    while y != 0
        invariant
            0 <= x,
            0 <= y,
            gcd_spec(x as int, y as int) == gcd_spec(a0 as int, b0 as int),
        decreases y,
    {
        let r = x % y;
        x = y;
        y = r;
    }
    x
}

/// Bound on the unreduced numerators and denominators the constructors accept.
pub const RAW_CAP_ABS: i128 = 82_000_000_000_000_000_000_000_000_000_000_000_000;

fn isqrt_i128(m: i128) -> (r: i128)
    requires
        0 <= m <= RAW_CAP_ABS as int,
    ensures
        r == isqrt_spec(m as int),
        0 <= r <= 9_100_000_000_000_000_000,
{
    let mut lo: i128 = 0;
    let mut hi: i128 = 9_100_000_000_000_000_000;
    proof {
        assert((hi as int + 1) * (hi as int + 1) > m as int) by (nonlinear_arith)
            requires
                hi as int == 9_100_000_000_000_000_000,
                m as int <= RAW_CAP_ABS as int,
        ;
    }
    while lo < hi
        invariant
            0 <= lo <= hi <= 9_100_000_000_000_000_000,
            (lo as int) * (lo as int) <= m as int,
            (hi as int + 1) * (hi as int + 1) > m as int,
            0 <= m,
        decreases hi - lo,
    {
        let mid = lo + (hi - lo + 1) / 2;
        proof {
            assert((mid as int) * (mid as int)
                <= 83_000_000_000_000_000_000_000_000_000_000_000_000) by (nonlinear_arith)
                requires
                    0 <= mid as int <= 9_100_000_000_000_000_000,
            ;
        }
        if mid * mid <= m {
            lo = mid;
        } else {
            hi = mid - 1;
        }
    }
    proof {
        lemma_isqrt_unique(m as int, lo as int);
    }
    lo
}

fn make(n: i128, d: i128) -> (r: Option<Rat>)
    requires
        1 <= d <= RAW_CAP_ABS as int,
        -(RAW_CAP_ABS as int) <= n <= RAW_CAP_ABS as int,
    ensures
        r matches Some(v) ==> v.wf() && v@ == rcanon(Ratio { n: n as int, d: d as int }),
        r is Some <==> in_caps(rcanon(Ratio { n: n as int, d: d as int })),
{
    let ghost x = Ratio { n: n as int, d: d as int };
    let a: i128 = if n < 0 {
        -n
    } else {
        n
    };
    let g = gcd_i128(a, d);
    let rn = a / g;
    let rd = d / g;
    proof {
        lemma_rcanon(x);
        assert(iabs(x.n) == a as int);
        assert(gcd_spec(iabs(x.n), x.d) == g as int);
        lemma_fundamental_div_mod(a as int, g as int);
        let ka = (a as int) / (g as int);
        assert(a as int == (g as int) * ka);
        if n < 0 {
            assert((g as int) * (-ka) == -((g as int) * ka)) by (nonlinear_arith);
            assert(x.n == (g as int) * (-ka));
            lemma_div_multiples_vanish(-ka, g as int);
            assert(x.n / (g as int) == -ka);
            assert(rcanon(x).n == -(rn as int));
        } else {
            assert(rcanon(x).n == rn as int);
        }
        assert(rcanon(x).d == rd as int);
        lemma_div_nonincreasing(a as int, g as int);
        lemma_div_nonincreasing(d as int, g as int);
        assert(rd >= 1) by {
            lemma_div_is_ordered(g as int, d as int, g as int);
            lemma_div_by_self(g as int);
        }
        assert(rn >= 0);
    }
    if rd <= DEN_CAP as i128 && rn <= NUM_CAP as i128 {
        let num: i64 = if n < 0 {
            -(rn as i64)
        } else {
            rn as i64
        };
        Some(Rat { num, den: rd as i64 })
    } else {
        None
    }
}

impl Rat {
    /// A representable value: numerator and denominator within the caps.
    /// Every reachable scalar satisfies this; it is the type's invariant.
    #[verifier::type_invariant]
    pub open spec fn wf(self) -> bool {
        in_caps(self@)
    }

    /// Builds the scalar `num / den` exactly as given (not reduced).
    pub fn new(num: i64, den: i64) -> (r: Rat)
        requires
            1 <= den <= DEN_CAP as int,
            -(NUM_CAP as int) <= num as int <= NUM_CAP as int,
        ensures
            r.wf(),
            r@ == (Ratio { n: num as int, d: den as int }),
    {
        Rat { num, den }
    }

    /// Builds the integer value `i`.
    pub fn from_int(i: i64) -> (r: Rat)
        requires
            -(NUM_CAP as int) <= i as int <= NUM_CAP as int,
        ensures
            r.wf(),
            r@ == (Ratio { n: i as int, d: 1 }),
    {
        Rat { num: i, den: 1 }
    }

    pub fn zero() -> (r: Rat)
        ensures
            r.wf(),
            r@ == rzero(),
    {
        Rat { num: 0, den: 1 }
    }

    pub fn one() -> (r: Rat)
        ensures
            r.wf(),
            r@ == rone(),
    {
        Rat { num: 1, den: 1 }
    }

    pub fn neg(&self) -> (r: Rat)
        ensures
            r.wf(),
            r@ == rneg(self@),
    {
        proof {
            use_type_invariant(*self);
        }
        Rat { num: -self.num, den: self.den }
    }

    pub fn abs(&self) -> (r: Rat)
        ensures
            r.wf(),
            r@ == rabs(self@),
    {
        proof {
            use_type_invariant(*self);
        }
        if self.num < 0 {
            Rat { num: -self.num, den: self.den }
        } else {
            *self
        }
    }

    pub fn is_zero(&self) -> (r: bool)
        ensures
            r == (self@.n == 0),
    {
        self.num == 0
    }

    pub fn is_nonneg(&self) -> (r: bool)
        ensures
            r == (self@.n >= 0),
    {
        self.num >= 0
    }

    pub fn lt(&self, other: &Rat) -> (r: bool)
        ensures
            r == rlt(self@, other@),
    {
        proof {
            use_type_invariant(*self);
            use_type_invariant(*other);
            lemma_mul_abs_bound(self@.n, other@.d, NUM_CAP as int, DEN_CAP as int);
            lemma_mul_abs_bound(other@.n, self@.d, NUM_CAP as int, DEN_CAP as int);
        }
        (self.num as i128) * (other.den as i128) < (other.num as i128) * (self.den as i128)
    }

    pub fn le(&self, other: &Rat) -> (r: bool)
        ensures
            r == rle(self@, other@),
    {
        proof {
            use_type_invariant(*self);
            use_type_invariant(*other);
            lemma_mul_abs_bound(self@.n, other@.d, NUM_CAP as int, DEN_CAP as int);
            lemma_mul_abs_bound(other@.n, self@.d, NUM_CAP as int, DEN_CAP as int);
        }
        (self.num as i128) * (other.den as i128) <= (other.num as i128) * (self.den as i128)
    }

    /// Componentwise difference below the shared tolerance.
    pub fn approx_eq(&self, other: &Rat) -> (r: bool)
        ensures
            r == rapprox(self@, other@),
    {
        proof {
            use_type_invariant(*self);
            use_type_invariant(*other);
            lemma_mul_abs_bound(self@.n, other@.d, NUM_CAP as int, DEN_CAP as int);
            lemma_mul_abs_bound(other@.n, self@.d, NUM_CAP as int, DEN_CAP as int);
            lemma_mul_abs_bound(self@.d, other@.d, DEN_CAP as int, DEN_CAP as int);
        }
        let dn = (self.num as i128) * (other.den as i128) - (other.num as i128) * (self.den as i128);
        let dd = (self.den as i128) * (other.den as i128);
        let da = if dn < 0 {
            -dn
        } else {
            dn
        };
        proof {
            let s = rsub(self@, other@);
            assert(s.n == dn as int && s.d == dd as int) by (nonlinear_arith)
                requires
                    s == rsub(self@, other@),
                    dn as int == self@.n * other@.d - other@.n * self@.d,
                    dd as int == self@.d * other@.d,
            ;
            lemma_pos_mul(self@.d, other@.d);
            assert(rabs(s).n == da as int && rabs(s).d == dd as int);
            assert(rapprox(self@, other@) == ((da as int) * 100_000 < dd as int));
        }
        // 170141183460469231731687303715884105727 / 100000, rounded down
        if da > 1_701_411_834_604_692_317_316_873_037_158_841i128 {
            proof {
                assert((da as int) * 100_000 > (dd as int)) by (nonlinear_arith)
                    requires
                        da as int > 1_701_411_834_604_692_317_316_873_037_158_841,
                        dd as int <= 1_000_000_000_000_000_000_000_000_000_000_000_000,
                ;
            }
            false
        } else {
            da * 100_000 < dd
        }
    }

    pub fn add(&self, other: &Rat) -> (r: Option<Rat>)
        ensures
            r matches Some(v) ==> v.wf() && v@ == rcanon(radd(self@, other@)),
            r is Some <==> in_caps(rcanon(radd(self@, other@))),
    {
        proof {
            use_type_invariant(*self);
            use_type_invariant(*other);
            lemma_mul_abs_bound(self@.n, other@.d, NUM_CAP as int, DEN_CAP as int);
            lemma_mul_abs_bound(other@.n, self@.d, NUM_CAP as int, DEN_CAP as int);
            lemma_mul_abs_bound(self@.d, other@.d, DEN_CAP as int, DEN_CAP as int);
            lemma_pos_mul(self@.d, other@.d);
        }
        let n = (self.num as i128) * (other.den as i128) + (other.num as i128) * (self.den as i128);
        let d = (self.den as i128) * (other.den as i128);
        make(n, d)
    }

    pub fn sub(&self, other: &Rat) -> (r: Option<Rat>)
        ensures
            r matches Some(v) ==> v.wf() && v@ == rcanon(rsub(self@, other@)),
            r is Some <==> in_caps(rcanon(rsub(self@, other@))),
    {
        self.add(&other.neg())
    }

    pub fn mul(&self, other: &Rat) -> (r: Option<Rat>)
        ensures
            r matches Some(v) ==> v.wf() && v@ == rcanon(rmul(self@, other@)),
            r is Some <==> in_caps(rcanon(rmul(self@, other@))),
    {
        proof {
            use_type_invariant(*self);
            use_type_invariant(*other);
            lemma_mul_abs_bound(self@.n, other@.n, NUM_CAP as int, NUM_CAP as int);
            lemma_mul_abs_bound(self@.d, other@.d, DEN_CAP as int, DEN_CAP as int);
            lemma_pos_mul(self@.d, other@.d);
        }
        let n = (self.num as i128) * (other.num as i128);
        let d = (self.den as i128) * (other.den as i128);
        make(n, d)
    }

    pub fn div(&self, other: &Rat) -> (r: Option<Rat>)
        requires
            other@.n != 0,
        ensures
            r matches Some(v) ==> v.wf() && v@ == rcanon(rdiv(self@, other@)),
            r is Some <==> in_caps(rcanon(rdiv(self@, other@))),
    {
        proof {
            use_type_invariant(*self);
            use_type_invariant(*other);
            lemma_mul_abs_bound(self@.n, other@.d, NUM_CAP as int, DEN_CAP as int);
            lemma_mul_abs_bound(self@.d, other@.n, DEN_CAP as int, NUM_CAP as int);
            if other@.n >= 1 {
                lemma_pos_mul(self@.d, other@.n);
            } else {
                lemma_pos_mul(self@.d, -other@.n);
                assert(self@.d * -other@.n == -(self@.d * other@.n)) by (nonlinear_arith);
            }
        }
        let n: i128;
        let d: i128;
        if other.num >= 0 {
            n = (self.num as i128) * (other.den as i128);
            d = (self.den as i128) * (other.num as i128);
        } else {
            n = -((self.num as i128) * (other.den as i128));
            d = -((self.den as i128) * (other.num as i128));
        }
        proof {
            let q = rdiv(self@, other@);
            assert(q.n == n as int && q.d == d as int) by (nonlinear_arith)
                requires
                    q == rdiv(self@, other@),
                    other@.n != 0,
                    other@.n >= 0 ==> n as int == self@.n * other@.d && d as int == self@.d
                        * other@.n,
                    other@.n < 0 ==> n as int == -(self@.n * other@.d) && d as int == -(self@.d
                        * other@.n),
            ;
        }
        make(n, d)
    }

    /// Truncates the value onto the precision grid.
    pub fn coarsen(&self) -> (r: Option<Rat>)
        ensures
            r matches Some(v) ==> v.wf() && v@ == rfix(self@),
            r is Some <==> in_caps(rfix(self@)),
    {
        proof {
            use_type_invariant(*self);
        }
        let neg = self.num < 0;
        let a: i128 = if neg {
            -(self.num as i128)
        } else {
            self.num as i128
        };
        let d = self.den as i128;
        let q = (a * PREC as i128) / d;
        proof {
            lemma_mul_abs_bound(a as int, PREC as int, NUM_CAP as int, PREC as int);
            vstd::arithmetic::div_mod::lemma_div_pos_is_pos(a as int * PREC as int, d as int);
            lemma_div_nonincreasing(a as int * PREC as int, d as int);
        }
        if q <= NUM_CAP as i128 {
            let num: i64 = if neg {
                -(q as i64)
            } else {
                q as i64
            };
            Some(Rat { num, den: PREC })
        } else {
            None
        }
    }

    /// The square root approximation of a nonnegative value: the floor of
    /// the true root on a grid at least as fine as both the input's
    /// denominator and the precision grid.  Never fails.
    pub fn sqrt(&self) -> (r: Rat)
        requires
            self@.n >= 0,
        ensures
            r.wf(),
            r@ == rsqrt(self@),
            r@.n >= 0,
    {
        proof {
            use_type_invariant(*self);
        }
        let s: i64 = if self.den >= PREC {
            1
        } else {
            PREC / self.den
        };
        proof {
            assert(s as int == sqrt_scale(self@.d));
            if self.den < PREC {
                lemma_fundamental_div_mod(PREC as int, self@.d);
                vstd::arithmetic::div_mod::lemma_div_pos_is_pos(PREC as int, self@.d);
                lemma_div_nonincreasing(PREC as int, self@.d);
                lemma_div_is_ordered(self@.d, PREC as int, self@.d);
                lemma_div_by_self(self@.d);
                assert(s as int >= 1);
                assert(self@.d * (s as int) <= PREC as int) by (nonlinear_arith)
                    requires
                        PREC as int == self@.d * (s as int) + (PREC as int) % self@.d,
                        (PREC as int) % self@.d >= 0,
                ;
                assert(self@.d * (s as int) >= 1) by (nonlinear_arith)
                    requires
                        self@.d >= 1,
                        s as int >= 1,
                ;
                lemma_mul_abs_bound(self@.n, self@.d * (s as int), NUM_CAP as int, PREC as int);
                lemma_mul_abs_bound(
                    self@.n * (self@.d * (s as int)),
                    s as int,
                    NUM_CAP as int * PREC as int,
                    PREC as int,
                );
            } else {
                lemma_mul_abs_bound(self@.n, self@.d, NUM_CAP as int, DEN_CAP as int);
                lemma_mul_abs_bound(
                    self@.n * self@.d,
                    1,
                    NUM_CAP as int * DEN_CAP as int,
                    1,
                );
            }
            assert(self@.n * self@.d * (s as int) * (s as int) == self@.n * (self@.d * (s as int))
                * (s as int)) by (nonlinear_arith);
            assert(self@.n * (self@.d * (s as int)) * (s as int) >= 0) by (nonlinear_arith)
                requires
                    self@.n >= 0,
                    self@.d >= 1,
                    s as int >= 1,
            ;
        }
        let ds: i64 = self.den * s;
        let m: i128 = (self.num as i128) * (ds as i128) * (s as i128);
        let rn = isqrt_i128(m);
        proof {
            lemma_isqrt_bracket(m as int);
            assert(rn as int <= NUM_CAP as int) by (nonlinear_arith)
                requires
                    (rn as int) * (rn as int) <= m as int,
                    m as int <= 9_000_000_000_000_000_000_000_000_000_000_000_000,
                    rn as int >= 0,
                    NUM_CAP as int == 9_000_000_000_000_000_000,
            ;
        }
        Rat { num: rn as i64, den: ds }
    }

    /// Product truncated to the precision grid, computed without building
    /// the exact product value.
    pub fn mul_round(&self, other: &Rat) -> (r: Option<Rat>)
        requires
            self@.d * other@.d <= 100_000_000_000_000_000_000_000_000_000,
        ensures
            r matches Some(v) ==> v.wf() && v@ == rmulr(self@, other@),
            r is Some <==> in_caps(rmulr(self@, other@)),
    {
        proof {
            use_type_invariant(*self);
            use_type_invariant(*other);
            lemma_mul_abs_bound(self@.n, other@.n, NUM_CAP as int, NUM_CAP as int);
            lemma_pos_mul(self@.d, other@.d);
        }
        let n = (self.num as i128) * (other.num as i128);
        let d = (self.den as i128) * (other.den as i128);
        let a = if n < 0 {
            -n
        } else {
            n
        };
        round_scaled(a, d, n < 0, Ghost(rmul(self@, other@)))
    }

    /// Quotient truncated to the precision grid, computed without building
    /// the exact quotient value.
    pub fn div_round(&self, other: &Rat) -> (r: Option<Rat>)
        requires
            other@.n != 0,
            self@.d * iabs(other@.n) <= 100_000_000_000_000_000_000_000_000_000,
        ensures
            r matches Some(v) ==> v.wf() && v@ == rdivr(self@, other@),
            r is Some <==> in_caps(rdivr(self@, other@)),
    {
        proof {
            use_type_invariant(*self);
            use_type_invariant(*other);
            lemma_mul_abs_bound(self@.n, other@.d, NUM_CAP as int, DEN_CAP as int);
            lemma_mul_abs_bound(self@.d, other@.n, DEN_CAP as int, NUM_CAP as int);
            if other@.n >= 1 {
                lemma_pos_mul(self@.d, other@.n);
            } else {
                lemma_pos_mul(self@.d, -other@.n);
                assert(self@.d * -other@.n == -(self@.d * other@.n)) by (nonlinear_arith);
            }
        }
        let n: i128;
        let d: i128;
        if other.num >= 0 {
            n = (self.num as i128) * (other.den as i128);
            d = (self.den as i128) * (other.num as i128);
        } else {
            n = -((self.num as i128) * (other.den as i128));
            d = -((self.den as i128) * (other.num as i128));
        }
        proof {
            let q = rdiv(self@, other@);
            assert(q.n == n as int && q.d == d as int) by (nonlinear_arith)
                requires
                    q == rdiv(self@, other@),
                    other@.n != 0,
                    other@.n >= 0 ==> n as int == self@.n * other@.d && d as int == self@.d
                        * other@.n,
                    other@.n < 0 ==> n as int == -(self@.n * other@.d) && d as int == -(self@.d
                        * other@.n),
            ;
            assert(d as int == self@.d * iabs(other@.n)) by (nonlinear_arith)
                requires
                    other@.n >= 0 ==> d as int == self@.d * other@.n,
                    other@.n < 0 ==> d as int == -(self@.d * other@.n),
            ;
        }
        let a = if n < 0 {
            -n
        } else {
            n
        };
        round_scaled(a, d, n < 0, Ghost(rdiv(self@, other@)))
    }

    /// The power `self ^ e`, truncating each partial product to the
    /// precision grid.  Never fails when the base is at most one.
    pub fn pow(&self, e: u32) -> (r: Option<Rat>)
        requires
            self@.n >= 0,
        ensures
            r matches Some(v) ==> v.wf() && v@ == rpow(self@, e as nat),
            rle(self@, rone()) ==> r is Some,
    {
        proof {
            use_type_invariant(*self);
        }
        let mut acc = Rat::one();
        let mut i: u32 = 0;
        while i < e
            invariant
                0 <= i <= e,
                acc.wf(),
                self.wf(),
                self@.n >= 0,
                acc@ == rpow(self@, i as nat),
                acc@.n >= 0,
                1 <= acc@.d <= PREC as int,
                rle(self@, rone()) ==> rle(acc@, rone()),
            decreases e - i,
        {
            proof {
                assert(acc@.d * self@.d <= 100_000_000_000_000_000_000_000_000_000) by (
                nonlinear_arith)
                    requires
                        1 <= acc@.d <= PREC as int,
                        1 <= self@.d <= DEN_CAP as int,
                ;
            }
            let stepped = acc.mul_round(self);
            match stepped {
                Some(v) => {
                    proof {
                        let p = rmul(acc@, self@);
                        assert(p.n >= 0 && p.d >= 1) by (nonlinear_arith)
                            requires
                                p == rmul(acc@, self@),
                                acc@.n >= 0,
                                self@.n >= 0,
                                acc@.d >= 1,
                                self@.d >= 1,
                        ;
                        vstd::arithmetic::div_mod::lemma_div_pos_is_pos(
                            p.n * PREC as int,
                            p.d,
                        );
                        if rle(self@, rone()) {
                            lemma_round_le_one(acc@, self@);
                        }
                    }
                    acc = v;
                },
                None => {
                    proof {
                        if rle(self@, rone()) {
                            lemma_round_le_one(acc@, self@);
                        }
                    }
                    return None;
                },
            }
            i = i + 1;
        }
        Some(acc)
    }

    /// The integer nearest to the value, halves rounded away from zero.
    pub fn round_int(&self) -> (r: i64)
        ensures
            r as int == rround_int(self@),
    {
        proof {
            use_type_invariant(*self);
        }
        let neg = self.num < 0;
        let a: i128 = if neg {
            -(self.num as i128)
        } else {
            self.num as i128
        };
        let q = (2 * a + self.den as i128) / (2 * self.den as i128);
        proof {
            vstd::arithmetic::div_mod::lemma_div_pos_is_pos(
                2 * (a as int) + self@.d,
                2 * self@.d,
            );
            lemma_div_nonincreasing(2 * (a as int) + self@.d, 2 * self@.d);
            assert((2 * (a as int) + self@.d) / (2 * self@.d) <= (a as int) + 1) by {
                assert(2 * (a as int) + self@.d <= (2 * self@.d) * ((a as int) + 1)) by (
                nonlinear_arith)
                    requires
                        self@.d >= 1,
                        a >= 0,
                ;
                vstd::arithmetic::div_mod::lemma_div_multiples_vanish((a as int) + 1, 2 * self@.d);
                lemma_div_is_ordered(
                    2 * (a as int) + self@.d,
                    (2 * self@.d) * ((a as int) + 1),
                    2 * self@.d,
                );
            }
        }
        if neg {
            -(q as i64)
        } else {
            q as i64
        }
    }

    /// The value cut toward zero to an integer.
    pub fn trunc(&self) -> (r: i64)
        ensures
            r as int == rtrunc(self@),
    {
        proof {
            use_type_invariant(*self);
        }
        let neg = self.num < 0;
        let a: i64 = if neg {
            -self.num
        } else {
            self.num
        };
        let q = a / self.den;
        proof {
            vstd::arithmetic::div_mod::lemma_div_pos_is_pos(a as int, self@.d);
            lemma_div_nonincreasing(a as int, self@.d);
        }
        if neg {
            -q
        } else {
            q
        }
    }
}

/// Truncating `a / d` (with `a >= 0`) to the precision grid requires the
/// quotient of the scaled numerator, taken in two division steps so the
/// intermediates stay in range.
fn round_scaled(a: i128, d: i128, neg: bool, Ghost(x): Ghost<Ratio>) -> (r: Option<Rat>)
    requires
        0 <= a <= RAW_CAP_ABS as int,
        1 <= d <= 100_000_000_000_000_000_000_000_000_000,
        x.d == d as int,
        neg ==> x.n == -(a as int),
        !neg ==> x.n == a as int,
    ensures
        r matches Some(v) ==> v.wf() && v@ == rround(x),
        r is Some <==> in_caps(rround(x)),
{
    let q = a / d;
    let rem = a % d;
    proof {
        lemma_fundamental_div_mod(a as int, d as int);
        vstd::arithmetic::div_mod::lemma_div_pos_is_pos(a as int, d as int);
        lemma_div_nonincreasing(a as int, d as int);
    }
    if q > NUM_CAP as i128 / PREC as i128 {
        proof {
            lemma_round_scaled_big(a as int, d as int, q as int);
        }
        None
    } else {
        let rn = q * (PREC as i128) + (rem * (PREC as i128)) / d;
        proof {
            lemma_round_scaled_split(a as int, d as int, q as int, rem as int);
            assert(rn as int == (a as int * PREC as int) / d as int);
            if neg {
                assert(rround(x).n == -(rn as int));
            } else {
                assert(rround(x).n == rn as int);
            }
        }
        if rn <= NUM_CAP as i128 {
            let num: i64 = if neg {
                -(rn as i64)
            } else {
                rn as i64
            };
            Some(Rat { num, den: PREC })
        } else {
            None
        }
    }
}

proof fn lemma_round_scaled_big(a: int, d: int, q: int)
    requires
        a >= 0,
        d >= 1,
        q == a / d,
        q > NUM_CAP as int / PREC as int,
    ensures
        (a * PREC as int) / d > NUM_CAP as int,
{
    lemma_fundamental_div_mod(a, d);
    let rem = a % d;
    // a * PREC == (q * PREC) * d + rem * PREC, and rem * PREC >= 0
    assert(a * PREC as int == (q * PREC as int) * d + rem * PREC as int) by (nonlinear_arith)
        requires
            a == d * q + rem,
    ;
    assert((q * PREC as int) * d <= a * PREC as int) by (nonlinear_arith)
        requires
            a * PREC as int == (q * PREC as int) * d + rem * PREC as int,
            rem >= 0,
    ;
    vstd::arithmetic::div_mod::lemma_div_multiples_vanish(q * PREC as int, d);
    lemma_div_is_ordered((q * PREC as int) * d, a * PREC as int, d);
    assert(q * PREC as int > NUM_CAP as int) by (nonlinear_arith)
        requires
            q > NUM_CAP as int / PREC as int,
            q >= NUM_CAP as int / PREC as int + 1,
            NUM_CAP as int == (NUM_CAP as int / PREC as int) * PREC as int,
    ;
}

proof fn lemma_round_scaled_split(a: int, d: int, q: int, rem: int)
    requires
        a >= 0,
        d >= 1,
        q == a / d,
        rem == a % d,
    ensures
        (a * PREC as int) / d == q * PREC as int + (rem * PREC as int) / d,
        (rem * PREC as int) / d >= 0,
{
    lemma_fundamental_div_mod(a, d);
    assert(a * PREC as int == rem * PREC as int + (q * PREC as int) * d) by (nonlinear_arith)
        requires
            a == d * q + rem,
    ;
    vstd::arithmetic::div_mod::lemma_hoist_over_denominator(
        rem * PREC as int,
        q * PREC as int,
        d as nat,
    );
    vstd::arithmetic::div_mod::lemma_div_pos_is_pos(rem * PREC as int, d);
    assert(rem * PREC as int >= 0) by (nonlinear_arith)
        requires
            rem >= 0,
    ;
}

/// A value whose raw components are in range reduces to one in range.
pub proof fn lemma_canon_in_caps(x: Ratio)
    requires
        rwf(x),
        in_caps(x),
    ensures
        in_caps(rcanon(x)),
{
    lemma_rcanon(x);
}

pub proof fn lemma_req_sym(a: Ratio, b: Ratio)
    requires
        req(a, b),
    ensures
        req(b, a),
{
}

pub proof fn lemma_req_trans(a: Ratio, b: Ratio, c: Ratio)
    by (nonlinear_arith)
    requires
        rwf(a),
        rwf(b),
        rwf(c),
        req(a, b),
        req(b, c),
    ensures
        req(a, c),
{
}

/// Equivalence of ratios is respected by addition.
pub proof fn lemma_radd_cong(a: Ratio, b: Ratio, a2: Ratio, b2: Ratio)
    requires
        rwf(a),
        rwf(b),
        rwf(a2),
        rwf(b2),
        req(a, a2),
        req(b, b2),
    ensures
        req(radd(a, b), radd(a2, b2)),
        rwf(radd(a, b)),
{
    lemma_pos_mul(a.d, b.d);
    assert(a.n * b.d * (a2.d * b2.d) == a2.n * b2.d * (a.d * b.d)) by (nonlinear_arith)
        requires
            a.n * a2.d == a2.n * a.d,
    ;
    assert(b.n * a.d * (a2.d * b2.d) == b2.n * a2.d * (a.d * b.d)) by (nonlinear_arith)
        requires
            b.n * b2.d == b2.n * b.d,
    ;
    assert((a.n * b.d + b.n * a.d) * (a2.d * b2.d) == a.n * b.d * (a2.d * b2.d) + b.n * a.d * (
    a2.d * b2.d)) by (nonlinear_arith);
    assert((a2.n * b2.d + b2.n * a2.d) * (a.d * b.d) == a2.n * b2.d * (a.d * b.d) + b2.n * a2.d
        * (a.d * b.d)) by (nonlinear_arith);
}

/// Equivalence of ratios is respected by multiplication.
pub proof fn lemma_rmul_cong(a: Ratio, b: Ratio, a2: Ratio, b2: Ratio)
    requires
        rwf(a),
        rwf(b),
        rwf(a2),
        rwf(b2),
        req(a, a2),
        req(b, b2),
    ensures
        req(rmul(a, b), rmul(a2, b2)),
        rwf(rmul(a, b)),
{
    lemma_pos_mul(a.d, b.d);
    assert(a.n * b.n * (a2.d * b2.d) == (a.n * a2.d) * (b.n * b2.d)) by (nonlinear_arith);
    assert((a2.n * a.d) * (b2.n * b.d) == a2.n * b2.n * (a.d * b.d)) by (nonlinear_arith);
}

pub proof fn lemma_rneg_cong(a: Ratio, a2: Ratio)
    requires
        req(a, a2),
    ensures
        req(rneg(a), rneg(a2)),
{
    assert((-a.n) * a2.d == -(a.n * a2.d) && (-a2.n) * a.d == -(a2.n * a.d)) by (
    nonlinear_arith);
}

/// Equivalent ratios order the same way against equivalent ratios.
pub proof fn lemma_rle_cong(a: Ratio, b: Ratio, a2: Ratio, b2: Ratio)
    by (nonlinear_arith)
    requires
        rwf(a),
        rwf(b),
        rwf(a2),
        rwf(b2),
        req(a, a2),
        req(b, b2),
    ensures
        rle(a, b) == rle(a2, b2),
        rlt(a, b) == rlt(a2, b2),
{
}

/// Equivalence of ratios is respected by the reciprocal.
pub proof fn lemma_rinv_cong(b: Ratio, b2: Ratio)
    by (nonlinear_arith)
    requires
        rwf(b),
        rwf(b2),
        b.n != 0,
        req(b, b2),
    ensures
        b2.n != 0,
        req(rinv(b), rinv(b2)),
        rwf(rinv(b)),
        rwf(rinv(b2)),
{
}

/// Equivalence of ratios is respected by division.
pub proof fn lemma_rdiv_cong(a: Ratio, b: Ratio, a2: Ratio, b2: Ratio)
    requires
        rwf(a),
        rwf(b),
        rwf(a2),
        rwf(b2),
        b.n != 0,
        req(a, a2),
        req(b, b2),
    ensures
        req(rdiv(a, b), rdiv(a2, b2)),
        rwf(rdiv(a, b)),
{
    lemma_rinv_cong(b, b2);
    lemma_rmul_cong(a, rinv(b), a2, rinv(b2));
}

/// The order on ratios is transitive.
pub proof fn lemma_rle_trans(a: Ratio, b: Ratio, c: Ratio)
    by (nonlinear_arith)
    requires
        rwf(a),
        rwf(b),
        rwf(c),
        rle(a, b),
        rle(b, c),
    ensures
        rle(a, c),
{
}

/// The order on ratios is total.
pub proof fn lemma_rle_total(a: Ratio, b: Ratio)
    by (nonlinear_arith)
    requires
        rwf(a),
        rwf(b),
    ensures
        rle(a, b) || rle(b, a),
        !rle(a, b) ==> rle(b, a),
{
}

/// Coarsening a representable value in `[0, 1)` stays representable.
pub proof fn lemma_rfix_small(x: Ratio)
    requires
        rwf(x),
        in_caps(x),
        x.n >= 0,
        rlt(x, rone()),
    ensures
        in_caps(rfix(x)),
        rfix(x).n >= 0,
        rfix(x).d <= PREC as int,
        rfix(x).n <= rfix(x).d,
{
    let n = (x.n * PREC as int) / x.d;
    vstd::arithmetic::div_mod::lemma_div_pos_is_pos(x.n * PREC as int, x.d);
    assert(x.n * PREC as int >= 0) by (nonlinear_arith)
        requires
            x.n >= 0,
    ;
    assert(x.n * PREC as int <= x.d * PREC as int) by (nonlinear_arith)
        requires
            x.n < x.d,
    ;
    lemma_div_multiples_vanish(PREC as int, x.d);
    lemma_div_is_ordered(x.n * PREC as int, x.d * PREC as int, x.d);
    assert(n <= PREC as int);
}

/// Multiplying by one changes nothing.
pub proof fn lemma_rmul_one(a: Ratio)
    by (nonlinear_arith)
    ensures
        rmul(rone(), a) == a,
        rmul(a, rone()) == a,
{
}

/// Multiplying by zero gives zero.
pub proof fn lemma_rmul_zero(a: Ratio)
    by (nonlinear_arith)
    requires
        rwf(a),
    ensures
        req(rmul(rzero(), a), rzero()),
        rwf(rmul(rzero(), a)),
        rmul(rzero(), a).n == 0,
{
}

/// Adding a value that denotes zero changes nothing.
pub proof fn lemma_radd_zero_right(a: Ratio, z: Ratio)
    by (nonlinear_arith)
    requires
        rwf(a),
        rwf(z),
        z.n == 0,
    ensures
        req(radd(a, z), a),
        rwf(radd(a, z)),
{
}

/// Adding to a value that denotes zero gives the other summand.
pub proof fn lemma_radd_zero_left(z: Ratio, a: Ratio)
    by (nonlinear_arith)
    requires
        rwf(z),
        rwf(a),
        z.n == 0,
    ensures
        req(radd(z, a), a),
        rwf(radd(z, a)),
{
}

/// The sum of two values that denote zero denotes zero.
pub proof fn lemma_radd_zeros(z0: Ratio, z1: Ratio)
    by (nonlinear_arith)
    requires
        rwf(z0),
        rwf(z1),
        z0.n == 0,
        z1.n == 0,
    ensures
        radd(z0, z1).n == 0,
        rwf(radd(z0, z1)),
{
}

/// Adding a value and then its negation restores the start.
pub proof fn lemma_radd_cancel(a: Ratio, b: Ratio)
    by (nonlinear_arith)
    requires
        rwf(a),
        rwf(b),
    ensures
        req(radd(radd(a, b), rneg(b)), a),
        rwf(radd(radd(a, b), rneg(b))),
{
}

/// Scaling by a nonzero value and then by its reciprocal restores the
/// start.
pub proof fn lemma_rmul_inv_cancel(s: Ratio, v: Ratio)
    by (nonlinear_arith)
    requires
        rwf(s),
        rwf(v),
        s.n != 0,
    ensures
        req(rmul(rdiv(rone(), s), rmul(s, v)), v),
        rwf(rmul(rdiv(rone(), s), rmul(s, v))),
{
}

/// Truncation to the precision grid moves a value by less than one grid
/// step.  This bounds the error every coarsening, rounded product, rounded
/// quotient — and hence each coordinate of a normalized vector — picks up.
pub proof fn lemma_rround_close(x: Ratio)
    requires
        rwf(x),
    ensures
        rlt(rabs(rsub(rround(x), x)), Ratio { n: 1, d: PREC as int }),
{
    if x.n >= 0 {
        let q = (x.n * PREC as int) / x.d;
        let rem = (x.n * PREC as int) % x.d;
        lemma_fundamental_div_mod(x.n * PREC as int, x.d);
        vstd::arithmetic::div_mod::lemma_mod_division_less_than_divisor(
            x.n * PREC as int,
            x.d,
        );
        assert(x.n * PREC as int >= 0) by (nonlinear_arith)
            requires
                x.n >= 0,
        ;
        assert(rsub(rround(x), x).n == q * x.d + (-x.n) * (PREC as int));
        assert(q * x.d + (-x.n) * (PREC as int) == -rem) by (nonlinear_arith)
            requires
                x.n * PREC as int == x.d * q + rem,
        ;
        assert(rlt(rabs(rsub(rround(x), x)), Ratio { n: 1, d: PREC as int })) by (
        nonlinear_arith)
            requires
                rsub(rround(x), x).n == -rem,
                rsub(rround(x), x).d == (PREC as int) * x.d,
                0 <= rem < x.d,
                x.d >= 1,
                PREC as int >= 1,
        ;
    } else {
        let a = -x.n;
        let q = (a * PREC as int) / x.d;
        let rem = (a * PREC as int) % x.d;
        lemma_fundamental_div_mod(a * PREC as int, x.d);
        vstd::arithmetic::div_mod::lemma_mod_division_less_than_divisor(a * PREC as int, x.d);
        assert(a * PREC as int >= 0) by (nonlinear_arith)
            requires
                a >= 0,
        ;
        assert(rsub(rround(x), x).n == (-q) * x.d + (-x.n) * (PREC as int));
        assert((-q) * x.d + (-x.n) * (PREC as int) == rem) by (nonlinear_arith)
            requires
                a * PREC as int == x.d * q + rem,
                a == -x.n,
        ;
        assert(rlt(rabs(rsub(rround(x), x)), Ratio { n: 1, d: PREC as int })) by (
        nonlinear_arith)
            requires
                rsub(rround(x), x).n == rem,
                rsub(rround(x), x).d == (PREC as int) * x.d,
                0 <= rem < x.d,
                x.d >= 1,
                PREC as int >= 1,
        ;
    }
}

/// The square root approximation brackets the true value: its square is at
/// most the input, and the square of the next grid value exceeds it.  With
/// the truncation bound this makes a normalized vector's magnitude
/// approximately one, far within the shared tolerance.
pub proof fn lemma_rsqrt_bounds(a: Ratio)
    requires
        rwf(a),
        a.n >= 0,
    ensures
        ({
            let r = rsqrt(a);
            let step = Ratio { n: 1, d: a.d * sqrt_scale(a.d) };
            &&& rwf(r)
            &&& r.n >= 0
            &&& rle(rmul(r, r), a)
            &&& rlt(a, rmul(radd(r, step), radd(r, step)))
        }),
{
    let s = sqrt_scale(a.d);
    assert(s >= 1) by {
        if a.d < PREC as int {
            lemma_div_is_ordered(a.d, PREC as int, a.d);
            lemma_div_by_self(a.d);
        }
    }
    let m = a.n * a.d * s * s;
    assert(m >= 0) by (nonlinear_arith)
        requires
            m == a.n * a.d * s * s,
            a.n >= 0,
            a.d >= 1,
            s >= 1,
    ;
    lemma_isqrt_bracket(m);
    let i = isqrt_spec(m);
    let r = rsqrt(a);
    assert(r.n == i && r.d == a.d * s);
    assert(rwf(r) && r.n >= 0) by (nonlinear_arith)
        requires
            r.d == a.d * s,
            a.d >= 1,
            s >= 1,
            r.n == i,
            i >= 0,
    ;
    assert(rle(rmul(r, r), a)) by (nonlinear_arith)
        requires
            r.n == i,
            r.d == a.d * s,
            i * i <= m,
            m == a.n * a.d * s * s,
            a.d >= 1,
            s >= 1,
    ;
    let step = Ratio { n: 1, d: a.d * s };
    let kk = a.d * s;
    assert(kk >= 1) by (nonlinear_arith)
        requires
            kk == a.d * s,
            a.d >= 1,
            s >= 1,
    ;
    let q = radd(r, step);
    assert(q.n == (i + 1) * kk && q.d == kk * kk) by (nonlinear_arith)
        requires
            q == radd(r, step),
            r.n == i,
            r.d == kk,
            step == (Ratio { n: 1, d: kk }),
    ;
    assert(m * a.d < ((i + 1) * (i + 1)) * a.d) by (nonlinear_arith)
        requires
            (i + 1) * (i + 1) > m,
            a.d >= 1,
    ;
    assert(a.n * (kk * kk) == m * a.d) by (nonlinear_arith)
        requires
            kk == a.d * s,
            m == a.n * a.d * s * s,
    ;
    assert(a.n * ((kk * kk) * (kk * kk)) < (((i + 1) * kk) * ((i + 1) * kk)) * a.d) by (
    nonlinear_arith)
        requires
            a.n * (kk * kk) < ((i + 1) * (i + 1)) * a.d,
            kk >= 1,
    ;
    assert(rmul(q, q).n == ((i + 1) * kk) * ((i + 1) * kk) && rmul(q, q).d == (kk * kk) * (kk
        * kk));
    assert(rlt(a, rmul(q, q)));
}

/// A truncated product of two values in `[0, 1]` stays in `[0, 1]` and in range.
proof fn lemma_round_le_one(a: Ratio, b: Ratio)
    requires
        rwf(a),
        rwf(b),
        a.n >= 0,
        b.n >= 0,
        rle(a, rone()),
        rle(b, rone()),
    ensures
        in_caps(rround(rmul(a, b))),
        rle(rround(rmul(a, b)), rone()),
        rround(rmul(a, b)).n >= 0,
{
    let p = rmul(a, b);
    assert(p.n >= 0 && p.d >= 1 && p.n <= p.d) by (nonlinear_arith)
        requires
            p == rmul(a, b),
            a.n >= 0,
            b.n >= 0,
            a.d >= 1,
            b.d >= 1,
            a.n <= a.d,
            b.n <= b.d,
    ;
    let rn = (p.n * PREC as int) / p.d;
    vstd::arithmetic::div_mod::lemma_div_pos_is_pos(p.n * PREC as int, p.d);
    assert(p.n * PREC as int <= p.d * PREC as int) by (nonlinear_arith)
        requires
            p.n <= p.d,
    ;
    vstd::arithmetic::div_mod::lemma_div_multiples_vanish(PREC as int, p.d);
    lemma_div_is_ordered(p.n * PREC as int, p.d * PREC as int, p.d);
    assert(rn <= PREC as int);
}

} // verus!
