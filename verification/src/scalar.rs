//! Fixed-point numbers: the arithmetic on which the whole engine rests.

use crate::text::{decimal, decimal_text, padded, padded_text};
use vstd::prelude::*;

verus! {

/// Number of steps that make up one unit: a `Scalar` with `raw == SCALE` is 1.
pub const SCALE: i64 = 1_000_000_000;

/// `x` clamped to the range of raw values.
pub open spec fn sat(x: int) -> int {
    if x < i64::MIN {
        i64::MIN as int
    } else if x > i64::MAX {
        i64::MAX as int
    } else {
        x
    }
}

/// The quotient of `n` by `d`, rounded toward zero (`d` is not zero).
pub open spec fn quot(n: int, d: int) -> int {
    if d > 0 {
        if n >= 0 { n / d } else { -((-n) / d) }
    } else {
        if n >= 0 { -(n / (-d)) } else { (-n) / (-d) }
    }
}

/// The size of `x`.
pub open spec fn abs(x: int) -> int {
    if x < 0 {
        -x
    } else {
        x
    }
}

/// Rounding toward zero keeps the sign and loses less than one: the size
/// of the quotient is the size of `n` divided by `d` and rounded down.
pub proof fn lemma_quot_bounds(n: int, d: int)
    requires
        d > 0,
    ensures
        abs(quot(n, d)) * d <= abs(n) < abs(quot(n, d)) * d + d,
        n >= 0 ==> quot(n, d) >= 0,
        n <= 0 ==> quot(n, d) <= 0,
{
    let a: int = abs(n);
    assert((a / d) * d <= a < (a / d) * d + d && a / d >= 0) by (nonlinear_arith)
        requires
            a >= 0,
            d > 0,
    ;
}

/// Rounding toward zero keeps the order of numbers divided by one
/// divisor above zero.
pub proof fn lemma_quot_keeps_order(m: int, n: int, d: int)
    requires
        d > 0,
        m <= n,
    ensures
        quot(m, d) <= quot(n, d),
{
    lemma_quot_bounds(m, d);
    lemma_quot_bounds(n, d);
    let (p, q) = (quot(m, d), quot(n, d));
    if m >= 0 {
        // both round down
        assert(p <= q) by (nonlinear_arith)
            requires
                p >= 0,
                q >= 0,
                p * d <= m,
                m <= n,
                n < q * d + d,
                d > 0,
        ;
    } else if n < 0 {
        // both round up: their sizes are in the opposite order
        assert(-q <= -p) by (nonlinear_arith)
            requires
                -p >= 0,
                -q >= 0,
                (-q) * d <= -n,
                -n <= -m,
                -m < (-p) * d + d,
                d > 0,
        ;
    }
}

/// What is left when `n` is divided by `d` toward zero is smaller than `d`.
pub proof fn lemma_quot_rest(n: int, d: int)
    requires
        d > 0,
    ensures
        abs(n - quot(n, d) * d) < d,
{
    lemma_quot_bounds(n, d);
    let q: int = quot(n, d);
    assert(abs(q) * d == abs(q * d)) by (nonlinear_arith)
        requires
            d > 0,
    ;
    assert(n >= 0 ==> q * d >= 0) by (nonlinear_arith)
        requires
            n >= 0 ==> q >= 0,
            d > 0,
    ;
    assert(n <= 0 ==> q * d <= 0) by (nonlinear_arith)
        requires
            n <= 0 ==> q <= 0,
            d > 0,
    ;
}

/// The size of a product is at most the product of the bounds.
pub proof fn lemma_product_bound(x: int, y: int, p: int, q: int)
    by (nonlinear_arith)
    requires
        abs(x) <= p,
        abs(y) <= q,
    ensures
        abs(x * y) <= p * q,
{
}

/// A quotient is no larger than its bound where the number divided is no
/// larger than the bound times the divisor.
pub proof fn lemma_quot_size(n: int, d: int, bound: int)
    requires
        d > 0,
        abs(n) <= bound * d,
    ensures
        abs(quot(n, d)) <= bound,
{
    lemma_quot_bounds(n, d);
    assert(abs(quot(n, d)) <= bound) by (nonlinear_arith)
        requires
            abs(quot(n, d)) * d <= abs(n),
            abs(n) <= bound * d,
            d > 0,
    ;
}

/// Squares keep the order of numbers that are not negative.
pub proof fn lemma_square_le(x: int, y: int)
    by (nonlinear_arith)
    requires
        0 <= x <= y,
    ensures
        x * x <= y * y,
{
}

/// Squares keep the strict order of numbers that are not negative.
pub proof fn lemma_square_lt(x: int, y: int)
    by (nonlinear_arith)
    requires
        0 <= x < y,
    ensures
        x * x < y * y,
{
}

/// `r` is the square root of `n`, rounded down.
pub open spec fn is_floor_sqrt(n: int, r: int) -> bool {
    0 <= r && r * r <= n < (r + 1) * (r + 1)
}

/// The square root of `n`, rounded down: it grows by one exactly when `n`
/// reaches the next square.
pub open spec fn floor_sqrt(n: nat) -> nat
    decreases n,
{
    if n == 0 {
        0
    } else {
        let r: nat = floor_sqrt((n - 1) as nat);
        if (r + 1) * (r + 1) <= n { r + 1 } else { r }
    }
}

/// `floor_sqrt` is the rounded-down square root.
pub proof fn lemma_floor_sqrt_is_floor_sqrt(n: nat)
    ensures
        is_floor_sqrt(n as int, floor_sqrt(n) as int),
    decreases n,
{
    if n > 0 {
        lemma_floor_sqrt_is_floor_sqrt((n - 1) as nat);
        let r: int = floor_sqrt((n - 1) as nat) as int;
        assert((r + 1) * (r + 1) < (r + 1 + 1) * (r + 1 + 1)) by (nonlinear_arith)
            requires
                0 <= r,
        ;
    }
}

/// At most one number is the rounded-down square root of `n`.
pub proof fn lemma_floor_sqrt_unique(n: int, r: int, s: int)
    requires
        is_floor_sqrt(n, r),
        is_floor_sqrt(n, s),
    ensures
        r == s,
{
    assert(r < s ==> (r + 1) * (r + 1) <= s * s) by (nonlinear_arith)
        requires
            0 <= r,
            0 <= s,
    ;
    assert(s < r ==> (s + 1) * (s + 1) <= r * r) by (nonlinear_arith)
        requires
            0 <= r,
            0 <= s,
    ;
}

/// The square root of `n`, rounded down.
pub fn isqrt(n: u128) -> (r: u64)
    ensures
        r == floor_sqrt(n as nat),
{
    let mut lo: u128 = 0;
    let mut hi: u128 = 0x1_0000_0000_0000_0000;
    assert(hi * hi > n) by (nonlinear_arith)
        requires
            hi == 0x1_0000_0000_0000_0000,
            n <= u128::MAX,
    ;
    while hi - lo > 1
        invariant
            lo < hi <= 0x1_0000_0000_0000_0000,
            lo * lo <= n < hi * hi,
        decreases hi - lo,
    {
        let mid: u128 = lo + (hi - lo) / 2;
        assert(mid * mid <= 0xffff_ffff_ffff_ffff * 0xffff_ffff_ffff_ffff) by (nonlinear_arith)
            requires
                0 <= mid <= 0xffff_ffff_ffff_ffff,
        ;
        if mid * mid <= n {
            lo = mid;
        } else {
            hi = mid;
        }
    }
    proof {
        lemma_floor_sqrt_is_floor_sqrt(n as nat);
        lemma_floor_sqrt_unique(n as int, lo as int, floor_sqrt(n as nat) as int);
    }
    lo as u64
}

/// `x` as a raw value, clamped to the range.
pub(crate) fn clamp_raw(x: i128) -> (r: i64)
    ensures
        r == sat(x as int),
{
    if x > i64::MAX as i128 {
        i64::MAX
    } else if x < i64::MIN as i128 {
        i64::MIN
    } else {
        x as i64
    }
}

/// The product of two raw values: it always fits.
pub(crate) fn wide_mul(a: i64, b: i64) -> (p: i128)
    ensures
        p == a * b,
        -0x4000_0000_0000_0000_0000_0000_0000_0000 + 0x8000_0000_0000_0000 <= p
            <= 0x4000_0000_0000_0000_0000_0000_0000_0000,
{
    assert(-0x4000_0000_0000_0000_0000_0000_0000_0000 + 0x8000_0000_0000_0000 <= a * b
        <= 0x4000_0000_0000_0000_0000_0000_0000_0000) by (nonlinear_arith)
        requires
            -0x8000_0000_0000_0000 <= a <= 0x7fff_ffff_ffff_ffff,
            -0x8000_0000_0000_0000 <= b <= 0x7fff_ffff_ffff_ffff,
    ;
    (a as i128) * (b as i128)
}

/// The quotient of `n` by `d`, rounded toward zero.
pub(crate) fn wide_quot(n: i128, d: i128) -> (q: i128)
    requires
        d != 0,
        n > i128::MIN,
        d > i128::MIN,
    ensures
        q == quot(n as int, d as int),
{
    let nm: i128 = if n < 0 { -n } else { n };
    let dm: i128 = if d < 0 { -d } else { d };
    let m: i128 = nm / dm;
    if (n < 0) != (d < 0) { -m } else { m }
}

/// The size of `a`.
pub(crate) fn magnitude(a: i128) -> (m: u128)
    ensures
        m == if a < 0 { -a } else { a as int },
{
    if a == i128::MIN {
        0x8000_0000_0000_0000_0000_0000_0000_0000
    } else if a < 0 {
        (-a) as u128
    } else {
        a as u128
    }
}

/// A third of the exact sum `a + b + c` would still fit: the largest size
/// of a term of `sum3_over_scale`.
pub(crate) const WIDE_TERM: i128 = 0x4000_0000_0000_0000_0000_0000_0000_0000;

/// The sum of three wide terms as a count of steps: divided by `SCALE`,
/// rounded toward zero and clamped.
pub(crate) fn sum3_over_scale(a: i128, b: i128, c: i128) -> (r: i64)
    requires
        -WIDE_TERM <= a <= WIDE_TERM,
        -WIDE_TERM <= b <= WIDE_TERM,
        -WIDE_TERM <= c <= WIDE_TERM,
    ensures
        r == sat(quot(a + b + c, SCALE as int)),
{
    let mut gain: u128 = 0;
    let mut loss: u128 = 0;
    if a >= 0 {
        gain = gain + magnitude(a);
    } else {
        loss = loss + magnitude(a);
    }
    if b >= 0 {
        gain = gain + magnitude(b);
    } else {
        loss = loss + magnitude(b);
    }
    if c >= 0 {
        gain = gain + magnitude(c);
    } else {
        loss = loss + magnitude(c);
    }
    assert(gain - loss == a + b + c);
    if gain >= loss {
        let q: u128 = (gain - loss) / (SCALE as u128);
        if q > i64::MAX as u128 { i64::MAX } else { q as i64 }
    } else {
        let q: u128 = (loss - gain) / (SCALE as u128);
        if q > i64::MAX as u128 { i64::MIN } else { -(q as i64) }
    }
}

/// A fixed-point number: `raw` counts steps of one billionth.
///
/// Every raw value is a number, so the type has no invariant. Arithmetic
/// never wraps: a result outside the range becomes the nearest end of it.
#[derive(Clone, Copy, Debug, PartialEq, Eq, Structural)]
pub struct Scalar {
    pub raw: i64,
}

impl Scalar {
    /// The number as a count of steps.
    pub open spec fn view(self) -> int {
        self.raw as int
    }

    /// The number that counts `x` steps, clamped to the range.
    pub open spec fn of(x: int) -> Scalar {
        Scalar { raw: sat(x) as i64 }
    }

    /// Zero.
    pub open spec fn zero_spec() -> Scalar {
        Scalar { raw: 0 }
    }

    /// One: `SCALE` steps.
    pub open spec fn one_spec() -> Scalar {
        Scalar { raw: SCALE }
    }

    /// The smallest positive number: one step. A length below it counts
    /// as nothing, and so does a distance along a ray.
    pub open spec fn epsilon_spec() -> Scalar {
        Scalar { raw: 1 }
    }

    /// The sum, clamped.
    pub open spec fn plus(self, rhs: Scalar) -> Scalar {
        Scalar::of(self@ + rhs@)
    }

    /// The difference, clamped.
    pub open spec fn minus(self, rhs: Scalar) -> Scalar {
        Scalar::of(self@ - rhs@)
    }

    /// The opposite number, clamped.
    pub open spec fn negated(self) -> Scalar {
        Scalar::of(-self@)
    }

    /// The product, rounded toward zero and clamped.
    pub open spec fn times(self, rhs: Scalar) -> Scalar {
        Scalar::of(quot(self@ * rhs@, SCALE as int))
    }

    /// The quotient by a number that is not zero, rounded toward zero and
    /// clamped.
    pub open spec fn over(self, rhs: Scalar) -> Scalar {
        Scalar::of(quot(self@ * SCALE, rhs@))
    }

    /// The larger of two numbers.
    pub open spec fn max_spec(self, other: Scalar) -> Scalar {
        if self.raw >= other.raw { self } else { other }
    }

    /// Zero.
    #[verifier::when_used_as_spec(zero_spec)]
    pub fn zero() -> (r: Scalar)
        ensures
            r == Scalar::zero_spec(),
    {
        Scalar { raw: 0 }
    }

    /// One.
    #[verifier::when_used_as_spec(one_spec)]
    pub fn one() -> (r: Scalar)
        ensures
            r == Scalar::one_spec(),
    {
        Scalar { raw: SCALE }
    }

    /// The smallest positive number: one step.
    #[verifier::when_used_as_spec(epsilon_spec)]
    pub fn epsilon() -> (r: Scalar)
        ensures
            r == Scalar::epsilon_spec(),
    {
        Scalar { raw: 1 }
    }

    /// The whole number `n`, clamped to the range.
    pub fn from_int(n: i64) -> (r: Scalar)
        ensures
            r == Scalar::of(n * SCALE),
    {
        Scalar { raw: clamp_raw(wide_mul(n, SCALE)) }
    }

    /// The whole number `n`, which may be wider than a raw value, clamped
    /// to the range.
    pub fn from_wide(n: i128) -> (r: Scalar)
        requires
            -0x1_0000_0000_0000_0000_0000 <= n <= 0x1_0000_0000_0000_0000_0000,
        ensures
            r == Scalar::of(n * SCALE),
    {
        Scalar { raw: clamp_raw(n * (SCALE as i128)) }
    }

    /// The larger of two numbers.
    #[verifier::when_used_as_spec(max_spec)]
    pub fn max(self, other: Scalar) -> (r: Scalar)
        ensures
            r == self.max_spec(other),
    {
        if self.raw >= other.raw { self } else { other }
    }
}

impl vstd::std_specs::ops::AddSpecImpl for Scalar {
    open spec fn obeys_add_spec() -> bool {
        true
    }

    open spec fn add_req(self, rhs: Scalar) -> bool {
        true
    }

    open spec fn add_spec(self, rhs: Scalar) -> Scalar {
        self.plus(rhs)
    }
}

impl core::ops::Add for Scalar {
    type Output = Scalar;

    fn add(self, rhs: Scalar) -> (r: Scalar) {
        Scalar { raw: clamp_raw(self.raw as i128 + rhs.raw as i128) }
    }
}

impl vstd::std_specs::ops::SubSpecImpl for Scalar {
    open spec fn obeys_sub_spec() -> bool {
        true
    }

    open spec fn sub_req(self, rhs: Scalar) -> bool {
        true
    }

    open spec fn sub_spec(self, rhs: Scalar) -> Scalar {
        self.minus(rhs)
    }
}

impl core::ops::Sub for Scalar {
    type Output = Scalar;

    fn sub(self, rhs: Scalar) -> (r: Scalar) {
        Scalar { raw: clamp_raw(self.raw as i128 - rhs.raw as i128) }
    }
}

impl vstd::std_specs::ops::NegSpecImpl for Scalar {
    open spec fn obeys_neg_spec() -> bool {
        true
    }

    open spec fn neg_req(self) -> bool {
        true
    }

    open spec fn neg_spec(self) -> Scalar {
        self.negated()
    }
}

impl core::ops::Neg for Scalar {
    type Output = Scalar;

    fn neg(self) -> (r: Scalar) {
        Scalar { raw: clamp_raw(-(self.raw as i128)) }
    }
}

impl vstd::std_specs::ops::MulSpecImpl for Scalar {
    open spec fn obeys_mul_spec() -> bool {
        true
    }

    open spec fn mul_req(self, rhs: Scalar) -> bool {
        true
    }

    open spec fn mul_spec(self, rhs: Scalar) -> Scalar {
        self.times(rhs)
    }
}

impl core::ops::Mul for Scalar {
    type Output = Scalar;

    fn mul(self, rhs: Scalar) -> (r: Scalar) {
        Scalar { raw: clamp_raw(wide_quot(wide_mul(self.raw, rhs.raw), SCALE as i128)) }
    }
}

impl vstd::std_specs::ops::DivSpecImpl for Scalar {
    open spec fn obeys_div_spec() -> bool {
        true
    }

    /// Nothing is divided by zero.
    open spec fn div_req(self, rhs: Scalar) -> bool {
        rhs@ != 0
    }

    open spec fn div_spec(self, rhs: Scalar) -> Scalar {
        self.over(rhs)
    }
}

impl core::ops::Div for Scalar {
    type Output = Scalar;

    fn div(self, rhs: Scalar) -> (r: Scalar) {
        Scalar { raw: clamp_raw(wide_quot(wide_mul(self.raw, SCALE), rhs.raw as i128)) }
    }
}

impl Scalar {
    /// The number in decimal, with all nine digits behind the point.
    pub open spec fn text(self) -> Seq<char> {
        (if self@ < 0 {
            seq!['-']
        } else {
            Seq::empty()
        }) + decimal((abs(self@) / SCALE as int) as nat).push('.') + padded(
            (abs(self@) % SCALE as int) as nat,
            9,
        )
    }

    /// The square root, rounded down to a whole number of steps.
    pub open spec fn sqrt_spec(self) -> Scalar {
        Scalar::of(floor_sqrt((self@ * SCALE) as nat) as int)
    }

    /// `self` multiplied `n` times into one, each product rounded toward
    /// zero and clamped.
    pub open spec fn powi_spec(self, n: nat) -> Scalar
        decreases n,
    {
        if n == 0 {
            Scalar::one_spec()
        } else {
            self.powi_spec((n - 1) as nat).times(self)
        }
    }

    /// A number times one, and the quotient of a number by one, is the
    /// number.
    pub proof fn lemma_times_one(self)
        ensures
            self.times(Scalar::one_spec()) == self,
            Scalar::one_spec().times(self) == self,
            self.over(Scalar::one_spec()) == self,
    {
        let k: int = SCALE as int;
        lemma_quot_bounds(self@ * k, k);
        assert(abs(self@ * k) == abs(self@) * k && k * self@ == self@ * k) by (nonlinear_arith)
            requires
                k > 0,
        ;
        assert(abs(quot(self@ * k, k)) == abs(self@)) by (nonlinear_arith)
            requires
                abs(quot(self@ * k, k)) * k <= abs(self@) * k < abs(quot(self@ * k, k)) * k + k,
                k > 0,
        ;
        assert(self@ >= 0 ==> self@ * k >= 0) by (nonlinear_arith)
            requires
                k > 0,
        ;
        assert(self@ <= 0 ==> self@ * k <= 0) by (nonlinear_arith)
            requires
                k > 0,
        ;
    }

    /// Zero times any number is zero.
    pub proof fn lemma_times_zero(self)
        ensures
            self.times(Scalar::zero_spec()) == Scalar::zero_spec(),
            Scalar::zero_spec().times(self) == Scalar::zero_spec(),
    {
        let z: int = Scalar::zero_spec()@;
        assert(self@ * z == 0 && z * self@ == 0) by (nonlinear_arith)
            requires
                z == 0,
        ;
    }

    /// Once a power is zero, every higher power is zero.
    pub proof fn lemma_powi_stays_zero(self, m: nat, n: nat)
        requires
            m <= n,
            self.powi_spec(m)@ == 0,
        ensures
            self.powi_spec(n)@ == 0,
        decreases n,
    {
        if m < n {
            self.lemma_powi_stays_zero(m, (n - 1) as nat);
            assert(0 * self@ == 0);
        }
    }

    /// The square root of a number that is not negative.
    pub fn sqrt(self) -> (r: Scalar)
        requires
            self@ >= 0,
        ensures
            r == self.sqrt_spec(),
            is_floor_sqrt(self@ * SCALE, r@),
    {
        let n: i128 = wide_mul(self.raw, SCALE);
        let root: u64 = isqrt(n as u128);
        proof {
            lemma_floor_sqrt_is_floor_sqrt(n as nat);
            assert(root < 0x1_0000_0000_0000) by (nonlinear_arith)
                requires
                    root * root <= n,
                    n < 0x1_0000_0000_0000 * 0x1_0000_0000_0000,
            ;
        }
        Scalar { raw: root as i64 }
    }

    /// The number in decimal: a minus sign if it is below zero, the whole
    /// part, a point, and the nine digits of the billionths.
    pub fn to_text(self) -> (r: String)
        ensures
            r@ == self.text(),
    {
        proof {
            reveal_strlit("-");
            reveal_strlit(".");
        }
        let size: u64 = magnitude(self.raw as i128) as u64;
        let mut r: String = if self.raw < 0 {
            String::from_str("-")
        } else {
            String::new()
        };
        let whole: String = decimal_text(size / (SCALE as u64));
        r.append(whole.as_str());
        r.append(".");
        let rest: String = padded_text(size % (SCALE as u64), 9);
        r.append(rest.as_str());
        assert(r@ =~= self.text());
        r
    }

    /// The `n`-th power.
    pub fn powi(self, n: u32) -> (r: Scalar)
        ensures
            r == self.powi_spec(n as nat),
    {
        let mut acc: Scalar = Scalar::one();
        let mut i: u32 = 0;
        while i < n && acc.raw != 0
            invariant
                i <= n,
                acc == self.powi_spec(i as nat),
            decreases n - i,
        {
            acc = acc * self;
            i = i + 1;
        }
        proof {
            if i < n {
                self.lemma_powi_stays_zero(i as nat, n as nat);
            }
        }
        acc
    }
}

} // verus!
