//! Saturating decimal fixed-point numbers with nine fractional digits.

use vstd::arithmetic::div_mod::{lemma_div_is_ordered, lemma_div_multiples_vanish};
use vstd::prelude::*;

verus! {

/// Raw units in one whole.
pub const SCALE: i64 = 1_000_000_000;

/// Largest magnitude, in raw units, that a number can have. The range is
/// symmetric: `-LIMIT ..= LIMIT`.
pub const LIMIT: i64 = 9_223_372_036_854_775_807;

/// Clamps an integer into the representable range.
pub open spec fn sat(v: int) -> int {
    if v > LIMIT {
        LIMIT as int
    } else if v < -LIMIT {
        -LIMIT
    } else {
        v
    }
}

/// Absolute value of an integer.
pub open spec fn magnitude(v: int) -> int {
    if v < 0 {
        -v
    } else {
        v
    }
}

/// Quotient of `n` by `d` rounded toward zero.
pub open spec fn quot(n: int, d: int) -> int
    recommends
        d != 0,
{
    if d > 0 {
        if n >= 0 {
            n / d
        } else {
            -((-n) / d)
        }
    } else {
        if n >= 0 {
            -(n / (-d))
        } else {
            (-n) / (-d)
        }
    }
}

/// Whether `r` is the integer square root of `n`.
pub open spec fn is_isqrt(n: int, r: int) -> bool {
    0 <= r && r * r <= n && n < (r + 1) * (r + 1)
}

/// The integer square root: the largest `r >= 0` with `r * r <= n`.
pub open spec fn isqrt(n: int) -> int
    recommends
        n >= 0,
{
    choose|r: int| is_isqrt(n, r)
}

/// A fixed-point number. Its value is `self@ / SCALE`, where the view `self@`
/// is the number of raw units. The one machine value below `-LIMIT` is read as
/// `-LIMIT`, so every bit pattern denotes a number in the symmetric range.
#[derive(Clone, Copy, Debug, PartialEq, Eq, Structural)]
pub struct Fixed {
    pub raw: i64,
}

impl View for Fixed {
    type V = int;

    open spec fn view(&self) -> int {
        sat(self.raw as int)
    }
}

impl Fixed {
    /// The number with `v` raw units, saturated.
    pub open spec fn of(v: int) -> Fixed {
        Fixed { raw: sat(v) as i64 }
    }

    /// The sum, saturated.
    pub open spec fn sum(self, rhs: Fixed) -> Fixed {
        Fixed::of(self@ + rhs@)
    }

    /// The difference, saturated.
    pub open spec fn difference(self, rhs: Fixed) -> Fixed {
        Fixed::of(self@ - rhs@)
    }

    /// The number with the opposite sign.
    pub open spec fn negation(self) -> Fixed {
        Fixed::of(-self@)
    }

    /// The product, rounded toward zero to a raw unit and saturated.
    #[verifier::opaque]
    pub open spec fn product(self, rhs: Fixed) -> Fixed {
        Fixed::of(quot(self@ * rhs@, SCALE as int))
    }

    /// The quotient, rounded toward zero to a raw unit and saturated.
    #[verifier::opaque]
    pub open spec fn quotient(self, rhs: Fixed) -> Fixed
        recommends
            rhs@ != 0,
    {
        Fixed::of(quot(self@ * SCALE, rhs@))
    }

    /// The square root, rounded down to a raw unit.
    #[verifier::opaque]
    pub open spec fn root(self) -> Fixed
        recommends
            self@ >= 0,
    {
        Fixed::of(isqrt(self@ * SCALE))
    }

    /// The square root, or zero for a negative number.
    pub open spec fn root_or_zero(self) -> Fixed {
        if self@ >= 0 {
            self.root()
        } else {
            Fixed::of(0)
        }
    }

    /// The smaller of two numbers.
    pub open spec fn smaller(self, rhs: Fixed) -> Fixed {
        if self@ <= rhs@ {
            Fixed::of(self@)
        } else {
            Fixed::of(rhs@)
        }
    }

    /// The whole part, rounded toward zero.
    pub open spec fn whole(self) -> int {
        quot(self@, SCALE as int)
    }

    /// Builds a number from raw units.
    pub fn from_raw(raw: i64) -> (r: Fixed)
        ensures
            r == Fixed::of(raw as int),
            r@ == sat(raw as int),
    {
        if raw == i64::MIN {
            Fixed { raw: -LIMIT }
        } else {
            Fixed { raw }
        }
    }

    /// The raw units of this number.
    pub fn to_raw(self) -> (v: i64)
        ensures
            v == self@,
            -LIMIT <= v <= LIMIT,
    {
        if self.raw == i64::MIN {
            -LIMIT
        } else {
            self.raw
        }
    }

    pub(crate) fn saturate(v: i128) -> (r: Fixed)
        ensures
            r == Fixed::of(v as int),
            r@ == sat(v as int),
    {
        if v > LIMIT as i128 {
            Fixed { raw: LIMIT }
        } else if v < -(LIMIT as i128) {
            Fixed { raw: -LIMIT }
        } else {
            Fixed { raw: v as i64 }
        }
    }

    pub(crate) fn from_magnitude(mag: u128, negative: bool) -> (r: Fixed)
        ensures
            r == Fixed::of(if negative { -(mag as int) } else { mag as int }),
    {
        if mag > LIMIT as u128 {
            if negative {
                Fixed { raw: -LIMIT }
            } else {
                Fixed { raw: LIMIT }
            }
        } else if negative {
            Fixed { raw: -(mag as i64) }
        } else {
            Fixed { raw: mag as i64 }
        }
    }

    pub(crate) fn magnitude_of(self) -> (m: u128)
        ensures
            m == magnitude(self@),
            m <= LIMIT,
    {
        let v: i64 = self.to_raw();
        if v < 0 {
            (-v) as u128
        } else {
            v as u128
        }
    }

    /// The number zero.
    pub fn zero() -> (r: Fixed)
        ensures
            r == Fixed::of(0),
            r@ == 0,
    {
        Fixed { raw: 0 }
    }

    /// The number one.
    pub fn one() -> (r: Fixed)
        ensures
            r == Fixed::of(SCALE as int),
            r@ == SCALE,
    {
        Fixed { raw: SCALE }
    }

    /// The largest number; it stands for an unbounded quantity.
    pub fn max_value() -> (r: Fixed)
        ensures
            r == Fixed::of(LIMIT as int),
            r@ == LIMIT,
    {
        Fixed { raw: LIMIT }
    }

    /// The whole number `n`.
    pub fn from_int(n: i64) -> (r: Fixed)
        ensures
            r == Fixed::of(n * SCALE),
    {
        proof {
            assert(-0x8000_0000_0000_0000 * SCALE <= n * SCALE <= 0x8000_0000_0000_0000 * SCALE)
                by (nonlinear_arith)
                requires
                    -0x8000_0000_0000_0000 <= n <= 0x8000_0000_0000_0000,
            ;
        }
        Fixed::saturate(n as i128 * SCALE as i128)
    }

    /// The number with the opposite sign.
    pub fn neg(self) -> (r: Fixed)
        ensures
            r == self.negation(),
    {
        Fixed { raw: -self.to_raw() }
    }

    /// The square root, rounded down to the nearest raw unit.
    pub fn sqrt(self) -> (r: Fixed)
        requires
            self@ >= 0,
        ensures
            r == self.root(),
            is_isqrt(self@ * SCALE, r@),
    {
        proof {
            reveal(Fixed::root);
        }
        let a: u128 = self.magnitude_of();
        proof {
            assert(a * SCALE <= LIMIT * SCALE) by (nonlinear_arith)
                requires
                    a <= LIMIT,
            ;
        }
        let n: u128 = a * (SCALE as u128);
        let root: u128 = isqrt_wide(n);
        proof {
            assert(root <= LIMIT) by (nonlinear_arith)
                requires
                    root * root <= n,
                    n <= LIMIT * SCALE,
                    0 <= root,
            ;
        }
        Fixed { raw: root as i64 }
    }

    /// This number times `factor` over `den`, rounded toward zero to a raw
    /// unit once and saturated.
    pub(crate) fn scaled_over(self, factor: u128, den: u128) -> (r: Fixed)
        requires
            den > 0,
            factor <= 1_000_000_000_000_000_000,
        ensures
            r == Fixed::of(quot(self@ * factor, den as int)),
    {
        let m: u128 = self.magnitude_of();
        proof {
            assert(m * factor <= 9_223_372_036_854_775_807_000_000_000_000_000_000)
                by (nonlinear_arith)
                requires
                    0 <= m <= LIMIT,
                    0 <= factor <= 1_000_000_000_000_000_000,
            ;
            assert((self@ * factor < 0) == (self@ < 0 && factor > 0) && magnitude(self@ * factor)
                == m * factor) by (nonlinear_arith)
                requires
                    m == magnitude(self@),
                    factor >= 0,
            ;
        }
        let q: u128 = (m * factor) / den;
        proof {
            assert(0int / (den as int) == 0) by (nonlinear_arith)
                requires
                    den > 0,
            ;
        }
        Fixed::from_magnitude(q, self.to_raw() < 0)
    }

    /// The square root, or zero for a negative number.
    pub fn sqrt_or_zero(self) -> (r: Fixed)
        ensures
            r == self.root_or_zero(),
    {
        if self.to_raw() >= 0 {
            self.sqrt()
        } else {
            Fixed::zero()
        }
    }

    /// Whether this number is below `rhs`.
    pub fn lt(self, rhs: Fixed) -> (b: bool)
        ensures
            b == (self@ < rhs@),
    {
        self.to_raw() < rhs.to_raw()
    }

    /// Whether this number is at most `rhs`.
    pub fn le(self, rhs: Fixed) -> (b: bool)
        ensures
            b == (self@ <= rhs@),
    {
        self.to_raw() <= rhs.to_raw()
    }

    /// Whether this number is above `rhs`.
    pub fn gt(self, rhs: Fixed) -> (b: bool)
        ensures
            b == (self@ > rhs@),
    {
        self.to_raw() > rhs.to_raw()
    }

    /// The smaller of two numbers.
    pub fn min(self, rhs: Fixed) -> (r: Fixed)
        ensures
            r == self.smaller(rhs),
    {
        if self.to_raw() <= rhs.to_raw() {
            Fixed { raw: self.to_raw() }
        } else {
            Fixed { raw: rhs.to_raw() }
        }
    }

    /// The whole part, rounded toward zero.
    pub fn trunc(self) -> (n: i64)
        ensures
            n == self.whole(),
    {
        self.to_raw() / SCALE
    }
}

impl core::ops::Add<Fixed> for Fixed {
    type Output = Fixed;

    /// The sum, saturated.
    fn add(self, rhs: Fixed) -> (r: Fixed) {
        Fixed::saturate(self.to_raw() as i128 + rhs.to_raw() as i128)
    }
}

impl vstd::std_specs::ops::AddSpecImpl<Fixed> for Fixed {
    open spec fn obeys_add_spec() -> bool {
        true
    }

    open spec fn add_req(self, rhs: Fixed) -> bool {
        true
    }

    open spec fn add_spec(self, rhs: Fixed) -> Fixed {
        self.sum(rhs)
    }
}

impl core::ops::Sub<Fixed> for Fixed {
    type Output = Fixed;

    /// The difference, saturated.
    fn sub(self, rhs: Fixed) -> (r: Fixed) {
        Fixed::saturate(self.to_raw() as i128 - rhs.to_raw() as i128)
    }
}

impl vstd::std_specs::ops::SubSpecImpl<Fixed> for Fixed {
    open spec fn obeys_sub_spec() -> bool {
        true
    }

    open spec fn sub_req(self, rhs: Fixed) -> bool {
        true
    }

    open spec fn sub_spec(self, rhs: Fixed) -> Fixed {
        self.difference(rhs)
    }
}

impl core::ops::Mul<Fixed> for Fixed {
    type Output = Fixed;

    /// The product, rounded toward zero to a raw unit and saturated.
    fn mul(self, rhs: Fixed) -> (r: Fixed) {
        proof {
            reveal(Fixed::product);
        }
        let ma: u128 = self.magnitude_of();
        let mb: u128 = rhs.magnitude_of();
        proof {
            lemma_magnitude_of_product(self@, rhs@);
            assert(ma * mb <= LIMIT * LIMIT) by (nonlinear_arith)
                requires
                    ma <= LIMIT,
                    mb <= LIMIT,
            ;
        }
        let p: u128 = ma * mb;
        let q: u128 = p / (SCALE as u128);
        let negative: bool = (self.to_raw() < 0) != (rhs.to_raw() < 0);
        Fixed::from_magnitude(q, negative)
    }
}

impl vstd::std_specs::ops::MulSpecImpl<Fixed> for Fixed {
    open spec fn obeys_mul_spec() -> bool {
        true
    }

    open spec fn mul_req(self, rhs: Fixed) -> bool {
        true
    }

    open spec fn mul_spec(self, rhs: Fixed) -> Fixed {
        self.product(rhs)
    }
}

impl core::ops::Div<Fixed> for Fixed {
    type Output = Fixed;

    /// The quotient, rounded toward zero to a raw unit and saturated. The
    /// divisor must not be zero.
    fn div(self, rhs: Fixed) -> (r: Fixed) {
        proof {
            reveal(Fixed::quotient);
        }
        let ma: u128 = self.magnitude_of();
        let mb: u128 = rhs.magnitude_of();
        proof {
            assert(ma * SCALE <= LIMIT * SCALE) by (nonlinear_arith)
                requires
                    ma <= LIMIT,
            ;
        }
        let n: u128 = ma * (SCALE as u128);
        let q: u128 = n / mb;
        let negative: bool = (self.to_raw() < 0) != (rhs.to_raw() < 0);
        Fixed::from_magnitude(q, negative)
    }
}

impl vstd::std_specs::ops::DivSpecImpl<Fixed> for Fixed {
    open spec fn obeys_div_spec() -> bool {
        true
    }

    open spec fn div_req(self, rhs: Fixed) -> bool {
        rhs@ != 0
    }

    open spec fn div_spec(self, rhs: Fixed) -> Fixed {
        self.quotient(rhs)
    }
}

/// The integer square root of a machine number.
pub(crate) fn isqrt_wide(n: u128) -> (r: u128)
    ensures
        is_isqrt(n as int, r as int),
        r == isqrt(n as int),
        r < 0x1_0000_0000_0000_0000,
{
    let mut lo: u128 = 0;
    let mut hi: u128 = 0x1_0000_0000_0000_0000;
    proof {
        assert(0x1_0000_0000_0000_0000int * 0x1_0000_0000_0000_0000int
            == 0x1_0000_0000_0000_0000_0000_0000_0000_0000int) by (nonlinear_arith);
    }
    while hi - lo > 1
        invariant
            lo < hi <= 0x1_0000_0000_0000_0000,
            lo * lo <= n < hi * hi,
        decreases hi - lo,
    {
        let mid: u128 = lo + (hi - lo) / 2;
        proof {
            assert(mid * mid < 0x1_0000_0000_0000_0000_0000_0000_0000_0000int)
                by (nonlinear_arith)
                requires
                    0 <= mid < 0x1_0000_0000_0000_0000,
            ;
        }
        if mid * mid <= n {
            lo = mid;
        } else {
            hi = mid;
        }
    }
    proof {
        assert(hi == lo + 1);
        assert(is_isqrt(n as int, lo as int));
        lemma_isqrt_unique(n as int, lo as int);
    }
    lo
}

/// The magnitude of a product is the product of the magnitudes, and the
/// product is negative exactly when the signs differ and neither is zero.
pub proof fn lemma_magnitude_of_product(a: int, b: int)
    ensures
        magnitude(a * b) == magnitude(a) * magnitude(b),
        (a * b < 0) == (((a < 0) != (b < 0)) && a != 0 && b != 0),
{
    assert(magnitude(a * b) == magnitude(a) * magnitude(b) && ((a * b < 0) == (((a < 0) != (b < 0))
        && a != 0 && b != 0))) by (nonlinear_arith);
}

/// A square is never negative.
pub proof fn lemma_square_nonnegative(a: Fixed)
    ensures
        a.product(a)@ >= 0,
{
    reveal(Fixed::product);
    assert(a@ * a@ >= 0) by (nonlinear_arith);
}

/// Negating one factor negates the product.
pub proof fn lemma_product_negation(a: Fixed, b: Fixed)
    ensures
        a.product(b.negation()) == a.product(b).negation(),
        a.product(b.negation())@ == -a.product(b)@,
{
    reveal(Fixed::product);
    let n = a@ * b@;
    assert(a@ * (-b@) == -n) by (nonlinear_arith)
        requires
            n == a@ * b@,
    ;
    assert(b.negation()@ == -b@);
}

/// The quotient of a non-negative number by a positive one is not negative.
pub proof fn lemma_quotient_nonnegative(a: Fixed, b: Fixed)
    requires
        a@ >= 0,
        b@ > 0,
    ensures
        a.quotient(b)@ >= 0,
{
    reveal(Fixed::quotient);
    let n = a@ * SCALE;
    assert(n >= 0) by (nonlinear_arith)
        requires
            n == a@ * SCALE,
            a@ >= 0,
    ;
    assert(n / b@ >= 0) by (nonlinear_arith)
        requires
            n >= 0,
            b@ > 0,
    ;
}

/// The product of two numbers within bounds is within the product of the
/// bounds.
pub proof fn lemma_product_bounded(x: Fixed, y: Fixed, bx: int, by: int)
    requires
        -bx <= x@ <= bx,
        -by <= y@ <= by,
    ensures
        -((bx * by) / (SCALE as int)) <= x.product(y)@ <= (bx * by) / (SCALE as int),
{
    reveal(Fixed::product);
    let n = x@ * y@;
    let top = bx * by;
    assert(-top <= n <= top) by (nonlinear_arith)
        requires
            n == x@ * y@,
            top == bx * by,
            -bx <= x@ <= bx,
            -by <= y@ <= by,
    ;
    if n >= 0 {
        lemma_div_is_ordered(n, top, SCALE as int);
        lemma_div_is_ordered(0, n, SCALE as int);
    } else {
        lemma_div_is_ordered(-n, top, SCALE as int);
        lemma_div_is_ordered(0, -n, SCALE as int);
    }
}

/// Scaling numbers by a factor over a positive divisor keeps their order,
/// and leaves none that is not positive above zero.
pub proof fn lemma_scaled_over_monotonic(a: Fixed, b: Fixed, factor: int, den: int)
    requires
        a@ <= b@,
        factor >= 0,
        den > 0,
    ensures
        Fixed::of(quot(a@ * factor, den))@ <= Fixed::of(quot(b@ * factor, den))@,
        b@ <= 0 ==> Fixed::of(quot(b@ * factor, den))@ <= 0,
{
    assert(a@ * factor <= b@ * factor) by (nonlinear_arith)
        requires
            a@ <= b@,
            factor >= 0,
    ;
    lemma_quot_monotonic(a@ * factor, b@ * factor, den);
    if b@ <= 0 {
        assert(b@ * factor <= 0) by (nonlinear_arith)
            requires
                b@ <= 0,
                factor >= 0,
        ;
        lemma_quot_monotonic(b@ * factor, 0, den);
        assert(0int / den == 0) by (nonlinear_arith)
            requires
                den > 0,
        ;
    }
}

/// Rounding toward zero keeps the order of the numerators.
pub proof fn lemma_quot_monotonic(m: int, n: int, d: int)
    requires
        m <= n,
        d > 0,
    ensures
        quot(m, d) <= quot(n, d),
{
    if m >= 0 {
        lemma_div_is_ordered(m, n, d);
    } else if n < 0 {
        lemma_div_is_ordered(-n, -m, d);
    } else {
        lemma_div_is_ordered(0, -m, d);
        lemma_div_is_ordered(0, n, d);
        assert(0int / d == 0) by (nonlinear_arith)
            requires
                d > 0,
        ;
    }
}

/// A square root is not negative.
pub proof fn lemma_root_nonnegative(a: Fixed)
    requires
        a@ >= 0,
    ensures
        a.root()@ >= 0,
{
    reveal(Fixed::root);
    assert(a@ * SCALE >= 0) by (nonlinear_arith)
        requires
            a@ >= 0,
    ;
    lemma_isqrt_exists(a@ * SCALE);
}

/// The square root of a number that does not exceed the square of `h` does
/// not exceed `h`.
pub proof fn lemma_root_of_square(h: Fixed, d: Fixed)
    requires
        h@ >= 0,
        0 <= d@ <= h.product(h)@,
    ensures
        d.root()@ <= h@,
{
    reveal(Fixed::root);
    reveal(Fixed::product);
    let sq = h@ * h@;
    assert(sq >= 0) by (nonlinear_arith)
        requires
            sq == h@ * h@,
    ;
    assert(d@ <= sq / (SCALE as int));
    assert((sq / (SCALE as int)) * SCALE <= sq) by (nonlinear_arith)
        requires
            sq >= 0,
    ;
    assert(d@ * SCALE <= (sq / (SCALE as int)) * SCALE) by (nonlinear_arith)
        requires
            d@ <= sq / (SCALE as int),
    ;
    assert(d@ * SCALE >= 0) by (nonlinear_arith)
        requires
            d@ >= 0,
    ;
    lemma_isqrt_monotonic(d@ * SCALE, sq);
    assert(is_isqrt(sq, h@)) by (nonlinear_arith)
        requires
            sq == h@ * h@,
            h@ >= 0,
    ;
    lemma_isqrt_unique(sq, h@);
    lemma_isqrt_exists(d@ * SCALE);
}

/// Multiplying a non-negative number by a fraction in `[0, 1]` does not
/// enlarge it and does not make it negative.
pub proof fn lemma_product_with_fraction(a: Fixed, b: Fixed)
    requires
        0 <= a@,
        0 <= b@ <= SCALE,
    ensures
        0 <= a.product(b)@ <= a@,
{
    reveal(Fixed::product);
    let n = a@ * b@;
    let top = (SCALE as int) * a@;
    assert(0 <= n <= top) by (nonlinear_arith)
        requires
            n == a@ * b@,
            top == SCALE * a@,
            0 <= a@,
            0 <= b@ <= SCALE,
    ;
    lemma_div_is_ordered(0, n, SCALE as int);
    lemma_div_is_ordered(n, top, SCALE as int);
    lemma_div_multiples_vanish(a@, SCALE as int);
}

/// Multiplying a positive number by a fraction in `[0, 1)` makes it
/// smaller.
pub proof fn lemma_product_with_proper_fraction(a: Fixed, b: Fixed)
    requires
        0 < a@,
        0 <= b@ < SCALE,
    ensures
        a.product(b)@ < a@,
{
    reveal(Fixed::product);
    let n = a@ * b@;
    let top = (SCALE as int) * (a@ - 1) + (SCALE - 1);
    assert(0 <= n <= top) by (nonlinear_arith)
        requires
            n == a@ * b@,
            top == SCALE * (a@ - 1) + (SCALE - 1),
            0 < a@,
            0 <= b@ < SCALE,
    ;
    lemma_div_is_ordered(n, top, SCALE as int);
    assert(top / (SCALE as int) == a@ - 1) by (nonlinear_arith)
        requires
            top == SCALE * (a@ - 1) + (SCALE - 1),
    ;
}

/// The quotient of a number by a positive one that is at least as large
/// in magnitude lies in `[-1, 1]`.
pub proof fn lemma_quotient_within_one(n: Fixed, d: Fixed)
    requires
        d@ > 0,
        -d@ <= n@ <= d@,
    ensures
        -SCALE <= n.quotient(d)@ <= SCALE,
{
    reveal(Fixed::quotient);
    let m = magnitude(n@ * SCALE);
    let top = d@ * SCALE;
    assert(0 <= m <= top && (n@ * SCALE < 0) == (n@ < 0)) by (nonlinear_arith)
        requires
            m == magnitude(n@ * SCALE),
            top == d@ * SCALE,
            -d@ <= n@ <= d@,
    ;
    lemma_div_is_ordered(0, m, d@);
    lemma_div_is_ordered(m, top, d@);
    lemma_div_multiples_vanish(SCALE as int, d@);
}

/// The square of a number in `[-1, 1]` lies in `[0, 1]`.
pub proof fn lemma_square_within_one(a: Fixed)
    requires
        -SCALE <= a@ <= SCALE,
    ensures
        0 <= a.product(a)@ <= SCALE,
{
    reveal(Fixed::product);
    let n = a@ * a@;
    let top = (SCALE as int) * SCALE;
    assert(0 <= n <= top) by (nonlinear_arith)
        requires
            n == a@ * a@,
            top == SCALE * SCALE,
            -SCALE <= a@ <= SCALE,
    ;
    lemma_div_is_ordered(0, n, SCALE as int);
    lemma_div_is_ordered(n, top, SCALE as int);
    lemma_div_multiples_vanish(SCALE as int, SCALE as int);
}

/// At most one integer is the integer square root of `n`.
pub proof fn lemma_isqrt_unique(n: int, r: int)
    requires
        is_isqrt(n, r),
    ensures
        isqrt(n) == r,
{
    let s = isqrt(n);
    assert(is_isqrt(n, s));
    assert(s == r) by (nonlinear_arith)
        requires
            0 <= r,
            r * r <= n,
            n < (r + 1) * (r + 1),
            0 <= s,
            s * s <= n,
            n < (s + 1) * (s + 1),
    ;
}

/// Every non-negative integer has an integer square root.
pub proof fn lemma_isqrt_exists(n: int)
    requires
        n >= 0,
    ensures
        is_isqrt(n, isqrt(n)),
    decreases n,
{
    if n == 0 {
        assert(is_isqrt(0, 0));
    } else {
        lemma_isqrt_exists(n - 1);
        let r = isqrt(n - 1);
        if (r + 1) * (r + 1) <= n {
            assert(is_isqrt(n, r + 1)) by (nonlinear_arith)
                requires
                    0 <= r,
                    n - 1 < (r + 1) * (r + 1),
                    (r + 1) * (r + 1) <= n,
            ;
        } else {
            assert(is_isqrt(n, r));
        }
    }
}

/// The integer square root grows with its argument.
pub proof fn lemma_isqrt_monotonic(m: int, n: int)
    requires
        0 <= m <= n,
    ensures
        isqrt(m) <= isqrt(n),
{
    lemma_isqrt_exists(m);
    lemma_isqrt_exists(n);
    let r = isqrt(m);
    let s = isqrt(n);
    assert(r <= s) by (nonlinear_arith)
        requires
            0 <= r,
            0 <= s,
            r * r <= m,
            m <= n,
            n < (s + 1) * (s + 1),
    ;
}

} // verus!
