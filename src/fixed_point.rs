//! Scaled integer division for fixed-point prices.
use vstd::prelude::*;

verus! {

/// 10^n.
pub open spec fn pow10(n: nat) -> int
    decreases n,
{
    if n == 0 {
        1
    } else {
        10 * pow10((n - 1) as nat)
    }
}

/// The largest exponent this library scales by: 10^38 is the largest power of
/// ten that fits an `i128`.
pub const MAX_DECIMALS: u32 = 38;

/// Scaling `x` up step by step from `10^a`: the exponent where one more step
/// would pass `i128::MAX`, or `d` if that comes first.
pub open spec fn ashift_from(x: int, a: nat, d: nat) -> nat
    decreases d - a,
{
    if a < d && x * pow10(a) * 10 <= i128::MAX {
        ashift_from(x, a + 1, d)
    } else {
        a
    }
}

/// How far the dividend is scaled: the largest `a <= decimals` such that
/// `x * 10^a` still fits an `i128`.
pub open spec fn ashift(x: int, decimals: nat) -> nat {
    ashift_from(x, 0, decimals)
}

/// How far the divisor is scaled down: the part of `decimals` that the
/// dividend had no room for.
pub open spec fn bshift(x: int, decimals: nat) -> nat {
    (decimals - ashift(x, decimals)) as nat
}

/// The scaled divisor `y / 10^bshift`.
pub open spec fn scaled_divisor(x: int, y: int, decimals: nat) -> int {
    y / pow10(bshift(x, decimals))
}

/// When the division is defined: both operands positive, `10^decimals`
/// representable, and a divisor that does not vanish once scaled down.
pub open spec fn fixed_div_defined(x: int, y: int, decimals: nat) -> bool {
    &&& 0 < x <= i128::MAX
    &&& 0 < y <= i128::MAX
    &&& decimals <= MAX_DECIMALS
    &&& scaled_divisor(x, y, decimals) > 0
}

/// `(x / y) * 10^decimals`, computed as
/// `(x * 10^ashift) / (y / 10^bshift)`, rounded toward zero.
pub open spec fn fixed_div(x: int, y: int, decimals: nat) -> int {
    (x * pow10(ashift(x, decimals))) / scaled_divisor(x, y, decimals)
}

pub proof fn lemma_pow10_positive(n: nat)
    ensures
        pow10(n) >= 1,
    decreases n,
{
    if n > 0 {
        lemma_pow10_positive((n - 1) as nat);
    }
}

pub proof fn lemma_pow10_monotonic(a: nat, b: nat)
    requires
        a <= b,
    ensures
        pow10(a) <= pow10(b),
    decreases b,
{
    if a < b {
        lemma_pow10_monotonic(a, (b - 1) as nat);
        lemma_pow10_positive((b - 1) as nat);
    }
}

/// 10^38 fits an `i128`.
pub proof fn lemma_pow10_38()
    ensures
        pow10(38) == 100000000000000000000000000000000000000,
        pow10(38) <= i128::MAX,
{
    reveal_with_fuel(pow10, 39);
}

proof fn lemma_ashift_step(x: int, a: nat, d: nat)
    requires
        a < d,
        x * pow10(a) * 10 <= i128::MAX,
    ensures
        ashift_from(x, a, d) == ashift_from(x, a + 1, d),
{
}

proof fn lemma_ashift_from(x: int, a: nat, d: nat)
    requires
        0 < x,
        a <= d,
        x * pow10(a) <= i128::MAX,
    ensures
        a <= ashift_from(x, a, d) <= d,
        x * pow10(ashift_from(x, a, d)) <= i128::MAX,
        ashift_from(x, a, d) < d ==> x * pow10(ashift_from(x, a, d) + 1) > i128::MAX,
    decreases d - a,
{
    assert(pow10(a + 1) == 10 * pow10(a));
    assert(x * pow10(a + 1) == x * pow10(a) * 10) by (nonlinear_arith)
        requires
            pow10(a + 1) == 10 * pow10(a),
    ;
    if a < d && x * pow10(a) * 10 <= i128::MAX {
        lemma_ashift_from(x, a + 1, d);
    }
}

/// What `ashift` is: for a dividend that fits an `i128`, the largest
/// exponent `a <= decimals` such that `x * 10^a` still fits; below
/// `decimals`, one more factor of ten would overflow.
pub proof fn lemma_ashift(x: int, decimals: nat)
    requires
        0 < x <= i128::MAX,
    ensures
        ashift(x, decimals) <= decimals,
        x * pow10(ashift(x, decimals)) <= i128::MAX,
        ashift(x, decimals) < decimals ==> x * pow10(ashift(x, decimals) + 1) > i128::MAX,
{
    assert(pow10(0) == 1);
    lemma_ashift_from(x, 0, decimals);
}

/// Where it is defined, the result lies in `0..=i128::MAX`.
pub proof fn lemma_fixed_div_range(x: int, y: int, decimals: nat)
    requires
        fixed_div_defined(x, y, decimals),
    ensures
        0 <= fixed_div(x, y, decimals) <= i128::MAX,
{
    let a = ashift(x, decimals);
    lemma_ashift(x, decimals);
    lemma_pow10_positive(a);
    let n = x * pow10(a);
    let sd = scaled_divisor(x, y, decimals);
    assert(n > 0) by (nonlinear_arith)
        requires
            x > 0,
            pow10(a) >= 1,
            n == x * pow10(a),
    ;
    assert(0 <= n / sd <= n) by (nonlinear_arith)
        requires
            n > 0,
            sd > 0,
    ;
}

/// `10^n` as an `i128`.
pub fn pow10_exec(n: u32) -> (r: i128)
    requires
        n <= MAX_DECIMALS,
    ensures
        r == pow10(n as nat),
        r >= 1,
{
    proof {
        lemma_pow10_positive(n as nat);
    }
    let mut r: i128 = 1;
    let mut i: u32 = 0;
    while i < n
        invariant
            i <= n <= MAX_DECIMALS,
            r == pow10(i as nat),
        decreases n - i,
    {
        proof {
            lemma_pow10_monotonic((i + 1) as nat, 38);
            lemma_pow10_38();
            assert(pow10((i + 1) as nat) == 10 * pow10(i as nat));
            lemma_pow10_positive(i as nat);
        }
        r = r * 10;
        i = i + 1;
    }
    r
}

/// The exponent the dividend is scaled by, and the scaled dividend.
fn scale_dividend(dividend: i128, decimals: u32) -> (r: (u32, i128))
    requires
        0 < dividend,
    ensures
        r.0 == ashift(dividend as int, decimals as nat),
        r.0 <= decimals,
        r.1 == dividend as int * pow10(r.0 as nat),
        0 < r.1 <= i128::MAX,
{
    let ghost x = dividend as int;
    let ghost d = decimals as nat;
    let mut scaled: i128 = dividend;
    let mut shift: u32 = 0;
    while shift < decimals && scaled <= i128::MAX / 10
        invariant
            0 < dividend,
            x == dividend as int,
            d == decimals as nat,
            shift <= decimals,
            scaled == x * pow10(shift as nat),
            0 < scaled <= i128::MAX,
            ashift_from(x, shift as nat, d) == ashift_from(x, 0, d),
        decreases decimals - shift,
    {
        let ghost a = shift as nat;
        assert(x * pow10(a) * 10 <= i128::MAX);
        proof {
            lemma_ashift_step(x, a, d);
        }
        assert(pow10(a + 1) == 10 * pow10(a));
        assert(x * pow10(a + 1) == scaled * 10) by (nonlinear_arith)
            requires
                scaled == x * pow10(a),
                pow10(a + 1) == 10 * pow10(a),
        ;
        scaled = scaled * 10;
        shift = shift + 1;
    }
    assert(ashift_from(x, shift as nat, d) == shift as nat);
    (shift, scaled)
}

/// Divides `dividend` by `divisor` and scales the quotient by
/// `10^decimals`, keeping as many significant digits of the dividend as an
/// `i128` can hold.
pub fn div_floor(dividend: i128, divisor: i128, decimals: u32) -> (r: i128)
    requires
        fixed_div_defined(dividend as int, divisor as int, decimals as nat),
    ensures
        r == fixed_div(dividend as int, divisor as int, decimals as nat),
{
    let (shift, scaled) = scale_dividend(dividend, decimals);
    let scale_down = pow10_exec(decimals - shift);
    let vdivisor = divisor / scale_down;
    scaled / vdivisor
}

/// Fixed-point division on `i128` prices.
pub trait I128Extensions: Sized {
    /// When `fixed_div_floor` is defined.
    spec fn fixed_div_floor_defined(self, y: i128, decimals: u32) -> bool;

    /// The value `fixed_div_floor` returns.
    spec fn fixed_div_floor_value(self, y: i128, decimals: u32) -> int;

    /// `(self / y) * 10^decimals`, rounded toward zero.
    fn fixed_div_floor(self, y: i128, decimals: u32) -> (r: i128)
        requires
            self.fixed_div_floor_defined(y, decimals),
        ensures
            r == self.fixed_div_floor_value(y, decimals),
    ;
}

impl I128Extensions for i128 {
    open spec fn fixed_div_floor_defined(self, y: i128, decimals: u32) -> bool {
        fixed_div_defined(self as int, y as int, decimals as nat)
    }

    open spec fn fixed_div_floor_value(self, y: i128, decimals: u32) -> int {
        fixed_div(self as int, y as int, decimals as nat)
    }

    fn fixed_div_floor(self, y: i128, decimals: u32) -> (r: i128) {
        div_floor(self, y, decimals)
    }
}

/// `(dividend / divisor) * 10^decimals`, or `None` where it is not defined:
/// an operand that is not positive, `decimals` above 38, or a result too
/// large for the divisor's remaining digits.
pub fn checked_fixed_div_floor(dividend: i128, divisor: i128, decimals: u32) -> (r: Option<i128>)
    ensures
        r == (if fixed_div_defined(dividend as int, divisor as int, decimals as nat) {
            Some(fixed_div(dividend as int, divisor as int, decimals as nat) as i128)
        } else {
            None::<i128>
        }),
{
    if dividend <= 0 || divisor <= 0 || decimals > MAX_DECIMALS {
        return None;
    }
    let (shift, _) = scale_dividend(dividend, decimals);
    let scale_down = pow10_exec(decimals - shift);
    if divisor / scale_down == 0 {
        return None;
    }
    Some(div_floor(dividend, divisor, decimals))
}

} // verus!
