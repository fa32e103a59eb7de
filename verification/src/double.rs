//! IEEE 754 binary64 values, held by their bit patterns.
//!
//! Every finite binary64 value is a whole number of steps of 2^-1074, so a value is modelled by an
//! integer: that number of steps. Comparison and conversion are done on the bit patterns alone and
//! proved against the integer model.
use vstd::arithmetic::div_mod::*;
use vstd::arithmetic::mul::*;
use vstd::arithmetic::power2::*;
use vstd::prelude::*;

verus! {

/// Magnitude bits of a binary64 infinity.
pub const INFINITE: u64 = 0x7ff0_0000_0000_0000;

/// Magnitude bits of a binary32 infinity.
pub const INFINITE_SINGLE: u32 = 0x7f80_0000;

/// Magnitude bits of the smallest binary64 value that rounds to a binary32 infinity: half a step past
/// the largest finite binary32 value.
pub const BEYOND_SINGLE: u64 = 0x47ef_ffff_f000_0000;

/// 2^52: the weight of the implicit leading bit of a binary64 significand.
pub const LEAD: u64 = 0x10_0000_0000_0000;

/// 2^23: the weight of the implicit leading bit of a binary32 significand.
pub const LEAD_SINGLE: u32 = 0x80_0000;

/// 2^63: the sign bit of a binary64 pattern.
pub const SIGN: u64 = 0x8000_0000_0000_0000;

/// 2^31: the sign bit of a binary32 pattern.
pub const SIGN_SINGLE: u32 = 0x8000_0000;

/// An IEEE 754 binary64 value, by its bit pattern.
///
/// `==` compares bit patterns: the two zeros differ, and a NaN equals itself.
#[derive(Debug, Clone, Copy, PartialEq, Eq, Structural)]
pub struct Double {
    pub bits: u64,
}

/// The number of smallest steps that the magnitude bits `magnitude` stand for, in a binary format
/// with `p` fraction bits.
///
/// The magnitude bits of an infinity stand for the first power of two past the largest finite
/// value, which is where the format's values would go on.
pub open spec fn steps(magnitude: nat, p: nat) -> nat {
    let exponent = magnitude / pow2(p);
    let fraction = magnitude % pow2(p);
    if exponent == 0 {
        fraction
    } else {
        (pow2(p) + fraction) * pow2((exponent - 1) as nat)
    }
}

/// The distance from the value of `magnitude` to the next one, in smallest steps.
pub open spec fn gap(magnitude: nat, p: nat) -> nat {
    let exponent = magnitude / pow2(p);
    if exponent == 0 {
        1
    } else {
        pow2((exponent - 1) as nat)
    }
}

/// `magnitude` is the value nearest to `exact` in the format with `p` fraction bits whose infinity
/// is `top`; of two equally near ones it is the even one. One step of the format counts `unit`.
pub open spec fn nearest(exact: nat, magnitude: nat, p: nat, top: nat, unit: nat) -> bool {
    let even = magnitude % 2 == 0;
    &&& magnitude <= top
    &&& magnitude > 0 ==> {
        let below = (steps((magnitude - 1) as nat, p) + steps(magnitude, p)) * unit;
        2 * exact > below || (2 * exact == below && even)
    }
    &&& magnitude < top ==> {
        let above = (steps(magnitude, p) + steps(magnitude + 1, p)) * unit;
        2 * exact < above || (2 * exact == above && even)
    }
}

/// The number of binary64 steps in the number one.
pub open spec fn one() -> nat {
    pow2(1074)
}

/// The number of binary64 steps in one binary32 step.
pub open spec fn single_step() -> nat {
    pow2(925)
}

/// The magnitude bits of a binary32 pattern.
pub open spec fn single_magnitude(bits: u32) -> nat {
    (bits % SIGN_SINGLE) as nat
}

/// Whether a binary32 pattern has its sign bit set.
pub open spec fn single_negative(bits: u32) -> bool {
    bits >= SIGN_SINGLE
}

/// Whether a binary32 pattern is a NaN.
pub open spec fn single_nan(bits: u32) -> bool {
    single_magnitude(bits) > INFINITE_SINGLE
}

/// Whether a binary32 pattern is a number other than an infinity.
pub open spec fn single_finite(bits: u32) -> bool {
    single_magnitude(bits) < INFINITE_SINGLE
}

impl Double {
    /// The bits below the sign bit.
    pub open spec fn magnitude(self) -> nat {
        (self.bits % SIGN) as nat
    }

    /// Whether the sign bit is set.
    pub open spec fn negative(self) -> bool {
        self.bits >= SIGN
    }

    /// Whether this is a NaN.
    pub open spec fn nan(self) -> bool {
        self.magnitude() > INFINITE
    }

    /// Whether this is a number other than an infinity.
    pub open spec fn finite(self) -> bool {
        self.magnitude() < INFINITE
    }

    /// The value in steps of 2^-1074. An infinity stands past every finite value.
    pub open spec fn value(self) -> int {
        if self.negative() {
            -(steps(self.magnitude(), 52) as int)
        } else {
            steps(self.magnitude(), 52) as int
        }
    }

    /// The IEEE 754 order: a NaN is less than nothing, and nothing is less than it.
    pub open spec fn below(self, other: Double) -> bool {
        !self.nan() && !other.nan() && self.value() < other.value()
    }

    /// Whether the value is the integer `n`.
    pub open spec fn is_integer(self, n: int) -> bool {
        self.finite() && self.value() == n * one()
    }

    /// Whether this is the integer `n` rounded to nearest, ties to even.
    pub open spec fn rounds_integer(self, n: int) -> bool {
        &&& self.negative() == (n < 0)
        &&& nearest(
            (if n < 0 { -n } else { n } * one()) as nat,
            self.magnitude(),
            52,
            INFINITE as nat,
            1,
        )
    }

    /// Whether this is the value of the binary32 pattern `bits`; of a NaN, only that it is one.
    pub open spec fn widens(self, bits: u32) -> bool {
        if single_nan(bits) {
            self.nan()
        } else if single_magnitude(bits) == INFINITE_SINGLE {
            self.magnitude() == INFINITE && self.negative() == single_negative(bits)
        } else {
            &&& self.finite()
            &&& self.negative() == single_negative(bits)
            &&& steps(self.magnitude(), 52) == steps(single_magnitude(bits), 23) * single_step()
        }
    }

    /// Whether `bits` is this value rounded to binary32, to nearest, ties to even; of a NaN, only
    /// that it is one.
    pub open spec fn narrows(self, bits: u32) -> bool {
        if self.nan() {
            single_nan(bits)
        } else {
            &&& single_negative(bits) == self.negative()
            &&& nearest(
                steps(self.magnitude(), 52),
                single_magnitude(bits),
                23,
                INFINITE_SINGLE as nat,
                single_step(),
            )
        }
    }
}

/// The integer `n` as a binary64 value: rounded to nearest, ties to even.
pub open spec fn of_integer(n: int) -> Double {
    choose|d: Double| d.rounds_integer(n)
}

/// An integer rounds to one value only.
pub proof fn lemma_integer_unique(a: Double, b: Double, n: int)
    requires
        a.rounds_integer(n),
        b.rounds_integer(n),
    ensures
        a == b,
{
    lemma_nearest_unique(
        (if n < 0 { -n } else { n } * one()) as nat,
        a.magnitude(),
        b.magnitude(),
        52,
        INFINITE as nat,
        1,
    );
}

/// A binary32 value that is no NaN comes back from binary64 unchanged.
pub proof fn lemma_widen_narrow(bits: u32, d: Double, back: u32)
    requires
        !single_nan(bits),
        d.widens(bits),
        d.narrows(back),
    ensures
        back == bits,
{
    lemma_widen_exact(bits, d);
    lemma_narrow_unique(d, bits, back);
}

/// The value of a binary32 pattern rounds to that pattern, unless it is a NaN.
pub proof fn lemma_widen_exact(bits: u32, d: Double)
    requires
        !single_nan(bits),
        d.widens(bits),
    ensures
        d.narrows(bits),
{
    let top = INFINITE_SINGLE as nat;
    lemma_pow2_pos(925);
    if single_magnitude(bits) == INFINITE_SINGLE {
        lemma_overflow(INFINITE, 2047, 0);
    } else {
        lemma_exact(steps(d.magnitude(), 52), single_magnitude(bits), 23, top, single_step());
    }
}

/// A binary32 value other than a NaN is one binary64 value.
pub proof fn lemma_widen_unique(bits: u32, a: Double, b: Double)
    requires
        !single_nan(bits),
        a.widens(bits),
        b.widens(bits),
    ensures
        a == b,
{
    if a.magnitude() < b.magnitude() {
        lemma_steps_increase(a.magnitude(), b.magnitude(), 52);
    } else if b.magnitude() < a.magnitude() {
        lemma_steps_increase(b.magnitude(), a.magnitude(), 52);
    }
}

/// A value other than a NaN has one binary32 rounding.
pub proof fn lemma_narrow_unique(d: Double, a: u32, b: u32)
    requires
        !d.nan(),
        d.narrows(a),
        d.narrows(b),
    ensures
        a == b,
{
    lemma_pow2_pos(925);
    lemma_nearest_unique(
        steps(d.magnitude(), 52),
        single_magnitude(a),
        single_magnitude(b),
        23,
        INFINITE_SINGLE as nat,
        single_step(),
    );
}

/// A value is one integer at most.
pub proof fn lemma_one_integer(d: Double, a: int, b: int)
    requires
        d.is_integer(a),
        d.is_integer(b),
    ensures
        a == b,
{
    lemma_pow2_pos(1074);
    lemma_mul_equality_converse(one() as int, a, b);
}

proof fn lemma_powers()
    ensures
        pow2(0) == 1,
        pow2(23) == LEAD_SINGLE,
        pow2(29) == 0x2000_0000,
        pow2(52) == LEAD,
        pow2(53) == 2 * LEAD,
        pow2(63) == SIGN,
{
    lemma2_to64();
    lemma2_to64_rest();
}

/// The value of the next magnitude is one gap further.
proof fn lemma_next(m: nat, p: nat)
    ensures
        steps(m + 1, p) == steps(m, p) + gap(m, p),
        gap(m, p) > 0,
{
    let b = pow2(p) as int;
    lemma_pow2_pos(p);
    let e = m as int / b;
    let f = m as int % b;
    lemma_fundamental_div_mod(m as int, b);
    lemma_mod_bound(m as int, b);
    lemma_div_pos_is_pos(m as int, b);
    if e > 0 {
        lemma_pow2_pos((e - 1) as nat);
    }
    if f + 1 < b {
        lemma_fundamental_div_mod_converse(m as int + 1, b, e, f + 1);
        if e > 0 {
            let g = pow2((e - 1) as nat) as int;
            assert((b + f + 1) * g == (b + f) * g + g) by (nonlinear_arith);
        }
    } else {
        assert(b * (e + 1) == b * e + b) by (nonlinear_arith);
        lemma_fundamental_div_mod_converse(m as int + 1, b, e + 1, 0);
        if e > 0 {
            let g = pow2((e - 1) as nat) as int;
            lemma_pow2_unfold(e as nat);
            assert(b * (2 * g) == (b + (b - 1)) * g + g) by (nonlinear_arith);
        } else {
            lemma_pow2(0);
            lemma2_to64();
            assert(b * 1 == b);
        }
    }
}

/// Larger magnitude bits stand for larger values.
pub proof fn lemma_steps_increase(a: nat, b: nat, p: nat)
    requires
        a < b,
    ensures
        steps(a, p) < steps(b, p),
    decreases b - a,
{
    lemma_next((b - 1) as nat, p);
    if a < b - 1 {
        lemma_steps_increase(a, (b - 1) as nat, p);
    }
}

proof fn lemma_steps_zero(p: nat)
    ensures
        steps(0, p) == 0,
{
    lemma_pow2_pos(p);
    lemma_div_basics(pow2(p) as int);
    lemma_small_mod(0, pow2(p));
}

/// At most one value is nearest: rounding has one result.
pub proof fn lemma_nearest_unique(exact: nat, a: nat, b: nat, p: nat, top: nat, unit: nat)
    requires
        unit > 0,
        nearest(exact, a, p, top, unit),
        nearest(exact, b, p, top, unit),
    ensures
        a == b,
{
    lemma_nearest_order(exact, a, b, p, top, unit);
    lemma_nearest_order(exact, b, a, p, top, unit);
}

proof fn lemma_nearest_order(exact: nat, a: nat, b: nat, p: nat, top: nat, unit: nat)
    requires
        unit > 0,
        nearest(exact, a, p, top, unit),
        nearest(exact, b, p, top, unit),
    ensures
        a >= b,
{
    if a + 1 < b {
        lemma_steps_increase(a, (b - 1) as nat, p);
        lemma_steps_increase(a + 1, b, p);
        let x = (steps(a, p) + steps(a + 1, p)) as int;
        let y = (steps((b - 1) as nat, p) + steps(b, p)) as int;
        let u = unit as int;
        assert(x * u < y * u) by (nonlinear_arith)
            requires
                x < y,
                u > 0,
        ;
    }
}

/// Rounding between two neighbours: `exact` lies `rem / d` of the way from the value of `q` to that
/// of `q + 1`.
proof fn lemma_round(
    exact: nat,
    q: nat,
    m: nat,
    p: nat,
    top: nat,
    unit: nat,
    d: nat,
    rem: nat,
    w: nat,
)
    requires
        unit > 0,
        w > 0,
        rem < d,
        q < top,
        exact == steps(q, p) * unit + rem * w,
        gap(q, p) * unit == d * w,
        m == q || m == q + 1,
        2 * rem > d ==> m == q + 1,
        2 * rem < d ==> m == q,
        2 * rem == d ==> m % 2 == 0,
    ensures
        nearest(exact, m, p, top, unit),
{
    lemma_next(q, p);
    let s = steps(q, p) as int;
    let g = gap(q, p) as int;
    let u = unit as int;
    let di = d as int;
    let r = rem as int;
    let wi = w as int;
    assert((s + (s + g)) * u == 2 * (s * u) + g * u) by (nonlinear_arith);
    let mid = (s + (s + g)) * u;
    assert(2 * exact - mid == 2 * (r * wi) - di * wi);
    assert(2 * (r * wi) - di * wi == (2 * r - di) * wi) by (nonlinear_arith);
    assert(2 * r > di ==> (2 * r - di) * wi > 0) by (nonlinear_arith)
        requires
            wi > 0,
    ;
    assert(2 * r < di ==> (2 * r - di) * wi < 0) by (nonlinear_arith)
        requires
            wi > 0,
    ;
    assert(2 * r == di ==> (2 * r - di) * wi == 0) by (nonlinear_arith);
    assert(r * wi >= 0) by (nonlinear_arith)
        requires
            r >= 0,
            wi > 0,
    ;
    assert(r * wi < di * wi) by (nonlinear_arith)
        requires
            r < di,
            wi > 0,
    ;
    if m == q {
        if q > 0 {
            lemma_next((q - 1) as nat, p);
            let t = steps((q - 1) as nat, p) as int;
            assert((t + s) * u < 2 * (s * u)) by (nonlinear_arith)
                requires
                    t < s,
                    u > 0,
            ;
        }
    } else {
        if q + 1 < top {
            lemma_next(q + 1, p);
            let t = steps(q + 2, p) as int;
            assert((s + g + t) * u > 2 * ((s + g) * u)) by (nonlinear_arith)
                requires
                    t > s + g,
                    u > 0,
            ;
            assert((s + g) * u == s * u + g * u) by (nonlinear_arith);
        }
    }
}

/// A value of the format rounds to itself.
proof fn lemma_exact(exact: nat, m: nat, p: nat, top: nat, unit: nat)
    requires
        unit > 0,
        m <= top,
        exact == steps(m, p) * unit,
    ensures
        nearest(exact, m, p, top, unit),
{
    let s = steps(m, p) as int;
    let u = unit as int;
    if m > 0 {
        lemma_next((m - 1) as nat, p);
        let t = steps((m - 1) as nat, p) as int;
        assert((t + s) * u < 2 * (s * u)) by (nonlinear_arith)
            requires
                t < s,
                u > 0,
        ;
    }
    lemma_next(m, p);
    let t = steps(m + 1, p) as int;
    assert((s + t) * u > 2 * (s * u)) by (nonlinear_arith)
        requires
            t > s,
            u > 0,
    ;
}

/// A binary64 value of 2^128 or more overflows binary32.
proof fn lemma_overflow(m: u64, e: u64, f: u64)
    requires
        m <= INFINITE,
        e == m / LEAD,
        f == m % LEAD,
        e > 1150,
    ensures
        nearest(
            steps(m as nat, 52),
            INFINITE_SINGLE as nat,
            23,
            INFINITE_SINGLE as nat,
            single_step(),
        ),
{
    lemma_powers();
    let top = INFINITE_SINGLE as nat;
    let u = single_step() as int;
    lemma_pow2_pos(925);
    lemma_fundamental_div_mod_converse(top as int, LEAD_SINGLE as int, 255, 0);
    lemma_pow2_adds(23, 254);
    lemma_pow2_adds(277, 925);
    lemma_next((top - 1) as nat, 23);
    let bound = (1151 * LEAD) as nat;
    lemma_fundamental_div_mod(m as int, LEAD as int);
    assert(m >= bound) by {
        assert(LEAD * e + f >= 1151 * LEAD) by (nonlinear_arith)
            requires
                e >= 1151,
                f >= 0,
        ;
    }
    if m > bound {
        lemma_steps_increase(bound, m as nat, 52);
    }
    lemma_fundamental_div_mod_converse(bound as int, LEAD as int, 1151, 0);
    lemma_pow2_adds(52, 1150);
    let s = steps(top, 23) as int;
    let t = steps((top - 1) as nat, 23) as int;
    assert(steps(m as nat, 52) >= s * u);
    assert((t + s) * u < 2 * (s * u)) by (nonlinear_arith)
        requires
            t < s,
            u > 0,
    ;
}

/// A value that is no NaN rounds to a binary32 infinity exactly from [`BEYOND_SINGLE`] on.
proof fn lemma_rounds_beyond(m: nat)
    ensures
        nearest(
            steps(m, 52),
            INFINITE_SINGLE as nat,
            23,
            INFINITE_SINGLE as nat,
            single_step(),
        ) <==> m >= BEYOND_SINGLE,
{
    lemma_powers();
    let top = INFINITE_SINGLE as nat;
    let bound = BEYOND_SINGLE as nat;
    lemma_fundamental_div_mod_converse(top as int, LEAD_SINGLE as int, 255, 0);
    lemma_fundamental_div_mod_converse(
        (top - 1) as int,
        LEAD_SINGLE as int,
        254,
        (LEAD_SINGLE - 1) as int,
    );
    lemma_fundamental_div_mod_converse(
        bound as int,
        LEAD as int,
        1150,
        0xf_ffff_f000_0000,
    );
    let a = pow2(253) as int;
    lemma_pow2_unfold(254);
    assert(steps(top, 23) == LEAD_SINGLE * (2 * a));
    assert(steps((top - 1) as nat, 23) == (2 * LEAD_SINGLE - 1) * a);
    assert(LEAD_SINGLE * (2 * a) + (2 * LEAD_SINGLE - 1) * a == 0x1ff_ffff * a) by (nonlinear_arith)
        requires
            LEAD_SINGLE == 0x80_0000,
    ;
    let u = single_step() as int;
    lemma_pow2_adds(253, 925);
    lemma_pow2_adds(29, 1149);
    let b = pow2(1178) as int;
    let c = pow2(1149) as int;
    assert(a * u == b);
    assert(0x2000_0000 * c == b);
    assert((0x1ff_ffff * a) * u == 0x1ff_ffff * b) by (nonlinear_arith)
        requires
            a * u == b,
    ;
    assert(steps(bound, 52) == 0x1f_ffff_f000_0000 * c);
    assert(2 * (0x1f_ffff_f000_0000 * c) == 0x1ff_ffff * b) by (nonlinear_arith)
        requires
            0x2000_0000 * c == b,
    ;
    if m > bound {
        lemma_steps_increase(bound, m, 52);
    } else if m < bound {
        lemma_steps_increase(m, bound, 52);
    }
}

proof fn lemma_nearest_found(exact: nat, q: nat, p: nat, top: nat, unit: nat) -> (m: nat)
    requires
        unit > 0,
        q <= top,
        exact < steps(q, p) * unit,
    ensures
        nearest(exact, m, p, top, unit),
    decreases q,
{
    lemma_steps_zero(p);
    assert(q > 0) by {
        if q == 0 {
            assert(0 * unit == 0);
        }
    }
    let b = (q - 1) as nat;
    if steps(b, p) * unit <= exact {
        lemma_next(b, p);
        let d = gap(b, p) * unit;
        let rem = (exact - steps(b, p) * unit) as nat;
        let s = steps(b, p) as int;
        let g = gap(b, p) as int;
        let u = unit as int;
        assert((s + g) * u == s * u + g * u) by (nonlinear_arith);
        let m = if 2 * rem > d || (2 * rem == d && b % 2 != 0) {
            q
        } else {
            b
        };
        lemma_round(exact, b, m, p, top, unit, d, rem, 1);
        m
    } else {
        lemma_nearest_found(exact, b, p, top, unit)
    }
}

/// Every value rounds to some binary32 pattern. It is finite exactly below [`BEYOND_SINGLE`].
pub proof fn lemma_narrow_finite(d: Double)
    ensures
        d.magnitude() < BEYOND_SINGLE ==> exists|bits: u32| #[trigger]
            d.narrows(bits) && single_finite(bits),
        d.magnitude() >= BEYOND_SINGLE ==> forall|bits: u32| #[trigger]
            d.narrows(bits) ==> !single_finite(bits),
{
    let top = INFINITE_SINGLE as nat;
    let exact = steps(d.magnitude(), 52);
    lemma_pow2_pos(925);
    lemma_rounds_beyond(d.magnitude());
    if d.magnitude() < BEYOND_SINGLE {
        assert(exact < steps(top, 23) * single_step()) by {
            lemma_next((top - 1) as nat, 23);
            let s = steps(top, 23) as int;
            let t = steps((top - 1) as nat, 23) as int;
            let u = single_step() as int;
            assert((t + s) * u < 2 * (s * u)) by (nonlinear_arith)
                requires
                    t < s,
                    u > 0,
            ;
        }
        let m = lemma_nearest_found(exact, top, 23, top, single_step());
        let bits: u32 = if d.negative() {
            (m + SIGN_SINGLE) as u32
        } else {
            m as u32
        };
        assert(single_magnitude(bits) == m);
        assert(d.narrows(bits));
        assert(single_finite(bits));
    } else {
        assert forall|bits: u32| #[trigger] d.narrows(bits) implies !single_finite(bits) by {
            if !d.nan() {
                lemma_nearest_unique(
                    exact,
                    top,
                    single_magnitude(bits),
                    23,
                    top,
                    single_step(),
                );
            }
        }
    }
}

/// Rounding of a binary64 value in the range of the normal binary32 values.
proof fn lemma_normal(m: u64, e: u64, f: u64, q: u64, rem: u64, r: u64)
    requires
        e == m / LEAD,
        f == m % LEAD,
        896 < e <= 1150,
        q == (e - 896) * LEAD_SINGLE + f / 0x2000_0000,
        rem == f % 0x2000_0000,
        r == if 2 * rem > 0x2000_0000 || (2 * rem == 0x2000_0000 && q % 2 == 1) {
            q + 1
        } else {
            q as int
        },
    ensures
        r <= INFINITE_SINGLE,
        nearest(steps(m as nat, 52), r as nat, 23, INFINITE_SINGLE as nat, single_step()),
{
    lemma_powers();
    let x = (e - 897) as nat;
    let lead = LEAD_SINGLE as int;
    let fq = f as int / 0x2000_0000;
    assert(0 <= fq < LEAD_SINGLE);
    lemma_fundamental_div_mod_converse(q as int, lead, e - 896, fq);
    let u = single_step();
    let w = pow2(x + 896);
    lemma_pow2_pos(925);
    lemma_pow2_pos(x + 896);
    lemma_pow2_adds(x, 925);
    lemma_pow2_adds(29, x + 896);
    let g = pow2(x) as int;
    let ui = u as int;
    let wi = w as int;
    assert(gap(q as nat, 23) * u == 0x2000_0000 * w);
    assert(steps(m as nat, 52) == steps(q as nat, 23) * u + rem * w) by {
        let a = lead + fq;
        let ri = rem as int;
        assert(LEAD + f == a * 0x2000_0000 + ri);
        assert((a * 0x2000_0000 + ri) * wi == a * (0x2000_0000 * wi) + ri * wi)
            by (nonlinear_arith);
        assert((a * g) * ui == a * (g * ui)) by (nonlinear_arith);
    }
    lemma_round(
        steps(m as nat, 52),
        q as nat,
        r as nat,
        23,
        INFINITE_SINGLE as nat,
        u,
        0x2000_0000,
        rem as nat,
        w,
    );
}

/// A binary64 value below half the smallest binary32 value rounds to zero.
proof fn lemma_tiny(m: u64, sig: u64, scale: u64)
    requires
        sig < 2 * LEAD,
        scale < 872,
        steps(m as nat, 52) == sig * pow2(scale as nat),
    ensures
        nearest(steps(m as nat, 52), 0, 23, INFINITE_SINGLE as nat, single_step()),
{
    lemma_powers();
    lemma_steps_zero(23);
    lemma_next(0, 23);
    lemma_div_basics(LEAD_SINGLE as int);
    let g = pow2(scale as nat) as int;
    lemma_pow2_pos(scale as nat);
    assert(sig * g < (2 * LEAD) * g) by (nonlinear_arith)
        requires
            sig < 2 * LEAD,
            g > 0,
    ;
    lemma_pow2_adds(53, scale as nat);
    lemma_pow2_adds(1, (53 + scale) as nat);
    lemma2_to64();
    if scale < 871 {
        lemma_pow2_strictly_increases((54 + scale) as nat, 925);
    }
    let u = single_step() as int;
    assert(2 * steps(m as nat, 52) < u);
    assert((0 + 1) * u == u);
}

/// Rounding of a binary64 value in the range of the subnormal binary32 values.
proof fn lemma_subnormal(m: u64, sig: u64, scale: u64, d: u64, q: u64, rem: u64, r: u64)
    requires
        sig < 2 * LEAD,
        872 <= scale <= 895,
        steps(m as nat, 52) == sig * pow2(scale as nat),
        d == pow2((925 - scale) as nat),
        d > 0,
        q == sig / d,
        rem == sig % d,
        r == if 2 * rem > d || (2 * rem == d && q % 2 == 1) {
            q + 1
        } else {
            q as int
        },
    ensures
        r <= LEAD_SINGLE,
        nearest(steps(m as nat, 52), r as nat, 23, INFINITE_SINGLE as nat, single_step()),
{
    lemma_powers();
    lemma2_to64();
    let w = pow2(scale as nat);
    let u = single_step();
    lemma_pow2_pos(scale as nat);
    lemma_pow2_pos(925);
    lemma_pow2_adds((925 - scale) as nat, scale as nat);
    lemma_fundamental_div_mod(sig as int, d as int);
    lemma_mod_bound(sig as int, d as int);
    if scale < 895 {
        lemma_pow2_strictly_increases(30, (925 - scale) as nat);
    }
    assert(q < LEAD_SINGLE) by {
        let di = d as int;
        let qi = q as int;
        assert(qi >= LEAD_SINGLE ==> di * qi >= 0x4000_0000 * LEAD_SINGLE) by (nonlinear_arith)
            requires
                di >= 0x4000_0000,
        ;
    }
    lemma_fundamental_div_mod_converse(q as int, LEAD_SINGLE as int, 0, q as int);
    assert(steps(q as nat, 23) == q);
    assert(gap(q as nat, 23) == 1);
    let di = d as int;
    let qi = q as int;
    let wi = w as int;
    let ri = rem as int;
    assert((di * qi + ri) * wi == qi * (di * wi) + ri * wi) by (nonlinear_arith);
    assert(1 * u == d * w);
    lemma_round(
        steps(m as nat, 52),
        q as nat,
        r as nat,
        23,
        INFINITE_SINGLE as nat,
        u,
        d as nat,
        rem as nat,
        w,
    );
}

/// Every `n` that a significand can hold has magnitude bits for `n * 2^shift`.
proof fn lemma_place(n: nat, shift: nat, j: nat) -> (m: nat)
    requires
        0 < n < 2 * LEAD,
        j <= shift <= 1990,
        n * pow2(j) >= LEAD,
    ensures
        m < INFINITE,
        steps(m, 52) == n * pow2(shift),
    decreases j,
{
    lemma_powers();
    if n >= LEAD {
        let m = ((shift + 1) * LEAD + (n - LEAD)) as nat;
        lemma_fundamental_div_mod_converse(m as int, LEAD as int, shift as int + 1, n - LEAD);
        m
    } else {
        if j == 0 {
            assert(n * 1 == n);
        }
        let a = pow2((j - 1) as nat) as int;
        let b = pow2((shift - 1) as nat) as int;
        let k = n as int;
        lemma_pow2_unfold(j);
        lemma_pow2_unfold(shift);
        assert(k * (2 * a) == (2 * k) * a) by (nonlinear_arith);
        assert(k * (2 * b) == (2 * k) * b) by (nonlinear_arith);
        lemma_place(2 * n, (shift - 1) as nat, (j - 1) as nat)
    }
}

/// An integer of fewer than 54 bits is held exactly.
pub proof fn lemma_of_integer_exact(n: int)
    requires
        -2 * LEAD < n < 2 * LEAD,
    ensures
        of_integer(n).is_integer(n),
        of_integer(n).rounds_integer(n),
{
    lemma_powers();
    let a = (if n < 0 { -n } else { n }) as nat;
    let o = one() as int;
    let m: nat = if a == 0 {
        lemma_steps_zero(52);
        assert(0 * o == 0) by (nonlinear_arith);
        0
    } else {
        lemma_pow2_pos(52);
        assert(a * LEAD >= LEAD) by (nonlinear_arith)
            requires
                a >= 1,
        ;
        lemma_place(a, 1074, 52)
    };
    let bits = (if n < 0 { SIGN + m } else { m as int }) as u64;
    let d = Double { bits };
    assert(d.magnitude() == m);
    assert(steps(m, 52) * 1 == a * one());
    lemma_exact((a * one()) as nat, m, 52, INFINITE as nat, 1);
    assert((-n) * o == -(n * o)) by (nonlinear_arith);
    assert(d.rounds_integer(n));
    lemma_integer_unique(d, of_integer(n), n);
}

/// 2^`k`.
fn power(k: u32) -> (r: u64)
    requires
        k < 64,
    ensures
        r == pow2(k as nat),
        r > 0,
{
    let mut r: u64 = 1;
    let mut i: u32 = 0;
    proof {
        lemma2_to64();
    }
    while i < k
        invariant
            i <= k < 64,
            r == pow2(i as nat),
            r > 0,
        decreases k - i,
    {
        proof {
            lemma_pow2_unfold((i + 1) as nat);
            lemma_powers();
            if i + 1 < 63 {
                lemma_pow2_strictly_increases((i + 1) as nat, 63);
            }
        }
        r = r * 2;
        i = i + 1;
    }
    r
}

/// The magnitude bits of `n * 2^shift` steps, for an `n` that a significand can hold.
fn place(n: u64, shift: u32) -> (r: u64)
    requires
        0 < n < 2 * LEAD,
        52 <= shift <= 1990,
    ensures
        r < INFINITE,
        steps(r as nat, 52) == n * pow2(shift as nat),
        n >= LEAD ==> r == (shift + 1) * LEAD + (n - LEAD),
        r >= LEAD,
{
    let mut w: u64 = n;
    let mut k: u32 = 0;
    proof {
        lemma_powers();
    }
    while w < LEAD
        invariant
            0 < w < 2 * LEAD,
            w == n * pow2(k as nat),
            k <= 52,
            n >= LEAD ==> k == 0,
            w >= n,
            w >= pow2(k as nat),
            pow2(52) == LEAD,
        decreases 2 * LEAD - w,
    {
        proof {
            lemma_pow2_unfold((k + 1) as nat);
            let g = pow2(k as nat) as int;
            let h = n as int;
            assert(h * (2 * g) == 2 * (h * g)) by (nonlinear_arith);
            if k >= 52 {
                if k > 52 {
                    lemma_pow2_strictly_increases(52, k as nat);
                }
            }
        }
        w = w * 2;
        k = k + 1;
    }
    let e: u64 = (shift - k + 1) as u64;
    let r: u64 = e * LEAD + (w - LEAD);
    proof {
        let b = LEAD as int;
        lemma_fundamental_div_mod_converse(r as int, b, e as int, w - LEAD);
        let i = (shift - k) as nat;
        lemma_pow2_adds(k as nat, i);
        lemma_mul_is_associative(n as int, pow2(k as nat) as int, pow2(i) as int);
    }
    r
}

/// Whether a remainder of `rem` over `d` rounds up from the neighbour `q`.
fn rounds_up(q: u64, rem: u64, d: u64) -> (r: bool)
    requires
        rem < d <= SIGN,
    ensures
        r == (2 * rem > d || (2 * rem == d && q % 2 == 1)),
{
    rem > d - rem || (rem == d - rem && q % 2 == 1)
}

/// The binary32 magnitude bits nearest to the binary64 magnitude bits `m`.
#[verifier::spinoff_prover]
fn narrow(m: u64) -> (r: u32)
    requires
        m <= INFINITE,
    ensures
        r <= INFINITE_SINGLE,
        nearest(steps(m as nat, 52), r as nat, 23, INFINITE_SINGLE as nat, single_step()),
{
    let e: u64 = m / LEAD;
    let f: u64 = m % LEAD;
    if e > 1150 {
        proof {
            lemma_overflow(m, e, f);
        }
        return INFINITE_SINGLE;
    }
    if e > 896 {
        let q: u64 = (e - 896) * 0x80_0000 + f / 0x2000_0000;
        let rem: u64 = f % 0x2000_0000;
        let r: u64 = if rounds_up(q, rem, 0x2000_0000) {
            q + 1
        } else {
            q
        };
        proof {
            lemma_normal(m, e, f, q, rem, r);
        }
        return r as u32;
    }
    let (sig, scale): (u64, u64) = if e == 0 {
        (f, 0)
    } else {
        (LEAD + f, e - 1)
    };
    proof {
        lemma_powers();
        assert(sig * 1 == sig);
    }
    assert(steps(m as nat, 52) == sig * pow2(scale as nat));
    if scale < 872 {
        proof {
            lemma_tiny(m, sig, scale);
        }
        return 0;
    }
    narrow_subnormal(Ghost(m), sig, scale)
}

fn narrow_subnormal(m: Ghost<u64>, sig: u64, scale: u64) -> (r: u32)
    requires
        sig < 2 * LEAD,
        872 <= scale <= 895,
        steps(m@ as nat, 52) == sig * pow2(scale as nat),
    ensures
        r <= INFINITE_SINGLE,
        nearest(steps(m@ as nat, 52), r as nat, 23, INFINITE_SINGLE as nat, single_step()),
{
    let d: u64 = power((925 - scale) as u32);
    proof {
        lemma_powers();
        if scale > 872 {
            lemma_pow2_strictly_increases((925 - scale) as nat, 53);
        }
    }
    let q: u64 = sig / d;
    let rem: u64 = sig % d;
    let up: bool = rounds_up(q, rem, d);
    assert(q <= sig) by (nonlinear_arith)
        requires
            q == sig / d,
            d > 0,
    ;
    let r: u64 = if up {
        q + 1
    } else {
        q
    };
    proof {
        lemma_subnormal(m@, sig, scale, d, q, rem, r);
    }
    r as u32
}

impl Double {
    /// The value with the bit pattern `bits`.
    pub fn from_bits(bits: u64) -> (r: Double)
        ensures
            r.bits == bits,
    {
        Double { bits }
    }

    /// Whether `self` is less than `other`.
    pub fn less_than(&self, other: &Double) -> (r: bool)
        ensures
            r == self.below(*other),
    {
        let a: u64 = self.bits % SIGN;
        let b: u64 = other.bits % SIGN;
        proof {
            lemma_steps_zero(52);
            if a < b {
                lemma_steps_increase(a as nat, b as nat, 52);
            } else if b < a {
                lemma_steps_increase(b as nat, a as nat, 52);
            }
            if 0 < a {
                lemma_steps_increase(0, a as nat, 52);
            }
            if 0 < b {
                lemma_steps_increase(0, b as nat, 52);
            }
        }
        if a > INFINITE || b > INFINITE {
            false
        } else if self.bits >= SIGN {
            if other.bits >= SIGN {
                b < a
            } else {
                a > 0 || b > 0
            }
        } else if other.bits >= SIGN {
            false
        } else {
            a < b
        }
    }

    /// The magnitude bits of the whole number `n`, rounded to nearest, ties to even.
    fn round_whole(n: u64) -> (r: u64)
        ensures
            r < INFINITE,
            nearest((n * one()) as nat, r as nat, 52, INFINITE as nat, 1),
            n < 2 * LEAD ==> steps(r as nat, 52) == n * one(),
    {
        if n == 0 {
            proof {
                lemma_steps_zero(52);
                lemma_next(0, 52);
                assert(0 * one() == 0) by (nonlinear_arith);
            }
            return 0;
        }
        let mut q: u64 = n;
        let mut s: u32 = 0;
        let mut d: u64 = 1;
        proof {
            lemma_powers();
        }
        while q >= 2 * LEAD
            invariant
                0 < q <= n,
                d == pow2(s as nat),
                d > 0,
                d * q <= n < d * (q + 1),
                s <= 11,
                s > 0 ==> q >= LEAD,
                n < 2 * LEAD ==> s == 0,
            decreases q,
        {
            proof {
                let di = d as int;
                let qi = q as int;
                let h = qi / 2;
                assert(2 * di * h <= di * qi && di * (qi + 1) <= 2 * di * (h + 1)) by (nonlinear_arith)
                    requires
                        2 * h <= qi <= 2 * h + 1,
                        di > 0,
                ;
                assert(di * (2 * LEAD) <= di * qi) by (nonlinear_arith)
                    requires
                        di > 0,
                        qi >= 2 * LEAD,
                ;
                lemma2_to64();
                lemma_pow2_unfold((s + 1) as nat);
                if s >= 11 {
                    assert(di == pow2(11));
                }
            }
            q = q / 2;
            s = s + 1;
            d = d * 2;
        }
        let m: u64 = place(q, 1074 + s);
        let ghost w = pow2(1074);
        proof {
            lemma_pow2_pos(1074);
            lemma_pow2_adds(s as nat, 1074);
            let di = d as int;
            let qi = q as int;
            let wi = w as int;
            assert(qi * (di * wi) == (di * qi) * wi) by (nonlinear_arith);
        }
        if s == 0 {
            proof {
                lemma_powers();
                assert(d * q == q && d * (q + 1) == q + 1) by (nonlinear_arith)
                    requires
                        d == 1,
                ;
                assert(steps(m as nat, 52) * 1 == steps(m as nat, 52));
                lemma_exact((n * one()) as nat, m as nat, 52, INFINITE as nat, 1);
            }
            return m;
        }
        proof {
            assert(d * q <= u64::MAX) by (nonlinear_arith)
                requires
                    d * q <= n,
            ;
            assert(d * (q + 1) == d * q + d) by (nonlinear_arith);
            lemma2_to64();
            if s < 11 {
                lemma_pow2_strictly_increases(s as nat, 11);
            }
        }
        let rem: u64 = n - d * q;
        let up: bool = rounds_up(m, rem, d);
        let r: u64 = if up {
            m + 1
        } else {
            m
        };
        proof {
            let e = m as int / LEAD as int;
            lemma_fundamental_div_mod_converse(m as int, LEAD as int, 1075 + s, q - LEAD);
            assert(gap(m as nat, 52) == pow2((1074 + s) as nat));
            assert(gap(m as nat, 52) * 1 == d * w);
            assert(n * one() == steps(m as nat, 52) * 1 + rem * w) by {
                let di = d as int;
                let qi = q as int;
                let wi = w as int;
                let ri = rem as int;
                assert((di * qi + ri) * wi == (di * qi) * wi + ri * wi) by (nonlinear_arith);
            }
            lemma_round(
                (n * one()) as nat,
                m as nat,
                r as nat,
                52,
                INFINITE as nat,
                1,
                d as nat,
                rem as nat,
                w,
            );
        }
        r
    }

    /// The number `n`, rounded to nearest, ties to even.
    pub fn from_u64(n: u64) -> (r: Double)
        ensures
            r.finite(),
            r.rounds_integer(n as int),
            r == of_integer(n as int),
            n < 2 * LEAD ==> r.is_integer(n as int),
    {
        let m: u64 = Self::round_whole(n);
        let r = Double { bits: m };
        proof {
            assert(r.rounds_integer(n as int));
            lemma_integer_unique(r, of_integer(n as int), n as int);
        }
        r
    }

    /// The number `n`, rounded to nearest, ties to even.
    pub fn from_i64(n: i64) -> (r: Double)
        ensures
            r.finite(),
            r.rounds_integer(n as int),
            r == of_integer(n as int),
            -2 * LEAD < n < 2 * LEAD ==> r.is_integer(n as int),
    {
        let r: Double = if n < 0 {
            let a: u64 = if n == i64::MIN {
                SIGN
            } else {
                (-n) as u64
            };
            let m: u64 = Self::round_whole(a);
            proof {
                let o = one() as int;
                let k = n as int;
                assert((-k) * o == -(k * o)) by (nonlinear_arith);
            }
            Double { bits: SIGN + m }
        } else {
            let m: u64 = Self::round_whole(n as u64);
            Double { bits: m }
        };
        proof {
            assert(r.rounds_integer(n as int));
            lemma_integer_unique(r, of_integer(n as int), n as int);
        }
        r
    }

    /// The integer that this value is, where it is one of fewer than 54 bits.
    pub fn to_integer(&self) -> (r: Option<i64>)
        ensures
            match r {
                Some(n) => self.is_integer(n as int) && -2 * LEAD < n < 2 * LEAD,
                None => forall|n: int|
                    -2 * LEAD < n < 2 * LEAD ==> !#[trigger] self.is_integer(n),
            },
    {
        let m: u64 = self.bits % SIGN;
        let e: u64 = m / LEAD;
        let f: u64 = m % LEAD;
        let ghost o = one() as int;
        proof {
            lemma_powers();
            lemma_pow2_pos(1074);
            lemma_steps_zero(52);
        }
        if m == 0 {
            assert(0 * o == 0) by (nonlinear_arith);
            return Some(0);
        }
        if e < 1023 {
            proof {
                self.lemma_small(e, f);
            }
            return None;
        }
        if e > 1075 {
            proof {
                self.lemma_large(e, f);
            }
            return None;
        }
        let d: u64 = power((1075 - e) as u32);
        let sig: u64 = LEAD + f;
        let ghost g = pow2((e - 1) as nat) as int;
        proof {
            lemma_pow2_adds((1075 - e) as nat, (e - 1) as nat);
            lemma_pow2_pos((e - 1) as nat);
            if e > 1023 {
                lemma_pow2_strictly_increases((1075 - e) as nat, 52);
            }
            lemma_fundamental_div_mod(sig as int, d as int);
            assert(o == d * g);
        }
        if sig % d != 0 {
            proof {
                assert forall|n: int| -2 * LEAD < n < 2 * LEAD implies !#[trigger] self.is_integer(
                    n,
                ) by {
                    let k = if n < 0 { -n } else { n };
                    let di = d as int;
                    let si = sig as int;
                    if self.is_integer(n) {
                        assert((-n) * o == -(n * o)) by (nonlinear_arith);
                        assert(k * (di * g) == (di * k) * g) by (nonlinear_arith);
                        assert(si * g == (di * k) * g);
                        lemma_mul_equality_converse(g, si, di * k);
                        lemma_fundamental_div_mod_converse(si, di, k, 0);
                    }
                }
            }
            return None;
        }
        let a: u64 = sig / d;
        proof {
            let di = d as int;
            let ai = a as int;
            assert((di * ai) * g == ai * (di * g)) by (nonlinear_arith);
            assert((-ai) * o == -(ai * o)) by (nonlinear_arith);
            assert(di * ai >= ai) by (nonlinear_arith)
                requires
                    di >= 1,
                    ai >= 0,
            ;
        }
        if self.bits >= SIGN {
            Some(-(a as i64))
        } else {
            Some(a as i64)
        }
    }

    /// The value of the binary32 pattern `bits`.
    pub fn from_single(bits: u32) -> (r: Double)
        ensures
            r.widens(bits),
    {
        let m: u32 = bits % SIGN_SINGLE;
        let sign: u64 = if bits >= SIGN_SINGLE {
            SIGN
        } else {
            0
        };
        proof {
            lemma_powers();
            lemma_steps_zero(52);
            lemma_steps_zero(23);
        }
        if m > INFINITE_SINGLE {
            let f: u64 = (m - INFINITE_SINGLE) as u64;
            return Double { bits: sign + INFINITE + f };
        }
        if m == 0 {
            assert(0 * single_step() == 0) by (nonlinear_arith);
            return Double { bits: sign };
        }
        let e: u32 = m / LEAD_SINGLE;
        let f: u32 = m % LEAD_SINGLE;
        if e == 255 {
            return Double { bits: sign + INFINITE };
        }
        let (n, shift): (u64, u32) = if e == 0 {
            (f as u64, 925)
        } else {
            ((LEAD_SINGLE + f) as u64, 924 + e)
        };
        let r: u64 = place(n, shift);
        proof {
            if e > 0 {
                let k = (e - 1) as nat;
                lemma_pow2_adds(k, 925);
                lemma_mul_is_associative(n as int, pow2(k) as int, pow2(925) as int);
            }
        }
        Double { bits: sign + r }
    }

    /// This value as a binary32 pattern, rounded to nearest, ties to even.
    pub fn to_single(&self) -> (r: u32)
        ensures
            self.narrows(r),
    {
        let m: u64 = self.bits % SIGN;
        let sign: u32 = if self.bits >= SIGN {
            SIGN_SINGLE
        } else {
            0
        };
        if m > INFINITE {
            return sign + INFINITE_SINGLE + 0x40_0000;
        }
        sign + narrow(m)
    }

    proof fn lemma_small(self, e: u64, f: u64)
        requires
            self.magnitude() > 0,
            e == self.magnitude() / LEAD as nat,
            f == self.magnitude() % LEAD as nat,
            e < 1023,
        ensures
            forall|n: int| !#[trigger] self.is_integer(n),
    {
        lemma_powers();
        let o = one() as int;
        let s = steps(self.magnitude(), 52) as int;
        lemma_steps_zero(52);
        lemma_steps_increase(0, self.magnitude(), 52);
        lemma_fundamental_div_mod(self.magnitude() as int, LEAD as int);
        assert(self.magnitude() < 1023 * LEAD) by {
            assert(LEAD * e + f < 1023 * LEAD) by (nonlinear_arith)
                requires
                    e <= 1022,
                    f < LEAD,
            ;
        }
        lemma_steps_increase(self.magnitude(), (1023 * LEAD) as nat, 52);
        lemma_fundamental_div_mod_converse(1023 * LEAD, LEAD as int, 1023, 0);
        lemma_pow2_adds(52, 1022);
        assert(0 < s < o);
        assert forall|n: int| !#[trigger] self.is_integer(n) by {
            if self.is_integer(n) {
                let k = if n < 0 { -n } else { n };
                assert((-n) * o == -(n * o)) by (nonlinear_arith);
                assert(s == k * o);
                assert(k >= 1 ==> k * o >= o) by (nonlinear_arith)
                    requires
                        o > 0,
                ;
                assert(k == 0 ==> k * o == 0) by (nonlinear_arith);
            }
        }
    }

    proof fn lemma_large(self, e: u64, f: u64)
        requires
            e == self.magnitude() / LEAD as nat,
            f == self.magnitude() % LEAD as nat,
            e > 1075,
        ensures
            forall|n: int| -2 * LEAD < n < 2 * LEAD ==> !#[trigger] self.is_integer(n),
    {
        lemma_powers();
        let o = one() as int;
        let s = steps(self.magnitude(), 52) as int;
        lemma_pow2_pos(1074);
        lemma_fundamental_div_mod(self.magnitude() as int, LEAD as int);
        let bound = (1076 * LEAD) as nat;
        assert(self.magnitude() >= bound) by {
            assert(LEAD * e + f >= 1076 * LEAD) by (nonlinear_arith)
                requires
                    e >= 1076,
                    f >= 0,
            ;
        }
        if self.magnitude() > bound {
            lemma_steps_increase(bound, self.magnitude(), 52);
        }
        lemma_fundamental_div_mod_converse(bound as int, LEAD as int, 1076, 0);
        lemma_pow2_adds(1, 1074);
        lemma2_to64();
        assert(LEAD * (2 * o) == (2 * LEAD) * o) by (nonlinear_arith);
        assert(s >= (2 * LEAD) * o);
        assert forall|n: int| -2 * LEAD < n < 2 * LEAD implies !#[trigger] self.is_integer(n) by {
            if self.is_integer(n) {
                let k = if n < 0 { -n } else { n };
                assert((-n) * o == -(n * o)) by (nonlinear_arith);
                assert(s == k * o);
                assert(k * o < (2 * LEAD) * o) by (nonlinear_arith)
                    requires
                        o > 0,
                        k < 2 * LEAD,
                ;
            }
        }
    }
}

} // verus!
