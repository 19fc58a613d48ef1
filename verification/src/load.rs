//! Load averages, exactly as the binary64 numbers that nodes report.
//!
//! A [`LoadAverage`] holds the 64 bits of such a number. Every finite one is a
//! whole multiple of the smallest step of the format, `2^-1074`, and here it is
//! measured in those steps. Comparisons and the rounding to one decimal are
//! carried out on whole numbers, without any loss.

use crate::text::{
    all_digits, chars_of, decimal, digit_char, digit_value, digits_value, is_digit, lemma_decimal,
    text_of, to_decimal,
};
use vstd::arithmetic::div_mod::{lemma_fundamental_div_mod, lemma_fundamental_div_mod_converse};
use vstd::arithmetic::mul::{
    lemma_mul_inequality, lemma_mul_is_associative, lemma_mul_is_commutative,
    lemma_mul_strict_inequality,
};
use vstd::arithmetic::power2::{
    lemma2_to64, lemma2_to64_rest, lemma_pow2_adds, lemma_pow2_pos, lemma_pow2_strictly_increases,
    lemma_pow2_unfold, pow2,
};
use vstd::prelude::*;
use vstd::std_specs::cmp::PartialEqSpec;

verus! {

/// A load average, by the bits of its binary64 form: a sign bit, eleven bits
/// of exponent and fifty-two of fraction.
#[derive(Debug, Clone, Copy)]
pub struct LoadAverage {
    /// The bits, the sign first.
    pub bits: u64,
}

/// Two to the power of the number of fraction bits.
pub const FRACTION_SPAN: u64 = 0x10_0000_0000_0000;

/// The sign bit.
pub const SIGN_BIT: u64 = 0x8000_0000_0000_0000;

/// The exponent of infinities and of what is not a number.
pub const TOP_EXPONENT: u64 = 2047;

/// How many times one has to be halved to give the smallest step.
pub const UNIT_SHIFT: u32 = 1074;

impl LoadAverage {
    pub open spec fn spec_negative(self) -> bool {
        self.bits >= SIGN_BIT
    }

    pub open spec fn spec_exponent(self) -> u64 {
        (self.bits / FRACTION_SPAN) % 2048
    }

    pub open spec fn spec_fraction(self) -> u64 {
        self.bits % FRACTION_SPAN
    }

    pub open spec fn is_nan_spec(self) -> bool {
        self.spec_exponent() == TOP_EXPONENT && self.spec_fraction() != 0
    }

    pub open spec fn is_infinite(self) -> bool {
        self.spec_exponent() == TOP_EXPONENT && self.spec_fraction() == 0
    }

    pub open spec fn is_finite(self) -> bool {
        self.spec_exponent() != TOP_EXPONENT
    }

    /// The significant digits, as a whole number.
    pub open spec fn spec_significand(self) -> nat {
        if self.spec_exponent() == 0 {
            self.spec_fraction() as nat
        } else {
            (self.spec_fraction() + FRACTION_SPAN) as nat
        }
    }

    /// How far the significant digits stand above the smallest step.
    pub open spec fn spec_shift(self) -> nat {
        if self.spec_exponent() == 0 {
            0
        } else {
            (self.spec_exponent() - 1) as nat
        }
    }

    /// The distance of a finite load from zero, in smallest steps.
    pub open spec fn magnitude(self) -> nat {
        self.spec_significand() * pow2(self.spec_shift())
    }

    /// A finite load, in smallest steps.
    pub open spec fn steps(self) -> int {
        if self.spec_negative() {
            -(self.magnitude() as int)
        } else {
            self.magnitude() as int
        }
    }

    /// Whether the load is a number less than `k`.
    pub open spec fn below(self, k: nat) -> bool {
        if self.is_finite() {
            self.steps() < k * pow2(UNIT_SHIFT as nat)
        } else {
            self.is_infinite() && self.spec_negative()
        }
    }

    /// Whether this load, shared out over `shares`, is less than `other`, shared
    /// out over `other_shares`. What is not a number is less than nothing, and
    /// nothing is less than it.
    pub open spec fn lower(self, shares: nat, other: LoadAverage, other_shares: nat) -> bool {
        if self.is_nan_spec() || other.is_nan_spec() {
            false
        } else if self.is_finite() && other.is_finite() {
            self.steps() * other_shares < other.steps() * shares
        } else if self.is_finite() {
            !other.spec_negative()
        } else if other.is_finite() {
            self.spec_negative()
        } else {
            self.spec_negative() && !other.spec_negative()
        }
    }

    /// The whole number of tenths nearest to a finite load, leaving its sign
    /// aside; of two that are as near, the even one.
    pub open spec fn tenths(self) -> nat {
        let unit = pow2(UNIT_SHIFT as nat);
        let whole = (10 * self.magnitude()) / unit;
        let rest = (10 * self.magnitude()) % unit;
        if 2 * rest < unit || (2 * rest == unit && whole % 2 == 0) {
            whole
        } else {
            whole + 1
        }
    }

    /// The load with one digit after the point.
    pub open spec fn one_decimal(self) -> Seq<char> {
        let sign = if self.spec_negative() {
            seq!['-']
        } else {
            seq![]
        };
        if self.is_nan_spec() {
            seq!['N', 'a', 'N']
        } else if self.is_infinite() {
            sign + seq!['i', 'n', 'f']
        } else {
            sign + (decimal(self.tenths() / 10) + seq!['.'] + decimal(self.tenths() % 10))
        }
    }
}

// ─── lemmas ─────────────────────────────────────────────────────────────────
proof fn lemma_halve(a: nat, d: nat)
    requires
        d > 0,
    ensures
        a * pow2(d) == (2 * a) * pow2((d - 1) as nat),
{
    lemma_pow2_unfold(d);
    lemma_mul_is_associative(a as int, 2, pow2((d - 1) as nat) as int);
    lemma_mul_is_commutative(a as int, 2);
}

proof fn lemma_scaled_up(a: nat, d: nat)
    ensures
        a <= a * pow2(d),
{
    lemma_pow2_pos(d);
    lemma_mul_inequality(1, pow2(d) as int, a as int);
    lemma_mul_is_commutative(a as int, pow2(d) as int);
}

proof fn lemma_unscaled(a: nat)
    ensures
        a * pow2(0) == a,
{
    lemma2_to64();
    assert(pow2(0) == 1);
}

/// A common power of two does not change which of two numbers is less.
proof fn lemma_common_power(a: nat, ea: nat, b: nat, eb: nat)
    requires
        ea >= eb,
    ensures
        (a * pow2(ea) < b * pow2(eb)) == (a * pow2((ea - eb) as nat) < b),
        (b * pow2(eb) < a * pow2(ea)) == (b < a * pow2((ea - eb) as nat)),
{
    let d = (ea - eb) as nat;
    lemma_pow2_adds(d, eb);
    lemma_pow2_pos(eb);
    lemma_mul_is_associative(a as int, pow2(d) as int, pow2(eb) as int);
    let x = (a * pow2(d)) as int;
    let p = pow2(eb) as int;
    if x < b {
        lemma_mul_strict_inequality(x, b as int, p);
    } else {
        lemma_mul_inequality(b as int, x, p);
    }
    if b < x {
        lemma_mul_strict_inequality(b as int, x, p);
    } else {
        lemma_mul_inequality(x, b as int, p);
    }
}

/// Digits without a zero in front are what the number that they stand for looks
/// like in decimal.
proof fn lemma_digits_are_decimal(s: Seq<char>)
    requires
        s.len() > 0,
        all_digits(s),
        s[0] != '0' || s.len() == 1,
    ensures
        decimal(digits_value(s)) == s,
        s.len() > 1 ==> digits_value(s) >= 10,
        s[0] != '0' ==> digits_value(s) >= 1,
    decreases s.len(),
{
    let v = digits_value(s);
    let d = digit_value(s.last());
    assert(is_digit(s.last()));
    assert(digit_char(d) == s.last());
    if s.len() == 1 {
        assert(s.drop_last() =~= seq![]);
        assert(digits_value(s.drop_last()) == 0);
        assert(s =~= seq![digit_char(d)]);
    } else {
        let front = s.drop_last();
        assert(front[0] == s[0]);
        assert forall|i: int| 0 <= i < front.len() implies is_digit(#[trigger] front[i]) by {
            assert(is_digit(s[i]));
        }
        lemma_digits_are_decimal(front);
        assert(v / 10 == digits_value(front));
        assert(v % 10 == d);
        assert(front.push(s.last()) =~= s);
    }
}

// ─── whole numbers times powers of two ──────────────────────────────────────
/// Whether `a * 2^ea < b * 2^eb`.
fn less_scaled(a: u128, ea: u32, b: u128, eb: u32) -> (r: bool)
    requires
        a < 0x100_0000_0000_0000_0000_0000,
        b < 0x100_0000_0000_0000_0000_0000,
    ensures
        r == (a as nat * pow2(ea as nat) < b as nat * pow2(eb as nat)),
{
    if ea >= eb {
        proof {
            lemma_common_power(a as nat, ea as nat, b as nat, eb as nat);
        }
        let mut x: u128 = a;
        let mut d: u32 = ea - eb;
        while d > 0 && x < b
            invariant
                b < 0x100_0000_0000_0000_0000_0000,
                (x as nat * pow2(d as nat) < b) == (a as nat * pow2((ea - eb) as nat) < b),
            decreases d,
        {
            proof {
                lemma_halve(x as nat, d as nat);
            }
            x = x * 2;
            d = d - 1;
        }
        proof {
            lemma_scaled_up(x as nat, d as nat);
            if d == 0 {
                lemma_unscaled(x as nat);
            }
        }
        x < b
    } else {
        proof {
            lemma_common_power(b as nat, eb as nat, a as nat, ea as nat);
        }
        let mut y: u128 = b;
        let mut d: u32 = eb - ea;
        while d > 0 && y <= a
            invariant
                a < 0x100_0000_0000_0000_0000_0000,
                (a < y as nat * pow2(d as nat)) == (a < b as nat * pow2((eb - ea) as nat)),
            decreases d,
        {
            proof {
                lemma_halve(y as nat, d as nat);
            }
            y = y * 2;
            d = d - 1;
        }
        proof {
            lemma_scaled_up(y as nat, d as nat);
            if d == 0 {
                lemma_unscaled(y as nat);
            }
        }
        a < y
    }
}

/// Two to the power of `k`.
fn power_of_two(k: u32) -> (p: u64)
    requires
        k < 64,
    ensures
        p == pow2(k as nat),
{
    let mut p: u64 = 1;
    let mut i: u32 = 0;
    proof {
        lemma2_to64();
        lemma2_to64_rest();
    }
    while i < k
        invariant
            i <= k < 64,
            p == pow2(i as nat),
            pow2(63) == 0x8000_0000_0000_0000,
        decreases k - i,
    {
        proof {
            lemma_pow2_unfold((i + 1) as nat);
            if i + 1 < 63 {
                lemma_pow2_strictly_increases((i + 1) as nat, 63);
            }
        }
        p = p * 2;
        i = i + 1;
    }
    p
}

/// The digits of twice the number that `x` stands for.
fn twice(x: &Vec<char>) -> (out: Vec<char>)
    requires
        x@.len() > 0,
        all_digits(x@),
        x@[0] != '0',
    ensures
        out@.len() > 0,
        all_digits(out@),
        out@[0] != '0',
        digits_value(out@) == 2 * digits_value(x@),
{
    let mut out: Vec<char> = Vec::new();
    proof {
        assert(is_digit(x@[0]));
        assert(x@.take(0) =~= seq![]);
        assert(digits_value(x@.take(0)) == 0);
    }
    if upper_half(x[0]) {
        out.push('1');
        assert(out@.drop_last() =~= seq![]);
        assert(digits_value(out@.drop_last()) == 0);
    }
    let mut i: usize = 0;
    while i < x.len()
        invariant
            x@.len() > 0,
            all_digits(x@),
            x@[0] != '0',
            i <= x@.len(),
            all_digits(out@),
            out@.len() > 0 ==> out@[0] != '0',
            i > 0 || carries(x@, 0) ==> out@.len() > 0,
            !(i > 0 || carries(x@, 0)) ==> out@.len() == 0,
            digits_value(out@) == 2 * digits_value(x@.take(i as int)) + (if carries(x@, i as int) {
                1nat
            } else {
                0
            }),
        decreases x@.len() - i,
    {
        let ghost before_push = out@;
        assert(is_digit(x@[i as int]));
        let d = digit_of(x[i]);
        let kept: u32 = if upper_half(x[i]) {
            2 * d - 10
        } else {
            2 * d
        };
        let carried: u32 = if i + 1 < x.len() && upper_half(x[i + 1]) {
            1
        } else {
            0
        };
        out.push((48 + (kept + carried) as u8) as char);
        proof {
            let c = out@.last();
            assert(is_digit(c) && digit_value(c) == kept + carried);
            assert(out@.drop_last() =~= before_push);
            let upto = x@.take(i + 1);
            assert(upto.drop_last() =~= x@.take(i as int));
            assert(upto.last() == x@[i as int]);
            assert forall|k: int| 0 <= k < out@.len() implies is_digit(#[trigger] out@[k]) by {
                if k < before_push.len() {
                    assert(is_digit(before_push[k]));
                }
            }
        }
        i = i + 1;
    }
    proof {
        assert(x@.take(i as int) =~= x@);
    }
    out
}

/// Whether the digit at `i` is five or more.
spec fn carries(s: Seq<char>, i: int) -> bool {
    0 <= i < s.len() && digit_value(s[i]) >= 5
}

fn digit_of(c: char) -> (d: u32)
    requires
        is_digit(c),
    ensures
        d == digit_value(c),
        d <= 9,
{
    c as u32 - 48
}

fn upper_half(c: char) -> (r: bool)
    requires
        is_digit(c),
    ensures
        r == (digit_value(c) >= 5),
{
    digit_of(c) >= 5
}

/// `m * 2^d` in decimal.
fn scaled_decimal(m: u64, d: u32) -> (s: String)
    requires
        m > 0,
    ensures
        s@ == decimal(m as nat * pow2(d as nat)),
{
    proof {
        lemma_decimal(m as nat);
        lemma_unscaled(m as nat);
    }
    let mut x = chars_of(to_decimal(m).as_str());
    let mut left: u32 = d;
    while left > 0
        invariant
            left <= d,
            x@.len() > 0,
            all_digits(x@),
            x@[0] != '0',
            digits_value(x@) * pow2(left as nat) == m as nat * pow2(d as nat),
        decreases left,
    {
        proof {
            lemma_halve(digits_value(x@), left as nat);
        }
        x = twice(&x);
        left = left - 1;
    }
    proof {
        lemma_unscaled(digits_value(x@));
        lemma_digits_are_decimal(x@);
        assert(x@.subrange(0, x@.len() as int) =~= x@);
    }
    let n = x.len();
    text_of(&x, 0, n)
}

/// What tenths come to where the load is a whole number.
proof fn lemma_tenths_of_whole(l: LoadAverage)
    requires
        l.is_finite(),
        l.spec_shift() >= UNIT_SHIFT,
    ensures
        l.tenths() == 10 * (l.spec_significand() * pow2((l.spec_shift() - UNIT_SHIFT) as nat)),
{
    let unit = pow2(UNIT_SHIFT as nat);
    let d = (l.spec_shift() - UNIT_SHIFT) as nat;
    let v = l.spec_significand() * pow2(d);
    lemma_pow2_pos(UNIT_SHIFT as nat);
    lemma_pow2_adds(d, UNIT_SHIFT as nat);
    lemma_mul_is_associative(l.spec_significand() as int, pow2(d) as int, unit as int);
    lemma_mul_is_associative(10, v as int, unit as int);
    lemma_fundamental_div_mod_converse((10 * l.magnitude()) as int, unit as int, 10 * v as int, 0);
}

/// What tenths come to where the load lies below the point: `q` and `r` are the
/// quotient and the rest of ten times the significant digits by `p`.
proof fn lemma_tenths_of_parts(l: LoadAverage, p: nat, q: nat, r: nat)
    requires
        l.spec_shift() < UNIT_SHIFT,
        p == pow2((UNIT_SHIFT - l.spec_shift()) as nat),
        10 * l.spec_significand() == q * p + r,
        r < p,
    ensures
        l.tenths() == (if 2 * r < p || (2 * r == p && q % 2 == 0) {
            q
        } else {
            q + 1
        }),
{
    let unit = pow2(UNIT_SHIFT as nat);
    let s = pow2(l.spec_shift());
    lemma_pow2_pos(l.spec_shift());
    lemma_pow2_adds((UNIT_SHIFT - l.spec_shift()) as nat, l.spec_shift());
    assert(unit == p * s);
    let m = l.spec_significand();
    assert(10 * (m * s) == q * (p * s) + r * s) by (nonlinear_arith)
        requires
            10 * m == q * p + r,
    ;
    lemma_mul_strict_inequality(r as int, p as int, s as int);
    assert(0 <= r * s) by (nonlinear_arith);
    lemma_fundamental_div_mod_converse(
        (10 * l.magnitude()) as int,
        unit as int,
        q as int,
        (r * s) as int,
    );
    lemma_mul_is_associative(2, r as int, s as int);
    if 2 * r < p {
        lemma_mul_strict_inequality((2 * r) as int, p as int, s as int);
    } else if 2 * r > p {
        lemma_mul_strict_inequality(p as int, (2 * r) as int, s as int);
    }
}

impl LoadAverage {
    /// The load with one digit after the point, rounded to the nearest tenth, to
    /// the even one of two that are as near.
    pub fn to_one_decimal(&self) -> (s: String)
        ensures
            s@ == self.one_decimal(),
    {
        let mut s = String::new();
        if self.is_nan() {
            s.push('N');
            s.push('a');
            s.push('N');
            assert(s@ =~= self.one_decimal());
            return s;
        }
        if self.negative() {
            s.push('-');
        }
        let ghost sign = s@;
        if self.exponent() == TOP_EXPONENT {
            s.push('i');
            s.push('n');
            s.push('f');
            assert(s@ =~= self.one_decimal());
            return s;
        }
        let m: u64 = self.significand();
        let e: u32 = self.shift();
        if e >= UNIT_SHIFT {
            proof {
                lemma_tenths_of_whole(*self);
                assert(decimal(0) =~= seq!['0']);
            }
            s.append(scaled_decimal(m, e - UNIT_SHIFT).as_str());
            s.push('.');
            s.push('0');
            assert(s@ =~= self.one_decimal());
            return s;
        }
        let k: u32 = UNIT_SHIFT - e;
        let t: u64 = if k >= 64 {
            proof {
                lemma2_to64();
                lemma2_to64_rest();
                if k > 64 {
                    lemma_pow2_strictly_increases(64, k as nat);
                }
                lemma_tenths_of_parts(*self, pow2(k as nat), 0, (10 * m) as nat);
            }
            0
        } else {
            let p: u64 = power_of_two(k);
            proof {
                lemma_pow2_pos(k as nat);
            }
            let q: u64 = (10 * m) / p;
            let r: u64 = (10 * m) % p;
            proof {
                lemma_fundamental_div_mod((10 * m) as int, p as int);
                lemma_mul_is_commutative(p as int, q as int);
                lemma_tenths_of_parts(*self, p as nat, q as nat, r as nat);
            }
            if r < p - r || (r == p - r && q % 2 == 0) {
                q
            } else {
                q + 1
            }
        };
        s.append(to_decimal(t / 10).as_str());
        s.push('.');
        s.append(to_decimal(t % 10).as_str());
        assert(s@ =~= self.one_decimal());
        s
    }
}

impl LoadAverage {
    /// The load that has these bits.
    pub fn from_bits(bits: u64) -> (r: LoadAverage)
        ensures
            r.bits == bits,
    {
        LoadAverage { bits }
    }

    fn negative(&self) -> (r: bool)
        ensures
            r == self.spec_negative(),
    {
        self.bits >= SIGN_BIT
    }

    fn exponent(&self) -> (r: u64)
        ensures
            r == self.spec_exponent(),
            r < 2048,
    {
        (self.bits / FRACTION_SPAN) % 2048
    }

    /// Whether the bits stand for no number.
    pub fn is_nan(&self) -> (r: bool)
        ensures
            r == self.is_nan_spec(),
    {
        self.exponent() == TOP_EXPONENT && self.bits % FRACTION_SPAN != 0
    }

    fn significand(&self) -> (r: u64)
        ensures
            r == self.spec_significand(),
            r < 0x20_0000_0000_0000,
            self.spec_exponent() != 0 ==> r >= 0x10_0000_0000_0000,
    {
        let fraction: u64 = self.bits % FRACTION_SPAN;
        if self.exponent() == 0 {
            fraction
        } else {
            fraction + FRACTION_SPAN
        }
    }

    fn shift(&self) -> (r: u32)
        ensures
            r == self.spec_shift(),
            r <= 2046,
            self.is_finite() ==> r <= 2045,
    {
        let e: u64 = self.exponent();
        if e == 0 {
            0
        } else {
            (e - 1) as u32
        }
    }

    /// Whether the load is a number less than `k`.
    pub fn is_below(&self, k: u64) -> (r: bool)
        ensures
            r == self.below(k as nat),
    {
        if self.exponent() == TOP_EXPONENT {
            self.bits % FRACTION_SPAN == 0 && self.negative()
        } else if self.negative() {
            if k > 0 {
                proof {
                    lemma_pow2_pos(UNIT_SHIFT as nat);
                    lemma_mul_strict_inequality(0, k as int, pow2(UNIT_SHIFT as nat) as int);
                }
                true
            } else {
                proof {
                    assert(0 * pow2(UNIT_SHIFT as nat) == 0) by (nonlinear_arith);
                    lemma_pow2_pos(self.spec_shift());
                    if self.spec_significand() > 0 {
                        lemma_mul_strict_inequality(
                            0,
                            self.spec_significand() as int,
                            pow2(self.spec_shift()) as int,
                        );
                    }
                }
                self.significand() > 0
            }
        } else {
            less_scaled(self.significand() as u128, self.shift(), k as u128, UNIT_SHIFT)
        }
    }

    /// Whether this load, shared out over `shares`, is less than `other`, shared
    /// out over `other_shares`.
    pub fn is_lower(&self, shares: u32, other: &LoadAverage, other_shares: u32) -> (r: bool)
        ensures
            r == self.lower(shares as nat, *other, other_shares as nat),
    {
        if self.is_nan() || other.is_nan() {
            return false;
        }
        if self.exponent() == TOP_EXPONENT {
            return self.negative() && (other.exponent() != TOP_EXPONENT || !other.negative());
        }
        if other.exponent() == TOP_EXPONENT {
            return !other.negative();
        }
        let ma: u64 = self.significand();
        let mb: u64 = other.significand();
        let ea: u32 = self.shift();
        let eb: u32 = other.shift();
        proof {
            lemma_small_product(ma, other_shares);
            lemma_small_product(mb, shares);
            lemma_shared(self.spec_significand(), pow2(self.spec_shift()), other_shares as nat);
            lemma_shared(other.spec_significand(), pow2(other.spec_shift()), shares as nat);
        }
        let a: u128 = ma as u128 * other_shares as u128;
        let b: u128 = mb as u128 * shares as u128;
        proof {
            assert(a as nat * pow2(ea as nat) == self.magnitude() * other_shares as nat);
            assert(b as nat * pow2(eb as nat) == other.magnitude() * shares as nat);
            lemma_negated(self.magnitude() as int, other_shares as int);
            lemma_negated(other.magnitude() as int, shares as int);
        }
        if self.negative() {
            if other.negative() {
                less_scaled(b, eb, a, ea)
            } else {
                let zero = less_scaled(0, 0, a, ea);
                let positive = less_scaled(0, 0, b, eb);
                zero || positive
            }
        } else if other.negative() {
            false
        } else {
            less_scaled(a, ea, b, eb)
        }
    }
}

proof fn lemma_small_product(m: u64, c: u32)
    requires
        m < 0x20_0000_0000_0000,
    ensures
        m * c < 0x100_0000_0000_0000_0000_0000,
{
    assert(m * c <= 0x20_0000_0000_0000 * 0x1_0000_0000) by (nonlinear_arith)
        requires
            m < 0x20_0000_0000_0000,
            c < 0x1_0000_0000,
    ;
}

proof fn lemma_shared(m: nat, p: nat, c: nat)
    ensures
        (m * c) * p == (m * p) * c,
        0 <= (m * p) * c,
{
    assert((m * c) * p == (m * p) * c) by (nonlinear_arith);
    assert(0 <= (m * p) * c) by (nonlinear_arith);
}

proof fn lemma_negated(x: int, c: int)
    ensures
        (-x) * c == -(x * c),
{
    assert((-x) * c == -(x * c)) by (nonlinear_arith);
}

/// Lower than lower is lower.
pub proof fn lemma_lower_chains(
    a: LoadAverage,
    ca: nat,
    b: LoadAverage,
    cb: nat,
    c: LoadAverage,
    cc: nat,
)
    requires
        ca > 0,
        cb > 0,
        cc > 0,
        a.lower(ca, b, cb),
        b.lower(cb, c, cc),
    ensures
        a.lower(ca, c, cc),
{
    if a.is_finite() && b.is_finite() && c.is_finite() {
        let x = a.steps();
        let y = b.steps();
        let z = c.steps();
        assert(x * cc < z * ca) by (nonlinear_arith)
            requires
                ca > 0,
                cb > 0,
                cc > 0,
                x * cb < y * ca,
                y * cc < z * cb,
        {
            // x/ca < y/cb < z/cc
            assert((x * cb) * cc < (y * ca) * cc);
            assert((y * cc) * ca < (z * cb) * ca);
            assert((y * ca) * cc == (y * cc) * ca);
            assert((x * cc) * cb == (x * cb) * cc);
            assert((z * ca) * cb == (z * cb) * ca);
            assert((x * cc) * cb < (z * ca) * cb);
        }
    }
}

/// Equality of numbers: what is not a number equals nothing.
impl PartialEq for LoadAverage {
    fn eq(&self, other: &Self) -> (r: bool) {
        !self.is_nan() && !other.is_nan() && !self.is_lower(1, other, 1) && !other.is_lower(
            1,
            self,
            1,
        )
    }
}

impl vstd::std_specs::cmp::PartialEqSpecImpl for LoadAverage {
    open spec fn obeys_eq_spec() -> bool {
        true
    }

    open spec fn eq_spec(&self, other: &Self) -> bool {
        !self.is_nan_spec() && !other.is_nan_spec() && !self.lower(1, *other, 1) && !other.lower(
            1,
            *self,
            1,
        )
    }
}

// ─── laws ───────────────────────────────────────────────────────────────────
/// What the bits of a load stand for: a sign, an exponent and a fraction. The exponent
/// zero is that of the smallest loads, and the highest one that of what is no finite
/// number.
pub proof fn bits_stand_for_a_number(negative: bool, exponent: u64, fraction: u64)
    requires
        exponent < 2048,
        fraction < 0x10_0000_0000_0000,
    ensures
        ({
            let sign: int = if negative {
                0x8000_0000_0000_0000
            } else {
                0
            };
            let bits = (sign + exponent * 0x10_0000_0000_0000 + fraction) as u64;
            let load = LoadAverage { bits };
            let size: int = if exponent == 0 {
                fraction as int
            } else {
                (0x10_0000_0000_0000 + fraction) * pow2((exponent - 1) as nat)
            };
            &&& load.is_finite() <==> exponent < 2047
            &&& load.is_nan_spec() <==> exponent == 2047 && fraction != 0
            &&& load.is_infinite() <==> exponent == 2047 && fraction == 0
            &&& load.spec_negative() == negative
            &&& load.is_finite() ==> load.magnitude() == size
            &&& load.is_finite() && negative ==> load.steps() == -size
            &&& load.is_finite() && !negative ==> load.steps() == size
        }),
{
    let sign: int = if negative {
        0x8000_0000_0000_0000
    } else {
        0
    };
    let bits = (sign + exponent * 0x10_0000_0000_0000 + fraction) as u64;
    let load = LoadAverage { bits };
    assert(load.spec_fraction() == fraction);
    assert(load.spec_exponent() == exponent);
    lemma2_to64();
    assert(pow2(0) == 1);
    if exponent == 0 {
        assert(load.magnitude() == fraction * 1) by {
            assert(pow2(load.spec_shift()) == 1);
        }
    }
}

/// A finite load is below a number if it has fewer steps than that; of the others only
/// negative infinity is below any.
pub proof fn below_goes_by_steps(load: LoadAverage, k: nat)
    ensures
        load.is_finite() ==> (load.below(k) <==> load.steps() < k * pow2(1074)),
        load.is_nan_spec() ==> !load.below(k),
        load.is_infinite() ==> (load.below(k) <==> load.spec_negative()),
{
}

/// Finite loads are ordered by their steps for each share, and lie between the
/// infinities; what is not a number has no place in that order.
pub proof fn lower_goes_by_steps_per_share(a: LoadAverage, m: nat, b: LoadAverage, n: nat)
    ensures
        a.is_finite() && b.is_finite() ==> (a.lower(m, b, n) <==> a.steps() * n < b.steps() * m),
        a.is_nan_spec() || b.is_nan_spec() ==> !a.lower(m, b, n),
        a.is_finite() && b.is_infinite() ==> (a.lower(m, b, n) <==> !b.spec_negative()),
        a.is_infinite() && b.is_finite() ==> (a.lower(m, b, n) <==> a.spec_negative()),
        a.is_infinite() && b.is_infinite() ==> (a.lower(m, b, n) <==> a.spec_negative()
            && !b.spec_negative()),
{
}

/// The tenths of a finite load are the nearest there are: no farther off than half a
/// tenth, and even where they are that far.
pub proof fn tenths_are_the_nearest(load: LoadAverage)
    ensures
        2 * (10 * load.magnitude() - load.tenths() * pow2(1074)) <= pow2(1074),
        2 * (load.tenths() * pow2(1074) - 10 * load.magnitude()) <= pow2(1074),
        2 * (10 * load.magnitude() - load.tenths() * pow2(1074)) == pow2(1074) || 2 * (load.tenths()
            * pow2(1074) - 10 * load.magnitude()) == pow2(1074) ==> load.tenths() % 2 == 0,
{
    let unit = pow2(1074) as int;
    lemma_pow2_pos(1074);
    let x = 10 * load.magnitude() as int;
    let whole = x / unit;
    let rest = x % unit;
    lemma_fundamental_div_mod(x, unit);
    assert(unit * whole == whole * unit) by (nonlinear_arith);
    assert((whole + 1) * unit == whole * unit + unit) by (nonlinear_arith);
    assert(0 <= rest < unit);
}

/// A load is shown by its sign, its whole part, a point and its tenths.
pub proof fn one_decimal_in_full(load: LoadAverage)
    ensures
        load.is_finite() && !load.spec_negative() ==> load.one_decimal() == decimal(
            load.tenths() / 10,
        ) + seq!['.'] + decimal(load.tenths() % 10),
        load.is_finite() && load.spec_negative() ==> load.one_decimal() == seq!['-'] + (decimal(
            load.tenths() / 10,
        ) + seq!['.'] + decimal(load.tenths() % 10)),
        load.is_nan_spec() ==> load.one_decimal() == seq!['N', 'a', 'N'],
        load.is_infinite() && !load.spec_negative() ==> load.one_decimal() == seq!['i', 'n', 'f'],
        load.is_infinite() && load.spec_negative() ==> load.one_decimal() == seq![
            '-',
            'i',
            'n',
            'f',
        ],
{
    assert(Seq::<char>::empty() + seq!['i', 'n', 'f'] =~= seq!['i', 'n', 'f']);
    assert(seq!['-'] + seq!['i', 'n', 'f'] =~= seq!['-', 'i', 'n', 'f']);
    let shown = decimal(load.tenths() / 10) + seq!['.'] + decimal(load.tenths() % 10);
    assert(Seq::<char>::empty() + shown =~= shown);
}

/// Loads are equal if and only if they stand for the same number: finite ones by their
/// steps, infinities by their sign, and what is not a number never.
pub proof fn equal_loads_are_the_same_number(a: LoadAverage, b: LoadAverage)
    ensures
        a.is_finite() && b.is_finite() ==> (PartialEqSpec::eq_spec(&a, &b) <==> a.steps()
            == b.steps()),
        a.is_infinite() && b.is_infinite() ==> (PartialEqSpec::eq_spec(&a, &b)
            <==> a.spec_negative() == b.spec_negative()),
        a.is_nan_spec() || b.is_nan_spec() ==> !PartialEqSpec::eq_spec(&a, &b),
        a.is_finite() && b.is_infinite() ==> !PartialEqSpec::eq_spec(&a, &b),
        a.is_infinite() && b.is_finite() ==> !PartialEqSpec::eq_spec(&a, &b),
{
}

} // verus!
