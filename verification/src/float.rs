//! Double-precision numbers as their IEEE 754 bit patterns: a sign bit, eleven
//! bits of exponent and 52 bits of fraction, highest first.
use vstd::prelude::*;

verus! {

/// Two to the power `k`.
pub open spec fn two_to(k: nat) -> nat
    decreases k,
{
    if k == 0 {
        1
    } else {
        2 * two_to((k - 1) as nat)
    }
}

/// The place of the highest bit of `m`, from zero.
pub open spec fn top_bit(m: nat) -> nat
    decreases m,
{
    if m < 2 {
        0
    } else {
        1 + top_bit(m / 2)
    }
}

pub proof fn lemma_two_to_grows(a: nat, b: nat)
    requires
        a <= b,
    ensures
        0 < two_to(a) <= two_to(b),
    decreases b,
{
    if a < b {
        lemma_two_to_grows(a, (b - 1) as nat);
    } else if a > 0 {
        lemma_two_to_grows((a - 1) as nat, (a - 1) as nat);
    }
}

pub proof fn lemma_two_to_values()
    ensures
        two_to(11) == 0x800,
        two_to(12) == 0x1000,
        two_to(23) == 0x80_0000,
        two_to(29) == 0x2000_0000,
        two_to(52) == 0x10_0000_0000_0000,
        two_to(53) == 0x20_0000_0000_0000,
        two_to(63) == 0x8000_0000_0000_0000,
        two_to(64) == 0x1_0000_0000_0000_0000,
{
    assert(two_to(11) == 0x800 && two_to(12) == 0x1000) by {
        reveal_with_fuel(two_to, 13);
    }
    assert(two_to(6) == 0x40) by {
        reveal_with_fuel(two_to, 7);
    }
    lemma_two_to_adds(11, 12);
    lemma_two_to_adds(23, 6);
    lemma_two_to_adds(23, 29);
    assert(two_to(23) * two_to(29) == 0x10_0000_0000_0000) by (nonlinear_arith)
        requires
            two_to(23) == 0x80_0000,
            two_to(29) == 0x2000_0000,
    ;
    lemma_two_to_adds(52, 11);
    assert(two_to(53) == 2 * two_to(52));
    assert(two_to(64) == 2 * two_to(63));
}

pub proof fn lemma_two_to_adds(a: nat, b: nat)
    ensures
        two_to(a + b) == two_to(a) * two_to(b),
    decreases b,
{
    if b > 0 {
        lemma_two_to_adds(a, (b - 1) as nat);
        assert(two_to(a) * (2 * two_to((b - 1) as nat)) == 2 * (two_to(a) * two_to((b - 1) as nat)))
            by (nonlinear_arith);
    } else {
        assert(two_to(a) * 1 == two_to(a));
    }
}

/// The highest bit bounds the number from both sides.
pub proof fn lemma_top_bit(m: nat)
    requires
        m > 0,
    ensures
        two_to(top_bit(m)) <= m < two_to(top_bit(m) + 1),
    decreases m,
{
    if m >= 2 {
        lemma_top_bit(m / 2);
    } else {
        reveal_with_fuel(two_to, 2);
    }
}

/// Two to the power `k`.
fn power_of_two(k: u32) -> (r: u64)
    requires
        k < 64,
    ensures
        r == two_to(k as nat),
{
    let mut r: u64 = 1;
    let mut i: u32 = 0;
    while i < k
        invariant
            i <= k < 64,
            r == two_to(i as nat),
        decreases k - i,
    {
        proof {
            lemma_two_to_grows((i + 1) as nat, 63);
            lemma_two_to_values();
        }
        r = r * 2;
        i += 1;
    }
    r
}

/// The place of the highest bit of `m`, from zero.
fn highest_bit(m: u64) -> (r: u32)
    requires
        m > 0,
    ensures
        r == top_bit(m as nat),
        r < 64,
        two_to(r as nat) <= m < two_to(r as nat + 1),
{
    proof {
        lemma_top_bit(m as nat);
        lemma_two_to_values();
        if top_bit(m as nat) >= 64 {
            lemma_two_to_grows(64, top_bit(m as nat));
        }
    }
    let mut t: u32 = 0;
    let mut rest: u64 = m;
    while rest >= 2
        invariant
            rest > 0,
            top_bit(m as nat) == t + top_bit(rest as nat),
            rest <= m,
            t + top_bit(rest as nat) < 64,
        decreases rest,
    {
        t += 1;
        rest = rest / 2;
    }
    t
}

/// The integer `m` scaled by a power of two to 53 bits and rounded to the
/// nearest, to the even one of two equally near.
pub open spec fn significand(m: nat) -> nat {
    let t = top_bit(m);
    if t <= 52 {
        m * two_to((52 - t) as nat)
    } else {
        let unit = two_to((t - 52) as nat);
        let q = m / unit;
        let r = m % unit;
        if 2 * r > unit || (2 * r == unit && q % 2 == 1) {
            q + 1
        } else {
            q
        }
    }
}

/// The double nearest to the integer `n`. A significand that rounding made too
/// long carries into the exponent.
pub open spec fn double_of_int(n: int) -> nat {
    let m: nat = if n < 0 {
        (-n) as nat
    } else {
        n as nat
    };
    let sign: nat = if n < 0 {
        0x8000_0000_0000_0000
    } else {
        0
    };
    if m == 0 {
        0
    } else {
        (sign + (top_bit(m) + 1023) * 0x10_0000_0000_0000 + (significand(m) - 0x10_0000_0000_0000))
            as nat
    }
}

pub proof fn lemma_significand(m: nat)
    requires
        0 < m < two_to(64),
    ensures
        0x10_0000_0000_0000 <= significand(m) <= 0x20_0000_0000_0000,
        top_bit(m) < 64,
{
    let t = top_bit(m);
    lemma_top_bit(m);
    lemma_two_to_values();
    if t >= 64 {
        lemma_two_to_grows(64, t);
    }
    if t <= 52 {
        let u = two_to((52 - t) as nat);
        lemma_two_to_adds(t, (52 - t) as nat);
        lemma_two_to_adds(t + 1, (52 - t) as nat);
        assert(two_to(t) * u <= m * u <= two_to(t + 1) * u) by (nonlinear_arith)
            requires
                two_to(t) <= m < two_to(t + 1),
        ;
    } else {
        let u = two_to((t - 52) as nat);
        lemma_two_to_grows(0, (t - 52) as nat);
        lemma_two_to_adds(52, (t - 52) as nat);
        lemma_two_to_adds(53, (t - 52) as nat);
        let q = m / u;
        assert(two_to(52) <= q < two_to(53)) by (nonlinear_arith)
            requires
                two_to(52) * u <= m < two_to(53) * u,
                u > 0,
                q == m / u,
        ;
    }
}

/// The double nearest to a positive integer.
fn positive_to_double(m: u64) -> (r: u64)
    requires
        m > 0,
    ensures
        r == double_of_int(m as int),
        r < 0x8000_0000_0000_0000,
{
    let t = highest_bit(m);
    proof {
        lemma_two_to_values();
        lemma_significand(m as nat);
    }
    let s: u64 = if t <= 52 {
        let u = power_of_two(52 - t);
        assert(m * u == significand(m as nat));
        m * u
    } else {
        let unit = power_of_two(t - 52);
        proof {
            lemma_two_to_grows((t - 52) as nat, 11);
            lemma_two_to_grows(0, (t - 52) as nat);
        }
        let q = m / unit;
        let r = m % unit;
        if 2 * r > unit || (2 * r == unit && q % 2 == 1) {
            q + 1
        } else {
            q
        }
    };
    assert(s == significand(m as nat));
    (t as u64 + 1023) * 0x10_0000_0000_0000 + (s - 0x10_0000_0000_0000)
}

/// The double nearest to an unsigned integer.
pub fn u64_to_double(n: u64) -> (r: u64)
    ensures
        r == double_of_int(n as int),
{
    if n == 0 {
        0
    } else {
        positive_to_double(n)
    }
}

/// The double nearest to an integer.
pub fn int_to_double(n: i64) -> (r: u64)
    ensures
        r == double_of_int(n as int),
{
    if n >= 0 {
        return u64_to_double(n as u64);
    }
    let m: u64 = if n == i64::MIN {
        0x8000_0000_0000_0000
    } else {
        (-n) as u64
    };
    0x8000_0000_0000_0000 + positive_to_double(m)
}

/// Exponent field of a double.
pub open spec fn exponent(bits: nat) -> nat {
    bits / 0x10_0000_0000_0000 % 0x800
}

/// Fraction field of a double.
pub open spec fn fraction(bits: nat) -> nat {
    bits % 0x10_0000_0000_0000
}

/// The double is a number greater than zero, and not infinite.
pub open spec fn positive_finite(bits: nat) -> bool {
    0 < bits < 0x7ff0_0000_0000_0000
}

/// The whole part of a positive finite double, or the largest 64-bit number
/// where that is larger.
pub open spec fn whole_part(bits: nat) -> nat {
    let e = exponent(bits);
    let m = fraction(bits) + 0x10_0000_0000_0000;
    if e < 1023 {
        0
    } else if e < 1075 {
        m / two_to((1075 - e) as nat)
    } else if e < 1087 {
        m * two_to((e - 1075) as nat)
    } else {
        0xffff_ffff_ffff_ffff
    }
}

/// The whole part of a double that is a number greater than zero and not
/// infinite; nothing for any other.
pub fn positive_whole(bits: u64) -> (r: Option<u64>)
    ensures
        match r {
            Some(v) => positive_finite(bits as nat) && v == whole_part(bits as nat),
            None => !positive_finite(bits as nat),
        },
{
    if bits == 0 || bits >= 0x7ff0_0000_0000_0000 {
        return None;
    }
    let e: u64 = bits / 0x10_0000_0000_0000 % 0x800;
    let m: u64 = bits % 0x10_0000_0000_0000 + 0x10_0000_0000_0000;
    if e < 1023 {
        Some(0)
    } else if e < 1075 {
        let p = power_of_two((1075 - e) as u32);
        proof {
            lemma_two_to_grows(0, (1075 - e) as nat);
        }
        Some(m / p)
    } else if e < 1087 {
        let p = power_of_two((e - 1075) as u32);
        proof {
            lemma_two_to_grows((e - 1075) as nat, 11);
            lemma_two_to_values();
            assert(m * p <= 0x1f_ffff_ffff_ffff * 0x800) by (nonlinear_arith)
                requires
                    m <= 0x1f_ffff_ffff_ffff,
                    p <= 0x800,
            ;
        }
        Some(m * p)
    } else {
        Some(0xffff_ffff_ffff_ffff)
    }
}

/// The double with the value of the single-precision number with the bits
/// `single`; one that is not a number stays so, made quiet.
pub open spec fn widened(single: nat) -> nat {
    let sign: nat = single / 0x8000_0000 * 0x8000_0000_0000_0000;
    let e = single / 0x80_0000 % 0x100;
    let f = single % 0x80_0000;
    if e == 255 {
        if f == 0 {
            sign + 0x7ff0_0000_0000_0000
        } else {
            sign + 0x7ff8_0000_0000_0000 + f % 0x40_0000 * 0x2000_0000
        }
    } else if e > 0 {
        sign + (e + 896) * 0x10_0000_0000_0000 + f * 0x2000_0000
    } else if f == 0 {
        sign
    } else {
        let t = top_bit(f);
        (sign + (t + 874) * 0x10_0000_0000_0000 + (f - two_to(t)) * two_to((52 - t) as nat)) as nat
    }
}

/// The double with the value of a single-precision number.
pub fn widen(single: u32) -> (r: u64)
    ensures
        r == widened(single as nat),
{
    let b: u64 = single as u64;
    let sign: u64 = b / 0x8000_0000 * 0x8000_0000_0000_0000;
    let e: u64 = b / 0x80_0000 % 0x100;
    let f: u64 = b % 0x80_0000;
    if e == 255 {
        if f == 0 {
            sign + 0x7ff0_0000_0000_0000
        } else {
            sign + 0x7ff8_0000_0000_0000 + f % 0x40_0000 * 0x2000_0000
        }
    } else if e > 0 {
        sign + (e + 896) * 0x10_0000_0000_0000 + f * 0x2000_0000
    } else if f == 0 {
        sign
    } else {
        let t = highest_bit(f);
        proof {
            lemma_two_to_values();
            if t > 22 {
                lemma_two_to_grows(23, t as nat);
            }
        }
        let low = f - power_of_two(t);
        let scale = power_of_two(52 - t);
        proof {
            lemma_two_to_adds(t as nat, (52 - t) as nat);
            lemma_two_to_grows(0, (52 - t) as nat);
            assert(low * scale < two_to(t as nat) * two_to((52 - t) as nat)) by (nonlinear_arith)
                requires
                    low < two_to(t as nat),
                    scale == two_to((52 - t) as nat),
                    scale > 0,
            ;
        }
        sign + (t as u64 + 874) * 0x10_0000_0000_0000 + low * scale
    }
}

/// The double cut to a 64-bit number: its whole part, zero where it is negative or
/// not a number, and the largest where it is larger.
pub open spec fn as_seconds(bits: nat) -> nat {
    if positive_finite(bits) {
        whole_part(bits)
    } else if bits == 0x7ff0_0000_0000_0000 {
        0xffff_ffff_ffff_ffff
    } else {
        0
    }
}

/// The double cut to a 64-bit number.
pub fn double_to_u64(bits: u64) -> (r: u64)
    ensures
        r == as_seconds(bits as nat),
{
    match positive_whole(bits) {
        Some(v) => v,
        None => if bits == 0x7ff0_0000_0000_0000 {
            0xffff_ffff_ffff_ffff
        } else {
            0
        },
    }
}

} // verus!
