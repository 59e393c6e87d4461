//! Numbers in the bits of floating point, and texts and addresses in their order.
use vstd::prelude::*;
use vstd::utf8::encode_utf8;

use crate::address::Address;
use crate::book::rank;
use crate::bytes::{lemma_of_be_concat, of_be, of_be_writes_back, pow256};
use crate::float::{
    as_seconds, double_of_int, exponent, fraction, lemma_significand, lemma_top_bit,
    lemma_two_to_adds, lemma_two_to_grows, lemma_two_to_values, positive_finite, significand,
    top_bit, two_to, whole_part, widened,
};
use crate::micron::within;

verus! {

proof fn lemma_top_bit_of(m: nat, t: nat)
    requires
        two_to(t) <= m < two_to(t + 1),
    ensures
        top_bit(m) == t,
    decreases t,
{
    if t == 0 {
        reveal_with_fuel(two_to, 2);
    } else {
        lemma_two_to_grows(0, (t - 1) as nat);
        lemma_top_bit_of(m / 2, (t - 1) as nat);
    }
}

/// An integer of at most 53 bits is kept exactly: the whole seconds of the number it
/// becomes are the integer.
pub proof fn whole_numbers_are_kept(n: nat)
    requires
        n < 0x20_0000_0000_0000,
    ensures
        n > 0 ==> whole_part(double_of_int(n as int)) == n,
        n > 0 ==> positive_finite(double_of_int(n as int)),
        as_seconds(double_of_int(n as int)) == n,
{
    if n > 0 {
        lemma_two_to_values();
        lemma_two_to_grows(53, 64);
        lemma_top_bit(n);
        lemma_significand(n);
        let t = top_bit(n);
        if t > 52 {
            lemma_two_to_grows(53, t);
        }
        let u = two_to((52 - t) as nat);
        let s = significand(n);
        lemma_two_to_grows(0, (52 - t) as nat);
        lemma_two_to_adds(t + 1, (52 - t) as nat);
        assert(n * u < two_to(t + 1) * u) by (nonlinear_arith)
            requires
                n < two_to(t + 1),
                u > 0,
        ;
        let bits = double_of_int(n as int);
        assert(s < 0x20_0000_0000_0000);
        assert(bits == (t + 1023) * 0x10_0000_0000_0000 + (s - 0x10_0000_0000_0000));
        assert(bits / 0x10_0000_0000_0000 == t + 1023);
        assert(fraction(bits) == s - 0x10_0000_0000_0000);
        assert(exponent(bits) == t + 1023);
        assert((n * u) / u == n as int) by (nonlinear_arith)
            requires
                u > 0,
        ;
        if t == 52 {
            assert(two_to(0) == 1);
            assert(n * 1 == n);
        }
    }
}

/// The number of one is one; a number twice as large has one more in its exponent and
/// the same fraction; the opposite number has the highest bit.
pub proof fn doubling_adds_to_the_exponent(n: nat)
    requires
        0 < n < 0x4000_0000_0000_0000,
    ensures
        double_of_int(0) == 0,
        double_of_int(1) == 0x3ff0_0000_0000_0000,
        double_of_int(2 * n as int) == double_of_int(n as int) + 0x10_0000_0000_0000,
        double_of_int(-(n as int)) == double_of_int(n as int) + 0x8000_0000_0000_0000,
{
    lemma_two_to_values();
    lemma_top_bit(n);
    let t = top_bit(n);
    assert(top_bit(2 * n) == t + 1) by {
        assert((2 * n) / 2 == n);
    }
    assert(top_bit(1) == 0);
    lemma_two_to_grows(0, 64);
    lemma_significand(n);
    lemma_significand(1);
    assert(significand(1) == 0x10_0000_0000_0000);
    assert(significand(2 * n) == significand(n)) by {
        if t <= 51 {
            let u = two_to((51 - t) as nat);
            assert((2 * n) * u == n * (2 * u)) by (nonlinear_arith);
        } else if t == 52 {
            assert(two_to(0) == 1);
            assert(two_to(1) == 2) by {
                reveal_with_fuel(two_to, 2);
            }
            assert(n * 1 == n);
        } else {
            let u = two_to((t - 52) as nat);
            lemma_two_to_grows(0, (t - 52) as nat);
            assert(two_to((t + 1 - 52) as nat) == 2 * u);
            assert((2 * n) / (2 * u) == n / u && (2 * n) % (2 * u) == 2 * (n % u))
                by (nonlinear_arith)
                requires
                    u > 0,
            ;
        }
    }
}

/// The whole seconds of a number between one and two to the power of 53 are the number
/// without its fraction: `m` two to the power of `1075 - e` times too large.
pub proof fn whole_seconds_are_cut_off(bits: nat)
    requires
        1023 <= exponent(bits) < 1075,
    ensures
        ({
            let m = fraction(bits) + 0x10_0000_0000_0000;
            let unit = two_to((1075 - exponent(bits)) as nat);
            whole_part(bits) * unit <= m < (whole_part(bits) + 1) * unit
        }),
{
    let m = fraction(bits) + 0x10_0000_0000_0000;
    let unit = two_to((1075 - exponent(bits)) as nat);
    lemma_two_to_grows(0, (1075 - exponent(bits)) as nat);
    assert((m / unit) * unit <= m < (m / unit + 1) * unit) by (nonlinear_arith)
        requires
            unit > 0,
    ;
}

/// What is under one counts as zero, and so does what is negative or no number; what is
/// too large counts as the largest.
pub proof fn odd_times_are_bounded(bits: nat)
    ensures
        bits < 0x3ff0_0000_0000_0000 ==> as_seconds(bits) == 0,
        bits >= 0x8000_0000_0000_0000 ==> as_seconds(bits) == 0,
        0x43f0_0000_0000_0000 <= bits <= 0x7ff0_0000_0000_0000 ==> as_seconds(bits)
            == 0xffff_ffff_ffff_ffff,
        0x7ff0_0000_0000_0000 < bits ==> as_seconds(bits) == 0,
        positive_finite(bits) <==> 0 < bits < 0x7ff0_0000_0000_0000,
{
}

/// A single-precision number keeps its sign, its exponent counted from the other bias,
/// and its fraction; one without a whole part in its fraction is brought to the form with
/// one; infinity stays infinity, and no number stays none.
pub proof fn singles_are_widened(sign: nat, e: nat, f: nat)
    requires
        sign < 2,
        e < 256,
        f < 0x80_0000,
    ensures
        ({
            let w = widened(sign * 0x8000_0000 + e * 0x80_0000 + f);
            &&& w < 0x1_0000_0000_0000_0000
            &&& w / 0x8000_0000_0000_0000 == sign
            &&& 0 < e < 255 ==> exponent(w) == e + 896 && fraction(w) == f * 0x2000_0000
            &&& e == 0 && f == 0 ==> w == sign * 0x8000_0000_0000_0000
            &&& e == 0 && f > 0 ==> {
                &&& 874 <= exponent(w) <= 896
                &&& fraction(w) + 0x10_0000_0000_0000 == f * two_to((926 - exponent(w)) as nat)
            }
            &&& e == 255 ==> exponent(w) == 2047 && (fraction(w) == 0 <==> f == 0)
        }),
{
    let single = sign * 0x8000_0000 + e * 0x80_0000 + f;
    assert(single / 0x8000_0000 == sign);
    assert(single / 0x80_0000 % 0x100 == e);
    assert(single % 0x80_0000 == f);
    if e == 0 && f > 0 {
        let t = top_bit(f);
        lemma_top_bit(f);
        lemma_two_to_values();
        if t >= 23 {
            lemma_two_to_grows(23, t);
        }
        let u = two_to((52 - t) as nat);
        lemma_two_to_adds(t, (52 - t) as nat);
        lemma_two_to_adds(t + 1, (52 - t) as nat);
        lemma_two_to_grows(0, (52 - t) as nat);
        assert((f - two_to(t)) * u == f * u - two_to(t) * u) by (nonlinear_arith);
        assert(f * u < two_to(t + 1) * u) by (nonlinear_arith)
            requires
                f < two_to(t + 1),
                u > 0,
        ;
        assert(f * u >= two_to(t) * u) by (nonlinear_arith)
            requires
                f >= two_to(t),
                u > 0,
        ;
        let w = widened(single);
        let low = f * u - 0x10_0000_0000_0000;
        assert(w == sign * 0x8000_0000_0000_0000 + (t + 874) * 0x10_0000_0000_0000 + low);
        assert(w / 0x10_0000_0000_0000 == sign * 0x800 + t + 874);
        assert(w % 0x10_0000_0000_0000 == low);
    } else {
        let w = widened(single);
        if 0 < e < 255 {
            assert(w == sign * 0x8000_0000_0000_0000 + (e + 896) * 0x10_0000_0000_0000 + f
                * 0x2000_0000);
            assert(w / 0x10_0000_0000_0000 == sign * 0x800 + e + 896);
        }
    }
}

/// Addresses stand in the order of their bytes: the first byte that differs decides.
pub proof fn addresses_stand_by_their_bytes(a: Address, b: Address, i: int)
    requires
        0 <= i < 16,
        a@.take(i) == b@.take(i),
        a@[i] < b@[i],
    ensures
        rank(a) < rank(b),
{
    let x = a@;
    let y = b@;
    assert(x.len() == 16 && y.len() == 16);
    let head = x.take(i);
    let k = (15 - i) as nat;
    assert(x =~= head + (seq![x[i]] + x.skip(i + 1)));
    assert(y =~= head + (seq![y[i]] + y.skip(i + 1)));
    lemma_of_be_concat(head, seq![x[i]] + x.skip(i + 1));
    lemma_of_be_concat(head, seq![y[i]] + y.skip(i + 1));
    lemma_of_be_concat(seq![x[i]], x.skip(i + 1));
    lemma_of_be_concat(seq![y[i]], y.skip(i + 1));
    of_be_writes_back(x.skip(i + 1));
    of_be_writes_back(y.skip(i + 1));
    reveal_with_fuel(of_be, 2);
    assert(seq![x[i]].drop_last().len() == 0);
    assert(seq![y[i]].drop_last().len() == 0);
    assert(of_be(seq![x[i]]) == x[i]);
    assert(of_be(seq![y[i]]) == y[i]);
    let p = pow256(k);
    assert(x[i] * p + p <= y[i] * p) by (nonlinear_arith)
        requires
            x[i] + 1 <= y[i],
    ;
}

/// A text that is cut keeps as much of its beginning as fits, and never a part of a
/// character: one character more would not fit.
pub proof fn a_text_is_cut_between_characters(s: Seq<char>, max: nat)
    ensures
        ({
            let r = within(s, max);
            &&& r.len() <= s.len()
            &&& r == s.take(r.len() as int)
            &&& encode_utf8(r).len() <= max
            &&& r.len() < s.len() ==> encode_utf8(s.take(r.len() as int + 1)).len() > max
        }),
    decreases s.len(),
{
    if s.len() == 0 {
        assert(s.take(0) =~= s);
        assert(encode_utf8(s) =~= Seq::<u8>::empty());
    } else if encode_utf8(s).len() <= max {
        assert(s.take(s.len() as int) =~= s);
    } else {
        let t = s.drop_last();
        a_text_is_cut_between_characters(t, max);
        let r = within(t, max);
        assert(s.take(r.len() as int) =~= t.take(r.len() as int));
        if r.len() < t.len() {
            assert(s.take(r.len() as int + 1) =~= t.take(r.len() as int + 1));
        } else {
            assert(s.take(r.len() as int + 1) =~= s);
        }
    }
}

/// An integer of more than 53 bits is kept to the nearest number: it is off by no more than
/// half of what the last bit is worth, and in the middle between two the even one is taken.
pub proof fn large_numbers_are_rounded(m: nat)
    requires
        top_bit(m) > 52,
    ensures
        ({
            let unit = two_to((top_bit(m) - 52) as nat);
            let s = significand(m);
            &&& -(unit as int) <= 2 * (m - s * unit) <= unit
            &&& 2 * (m - s * unit) == unit || 2 * (m - s * unit) == -(unit as int) ==> s % 2 == 0
        }),
{
    let unit = two_to((top_bit(m) - 52) as nat);
    lemma_two_to_grows(0, (top_bit(m) - 52) as nat);
    let q = m / unit;
    let r = m % unit;
    assert(m == q * unit + r && 0 <= r < unit) by (nonlinear_arith)
        requires
            unit > 0,
            q == m / unit,
            r == m % unit,
    ;
    assert((q + 1) * unit == q * unit + unit) by (nonlinear_arith);
}

} // verus!
