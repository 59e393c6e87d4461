//! Bytes: numbers in network order, and comparing and joining byte strings.
use vstd::prelude::*;

use crate::float::two_to;

verus! {

/// Two hundred and fifty-six to the power `w`.
pub open spec fn pow256(w: nat) -> nat
    decreases w,
{
    if w == 0 {
        1
    } else {
        256 * pow256((w - 1) as nat)
    }
}

/// The lowest `w` bytes of `n`, the highest of them first.
pub open spec fn be(n: nat, w: nat) -> Seq<u8>
    decreases w,
{
    if w == 0 {
        Seq::empty()
    } else {
        be(n / 256, (w - 1) as nat).push((n % 256) as u8)
    }
}

/// The number that `s` writes, its highest byte first.
pub open spec fn of_be(s: Seq<u8>) -> nat
    decreases s.len(),
{
    if s.len() == 0 {
        0
    } else {
        of_be(s.drop_last()) * 256 + s.last() as nat
    }
}

pub proof fn lemma_be_len(n: nat, w: nat)
    ensures
        be(n, w).len() == w,
    decreases w,
{
    if w > 0 {
        lemma_be_len(n / 256, (w - 1) as nat);
    }
}

/// A number that fits in `w` bytes reads back from them.
pub proof fn be_reads_back(n: nat, w: nat)
    requires
        n < pow256(w),
    ensures
        of_be(be(n, w)) == n,
        be(n, w).len() == w,
    decreases w,
{
    lemma_be_len(n, w);
    if w > 0 {
        let m = n / 256;
        assert(m < pow256((w - 1) as nat));
        be_reads_back(m, (w - 1) as nat);
        assert(be(n, w).drop_last() =~= be(m, (w - 1) as nat));
    }
}

/// Bytes are the bytes of the number they write.
pub proof fn of_be_writes_back(s: Seq<u8>)
    ensures
        be(of_be(s), s.len()) == s,
        of_be(s) < pow256(s.len()),
    decreases s.len(),
{
    if s.len() > 0 {
        of_be_writes_back(s.drop_last());
        assert(s.drop_last().push(s.last()) =~= s);
        let h = of_be(s.drop_last());
        assert((h * 256 + s.last() as nat) / 256 == h);
        assert((h * 256 + s.last() as nat) % 256 == s.last() as nat);
    } else {
        assert(be(of_be(s), s.len()) =~= s);
    }
}

pub proof fn lemma_pow256()
    ensures
        pow256(0) == 1,
        pow256(1) == 0x100,
        pow256(2) == 0x1_0000,
        pow256(4) == 0x1_0000_0000,
        pow256(8) == 0x1_0000_0000_0000_0000,
{
    reveal_with_fuel(pow256, 9);
}

pub proof fn lemma_pow256_grows(a: nat, b: nat)
    requires
        a <= b,
    ensures
        pow256(a) <= pow256(b),
    decreases b,
{
    if a < b {
        lemma_pow256_grows(a, (b - 1) as nat);
    }
}

/// Appends the lowest `w` bytes of `n`, the highest of them first.
pub fn push_be(out: &mut Vec<u8>, n: u64, w: usize)
    ensures
        final(out)@ == old(out)@ + be(n as nat, w as nat),
    decreases w,
{
    if w > 0 {
        let ghost o = out@;
        push_be(out, n / 256, w - 1);
        out.push((n % 256) as u8);
        assert(out@ =~= o + be(n as nat, w as nat));
    } else {
        assert(out@ =~= out@ + be(n as nat, w as nat));
    }
}

/// The number that at most eight bytes write, the highest first.
pub fn read_be(s: &[u8]) -> (r: u64)
    requires
        s@.len() <= 8,
    ensures
        r == of_be(s@),
{
    let mut r: u64 = 0;
    let mut i: usize = 0;
    while i < s.len()
        invariant
            i <= s@.len() <= 8,
            r == of_be(s@.take(i as int)),
        decreases s@.len() - i,
    {
        proof {
            let t = s@.take(i + 1);
            assert(t.drop_last() =~= s@.take(i as int));
            of_be_writes_back(t);
            lemma_pow256_grows((i + 1) as nat, 8);
            lemma_pow256();
        }
        r = r * 256 + s[i] as u64;
        i += 1;
    }
    assert(s@.take(s@.len() as int) =~= s@);
    r
}

/// Whether two byte strings are the same.
pub fn same_bytes(a: &[u8], b: &[u8]) -> (r: bool)
    ensures
        r == (a@ == b@),
{
    if a.len() != b.len() {
        return false;
    }
    let mut i: usize = 0;
    while i < a.len()
        invariant
            i <= a@.len(),
            a@.len() == b@.len(),
            forall|k: int| 0 <= k < i ==> a@[k] == b@[k],
        decreases a@.len() - i,
    {
        if a[i] != b[i] {
            assert(a@[i as int] != b@[i as int]);
            return false;
        }
        i += 1;
    }
    assert(a@ =~= b@);
    true
}

/// Appends `s`.
pub fn push_all(out: &mut Vec<u8>, s: &[u8])
    ensures
        final(out)@ == old(out)@ + s@,
{
    let ghost o = out@;
    let mut i: usize = 0;
    assert(o + s@.take(0) =~= o);
    while i < s.len()
        invariant
            i <= s@.len(),
            out@ == o + s@.take(i as int),
        decreases s@.len() - i,
    {
        out.push(s[i]);
        assert(o + s@.take(i + 1) =~= (o + s@.take(i as int)).push(s@[i as int]));
        i += 1;
    }
    assert(s@.take(s@.len() as int) =~= s@);
}

/// A copy of `s`.
pub fn to_vec(s: &[u8]) -> (r: Vec<u8>)
    ensures
        r@ == s@,
{
    let mut r: Vec<u8> = Vec::new();
    push_all(&mut r, s);
    assert(Seq::<u8>::empty() + s@ =~= s@);
    r
}

/// The sixteen bytes at the start of `s`.
pub fn first16(s: &[u8]) -> (r: [u8; 16])
    requires
        s@.len() >= 16,
    ensures
        r@ == s@.take(16),
{
    let mut out: [u8; 16] = [0u8; 16];
    let mut i: usize = 0;
    while i < 16
        invariant
            i <= 16,
            s@.len() >= 16,
            forall|k: int| 0 <= k < i ==> #[trigger] out@[k] == s@[k],
        decreases 16 - i,
    {
        out[i] = s[i];
        i += 1;
    }
    assert(out@ =~= s@.take(16));
    out
}

/// The 32 bytes at the start of `s`.
pub fn first32(s: &[u8]) -> (r: [u8; 32])
    requires
        s@.len() >= 32,
    ensures
        r@ == s@.take(32),
{
    let mut out: [u8; 32] = [0u8; 32];
    let mut i: usize = 0;
    while i < 32
        invariant
            i <= 32,
            s@.len() >= 32,
            forall|k: int| 0 <= k < i ==> #[trigger] out@[k] == s@[k],
        decreases 32 - i,
    {
        out[i] = s[i];
        i += 1;
    }
    assert(out@ =~= s@.take(32));
    out
}

/// The number that two byte strings in a row write.
pub proof fn lemma_of_be_concat(a: Seq<u8>, b: Seq<u8>)
    ensures
        of_be(a + b) == of_be(a) * pow256(b.len()) + of_be(b),
    decreases b.len(),
{
    if b.len() == 0 {
        assert(a + b =~= a);
        assert(of_be(a) * pow256(0) == of_be(a)) by (nonlinear_arith)
            requires
                pow256(0) == 1,
        ;
    } else {
        assert((a + b).last() == b.last());
        assert((a + b).drop_last() =~= a + b.drop_last());
        lemma_of_be_concat(a, b.drop_last());
        let p = pow256((b.len() - 1) as nat);
        assert((of_be(a) * p) * 256 == of_be(a) * (256 * p)) by (nonlinear_arith);
    }
}

/// How many bits it takes to write `n`.
pub open spec fn bit_length(n: nat) -> nat
    decreases n,
{
    if n == 0 {
        0
    } else {
        1 + bit_length(n / 2)
    }
}

proof fn lemma_bit_length_bound(n: nat, k: nat)
    requires
        n < two_to(k),
    ensures
        bit_length(n) <= k,
    decreases k,
{
    if k > 0 && n > 0 {
        lemma_bit_length_bound(n / 2, (k - 1) as nat);
    }
}

/// How many bits it takes to write a 32-bit number.
pub fn bits_of(n: u32) -> (r: u32)
    ensures
        r == bit_length(n as nat),
        r <= 32,
{
    proof {
        reveal_with_fuel(two_to, 33);
        lemma_bit_length_bound(n as nat, 32);
    }
    let mut r: u32 = 0;
    let mut rest: u32 = n;
    while rest > 0
        invariant
            bit_length(n as nat) == r + bit_length(rest as nat),
            bit_length(n as nat) <= 32,
        decreases rest,
    {
        r += 1;
        rest = rest / 2;
    }
    r
}

/// A number with `k` more bits behind it is `k` bits longer.
pub proof fn lemma_bit_length_shift(v: nat, w: nat, k: nat)
    requires
        v > 0,
        w < two_to(k),
    ensures
        bit_length(v * two_to(k) + w) == bit_length(v) + k,
    decreases k,
{
    if k == 0 {
        assert(v * 1 + w == v);
    } else {
        let p = two_to((k - 1) as nat);
        let n = v * two_to(k) + w;
        assert(n / 2 == v * p + w / 2) by (nonlinear_arith)
            requires
                n == v * (2 * p) + w,
        ;
        lemma_bit_length_shift(v, w / 2, (k - 1) as nat);
        assert(n > 0);
    }
}

/// Byte `i` of words laid out with their lowest byte first.
pub open spec fn word_byte(words: Seq<u32>, i: int) -> u8 {
    let w = words[i / 4] as int;
    (if i % 4 == 0 {
        w % 0x100
    } else if i % 4 == 1 {
        w / 0x100 % 0x100
    } else if i % 4 == 2 {
        w / 0x1_0000 % 0x100
    } else {
        w / 0x100_0000
    }) as u8
}

/// The first `n` bytes of words laid out with their lowest byte first: random bytes
/// from a source of random words.
pub fn bytes_of_words(words: &[u32], n: usize) -> (r: Vec<u8>)
    requires
        n <= 4 * words@.len(),
    ensures
        r@ == Seq::new(n as nat, |i: int| word_byte(words@, i)),
{
    let mut r: Vec<u8> = Vec::new();
    let mut i: usize = 0;
    while i < n
        invariant
            i <= n <= 4 * words@.len(),
            r@.len() == i,
            forall|k: int| 0 <= k < i ==> #[trigger] r@[k] == word_byte(words@, k),
        decreases n - i,
    {
        let w = words[i / 4];
        let b: u32 = if i % 4 == 0 {
            w % 0x100
        } else if i % 4 == 1 {
            w / 0x100 % 0x100
        } else if i % 4 == 2 {
            w / 0x1_0000 % 0x100
        } else {
            w / 0x100_0000
        };
        r.push(b as u8);
        i += 1;
    }
    assert(r@ =~= Seq::new(n as nat, |i: int| word_byte(words@, i)));
    r
}

} // verus!
