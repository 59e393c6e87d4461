//! SHA-256 from its compression function up, and the keyed hash and the key
//! derivation built on it.
//!
//! The compression function stands by itself so that a caller can keep the
//! state after a long fixed prefix and try many endings, one block each.
use vstd::prelude::*;
use vstd::slice::slice_subrange;

use crate::bytes::{
    be, be_reads_back, bit_length, bits_of, first16, lemma_be_len, lemma_bit_length_shift, lemma_of_be_concat,
    lemma_pow256, of_be, push_all, push_be,
};
use crate::float::two_to;

verus! {

/// The state before the first block.
pub const H0: [u32; 8] = [
    0x6a09e667,
    0xbb67ae85,
    0x3c6ef372,
    0xa54ff53a,
    0x510e527f,
    0x9b05688c,
    0x1f83d9ab,
    0x5be0cd19,
];

/// The round constants.
pub const K: [u32; 64] = [
    0x428a2f98, 0x71374491, 0xb5c0fbcf, 0xe9b5dba5, 0x3956c25b, 0x59f111f1, 0x923f82a4, 0xab1c5ed5,
    0xd807aa98, 0x12835b01, 0x243185be, 0x550c7dc3, 0x72be5d74, 0x80deb1fe, 0x9bdc06a7, 0xc19bf174,
    0xe49b69c1, 0xefbe4786, 0x0fc19dc6, 0x240ca1cc, 0x2de92c6f, 0x4a7484aa, 0x5cb0a9dc, 0x76f988da,
    0x983e5152, 0xa831c66d, 0xb00327c8, 0xbf597fc7, 0xc6e00bf3, 0xd5a79147, 0x06ca6351, 0x14292967,
    0x27b70a85, 0x2e1b2138, 0x4d2c6dfc, 0x53380d13, 0x650a7354, 0x766a0abb, 0x81c2c92e, 0x92722c85,
    0xa2bfe8a1, 0xa81a664b, 0xc24b8b70, 0xc76c51a3, 0xd192e819, 0xd6990624, 0xf40e3585, 0x106aa070,
    0x19a4c116, 0x1e376c08, 0x2748774c, 0x34b0bcb5, 0x391c0cb3, 0x4ed8aa4a, 0x5b9cca4f, 0x682e6ff3,
    0x748f82ee, 0x78a5636f, 0x84c87814, 0x8cc70208, 0x90befffa, 0xa4506ceb, 0xbef9a3f7, 0xc67178f2,
];

// ---------------------------------------------------------------------------
// One block
// ---------------------------------------------------------------------------

/// `x` rotated right by `n` bits.
pub open spec fn rotated(x: u32, n: u32) -> u32 {
    (x >> n) | (x << ((32 - n) as u32))
}

/// Word `t` of the block.
pub open spec fn block_word(block: Seq<u8>, t: int) -> u32 {
    (block[4 * t] * 0x100_0000 + block[4 * t + 1] * 0x1_0000 + block[4 * t + 2] * 0x100 + block[4
        * t + 3]) as u32
}

/// Word `t` of the message schedule.
pub open spec fn scheduled(block: Seq<u8>, t: nat) -> u32
    decreases t,
{
    if t < 16 {
        block_word(block, t as int)
    } else {
        let a = scheduled(block, (t - 15) as nat);
        let b = scheduled(block, (t - 2) as nat);
        let s0 = rotated(a, 7) ^ rotated(a, 18) ^ (a >> 3u32);
        let s1 = rotated(b, 17) ^ rotated(b, 19) ^ (b >> 10u32);
        scheduled(block, (t - 16) as nat).wrapping_add(s0).wrapping_add(
            scheduled(block, (t - 7) as nat),
        ).wrapping_add(s1)
    }
}

/// The eight working words after one round with the constant `k` and the
/// schedule word `w`.
pub open spec fn one_round(h: Seq<u32>, k: u32, w: u32) -> Seq<u32> {
    let s1 = rotated(h[4], 6) ^ rotated(h[4], 11) ^ rotated(h[4], 25);
    let ch = (h[4] & h[5]) ^ ((!h[4]) & h[6]);
    let t1 = h[7].wrapping_add(s1).wrapping_add(ch).wrapping_add(k).wrapping_add(w);
    let s0 = rotated(h[0], 2) ^ rotated(h[0], 13) ^ rotated(h[0], 22);
    let maj = (h[0] & h[1]) ^ (h[0] & h[2]) ^ (h[1] & h[2]);
    let t2 = s0.wrapping_add(maj);
    seq![t1.wrapping_add(t2), h[0], h[1], h[2], h[3].wrapping_add(t1), h[4], h[5], h[6]]
}

/// The working words after `t` rounds.
pub open spec fn rounds(state: Seq<u32>, block: Seq<u8>, t: nat) -> Seq<u32>
    decreases t,
{
    if t == 0 {
        state
    } else {
        one_round(
            rounds(state, block, (t - 1) as nat),
            K@[t - 1],
            scheduled(block, (t - 1) as nat),
        )
    }
}

/// The state after one more block.
#[verifier::opaque]
pub open spec fn compressed(state: Seq<u32>, block: Seq<u8>) -> Seq<u32> {
    Seq::new(8, |i: int| state[i].wrapping_add(rounds(state, block, 64)[i]))
}

fn rotate(x: u32, n: u32) -> (r: u32)
    requires
        0 < n < 32,
    ensures
        r == rotated(x, n),
{
    (x >> n) | (x << (32 - n))
}

/// Folds one block into the state.
pub fn compress(state: &mut [u32; 8], block: &[u8; 64])
    ensures
        final(state)@ == compressed(old(state)@, block@),
{
    let mut w: [u32; 64] = [0u32; 64];
    let mut i: usize = 0;
    while i < 16
        invariant
            i <= 16,
            forall|t: int| 0 <= t < i ==> #[trigger] w@[t] == scheduled(block@, t as nat),
        decreases 16 - i,
    {
        let word: u32 = block[4 * i] as u32 * 0x100_0000 + block[4 * i + 1] as u32 * 0x1_0000
            + block[4 * i + 2] as u32 * 0x100 + block[4 * i + 3] as u32;
        w[i] = word;
        i += 1;
    }
    while i < 64
        invariant
            16 <= i <= 64,
            forall|t: int| 0 <= t < i ==> #[trigger] w@[t] == scheduled(block@, t as nat),
        decreases 64 - i,
    {
        let a = w[i - 15];
        let b = w[i - 2];
        let s0 = rotate(a, 7) ^ rotate(a, 18) ^ (a >> 3u32);
        let s1 = rotate(b, 17) ^ rotate(b, 19) ^ (b >> 10u32);
        let word = w[i - 16].wrapping_add(s0).wrapping_add(w[i - 7]).wrapping_add(s1);
        w[i] = word;
        i += 1;
    }
    let mut h: [u32; 8] = *state;
    let ghost s = state@;
    let mut t: usize = 0;
    while t < 64
        invariant
            t <= 64,
            h@ == rounds(s, block@, t as nat),
            forall|x: int| 0 <= x < 64 ==> #[trigger] w@[x] == scheduled(block@, x as nat),
        decreases 64 - t,
    {
        let ghost g = h@;
        let s1 = rotate(h[4], 6) ^ rotate(h[4], 11) ^ rotate(h[4], 25);
        let ch = (h[4] & h[5]) ^ ((!h[4]) & h[6]);
        let t1 = h[7].wrapping_add(s1).wrapping_add(ch).wrapping_add(K[t]).wrapping_add(w[t]);
        let s0 = rotate(h[0], 2) ^ rotate(h[0], 13) ^ rotate(h[0], 22);
        let maj = (h[0] & h[1]) ^ (h[0] & h[2]) ^ (h[1] & h[2]);
        let t2 = s0.wrapping_add(maj);
        h = [t1.wrapping_add(t2), h[0], h[1], h[2], h[3].wrapping_add(t1), h[4], h[5], h[6]];
        assert(h@ =~= one_round(g, K@[t as int], w@[t as int]));
        t += 1;
    }
    let mut j: usize = 0;
    while j < 8
        invariant
            j <= 8,
            h@ == rounds(s, block@, 64),
            s.len() == 8,
            forall|x: int| 0 <= x < j ==> #[trigger] state@[x] == s[x].wrapping_add(h@[x]),
            forall|x: int| j <= x < 8 ==> #[trigger] state@[x] == s[x],
        decreases 8 - j,
    {
        let v = state[j].wrapping_add(h[j]);
        state[j] = v;
        j += 1;
    }
    proof {
        reveal(compressed);
        assert(state@ =~= compressed(s, block@));
    }
}

// ---------------------------------------------------------------------------
// Whole messages
// ---------------------------------------------------------------------------

/// `n` bytes of zero.
pub open spec fn zeros(n: nat) -> Seq<u8> {
    Seq::new(n, |i: int| 0u8)
}

/// The message with its padding: a one bit, zeros up to a block less eight
/// bytes, and the number of bits in the message.
pub open spec fn padded(msg: Seq<u8>) -> Seq<u8> {
    msg + seq![0x80u8] + zeros(((119 - msg.len() % 64) % 64) as nat) + be(msg.len() * 8, 8)
}

/// The state after all blocks of `data`; a part of a block at the end is left
/// alone.
pub open spec fn absorbed(state: Seq<u32>, data: Seq<u8>) -> Seq<u32>
    decreases data.len(),
{
    if data.len() < 64 {
        state
    } else {
        absorbed(compressed(state, data.take(64)), data.skip(64))
    }
}

/// The words in network order.
pub open spec fn words_bytes(words: Seq<u32>) -> Seq<u8>
    decreases words.len(),
{
    if words.len() == 0 {
        Seq::empty()
    } else {
        words_bytes(words.drop_last()) + be(words.last() as nat, 4)
    }
}

/// The SHA-256 digest of a message.
pub open spec fn sha256(msg: Seq<u8>) -> Seq<u8> {
    words_bytes(absorbed(H0@, padded(msg)))
}

pub proof fn lemma_words_bytes_len(words: Seq<u32>)
    ensures
        words_bytes(words).len() == 4 * words.len(),
    decreases words.len(),
{
    if words.len() > 0 {
        lemma_words_bytes_len(words.drop_last());
        lemma_be_len(words.last() as nat, 4);
    }
}

pub proof fn lemma_absorbed_len(state: Seq<u32>, data: Seq<u8>)
    requires
        state.len() == 8,
    ensures
        absorbed(state, data).len() == 8,
    decreases data.len(),
{
    if data.len() >= 64 {
        reveal(compressed);
        lemma_absorbed_len(compressed(state, data.take(64)), data.skip(64));
    }
}

/// A digest has 32 bytes.
pub proof fn lemma_sha256_len(msg: Seq<u8>)
    ensures
        sha256(msg).len() == 32,
{
    lemma_absorbed_len(H0@, padded(msg));
    lemma_words_bytes_len(absorbed(H0@, padded(msg)));
}

/// Whole blocks can be absorbed first and the rest later.
pub proof fn lemma_absorbed_concat(state: Seq<u32>, a: Seq<u8>, b: Seq<u8>)
    requires
        a.len() % 64 == 0,
    ensures
        absorbed(state, a + b) == absorbed(absorbed(state, a), b),
    decreases a.len(),
{
    if a.len() == 0 {
        assert(a + b =~= b);
    } else {
        assert((a + b).take(64) =~= a.take(64));
        assert((a + b).skip(64) =~= a.skip(64) + b);
        lemma_absorbed_concat(compressed(state, a.take(64)), a.skip(64), b);
    }
}

/// The digest of whole blocks and half a block is one compression away from the
/// state after the whole blocks.
pub proof fn lemma_half_block_ending(w: Seq<u8>, half: Seq<u8>)
    requires
        w.len() % 64 == 0,
        half.len() == 32,
    ensures
        sha256(w + half) == words_bytes(
            compressed(
                absorbed(H0@, w),
                half + seq![0x80u8] + zeros(23) + be((w.len() + 32) * 8, 8),
            ),
        ),
{
    let len = be((w.len() + 32) * 8, 8);
    let b = half + seq![0x80u8] + zeros(23) + len;
    let msg = w + half;
    lemma_be_len((w.len() + 32) * 8, 8);
    assert(msg.len() % 64 == 32);
    assert(padded(msg) == msg + seq![0x80u8] + zeros(23) + len);
    assert(msg + seq![0x80u8] + zeros(23) + len =~= w + b);
    lemma_absorbed_concat(H0@, w, b);
    let mid = absorbed(H0@, w);
    assert(b.len() == 64);
    assert(b.take(64) =~= b);
    let after = compressed(mid, b);
    assert(absorbed(mid, b) == absorbed(after, b.skip(64)));
    assert(absorbed(after, b.skip(64)) == after);
}

/// The 64 bytes of `s` from `at` on.
fn block_at(s: &[u8], at: usize) -> (r: [u8; 64])
    requires
        at + 64 <= s@.len(),
    ensures
        r@ == s@.subrange(at as int, at + 64),
{
    let mut out: [u8; 64] = [0u8; 64];
    let mut i: usize = 0;
    while i < 64
        invariant
            i <= 64,
            at + 64 <= s.len(),
            s@.len() == s.len(),
            forall|k: int| 0 <= k < i ==> #[trigger] out@[k] == s@[at + k],
        decreases 64 - i,
    {
        out[i] = s[at + i];
        i += 1;
    }
    assert(out@ =~= s@.subrange(at as int, at + 64));
    out
}

/// Folds all blocks of `data` into the state.
pub fn absorb(state: &mut [u32; 8], data: &[u8])
    ensures
        final(state)@ == absorbed(old(state)@, data@),
{
    let ghost s = state@;
    let mut at: usize = 0;
    assert(data@.skip(0) =~= data@);
    while data.len() - at >= 64
        invariant
            at <= data@.len(),
            absorbed(state@, data@.skip(at as int)) == absorbed(s, data@),
        decreases data@.len() - at,
    {
        let block = block_at(data, at);
        assert(block@ =~= data@.skip(at as int).take(64));
        assert(data@.skip(at as int).skip(64) =~= data@.skip(at + 64));
        compress(state, &block);
        at += 64;
    }
}

/// The words in network order.
pub fn digest_bytes(state: &[u32; 8]) -> (r: [u8; 32])
    ensures
        r@ == words_bytes(state@),
{
    let mut v: Vec<u8> = Vec::new();
    let mut i: usize = 0;
    while i < 8
        invariant
            i <= 8,
            v@ == words_bytes(state@.take(i as int)),
        decreases 8 - i,
    {
        assert(state@.take(i + 1).drop_last() =~= state@.take(i as int));
        push_be(&mut v, state[i] as u64, 4);
        i += 1;
    }
    assert(state@.take(8) =~= state@);
    proof {
        lemma_words_bytes_len(state@);
    }
    let r = crate::bytes::first32(v.as_slice());
    assert(r@ =~= v@);
    r
}

/// Appends the lowest `w` bytes of a number that may take more than 64 bits.
fn push_be_wide(out: &mut Vec<u8>, n: u128, w: usize)
    ensures
        final(out)@ == old(out)@ + be(n as nat, w as nat),
    decreases w,
{
    if w > 0 {
        let ghost o = out@;
        push_be_wide(out, n / 256, w - 1);
        out.push((n % 256) as u8);
        assert(out@ =~= o + be(n as nat, w as nat));
    } else {
        assert(out@ =~= out@ + be(n as nat, w as nat));
    }
}

fn push_zeros(out: &mut Vec<u8>, n: usize)
    ensures
        final(out)@ == old(out)@ + zeros(n as nat),
{
    let ghost o = out@;
    let mut i: usize = 0;
    assert(o + zeros(0) =~= o);
    while i < n
        invariant
            i <= n,
            out@ == o + zeros(i as nat),
        decreases n - i,
    {
        out.push(0);
        assert(o + zeros((i + 1) as nat) =~= (o + zeros(i as nat)).push(0));
        i += 1;
    }
}

/// The SHA-256 digest of `msg`.
pub fn full_hash(msg: &[u8]) -> (r: [u8; 32])
    ensures
        r@ == sha256(msg@),
{
    let mut state: [u32; 8] = H0;
    let whole = msg.len() / 64 * 64;
    let mut tail: Vec<u8> = Vec::new();
    push_all(&mut tail, slice_subrange(msg, whole, msg.len()));
    tail.push(0x80);
    push_zeros(&mut tail, (119 - msg.len() % 64) % 64);
    push_be_wide(&mut tail, msg.len() as u128 * 8, 8);
    let head = slice_subrange(msg, 0, whole);
    proof {
        assert(padded(msg@) =~= head@ + tail@);
        lemma_absorbed_concat(state@, head@, tail@);
    }
    absorb(&mut state, head);
    absorb(&mut state, tail.as_slice());
    digest_bytes(&state)
}

/// The first sixteen bytes of the digest.
pub open spec fn sha256_truncated(msg: Seq<u8>) -> Seq<u8> {
    sha256(msg).take(16)
}

/// The first sixteen bytes of the SHA-256 digest of `msg`.
pub fn truncated_hash(msg: &[u8]) -> (r: [u8; 16])
    ensures
        r@ == sha256_truncated(msg@),
{
    let h = full_hash(msg);
    first16(h.as_slice())
}

// ---------------------------------------------------------------------------
// Leading zeros
// ---------------------------------------------------------------------------

/// The number of zero bits before the first one.
pub open spec fn zero_bits(s: Seq<u8>) -> int {
    8 * s.len() - bit_length(of_be(s))
}

/// The number of zero bits at the start of the digest that the words are.
pub fn digest_leading_zeros(state: &[u32; 8]) -> (r: u32)
    ensures
        r == zero_bits(words_bytes(state@)),
{
    let mut n: u32 = 0;
    let mut started = false;
    let mut i: usize = 0;
    while i < 8
        invariant
            i <= 8,
            n <= 32 * i,
            n == 32 * i - bit_length(of_be(words_bytes(state@.take(i as int)))),
            started == (of_be(words_bytes(state@.take(i as int))) > 0),
        decreases 8 - i,
    {
        let word = state[i];
        proof {
            let t = state@.take(i + 1);
            let v = of_be(words_bytes(state@.take(i as int)));
            assert(t.drop_last() =~= state@.take(i as int));
            lemma_pow256();
            be_reads_back(word as nat, 4);
            lemma_of_be_concat(words_bytes(t.drop_last()), be(word as nat, 4));
            reveal_with_fuel(two_to, 33);
            assert(of_be(words_bytes(t)) == v * two_to(32) + word);
            if v > 0 {
                lemma_bit_length_shift(v, word as nat, 32);
            }
        }
        if !started {
            n = n + (32 - bits_of(word));
            started = word > 0;
        }
        i += 1;
    }
    assert(state@.take(8) =~= state@);
    proof {
        lemma_words_bytes_len(state@);
    }
    n
}

// ---------------------------------------------------------------------------
// Keyed hash and key derivation
// ---------------------------------------------------------------------------

/// The key at the length of a block: hashed first where it is longer.
pub open spec fn block_key(key: Seq<u8>) -> Seq<u8> {
    let k = if key.len() > 64 {
        sha256(key)
    } else {
        key
    };
    k + zeros((64 - k.len()) as nat)
}

/// Every byte of `s` with the bits of `x` flipped.
pub open spec fn flipped(s: Seq<u8>, x: u8) -> Seq<u8> {
    s.map_values(|b: u8| b ^ x)
}

/// HMAC with SHA-256.
pub open spec fn hmac_sha256(key: Seq<u8>, msg: Seq<u8>) -> Seq<u8> {
    sha256(
        flipped(block_key(key), 0x5c) + sha256(flipped(block_key(key), 0x36) + msg),
    )
}

/// Block `i` of the key stream of HKDF, from one.
pub open spec fn key_block(prk: Seq<u8>, info: Seq<u8>, i: nat) -> Seq<u8>
    decreases i,
{
    if i == 0 {
        Seq::empty()
    } else {
        hmac_sha256(prk, key_block(prk, info, (i - 1) as nat) + info + seq![i as u8])
    }
}

/// The first `n` blocks of the key stream.
pub open spec fn key_stream(prk: Seq<u8>, info: Seq<u8>, n: nat) -> Seq<u8>
    decreases n,
{
    if n == 0 {
        Seq::empty()
    } else {
        key_stream(prk, info, (n - 1) as nat) + key_block(prk, info, n)
    }
}

/// HKDF with SHA-256: `length` bytes derived from `ikm`.
pub open spec fn hkdf_sha256(length: nat, ikm: Seq<u8>, salt: Seq<u8>, info: Seq<u8>) -> Seq<u8> {
    key_stream(hmac_sha256(salt, ikm), info, (length + 31) / 32).take(length as int)
}

fn push_flipped(out: &mut Vec<u8>, s: &[u8], x: u8)
    ensures
        final(out)@ == old(out)@ + flipped(s@, x),
{
    let ghost o = out@;
    let mut i: usize = 0;
    assert(o + flipped(s@.take(0), x) =~= o);
    while i < s.len()
        invariant
            i <= s@.len(),
            out@ == o + flipped(s@.take(i as int), x),
        decreases s@.len() - i,
    {
        out.push(s[i] ^ x);
        assert(o + flipped(s@.take(i + 1), x) =~= (o + flipped(s@.take(i as int), x)).push(
            s@[i as int] ^ x,
        ));
        i += 1;
    }
    assert(s@.take(s@.len() as int) =~= s@);
}

/// HMAC with SHA-256.
pub fn hmac(key: &[u8], msg: &[u8]) -> (r: [u8; 32])
    ensures
        r@ == hmac_sha256(key@, msg@),
{
    let mut k: Vec<u8> = Vec::new();
    if key.len() > 64 {
        let h = full_hash(key);
        push_all(&mut k, h.as_slice());
    } else {
        push_all(&mut k, key);
    }
    let fill = 64 - k.len();
    push_zeros(&mut k, fill);
    assert(k@ =~= block_key(key@));
    let mut inner: Vec<u8> = Vec::new();
    push_flipped(&mut inner, k.as_slice(), 0x36);
    push_all(&mut inner, msg);
    assert(inner@ =~= flipped(block_key(key@), 0x36) + msg@);
    let h = full_hash(inner.as_slice());
    let mut outer: Vec<u8> = Vec::new();
    push_flipped(&mut outer, k.as_slice(), 0x5c);
    push_all(&mut outer, h.as_slice());
    assert(outer@ =~= flipped(block_key(key@), 0x5c) + h@);
    full_hash(outer.as_slice())
}

pub proof fn lemma_key_stream_len(prk: Seq<u8>, info: Seq<u8>, n: nat)
    ensures
        key_stream(prk, info, n).len() == 32 * n,
    decreases n,
{
    if n > 0 {
        lemma_key_stream_len(prk, info, (n - 1) as nat);
        lemma_sha256_len(
            flipped(block_key(prk), 0x5c) + sha256(
                flipped(block_key(prk), 0x36) + (key_block(prk, info, (n - 1) as nat) + info
                    + seq![n as u8]),
            ),
        );
    }
}

/// HKDF with SHA-256: `length` bytes derived from `ikm`.
pub fn hkdf(length: usize, ikm: &[u8], salt: &[u8], info: &[u8]) -> (r: Vec<u8>)
    requires
        length <= 8160,
    ensures
        r@ == hkdf_sha256(length as nat, ikm@, salt@, info@),
        r@.len() == length,
{
    let prk = hmac(salt, ikm);
    let n = (length + 31) / 32;
    let mut out: Vec<u8> = Vec::new();
    let mut block: Vec<u8> = Vec::new();
    let mut i: usize = 0;
    while i < n
        invariant
            i <= n <= 255,
            out@ == key_stream(prk@, info@, i as nat),
            block@ == key_block(prk@, info@, i as nat),
        decreases n - i,
    {
        let mut msg: Vec<u8> = Vec::new();
        push_all(&mut msg, block.as_slice());
        push_all(&mut msg, info);
        msg.push((i + 1) as u8);
        assert(msg@ =~= key_block(prk@, info@, i as nat) + info@ + seq![(i + 1) as u8]);
        let h = hmac(prk.as_slice(), msg.as_slice());
        block = crate::bytes::to_vec(h.as_slice());
        push_all(&mut out, block.as_slice());
        i += 1;
    }
    proof {
        lemma_key_stream_len(prk@, info@, n as nat);
    }
    out.truncate(length);
    assert(out@ =~= key_stream(prk@, info@, n as nat).take(length as int));
    out
}

} // verus!
