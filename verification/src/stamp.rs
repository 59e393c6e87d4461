//! Proof-of-work stamps. A stamp for some material is 32 bytes such that the
//! SHA-256 digest of the material's workblock and the stamp begins with a given
//! number of zero bits. The workblock is long, fixed and made of whole blocks,
//! so it is folded into the hash state once; each attempt is then a single
//! compression.
use vstd::prelude::*;

use crate::bytes::{be, lemma_be_len, push_all, push_be};
use crate::msgpack::{int_bytes, write_i};
use crate::sha256::{
    absorb, absorbed, compress, compressed, digest_leading_zeros, full_hash, hkdf, hkdf_sha256,
    hmac_sha256, lemma_absorbed_concat, lemma_half_block_ending, lemma_key_stream_len, sha256,
    words_bytes, zero_bits, zeros, H0,
};

verus! {

/// Rounds of expansion in the workblock of a propagation stamp.
pub const WORKBLOCK_EXPAND_ROUNDS_PN: usize = 1000;

/// Rounds of expansion in the workblock of a delivery stamp, which a recipient
/// with a stamp cost asks of a message.
pub const WORKBLOCK_EXPAND_ROUNDS_DELIVERY: usize = 3000;

/// Bytes in a stamp.
pub const STAMP_SIZE: usize = 32;

/// The most rounds for which the length of the hashed message in bits fits its field of
/// 64 bits.
pub const MAX_EXPAND_ROUNDS: u64 = 0x1f_ffff_ffff_ffff;

/// What round `n` adds to the workblock: 256 bytes derived from the material,
/// salted with the digest of the material and the round's number.
pub open spec fn workblock_round(material: Seq<u8>, n: nat) -> Seq<u8> {
    hkdf_sha256(256, material, sha256(material + int_bytes(n as int)), Seq::empty())
}

/// The workblock of `rounds` rounds.
pub open spec fn workblock(material: Seq<u8>, rounds: nat) -> Seq<u8>
    decreases rounds,
{
    if rounds == 0 {
        Seq::empty()
    } else {
        workblock(material, (rounds - 1) as nat) + workblock_round(material, (rounds - 1) as nat)
    }
}

/// The stamp that the counter value `c` makes.
pub open spec fn counter_stamp(c: u64) -> Seq<u8> {
    be(c as nat, 8) + zeros(24)
}

/// `stamp` is worth `cost` zero bits over the workblock of `material`.
pub open spec fn stamp_valid(material: Seq<u8>, cost: int, rounds: nat, stamp: Seq<u8>) -> bool {
    zero_bits(sha256(workblock(material, rounds) + stamp)) >= cost
}

/// `stamp` is the first in counting order that is worth `cost`.
pub open spec fn first_stamp(material: Seq<u8>, cost: int, rounds: nat, stamp: Seq<u8>) -> bool {
    exists|c: u64|
        {
            &&& stamp == #[trigger] counter_stamp(c)
            &&& stamp_valid(material, cost, rounds, counter_stamp(c))
            &&& forall|d: u64|
                d < c ==> !stamp_valid(material, cost, rounds, #[trigger] counter_stamp(d))
        }
}

/// A workblock is made of whole blocks, four a round.
pub proof fn lemma_workblock_len(material: Seq<u8>, rounds: nat)
    ensures
        workblock(material, rounds).len() == 256 * rounds,
    decreases rounds,
{
    if rounds > 0 {
        lemma_workblock_len(material, (rounds - 1) as nat);
        let salt = sha256(material + int_bytes(rounds - 1));
        lemma_key_stream_len(hmac_sha256(salt, material), Seq::empty(), 8);
    }
}

/// The block that ends a message of `rounds` rounds of workblock and a stamp.
pub open spec fn last_block(stamp: Seq<u8>, rounds: nat) -> Seq<u8> {
    stamp + seq![0x80u8] + zeros(23) + be((256 * rounds + 32) * 8, 8)
}

/// The digest of the workblock and a stamp is one compression away from the
/// state after the workblock.
pub proof fn stamped_digest_from_midstate(material: Seq<u8>, rounds: nat, stamp: Seq<u8>)
    requires
        stamp.len() == STAMP_SIZE,
    ensures
        sha256(workblock(material, rounds) + stamp) == words_bytes(
            compressed(absorbed(H0@, workblock(material, rounds)), last_block(stamp, rounds)),
        ),
{
    lemma_workblock_len(material, rounds);
    lemma_half_block_ending(workblock(material, rounds), stamp);
}

/// What round `n` adds to the workblock.
fn expand_round(material: &[u8], n: usize) -> (r: Vec<u8>)
    requires
        n <= MAX_EXPAND_ROUNDS,
    ensures
        r@ == workblock_round(material@, n as nat),
        r@.len() == 256,
{
    let mut salt_input: Vec<u8> = Vec::new();
    push_all(&mut salt_input, material);
    write_i(&mut salt_input, n as i64);
    assert(salt_input@ =~= material@ + int_bytes(n as int));
    let salt = full_hash(salt_input.as_slice());
    let none: Vec<u8> = Vec::new();
    assert(none@ =~= Seq::<u8>::empty());
    hkdf(256, material, salt.as_slice(), none.as_slice())
}

/// The workblock of `material`.
pub fn stamp_workblock(material: &[u8], expand_rounds: usize) -> (r: Vec<u8>)
    requires
        expand_rounds <= MAX_EXPAND_ROUNDS,
    ensures
        r@ == workblock(material@, expand_rounds as nat),
{
    let mut wb: Vec<u8> = Vec::new();
    let mut n: usize = 0;
    while n < expand_rounds
        invariant
            n <= expand_rounds <= MAX_EXPAND_ROUNDS,
            wb@ == workblock(material@, n as nat),
        decreases expand_rounds - n,
    {
        let more = expand_round(material, n);
        push_all(&mut wb, more.as_slice());
        n += 1;
    }
    wb
}

/// The hash state after the workblock of `material`, which is folded in as it is
/// made and never held whole.
fn midstate(material: &[u8], expand_rounds: usize) -> (r: [u32; 8])
    requires
        expand_rounds <= MAX_EXPAND_ROUNDS,
    ensures
        r@ == absorbed(H0@, workblock(material@, expand_rounds as nat)),
{
    let mut state: [u32; 8] = H0;
    let mut n: usize = 0;
    assert(absorbed(H0@, workblock(material@, 0)) == H0@);
    while n < expand_rounds
        invariant
            n <= expand_rounds <= MAX_EXPAND_ROUNDS,
            state@ == absorbed(H0@, workblock(material@, n as nat)),
        decreases expand_rounds - n,
    {
        let more = expand_round(material, n);
        proof {
            lemma_workblock_len(material@, n as nat);
            lemma_absorbed_concat(H0@, workblock(material@, n as nat), more@);
        }
        absorb(&mut state, more.as_slice());
        n += 1;
    }
    state
}

/// The bytes of the stamp that `counter` makes.
fn stamp_bytes(counter: u64) -> (r: [u8; 32])
    ensures
        r@ == counter_stamp(counter),
{
    let mut v: Vec<u8> = Vec::new();
    push_be(&mut v, counter, 8);
    proof {
        lemma_be_len(counter as nat, 8);
    }
    let mut i: usize = 0;
    while i < 24
        invariant
            i <= 24,
            v@ =~= be(counter as nat, 8) + zeros(i as nat),
        decreases 24 - i,
    {
        v.push(0);
        i += 1;
    }
    let r = crate::bytes::first32(v.as_slice());
    assert(r@ =~= v@);
    r
}

/// The block that ends the message with the stamp that `counter` makes.
fn ending(counter: u64, bit_len: u64) -> (r: [u8; 64])
    ensures
        r@ == counter_stamp(counter) + seq![0x80u8] + zeros(23) + be(bit_len as nat, 8),
{
    let mut v: Vec<u8> = Vec::new();
    let stamp = stamp_bytes(counter);
    push_all(&mut v, stamp.as_slice());
    v.push(0x80);
    let mut i: usize = 0;
    while i < 23
        invariant
            i <= 23,
            v@ =~= stamp@ + seq![0x80u8] + zeros(i as nat),
        decreases 23 - i,
    {
        v.push(0);
        i += 1;
    }
    push_be(&mut v, bit_len, 8);
    proof {
        lemma_be_len(bit_len as nat, 8);
    }
    let mut out: [u8; 64] = [0u8; 64];
    let mut k: usize = 0;
    while k < 64
        invariant
            k <= 64,
            v@.len() == 64,
            forall|x: int| 0 <= x < k ==> #[trigger] out@[x] == v@[x],
        decreases 64 - k,
    {
        out[k] = v[k];
        k += 1;
    }
    assert(out@ =~= v@);
    out
}

/// Looks for a stamp worth `cost` zero bits; nothing where no counter value makes
/// one.
pub fn find_stamp(material: &[u8], cost: u32, expand_rounds: usize) -> (r: Option<[u8; 32]>)
    requires
        expand_rounds <= MAX_EXPAND_ROUNDS,
    ensures
        match r {
            Some(stamp) => first_stamp(material@, cost as int, expand_rounds as nat, stamp@),
            None => forall|c: u64|
                !stamp_valid(
                    material@,
                    cost as int,
                    expand_rounds as nat,
                    #[trigger] counter_stamp(c),
                ),
        },
{
    let mid = midstate(material, expand_rounds);
    let bit_len: u64 = (expand_rounds as u64 * 256 + 32) * 8;
    let mut counter: u64 = 0;
    loop
        invariant
            expand_rounds <= MAX_EXPAND_ROUNDS,
            mid@ == absorbed(H0@, workblock(material@, expand_rounds as nat)),
            bit_len == (expand_rounds * 256 + 32) * 8,
            forall|d: u64|
                d < counter ==> !stamp_valid(
                    material@,
                    cost as int,
                    expand_rounds as nat,
                    #[trigger] counter_stamp(d),
                ),
        decreases u64::MAX - counter,
    {
        let last = ending(counter, bit_len);
        let mut state: [u32; 8] = mid;
        compress(&mut state, &last);
        proof {
            lemma_be_len(counter as nat, 8);
            stamped_digest_from_midstate(
                material@,
                expand_rounds as nat,
                counter_stamp(counter),
            );
            assert(last@ =~= last_block(counter_stamp(counter), expand_rounds as nat));
        }
        if digest_leading_zeros(&state) >= cost {
            return Some(stamp_bytes(counter));
        }
        if counter == u64::MAX {
            return None;
        }
        counter += 1;
    }
}

/// A stamp worth `cost` zero bits over the workblock of `material`: the first in
/// counting order. There has to be one; `find_stamp` does without that.
pub fn generate_stamp(material: &[u8], cost: u32, expand_rounds: usize) -> (r: [u8; 32])
    requires
        expand_rounds <= MAX_EXPAND_ROUNDS,
        exists|c: u64|
            stamp_valid(
                material@,
                cost as int,
                expand_rounds as nat,
                #[trigger] counter_stamp(c),
            ),
    ensures
        first_stamp(material@, cost as int, expand_rounds as nat, r@),
        stamp_valid(material@, cost as int, expand_rounds as nat, r@),
{
    match find_stamp(material, cost, expand_rounds) {
        Some(stamp) => stamp,
        None => stamp_bytes(0),
    }
}

} // verus!
