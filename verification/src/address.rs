//! Addresses: the hashes that name destinations and links.
use vstd::prelude::*;
use vstd::slice::slice_subrange;

use crate::bytes::same_bytes;
use crate::hex::{
    all_hex, hash_from_hex, hex_bytes, hex_digit, hex_reads_back, hex_text, hex_value,
};
use crate::text::{chars_of, trim, trimmed, white_space};

verus! {

/// The hash of a destination or a link.
pub type Address = [u8; 16];

/// Whether two addresses are the same.
pub fn same_address(a: &Address, b: &Address) -> (r: bool)
    ensures
        r == (a@ == b@),
        r == (*a == *b),
{
    let r = same_bytes(a.as_slice(), b.as_slice());
    assert(a@ =~= b@ ==> *a =~= *b);
    r
}

/// Whether two digests are the same.
pub fn same_digest(a: &[u8; 32], b: &[u8; 32]) -> (r: bool)
    ensures
        r == (a@ == b@),
        r == (*a == *b),
{
    let r = same_bytes(a.as_slice(), b.as_slice());
    assert(a@ =~= b@ ==> *a =~= *b);
    r
}

/// The address that `s` writes in 32 hexadecimal digits, white space around them aside.
pub open spec fn address_written(s: Seq<char>) -> Option<Seq<u8>> {
    let t = trimmed(s);
    if t.len() == 32 && all_hex(t) {
        Some(hex_bytes(t))
    } else {
        None
    }
}

/// Reads an address.
pub fn parse_addr(s: &str) -> (r: Option<Address>)
    ensures
        match r {
            Some(a) => address_written(s@) == Some(a@),
            None => address_written(s@) is None,
        },
{
    let chars = chars_of(s);
    let t = trim(chars.as_slice());
    hash_from_hex(t)
}

/// An address reads back from its hexadecimal digits.
pub proof fn address_reads_back(a: Address)
    ensures
        address_written(hex_text(a@)) == Some(a@),
{
    hex_reads_back(a@);
    let t = hex_text(a@);
    assert(t.len() == 32);
    assert(!white_space(t[0]));
    assert(!white_space(t.last()));
    assert(trimmed(t) == t);
}

/// The end of the run of hexadecimal digits of `s` that begins at `i`.
pub open spec fn run_end(s: Seq<char>, i: int) -> int
    decreases s.len() - i,
{
    if i >= s.len() || hex_value(s[i]) is None {
        i
    } else {
        run_end(s, i + 1)
    }
}

/// The addresses in `s` from index `i` on: the runs of exactly 32 hexadecimal
/// digits. A longer run is no address.
pub open spec fn addresses_from(s: Seq<char>, i: int) -> Seq<Seq<u8>>
    decreases s.len() - i,
    via addresses_from_decreases
{
    if i < 0 || i >= s.len() {
        Seq::empty()
    } else if hex_value(s[i]) is None {
        addresses_from(s, i + 1)
    } else {
        let j = run_end(s, i);
        let rest = addresses_from(s, j);
        if j - i == 32 {
            seq![hex_bytes(s.subrange(i, j))] + rest
        } else {
            rest
        }
    }
}

#[via_fn]
proof fn addresses_from_decreases(s: Seq<char>, i: int) {
    if 0 <= i < s.len() {
        lemma_run_end(s, i + 1);
    }
}

proof fn lemma_run_end(s: Seq<char>, i: int)
    requires
        0 <= i <= s.len(),
    ensures
        i <= run_end(s, i) <= s.len(),
        forall|k: int| i <= k < run_end(s, i) ==> (#[trigger] hex_value(s[k])) is Some,
    decreases s.len() - i,
{
    if i < s.len() && hex_value(s[i]) is Some {
        lemma_run_end(s, i + 1);
    }
}

/// The bytes of addresses.
pub open spec fn address_bytes(v: Seq<Address>) -> Seq<Seq<u8>> {
    v.map_values(|a: Address| a@)
}

/// The addresses that stand in a text.
pub open spec fn addresses_in(text: Seq<char>) -> Seq<Address> {
    choose|all: Seq<Address>| address_bytes(all) == addresses_from(text, 0)
}

/// Addresses with the same bytes are the same.
pub proof fn lemma_same_bytes_same_addresses(a: Seq<Address>, b: Seq<Address>)
    requires
        address_bytes(a) == address_bytes(b),
    ensures
        a == b,
{
    assert(address_bytes(a).len() == a.len());
    assert(address_bytes(b).len() == b.len());
    assert forall|i: int| 0 <= i < a.len() implies a[i] == b[i] by {
        assert(address_bytes(a)[i] == a[i]@);
        assert(address_bytes(b)[i] == b[i]@);
        assert(a[i] =~= b[i]);
    }
    assert(a =~= b);
}

/// The addresses that stand in a text: its runs of exactly 32 hexadecimal digits.
pub fn extract_addresses(text: &str) -> (r: Vec<Address>)
    ensures
        address_bytes(r@) == addresses_from(text@, 0),
        r@ == addresses_in(text@),
{
    let chars = chars_of(text);
    let s = chars.as_slice();
    let mut out: Vec<Address> = Vec::new();
    let mut i: usize = 0;
    assert(address_bytes(out@) =~= Seq::<Seq<u8>>::empty());
    assert(address_bytes(out@) + addresses_from(s@, 0) =~= addresses_from(s@, 0));
    while i < s.len()
        invariant
            i <= s@.len(),
            address_bytes(out@) + addresses_from(s@, i as int) == addresses_from(s@, 0),
        decreases s@.len() - i,
    {
        if hex_digit(s[i]).is_none() {
            i += 1;
        } else {
            let start = i;
            i += 1;
            while i < s.len() && hex_digit(s[i]).is_some()
                invariant
                    start < i <= s@.len(),
                    run_end(s@, start as int) == run_end(s@, i as int),
                decreases s@.len() - i,
            {
                i += 1;
            }
            proof {
                lemma_run_end(s@, start as int);
            }
            if i - start == 32 {
                let run = slice_subrange(s, start, i);
                assert(all_hex(run@)) by {
                    assert forall|k: int| 0 <= k < run@.len() implies (#[trigger] hex_value(
                        run@[k],
                    )) is Some by {
                        assert(run@[k] == s@[start + k]);
                        assert(hex_value(s@[start + k]) is Some);
                    }
                }
                match hash_from_hex(run) {
                    Some(a) => {
                        let ghost o = address_bytes(out@);
                        out.push(a);
                        assert(address_bytes(out@) =~= o + seq![a@]);
                        assert(o + (seq![a@] + addresses_from(s@, i as int)) =~= o + seq![a@]
                            + addresses_from(s@, i as int));
                    },
                    None => {},
                }
            }
        }
    }
    assert(addresses_from(s@, i as int) =~= Seq::<Seq<u8>>::empty());
    assert(address_bytes(out@) + Seq::<Seq<u8>>::empty() =~= address_bytes(out@));
    proof {
        lemma_same_bytes_same_addresses(out@, addresses_in(text@));
    }
    out
}

} // verus!
