//! Peers on the local network: how they are known, kept and answered.
use vstd::prelude::*;
use vstd::utf8::encode_utf8;

use crate::address::Address;
use crate::autoiface::{
    due, hex_number, kept, link_local, peers_after, reversed, scope_written, silent, table_address,
    token_of, Contact,
};
use crate::book::pages;
use crate::hex::{all_hex, hex_bytes, hex_value};
use crate::sha256::sha256;
use crate::text::{starts_with, words_from};

verus! {

/// The token of an address is the digest of the group's name and the address as text.
pub proof fn a_token_is_a_digest(address: Seq<char>)
    ensures
        token_of(address) == sha256(encode_utf8("reticulum"@) + encode_utf8(address)),
        crate::autoiface::DISCOVERY_PORT == 29716,
        crate::autoiface::UNICAST_DISCOVERY_PORT == 29717,
        crate::autoiface::DATA_PORT == 42671,
        crate::autoiface::HW_MTU == 1196,
        crate::autoiface::ANNOUNCE_INTERVAL_MS == 10_000,
        crate::autoiface::TICK_MS == 2600,
{
}

/// A peer that is heard is known as heard now; one that was known keeps when it was
/// answered, a new one was not answered yet. Others stay while there are fewer than
/// sixteen.
pub proof fn a_peer_that_is_heard_is_known(
    s: Seq<(Address, Contact)>,
    src: Address,
    other: Address,
    now: u64,
)
    requires
        other != src,
    ensures
        peers_after(s, src, now).contains_key(src),
        peers_after(s, src, now)[src].0 == now,
        pages(s).contains_key(src) ==> peers_after(s, src, now)[src].1 == pages(s)[src].1,
        !pages(s).contains_key(src) ==> peers_after(s, src, now)[src].1 == 0,
        pages(s).contains_key(src) || s.len() < 16 ==> {
            &&& peers_after(s, src, now).contains_key(other) <==> pages(s).contains_key(other)
            &&& pages(s).contains_key(other) ==> peers_after(s, src, now)[other]
                == pages(s)[other]
        },
        peers_after(s, src, now).contains_key(other) ==> pages(s).contains_key(other),
{
}

/// A peer is silent that was not heard for more than 22 seconds. An answer is due 5.2
/// seconds after the last, that is, from the sixth second on.
pub proof fn silence_and_answers(c: Contact, now: u64)
    ensures
        silent(c, now) <==> now > c.0 + 22,
        due(c, now) <==> now >= c.1 + 6,
{
}

/// The peers that are silent are forgotten, the others stay in their order; those that
/// are owed an answer get one, which is noted.
pub proof fn silent_peers_are_forgotten(
    s: Seq<(Address, Contact)>,
    a: Address,
    c: Contact,
    now: u64,
)
    ensures
        kept(Seq::empty(), now) == Seq::<(Address, Contact)>::empty(),
        reversed(Seq::empty(), now) == Seq::<Address>::empty(),
        now > c.0 + 22 ==> kept(s.push((a, c)), now) == kept(s, now) && reversed(
            s.push((a, c)),
            now,
        ) == reversed(s, now),
        now <= c.0 + 22 && now >= c.1 + 6 ==> kept(s.push((a, c)), now) == kept(s, now).push(
            (a, (c.0, now)),
        ) && reversed(s.push((a, c)), now) == reversed(s, now).push(a),
        now <= c.0 + 22 && now < c.1 + 6 ==> kept(s.push((a, c)), now) == kept(s, now).push((a, c))
            && reversed(s.push((a, c)), now) == reversed(s, now),
{
    assert(s.push((a, c)).drop_last() =~= s);
    silence_and_answers(c, now);
}

/// A link-local address is made of the six bytes of the hardware address: `fe80` and
/// six zeros, the first three with the second lowest bit of the first turned over,
/// `fffe`, and the last three.
pub proof fn a_link_local_address_is_made(mac: Seq<u8>)
    requires
        mac.len() == 6,
    ensures
        ({
            let a = link_local(mac);
            &&& a.len() == 16
            &&& a[0] == 0xfe && a[1] == 0x80
            &&& forall|i: int| 2 <= i < 8 ==> #[trigger] a[i] == 0
            &&& a[8] == mac[0] ^ 2 && a[9] == mac[1] && a[10] == mac[2]
            &&& a[11] == 0xff && a[12] == 0xfe
            &&& a[13] == mac[3] && a[14] == mac[4] && a[15] == mac[5]
        }),
{
}

/// A number in hexadecimal digits, the highest first, of at most 32 bits; one plus sign
/// may stand before it.
pub proof fn a_scope_is_a_number(s: Seq<char>, c: char)
    requires
        hex_value(c) is Some,
    ensures
        hex_number(Seq::empty()) == 0,
        hex_number(s.push(c)) == 16 * hex_number(s) + hex_value(c)->0,
        s.len() > 0 && s[0] != '+' ==> scope_written(s) == (if all_hex(s) && hex_number(s)
            <= 0xffff_ffff {
            Some(hex_number(s))
        } else {
            None
        }),
        s.len() == 0 ==> scope_written(s) is None,
{
    assert(s.push(c).drop_last() =~= s);
}

/// The first line of the table counts that has six words, begins with `fe80` and is not
/// of the loopback; its first word gives the address and its second the scope. Lines
/// before it do not count.
pub proof fn the_first_link_local_line_counts(line: Seq<char>, rest: Seq<Seq<char>>)
    ensures
        table_address(Seq::empty()) is None,
        ({
            let f = words_from(line, 0);
            let counts = f.len() >= 6 && starts_with(f[0], "fe80"@) && f[5] != "lo"@;
            &&& !counts ==> table_address(seq![line] + rest) == table_address(rest)
            &&& counts && f[0].len() == 32 && all_hex(f[0]) && scope_written(f[1]) is Some
                ==> table_address(seq![line] + rest) == Some(
                (hex_bytes(f[0]), scope_written(f[1])->0),
            )
            &&& counts && scope_written(f[1]) is None ==> table_address(seq![line] + rest) is None
        }),
{
    let all = seq![line] + rest;
    assert(all[0] == line);
    assert(all.skip(1) =~= rest);
    let f = words_from(line, 0);
    if f.len() >= 6 && f[0].len() == 32 {
        assert(f[0].take(32) =~= f[0]);
    }
}

} // verus!
