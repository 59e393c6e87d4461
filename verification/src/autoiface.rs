//! Peers on the local network: they make themselves known by tokens, are forgotten
//! when they fall silent, and get our packets one by one.
use vstd::prelude::*;
use vstd::slice::slice_subrange;
use vstd::utf8::*;

use crate::address::Address;
use crate::book::{pages, rank, Book};
use crate::bytes::{push_all, same_bytes, to_vec};
use crate::hex::{all_hex, hash_from_hex, hex_bytes, hex_digit, hex_value};
use crate::sha256::{full_hash, sha256};
use crate::text::{
    chars_of, decimal_text, find, find_char, lemma_find, lines_of, push_decimal, spells, starts_with,
    word_models, words, words_from,
};

verus! {

/// The group that local peers belong to.
pub const GROUP_ID: &'static str = "reticulum";

pub const DISCOVERY_PORT: u16 = 29716;

pub const UNICAST_DISCOVERY_PORT: u16 = 29717;

pub const DATA_PORT: u16 = 42671;

/// Milliseconds between two tokens to the group.
pub const ANNOUNCE_INTERVAL_MS: u64 = 10_000;

/// Milliseconds between two tokens to one peer.
pub const REVERSE_INTERVAL_MS: u64 = 5200;

/// Milliseconds between two looks.
pub const TICK_MS: u64 = 2600;

/// A peer that was silent for longer is forgotten.
pub const PEERING_TIMEOUT_SECS: u64 = 22;

/// The most peers that are known at a time.
pub const MAX_PEERS: usize = 16;

/// The longest packet.
pub const HW_MTU: usize = 1196;

/// When a peer was heard last, and when it last got a token from us.
pub type Contact = (u64, u64);

// ---------------------------------------------------------------------------
// Tokens
// ---------------------------------------------------------------------------

/// The token of an address in text: the digest of the group and the address.
pub open spec fn token_of(address: Seq<char>) -> Seq<u8> {
    sha256(encode_utf8(GROUP_ID@) + encode_utf8(address))
}

/// The token of an address in text.
pub fn discovery_token(address: &str) -> (r: [u8; 32])
    ensures
        r@ == token_of(address@),
{
    let mut b = to_vec(GROUP_ID.as_bytes());
    push_all(&mut b, address.as_bytes());
    full_hash(b.as_slice())
}

/// Whether a datagram begins with the token of its sender.
pub fn token_matches(datagram: &[u8], sender: &str) -> (r: bool)
    ensures
        r == (datagram@.len() >= 32 && datagram@.take(32) == token_of(sender@)),
{
    if datagram.len() < 32 {
        return false;
    }
    let head = slice_subrange(datagram, 0, 32);
    assert(head@ =~= datagram@.take(32));
    let token = discovery_token(sender);
    same_bytes(head, token.as_slice())
}

// ---------------------------------------------------------------------------
// Peers
// ---------------------------------------------------------------------------

/// The place of the peer that was heard longest ago, of the first `n`; the first of
/// several.
pub open spec fn oldest_of(s: Seq<(Address, Contact)>, n: int) -> int
    decreases n,
{
    if n <= 1 {
        0
    } else {
        let k = oldest_of(s, n - 1);
        if s[n - 1].1.0 < s[k].1.0 {
            n - 1
        } else {
            k
        }
    }
}

proof fn lemma_oldest(s: Seq<(Address, Contact)>, n: int)
    requires
        1 <= n <= s.len(),
    ensures
        0 <= oldest_of(s, n) < n,
        forall|i: int| 0 <= i < n ==> s[oldest_of(s, n)].1.0 <= (#[trigger] s[i]).1.0,
    decreases n,
{
    if n > 1 {
        lemma_oldest(s, n - 1);
    }
}

/// The peers after the token of `src` was heard at `now`: a new peer takes the place
/// of the one heard longest ago where there are too many.
pub open spec fn peers_after(s: Seq<(Address, Contact)>, src: Address, now: u64) -> Map<
    Address,
    Contact,
> {
    let m = pages(s);
    if m.contains_key(src) {
        m.insert(src, (now, m[src].1))
    } else if s.len() >= MAX_PEERS {
        m.remove(s[oldest_of(s, s.len() as int)].0).insert(src, (now, 0))
    } else {
        m.insert(src, (now, 0))
    }
}

/// Where there are too many peers, the one that a new peer displaces was heard longest
/// ago.
pub proof fn longest_silent_peer_makes_room(s: Seq<(Address, Contact)>, src: Address, now: u64)
    requires
        s.len() >= MAX_PEERS,
        !pages(s).contains_key(src),
    ensures
        exists|k: int|
            {
                &&& 0 <= k < s.len()
                &&& forall|i: int| 0 <= i < s.len() ==> s[k].1.0 <= (#[trigger] s[i]).1.0
                &&& peers_after(s, src, now) == pages(s).remove((#[trigger] s[k]).0).insert(
                    src,
                    (now, 0),
                )
            },
{
    lemma_oldest(s, s.len() as int);
    let k = oldest_of(s, s.len() as int);
    assert(peers_after(s, src, now) == pages(s).remove(s[k].0).insert(src, (now, 0)));
}

/// Takes the token of a peer that was found sound: whether the peer is new.
pub fn hear_peer(peers: &mut Book<Contact>, src: &Address, now: u64) -> (is_new: bool)
    requires
        old(peers).wf(),
        old(peers).entries@.len() <= MAX_PEERS,
    ensures
        final(peers).wf(),
        final(peers)@ == peers_after(old(peers).entries@, *src, now),
        is_new == !old(peers)@.contains_key(*src),
        final(peers).entries@.len() <= MAX_PEERS,
{
    let ghost s = peers.entries@;
    match peers.find(src) {
        Some(i) => {
            let out = peers.entries[i].1.1;
            peers.replace_at(i, (now, out));
            false
        },
        None => {
            let n = peers.entries.len();
            if n >= MAX_PEERS {
                let mut oldest: usize = 0;
                let mut k: usize = 1;
                while k < n
                    invariant
                        1 <= k <= n,
                        n == peers.entries@.len(),
                        *peers == *old(peers),
                        peers.entries@ == s,
                        oldest < n,
                        oldest == oldest_of(s, k as int),
                    decreases n - k,
                {
                    if peers.entries[k].1.0 < peers.entries[oldest].1.0 {
                        oldest = k;
                    }
                    k += 1;
                }
                let gone = peers.entries[oldest].0;
                proof {
                    crate::book::lemma_entry_stands(s, oldest as int);
                }
                peers.remove(&gone);
            }
            peers.insert(*src, (now, 0));
            true
        },
    }
}

/// The line about a new peer.
pub fn found_note(count: usize) -> (r: String)
    ensures
        r@ == "\u{2726} local peer found ("@ + decimal_text(count as nat) + " nearby)"@,
{
    let mut r = String::from_str("\u{2726} local peer found (");
    push_decimal(&mut r, count as u64);
    r.append(" nearby)");
    r
}

/// A peer was silent for too long.
pub open spec fn silent(c: Contact, now: u64) -> bool {
    now - c.0 > PEERING_TIMEOUT_SECS
}

/// A peer is due a token.
pub open spec fn due(c: Contact, now: u64) -> bool {
    (if now > c.1 {
        now - c.1
    } else {
        0
    }) * 1000 >= REVERSE_INTERVAL_MS
}

/// The peers that are still heard, with a note of the tokens that they get now.
pub open spec fn kept(s: Seq<(Address, Contact)>, now: u64) -> Seq<(Address, Contact)>
    decreases s.len(),
{
    if s.len() == 0 {
        Seq::empty()
    } else {
        let rest = kept(s.drop_last(), now);
        let e = s.last();
        if silent(e.1, now) {
            rest
        } else if due(e.1, now) {
            rest.push((e.0, (e.1.0, now)))
        } else {
            rest.push(e)
        }
    }
}

/// The peers that get a token now.
pub open spec fn reversed(s: Seq<(Address, Contact)>, now: u64) -> Seq<Address>
    decreases s.len(),
{
    if s.len() == 0 {
        Seq::empty()
    } else {
        let rest = reversed(s.drop_last(), now);
        let e = s.last();
        if !silent(e.1, now) && due(e.1, now) {
            rest.push(e.0)
        } else {
            rest
        }
    }
}

/// Forgets the peers that were silent for too long: those of the others that get a
/// token now.
pub fn tend_peers(peers: &mut Book<Contact>, now: u64) -> (reverse: Vec<Address>)
    requires
        old(peers).wf(),
    ensures
        final(peers).wf(),
        final(peers).entries@ == kept(old(peers).entries@, now),
        reverse@ == reversed(old(peers).entries@, now),
        final(peers).entries@.len() <= old(peers).entries@.len(),
{
    let ghost s = peers.entries@;
    let mut stay: Vec<(Address, Contact)> = Vec::new();
    let mut reverse: Vec<Address> = Vec::new();
    let mut i: usize = 0;
    while i < peers.entries.len()
        invariant
            i <= s.len(),
            peers.entries@ == s,
            forall|x: int, y: int|
                0 <= x < y < s.len() ==> rank((#[trigger] s[x]).0) < rank((#[trigger] s[y]).0),
            stay@ == kept(s.take(i as int), now),
            reverse@ == reversed(s.take(i as int), now),
            stay@.len() <= i,
            forall|x: int, y: int|
                0 <= x < y < stay@.len() ==> rank((#[trigger] stay@[x]).0) < rank(
                    (#[trigger] stay@[y]).0,
                ),
            forall|x: int, y: int|
                0 <= x < stay@.len() && i <= y < s.len() ==> rank((#[trigger] stay@[x]).0) < rank(
                    (#[trigger] s[y]).0,
                ),
        decreases s.len() - i,
    {
        let e = peers.entries[i];
        proof {
            let t = s.take(i + 1);
            assert(t.drop_last() =~= s.take(i as int));
            assert(t.last() == e);
        }
        if now.saturating_sub(e.1.0) <= PEERING_TIMEOUT_SECS {
            if now.saturating_sub(e.1.1) as u128 * 1000 >= REVERSE_INTERVAL_MS as u128 {
                reverse.push(e.0);
                stay.push((e.0, (e.1.0, now)));
            } else {
                stay.push(e);
            }
        }
        i += 1;
    }
    assert(s.take(s.len() as int) =~= s);
    peers.entries = stay;
    reverse
}

/// Whether a token to the group is due.
pub fn beacon_due(now: u64, last: u64) -> (r: bool)
    ensures
        r == ((if now > last {
            now - last
        } else {
            0
        }) * 1000 >= ANNOUNCE_INTERVAL_MS),
{
    now.saturating_sub(last) as u128 * 1000 >= ANNOUNCE_INTERVAL_MS as u128
}

/// Whether there is anyone to send to: the hub, or a local peer.
pub fn any_interface_up(connected: bool, enabled: bool, peers: &Book<Contact>) -> (r: bool)
    ensures
        r == (connected || enabled && peers.entries@.len() > 0),
{
    connected || enabled && peers.len() > 0
}

/// Whether a packet goes out to the local peers.
pub fn sends_to_peers(len: usize, enabled: bool, peers: &Book<Contact>) -> (r: bool)
    ensures
        r == (0 < len <= HW_MTU && enabled && peers.entries@.len() > 0),
{
    len > 0 && len <= HW_MTU && enabled && peers.len() > 0
}

/// Whether a packet from the local network is taken: its sender has made itself
/// known.
pub fn takes_packet(len: usize, enabled: bool, peers: &Book<Contact>, src: &Address) -> (r: bool)
    requires
        peers.wf(),
    ensures
        r == (0 < len <= HW_MTU && enabled && peers@.contains_key(*src)),
{
    len > 0 && len <= HW_MTU && enabled && peers.contains(src)
}

/// A peer that keeps its tokens coming is not forgotten, and there are never more
/// than `MAX_PEERS`.
pub proof fn heard_peer_stays(s: Seq<(Address, Contact)>, src: Address, heard: u64, now: u64)
    requires
        heard <= now,
        now - heard <= PEERING_TIMEOUT_SECS,
        s.len() <= MAX_PEERS,
    ensures
        peers_after(s, src, heard).contains_key(src),
        peers_after(s, src, heard)[src].0 == heard,
        !silent(peers_after(s, src, heard)[src], now),
{
}

// ---------------------------------------------------------------------------
// Our own address
// ---------------------------------------------------------------------------

/// The link-local address that a network card's address makes.
pub open spec fn link_local(mac: Seq<u8>) -> Seq<u8> {
    seq![
        0xfeu8,
        0x80,
        0,
        0,
        0,
        0,
        0,
        0,
        mac[0] ^ 0x02,
        mac[1],
        mac[2],
        0xff,
        0xfe,
        mac[3],
        mac[4],
        mac[5],
    ]
}

/// The link-local address that a network card's address makes.
pub fn link_local_from_mac(mac: &[u8; 6]) -> (r: Address)
    ensures
        r@ == link_local(mac@),
{
    let r: Address = [
        0xfe,
        0x80,
        0,
        0,
        0,
        0,
        0,
        0,
        mac[0] ^ 0x02,
        mac[1],
        mac[2],
        0xff,
        0xfe,
        mac[3],
        mac[4],
        mac[5],
    ];
    assert(r@ =~= link_local(mac@));
    r
}

/// The number that hexadecimal digits write.
pub open spec fn hex_number(s: Seq<char>) -> nat
    decreases s.len(),
{
    if s.len() == 0 {
        0
    } else {
        hex_number(s.drop_last()) * 16 + hex_value(s.last())->0 as nat
    }
}

/// The 32-bit number that `s` writes in hexadecimal digits, a plus sign before them
/// at most.
pub open spec fn scope_written(s: Seq<char>) -> Option<nat> {
    let d = crate::text::unsigned_part(s);
    if d.len() > 0 && crate::hex::all_hex(d) && hex_number(d) <= 0xffff_ffff {
        Some(hex_number(d))
    } else {
        None
    }
}

proof fn lemma_hex_number_grows(s: Seq<char>, k: int)
    requires
        0 <= k <= s.len(),
    ensures
        hex_number(s.take(k)) <= hex_number(s),
    decreases s.len() - k,
{
    if k == s.len() {
        assert(s.take(k) =~= s);
    } else {
        assert(s.take(k + 1).drop_last() =~= s.take(k));
        lemma_hex_number_grows(s, k + 1);
    }
}

/// The 32-bit number that `s` writes in hexadecimal digits.
pub fn parse_scope(s: &[char]) -> (r: Option<u32>)
    ensures
        match r {
            Some(v) => scope_written(s@) == Some(v as nat),
            None => scope_written(s@) is None,
        },
{
    let start: usize = if s.len() > 0 && s[0] == '+' {
        1
    } else {
        0
    };
    let ghost d = crate::text::unsigned_part(s@);
    assert(d =~= s@.skip(start as int));
    if s.len() == start {
        return None;
    }
    let mut v: u64 = 0;
    let mut i: usize = start;
    assert(d.take(0) =~= Seq::<char>::empty());
    while i < s.len()
        invariant
            start <= i <= s@.len(),
            d == s@.skip(start as int),
            d == crate::text::unsigned_part(s@),
            v <= 0xffff_ffff,
            v == hex_number(d.take(i - start)),
            forall|k: int| 0 <= k < i - start ==> (#[trigger] hex_value(d[k])) is Some,
        decreases s@.len() - i,
    {
        assert(d[i - start] == s@[i as int]);
        match hex_digit(s[i]) {
            Some(x) => {
                assert(d.take(i + 1 - start).drop_last() =~= d.take(i - start));
                v = v * 16 + x as u64;
            },
            None => {
                assert(hex_value(d[i - start]) is None);
                return None;
            },
        }
        i += 1;
        if v > 0xffff_ffff {
            proof {
                lemma_hex_number_grows(d, i - start);
            }
            return None;
        }
    }
    assert(d.take(i - start) =~= d);
    Some(v as u32)
}

/// A line of the interface table: address, index, prefix, scope, flags, name. The
/// first link-local one counts that is not the loopback's; nothing where that one
/// is not sound.
pub open spec fn table_address(lines: Seq<Seq<char>>) -> Option<(Seq<u8>, nat)>
    decreases lines.len(),
{
    if lines.len() == 0 {
        None
    } else {
        let f = words_from(lines[0], 0);
        if f.len() < 6 || !starts_with(f[0], "fe80"@) || f[5] == "lo"@ {
            table_address(lines.skip(1))
        } else if f[0].len() < 32 || !all_hex(f[0].take(32)) {
            None
        } else {
            match scope_written(f[1]) {
                Some(scope) => Some((hex_bytes(f[0].take(32)), scope)),
                None => None,
            }
        }
    }
}

/// Our link-local address and the index of its interface, from the interface table.
pub fn address_from_table(table: &str) -> (r: Option<(Address, u32)>)
    ensures
        match r {
            Some((a, scope)) => table_address(lines_of(table@)) == Some((a@, scope as nat)),
            None => table_address(lines_of(table@)) is None,
        },
{
    let chars = chars_of(table);
    let s = chars.as_slice();
    let mut p: usize = 0;
    assert(s@.skip(0) =~= s@);
    while p < s.len()
        invariant
            p <= s@.len(),
            s@ == table@,
            table_address(lines_of(s@.skip(p as int))) == table_address(lines_of(s@)),
        decreases s@.len() - p,
    {
        let ghost rest = s@.skip(p as int);
        let ghost all = lines_of(rest);
        let k = find_char(s, '\n', p);
        proof {
            crate::micron::lemma_find_skip(s@, '\n', p as int, p as int);
            lemma_find(rest, '\n', 0);
        }
        let end = if k < s.len() && k > p && s[k - 1] == '\r' {
            k - 1
        } else {
            k
        };
        let line = slice_subrange(s, p, end);
        proof {
            if k < s@.len() {
                assert(rest.take(k - p) =~= s@.subrange(p as int, k as int));
                assert(line@ =~= crate::text::without_cr(rest.take(k - p)));
                assert(rest.skip(k - p + 1) =~= s@.skip(k + 1));
                assert(all == seq![line@] + lines_of(s@.skip(k + 1)));
                assert(all.skip(1) =~= lines_of(s@.skip(k + 1)));
            } else {
                assert(line@ =~= rest);
                assert(all =~= seq![rest]);
                assert(all.skip(1) =~= Seq::<Seq<char>>::empty());
                assert(s@.skip(k as int) =~= Seq::<char>::empty());
                assert(lines_of(s@.skip(k as int)) =~= Seq::<Seq<char>>::empty());
            }
            assert(all[0] == line@);
        }
        let f = words(line);
        let ghost fm = word_models(f@);
        assert(fm.len() == f@.len());
        if f.len() >= 6 {
            assert(fm[0] == f@[0]@ && fm[1] == f@[1]@ && fm[5] == f@[5]@);
            if crate::text::begins(f[0].as_slice(), "fe80") && !spells(f[5].as_slice(), "lo") {
                if f[0].len() < 32 {
                    return None;
                }
                let digits = slice_subrange(f[0].as_slice(), 0, 32);
                assert(digits@ =~= f@[0]@.take(32));
                let a = match hash_from_hex(digits) {
                    Some(a) => a,
                    None => {
                        return None;
                    },
                };
                return match parse_scope(f[1].as_slice()) {
                    Some(scope) => Some((a, scope)),
                    None => None,
                };
            }
        }
        p = if k < s.len() {
            k + 1
        } else {
            k
        };
    }
    assert(s@.skip(p as int) =~= Seq::<char>::empty());
    assert(lines_of(s@.skip(p as int)).len() == 0);
    None
}

} // verus!
