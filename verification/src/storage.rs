//! What the messenger keeps across restarts, as bytes: held messages, delivery
//! marks, addresses that came in messages, tickets, contacts and nodes.
//!
//! Lists are records in a row, with lengths before texts. Reading stops at the
//! first record that is not whole: a short list is better than a wrong one.
use vstd::prelude::*;
use vstd::slice::slice_subrange;
use vstd::utf8::*;

use crate::address::Address;
use crate::book::Book;
use crate::bytes::{
    be, be_reads_back, first16, first32, lemma_be_len, lemma_pow256, of_be, of_be_writes_back,
    pow256, push_all, push_be, read_be,
};
use crate::hex::{
    all_hex, hex, hex_bytes, hex_reads_back, hex_text, hex_value, unhex,
};
use crate::msgpack::{lemma_stands_split, stands_at};
use crate::outbox::DeliveryUpdate;
use crate::text::{
    chars_of, find, find_char, lemma_find, lossy_string, split, string_of, text_of, text_reads_back,
    trim, trimmed,
};

verus! {

/// A number of `w` bytes reads back where it stands.
proof fn lemma_number_stands(b: Seq<u8>, i: int, n: nat, w: nat)
    requires
        stands_at(b, i, be(n, w)),
        n < pow256(w),
    ensures
        i + w <= b.len(),
        of_be(b.subrange(i, i + w)) == n,
{
    be_reads_back(n, w);
}

/// The number of `w` bytes at `i`.
fn number(b: &[u8], i: usize, w: usize) -> (r: u64)
    requires
        i + w <= b.len(),
        w <= 8,
    ensures
        r == of_be(b@.subrange(i as int, i + w)),
        r < pow256(w as nat),
{
    let s = slice_subrange(b, i, i + w);
    proof {
        of_be_writes_back(s@);
    }
    read_be(s)
}

// ---------------------------------------------------------------------------
// Records in a row
// ---------------------------------------------------------------------------

/// The records of `v` in a row, each in the form `f`.
pub open spec fn row<T>(v: Seq<T>, f: spec_fn(T) -> Seq<u8>) -> Seq<u8>
    decreases v.len(),
{
    if v.len() == 0 {
        Seq::empty()
    } else {
        row(v.drop_last(), f) + f(v.last())
    }
}

/// What `at` reads from `i` on, record by record.
pub open spec fn unrow<T>(b: Seq<u8>, i: int, at: spec_fn(Seq<u8>, int) -> Option<(T, int)>) -> Seq<T>
    decreases b.len() - i,
{
    match at(b, i) {
        Some((t, j)) => if i < j <= b.len() {
            seq![t] + unrow(b, j, at)
        } else {
            Seq::empty()
        },
        None => Seq::empty(),
    }
}

/// `t` reads back wherever its record stands.
pub open spec fn reads_back<T>(
    t: T,
    f: spec_fn(T) -> Seq<u8>,
    at: spec_fn(Seq<u8>, int) -> Option<(T, int)>,
) -> bool {
    &&& f(t).len() > 0
    &&& forall|b: Seq<u8>, i: int|
        stands_at(b, i, f(t)) ==> #[trigger] at(b, i) == Some((t, i + f(t).len()))
}

proof fn lemma_row_front<T>(v: Seq<T>, f: spec_fn(T) -> Seq<u8>)
    requires
        v.len() > 0,
    ensures
        row(v, f) == f(v[0]) + row(v.skip(1), f),
    decreases v.len(),
{
    if v.len() == 1 {
        assert(v.drop_last() =~= Seq::<T>::empty());
        assert(v.skip(1) =~= Seq::<T>::empty());
        assert(row(v, f) =~= f(v[0]) + row(v.skip(1), f));
    } else {
        let d = v.drop_last();
        lemma_row_front(d, f);
        assert(d.skip(1) =~= v.skip(1).drop_last());
        assert(v.skip(1).last() == v.last());
        assert(row(v, f) =~= f(v[0]) + (row(d.skip(1), f) + f(v.last())));
    }
}

proof fn lemma_row_reads_back<T>(
    b: Seq<u8>,
    i: int,
    v: Seq<T>,
    f: spec_fn(T) -> Seq<u8>,
    at: spec_fn(Seq<u8>, int) -> Option<(T, int)>,
)
    requires
        forall|k: int| 0 <= k < v.len() ==> reads_back(#[trigger] v[k], f, at),
        at(b, b.len() as int) is None,
        0 <= i <= b.len(),
        b.skip(i) == row(v, f),
    ensures
        unrow(b, i, at) == v,
    decreases v.len(),
{
    if v.len() == 0 {
        assert(b.skip(i).len() == 0);
        assert(i == b.len());
        assert(unrow(b, i, at) =~= v);
    } else {
        lemma_row_front(v, f);
        let rest = v.skip(1);
        let head = f(v[0]);
        assert(b.skip(i) == head + row(rest, f));
        assert(b.skip(i).len() == b.len() - i);
        assert(b.subrange(i, i + head.len()) =~= (b.skip(i)).take(head.len() as int));
        assert((head + row(rest, f)).take(head.len() as int) =~= head);
        assert(stands_at(b, i, head));
        assert(reads_back(v[0], f, at));
        let j = i + head.len();
        assert(at(b, i) == Some((v[0], j)));
        assert(b.skip(j) =~= b.skip(i).skip(head.len() as int));
        assert((head + row(rest, f)).skip(head.len() as int) =~= row(rest, f));
        assert forall|k: int| 0 <= k < rest.len() implies reads_back(#[trigger] rest[k], f, at) by {
            assert(rest[k] == v[k + 1]);
        }
        lemma_row_reads_back(b, j, rest, f, at);
        assert(seq![v[0]] + rest =~= v);
    }
}

/// How many records of `v` lie wholly in the first `n` bytes of the row.
pub open spec fn whole_records<T>(v: Seq<T>, f: spec_fn(T) -> Seq<u8>, n: int) -> int
    decreases v.len(),
{
    if v.len() == 0 || row(v, f).len() <= n {
        v.len() as int
    } else {
        whole_records(v.drop_last(), f, n)
    }
}

proof fn lemma_whole_records<T>(v: Seq<T>, f: spec_fn(T) -> Seq<u8>, n: int)
    requires
        n >= 0,
    ensures
        ({
            let k = whole_records(v, f, n);
            &&& 0 <= k <= v.len()
            &&& row(v.take(k), f).len() <= n
            &&& k < v.len() ==> n < row(v.take(k + 1), f).len()
        }),
    decreases v.len(),
{
    assert(v.take(v.len() as int) =~= v);
    if v.len() > 0 && row(v, f).len() > n {
        let d = v.drop_last();
        lemma_whole_records(d, f, n);
        let k = whole_records(d, f, n);
        assert(d.take(k) =~= v.take(k));
        if k < d.len() {
            assert(d.take(k + 1) =~= v.take(k + 1));
        }
    }
}

/// What `at` reads it reads from within the bytes that it has, and reads again where more
/// bytes follow.
spec fn steady<T>(at: spec_fn(Seq<u8>, int) -> Option<(T, int)>) -> bool {
    forall|b: Seq<u8>, n: int, i: int|
        0 <= i && 0 <= n <= b.len() ==> (#[trigger] at(b.take(n), i) matches Some((t, j)) ==> at(
            b,
            i,
        ) == Some((t, j)) && j <= n)
}

/// What is read of a row that is cut after `n` bytes: the records before the cut.
proof fn lemma_cut_row<T>(
    b: Seq<u8>,
    i: int,
    n: int,
    v: Seq<T>,
    k: int,
    f: spec_fn(T) -> Seq<u8>,
    at: spec_fn(Seq<u8>, int) -> Option<(T, int)>,
)
    requires
        forall|k: int| 0 <= k < v.len() ==> reads_back(#[trigger] v[k], f, at),
        steady(at),
        at(b, b.len() as int) is None,
        0 <= i <= n <= b.len(),
        b.skip(i) == row(v, f),
        0 <= k <= v.len(),
        i + row(v.take(k), f).len() <= n,
        k < v.len() ==> n < i + row(v.take(k + 1), f).len(),
    ensures
        unrow(b.take(n), i, at) == v.take(k),
    decreases v.len(),
{
    let p = b.take(n);
    if v.len() == 0 {
        assert(b.skip(i).len() == 0);
        assert(i == b.len());
        assert(p =~= b);
        assert(unrow(p, i, at) =~= v.take(k));
    } else {
        lemma_row_front(v, f);
        let rest = v.skip(1);
        let head = f(v[0]);
        let j = i + head.len();
        assert(b.skip(i) == head + row(rest, f));
        assert(b.skip(i).len() == b.len() - i);
        assert(b.subrange(i, j) =~= (b.skip(i)).take(head.len() as int));
        assert((head + row(rest, f)).take(head.len() as int) =~= head);
        assert(stands_at(b, i, head));
        assert(reads_back(v[0], f, at));
        assert(at(b, i) == Some((v[0], j)));
        if k == 0 {
            assert(v.take(1).drop_last() =~= Seq::<T>::empty());
            assert(v.take(1).last() == v[0]);
            assert(row(v.take(1).drop_last(), f).len() == 0);
            assert(row(v.take(1), f) =~= head);
            assert(at(p, i) is None);
            assert(unrow(p, i, at) =~= v.take(k));
        } else {
            lemma_row_front(v.take(k), f);
            assert(v.take(k)[0] == v[0]);
            assert(v.take(k).skip(1) =~= rest.take(k - 1));
            if k < v.len() {
                lemma_row_front(v.take(k + 1), f);
                assert(v.take(k + 1)[0] == v[0]);
                assert(v.take(k + 1).skip(1) =~= rest.take(k));
            }
            assert(p.subrange(i, j) =~= b.subrange(i, j));
            assert(stands_at(p, i, head));
            assert(at(p, i) == Some((v[0], j)));
            assert(b.skip(j) =~= b.skip(i).skip(head.len() as int));
            assert((head + row(rest, f)).skip(head.len() as int) =~= row(rest, f));
            assert forall|k: int| 0 <= k < rest.len() implies reads_back(
                #[trigger] rest[k],
                f,
                at,
            ) by {
                assert(rest[k] == v[k + 1]);
            }
            lemma_cut_row(b, j, n, rest, k - 1, f, at);
            assert(seq![v[0]] + rest.take(k - 1) =~= v.take(k));
        }
    }
}

// ---------------------------------------------------------------------------
// Held messages
// ---------------------------------------------------------------------------

/// A message held for a thread that is not open: author, time and text.
pub type Held = (String, u64, String);

/// A held message as plain mathematics.
pub type HeldModel = (Seq<char>, u64, Seq<char>);

pub open spec fn held_model(h: Held) -> HeldModel {
    (h.0@, h.1, h.2@)
}

pub open spec fn held_models(v: Seq<Held>) -> Seq<HeldModel> {
    v.map_values(|h: Held| held_model(h))
}

/// A text behind its length in bytes. A length beyond 32 bits is cut to them.
pub open spec fn sized_text(s: Seq<char>) -> Seq<u8> {
    be(encode_utf8(s).len(), 4) + encode_utf8(s)
}

/// The record of a held message: time, author, text.
pub open spec fn held_bytes(h: HeldModel) -> Seq<u8> {
    be(h.1 as nat, 8) + sized_text(h.0) + sized_text(h.2)
}

/// The records of held messages in a row.
pub open spec fn all_held_bytes(v: Seq<HeldModel>) -> Seq<u8> {
    row(v, |h: HeldModel| held_bytes(h))
}

/// The text with its length at `i`, and the index after it.
pub open spec fn text_at(b: Seq<u8>, i: int) -> Option<(Seq<char>, int)> {
    if i + 4 > b.len() {
        None
    } else {
        let n = of_be(b.subrange(i, i + 4));
        if i + 4 + n > b.len() {
            None
        } else {
            Some((text_of(b.subrange(i + 4, i + 4 + n)), i + 4 + n))
        }
    }
}

/// The held message at `i`, and the index after it.
pub open spec fn held_at(b: Seq<u8>, i: int) -> Option<(HeldModel, int)> {
    if i + 8 > b.len() {
        None
    } else {
        match text_at(b, i + 8) {
            Some((author, j)) => match text_at(b, j) {
                Some((text, k)) => Some(
                    ((author, of_be(b.subrange(i, i + 8)) as u64, text), k),
                ),
                None => None,
            },
            None => None,
        }
    }
}

/// The held messages from `i` on.
pub open spec fn held_from(b: Seq<u8>, i: int) -> Seq<HeldModel> {
    unrow(b, i, |b: Seq<u8>, i: int| held_at(b, i))
}

proof fn lemma_text_at_steady(b: Seq<u8>, n: int, i: int)
    requires
        0 <= i,
        0 <= n <= b.len(),
    ensures
        text_at(b.take(n), i) matches Some((t, j)) ==> text_at(b, i) == Some((t, j)) && i + 4 <= j
            <= n,
{
    let p = b.take(n);
    if i + 4 <= n {
        assert(p.subrange(i, i + 4) =~= b.subrange(i, i + 4));
        let m = of_be(b.subrange(i, i + 4));
        if i + 4 + m <= n {
            assert(p.subrange(i + 4, i + 4 + m) =~= b.subrange(i + 4, i + 4 + m));
        }
    }
}

fn push_text(out: &mut Vec<u8>, s: &str)
    ensures
        final(out)@ == old(out)@ + sized_text(s@),
{
    let ghost o = out@;
    let b = s.as_bytes();
    push_be(out, b.len() as u64, 4);
    push_all(out, b);
    assert(out@ =~= o + sized_text(s@));
}

/// The records of held messages.
pub fn serialize_pending(msgs: &[Held]) -> (r: Vec<u8>)
    ensures
        r@ == all_held_bytes(held_models(msgs@)),
{
    let mut out: Vec<u8> = Vec::new();
    let mut i: usize = 0;
    let ghost all = held_models(msgs@);
    while i < msgs.len()
        invariant
            i <= msgs@.len(),
            all == held_models(msgs@),
            out@ == all_held_bytes(all.take(i as int)),
        decreases msgs@.len() - i,
    {
        let ghost o = out@;
        push_be(&mut out, msgs[i].1, 8);
        push_text(&mut out, msgs[i].0.as_str());
        push_text(&mut out, msgs[i].2.as_str());
        proof {
            let t = all.take(i + 1);
            assert(t.drop_last() =~= all.take(i as int));
            assert(t.last() == held_model(msgs@[i as int]));
            assert(out@ =~= o + held_bytes(t.last()));
        }
        i += 1;
    }
    assert(all.take(all.len() as int) =~= all);
    out
}

/// The text with its length at `i`, and the index after it.
fn read_text(b: &[u8], i: usize) -> (r: Option<(String, usize)>)
    requires
        i <= b@.len(),
    ensures
        match r {
            Some((s, j)) => text_at(b@, i as int) == Some((s@, j as int)) && i < j <= b@.len(),
            None => text_at(b@, i as int) is None,
        },
{
    if b.len() - i < 4 {
        return None;
    }
    proof {
        lemma_pow256();
    }
    let n = number(b, i, 4) as usize;
    if b.len() - i - 4 < n {
        return None;
    }
    let s = lossy_string(slice_subrange(b, i + 4, i + 4 + n));
    Some((s, i + 4 + n))
}

/// The held messages that records hold.
pub fn deserialize_pending(buf: &[u8]) -> (r: Vec<Held>)
    ensures
        held_models(r@) == held_from(buf@, 0),
{
    let mut out: Vec<Held> = Vec::new();
    let mut i: usize = 0;
    assert(held_models(out@) + held_from(buf@, 0) =~= held_from(buf@, 0));
    loop
        invariant_except_break
            i <= buf@.len(),
            held_models(out@) + held_from(buf@, i as int) == held_from(buf@, 0),
        ensures
            held_models(out@) == held_from(buf@, 0),
        decreases buf@.len() - i,
    {
        let mut got: Option<(Held, usize)> = None;
        if buf.len() - i >= 8 {
            let ts = number(buf, i, 8);
            if let Some((author, j)) = read_text(buf, i + 8) {
                if let Some((text, k)) = read_text(buf, j) {
                    got = Some(((author, ts, text), k));
                }
            }
        }
        match got {
            Some((h, k)) => {
                let ghost o = held_models(out@);
                out.push(h);
                proof {
                    assert(held_at(buf@, i as int) == Some((held_model(h), k as int)));
                    assert(held_models(out@) =~= o + seq![held_model(h)]);
                    assert(o + (seq![held_model(h)] + held_from(buf@, k as int)) =~= o + seq![
                        held_model(h),
                    ] + held_from(buf@, k as int));
                }
                i = k;
            },
            None => {
                proof {
                    assert(held_at(buf@, i as int) is None);
                    assert(held_models(out@) + Seq::<HeldModel>::empty() =~= held_models(out@));
                }
                break;
            },
        }
    }
    out
}

/// A text short enough for its length field.
pub open spec fn storable_text(s: Seq<char>) -> bool {
    encode_utf8(s).len() < 0x1_0000_0000
}

proof fn lemma_text_reads_back(b: Seq<u8>, i: int, s: Seq<char>)
    requires
        storable_text(s),
        stands_at(b, i, sized_text(s)),
    ensures
        text_at(b, i) == Some((s, i + sized_text(s).len())),
        sized_text(s).len() >= 4,
{
    let u = encode_utf8(s);
    lemma_pow256();
    lemma_be_len(u.len(), 4);
    lemma_stands_split(b, i, be(u.len(), 4), u);
    lemma_number_stands(b, i, u.len(), 4);
    text_reads_back(s);
}

proof fn lemma_held_reads_back(h: HeldModel)
    requires
        storable_text(h.0),
        storable_text(h.2),
    ensures
        reads_back(
            h,
            |h: HeldModel| held_bytes(h),
            |b: Seq<u8>, i: int| held_at(b, i),
        ),
{
    let t = be(h.1 as nat, 8);
    lemma_pow256();
    lemma_be_len(h.1 as nat, 8);
    assert forall|b: Seq<u8>, i: int| stands_at(b, i, held_bytes(h)) implies #[trigger] held_at(b, i)
        == Some((h, i + held_bytes(h).len())) by {
        lemma_stands_split(b, i, t + sized_text(h.0), sized_text(h.2));
        lemma_stands_split(b, i, t, sized_text(h.0));
        lemma_number_stands(b, i, h.1 as nat, 8);
        lemma_text_reads_back(b, i + 8, h.0);
        lemma_text_reads_back(b, i + 8 + sized_text(h.0).len(), h.2);
    }
}

/// Held messages read back from their records, whatever their authors and texts
/// hold.
pub proof fn held_messages_read_back(v: Seq<HeldModel>)
    requires
        forall|k: int|
            0 <= k < v.len() ==> storable_text((#[trigger] v[k]).0) && storable_text(v[k].2),
    ensures
        held_from(all_held_bytes(v), 0) == v,
{
    let f = |h: HeldModel| held_bytes(h);
    let at = |b: Seq<u8>, i: int| held_at(b, i);
    let b = all_held_bytes(v);
    assert(b.skip(0) =~= b);
    assert forall|k: int| 0 <= k < v.len() implies reads_back(#[trigger] v[k], f, at) by {
        lemma_held_reads_back(v[k]);
    }
    lemma_row_reads_back(b, 0, v, f, at);
}

/// Of records that were cut off after `n` bytes the whole ones read back; the one that is
/// cut is dropped.
pub proof fn cut_held_messages_are_dropped(v: Seq<HeldModel>, n: int)
    requires
        forall|k: int|
            0 <= k < v.len() ==> storable_text((#[trigger] v[k]).0) && storable_text(v[k].2),
        0 <= n <= all_held_bytes(v).len(),
    ensures
        held_from(all_held_bytes(v).take(n), 0) == v.take(
            whole_records(v, |h: HeldModel| held_bytes(h), n),
        ),
{
    let f = |h: HeldModel| held_bytes(h);
    let at = |b: Seq<u8>, i: int| held_at(b, i);
    let b = all_held_bytes(v);
    assert(b.skip(0) =~= b);
    assert forall|k: int| 0 <= k < v.len() implies reads_back(#[trigger] v[k], f, at) by {
        lemma_held_reads_back(v[k]);
    }
    assert forall|b: Seq<u8>, n: int, i: int| 0 <= i && 0 <= n <= b.len() implies (
    #[trigger] at(b.take(n), i) matches Some((t, j)) ==> at(b, i) == Some((t, j)) && j <= n) by {
        if i + 8 <= n {
            assert(b.take(n).subrange(i, i + 8) =~= b.subrange(i, i + 8));
            lemma_text_at_steady(b, n, i + 8);
            match text_at(b.take(n), i + 8) {
                Some((_, j)) => lemma_text_at_steady(b, n, j),
                None => {},
            }
        }
    }
    lemma_whole_records(v, f, n);
    lemma_cut_row(b, 0, n, v, whole_records(v, f, n), f, at);
}

// ---------------------------------------------------------------------------
// Addresses that came in messages
// ---------------------------------------------------------------------------

/// An address that came in a message: the address, who sent it, and when.
pub type Found = (Address, String, u64);

pub type FoundModel = (Seq<u8>, Seq<char>, u64);

pub open spec fn found_model(x: Found) -> FoundModel {
    (x.0@, x.1@, x.2)
}

pub open spec fn found_models(v: Seq<Found>) -> Seq<FoundModel> {
    v.map_values(|x: Found| found_model(x))
}

/// The record of an address that came in a message.
pub open spec fn found_bytes(x: FoundModel) -> Seq<u8> {
    x.0 + be(x.2 as nat, 8) + sized_text(x.1)
}

/// The records of addresses that came in messages.
pub open spec fn all_found_bytes(v: Seq<FoundModel>) -> Seq<u8> {
    row(v, |x: FoundModel| found_bytes(x))
}

/// The record at `i`, and the index after it.
pub open spec fn found_at(b: Seq<u8>, i: int) -> Option<(FoundModel, int)> {
    if i + 24 > b.len() {
        None
    } else {
        match text_at(b, i + 24) {
            Some((from, j)) => Some(
                (
                    (b.subrange(i, i + 16), from, of_be(b.subrange(i + 16, i + 24)) as u64),
                    j,
                ),
            ),
            None => None,
        }
    }
}

/// The records from `i` on.
pub open spec fn found_from(b: Seq<u8>, i: int) -> Seq<FoundModel> {
    unrow(b, i, |b: Seq<u8>, i: int| found_at(b, i))
}

/// The records of addresses that came in messages.
pub fn serialize_found(list: &[Found]) -> (r: Vec<u8>)
    ensures
        r@ == all_found_bytes(found_models(list@)),
{
    let mut out: Vec<u8> = Vec::new();
    let mut i: usize = 0;
    let ghost all = found_models(list@);
    while i < list.len()
        invariant
            i <= list@.len(),
            all == found_models(list@),
            out@ == all_found_bytes(all.take(i as int)),
        decreases list@.len() - i,
    {
        let ghost o = out@;
        push_all(&mut out, list[i].0.as_slice());
        push_be(&mut out, list[i].2, 8);
        push_text(&mut out, list[i].1.as_str());
        proof {
            let t = all.take(i + 1);
            assert(t.drop_last() =~= all.take(i as int));
            assert(t.last() == found_model(list@[i as int]));
            assert(out@ =~= o + found_bytes(t.last()));
        }
        i += 1;
    }
    assert(all.take(all.len() as int) =~= all);
    out
}

/// The addresses that records hold.
pub fn deserialize_found(buf: &[u8]) -> (r: Vec<Found>)
    ensures
        found_models(r@) == found_from(buf@, 0),
{
    let mut out: Vec<Found> = Vec::new();
    let mut i: usize = 0;
    assert(found_models(out@) + found_from(buf@, 0) =~= found_from(buf@, 0));
    loop
        invariant_except_break
            i <= buf@.len(),
            found_models(out@) + found_from(buf@, i as int) == found_from(buf@, 0),
        ensures
            found_models(out@) == found_from(buf@, 0),
        decreases buf@.len() - i,
    {
        let mut got: Option<(Found, usize)> = None;
        if buf.len() - i >= 24 {
            let head = slice_subrange(buf, i, i + 16);
            let addr = first16(head);
            assert(addr@ =~= head@);
            let ts = number(buf, i + 16, 8);
            if let Some((from, j)) = read_text(buf, i + 24) {
                got = Some(((addr, from, ts), j));
            }
        }
        match got {
            Some((x, k)) => {
                let ghost o = found_models(out@);
                out.push(x);
                proof {
                    assert(found_at(buf@, i as int) == Some((found_model(x), k as int)));
                    assert(found_models(out@) =~= o + seq![found_model(x)]);
                    assert(o + (seq![found_model(x)] + found_from(buf@, k as int)) =~= o + seq![
                        found_model(x),
                    ] + found_from(buf@, k as int));
                }
                i = k;
            },
            None => {
                proof {
                    assert(found_at(buf@, i as int) is None);
                    assert(found_models(out@) + Seq::<FoundModel>::empty() =~= found_models(out@));
                }
                break;
            },
        }
    }
    out
}

proof fn lemma_found_reads_back(x: FoundModel)
    requires
        x.0.len() == 16,
        storable_text(x.1),
    ensures
        reads_back(x, |x: FoundModel| found_bytes(x), |b: Seq<u8>, i: int| found_at(b, i)),
{
    lemma_pow256();
    lemma_be_len(x.2 as nat, 8);
    assert forall|b: Seq<u8>, i: int| stands_at(b, i, found_bytes(x)) implies #[trigger] found_at(
        b,
        i,
    ) == Some((x, i + found_bytes(x).len())) by {
        lemma_stands_split(b, i, x.0 + be(x.2 as nat, 8), sized_text(x.1));
        lemma_stands_split(b, i, x.0, be(x.2 as nat, 8));
        lemma_number_stands(b, i + 16, x.2 as nat, 8);
        lemma_text_reads_back(b, i + 24, x.1);
    }
}

/// Addresses that came in messages read back from their records.
pub proof fn found_addresses_read_back(v: Seq<FoundModel>)
    requires
        forall|k: int|
            0 <= k < v.len() ==> (#[trigger] v[k]).0.len() == 16 && storable_text(v[k].1),
    ensures
        found_from(all_found_bytes(v), 0) == v,
{
    let f = |x: FoundModel| found_bytes(x);
    let at = |b: Seq<u8>, i: int| found_at(b, i);
    let bytes = all_found_bytes(v);
    assert(bytes.skip(0) =~= bytes);
    assert forall|k: int| 0 <= k < v.len() implies reads_back(#[trigger] v[k], f, at) by {
        lemma_found_reads_back(v[k]);
    }
    lemma_row_reads_back(bytes, 0, v, f, at);
}

/// Of records that were cut off after `n` bytes the whole ones read back; the one that is
/// cut is dropped.
pub proof fn cut_found_addresses_are_dropped(v: Seq<FoundModel>, n: int)
    requires
        forall|k: int|
            0 <= k < v.len() ==> (#[trigger] v[k]).0.len() == 16 && storable_text(v[k].1),
        0 <= n <= all_found_bytes(v).len(),
    ensures
        found_from(all_found_bytes(v).take(n), 0) == v.take(
            whole_records(v, |x: FoundModel| found_bytes(x), n),
        ),
{
    let f = |x: FoundModel| found_bytes(x);
    let at = |b: Seq<u8>, i: int| found_at(b, i);
    let b = all_found_bytes(v);
    assert(b.skip(0) =~= b);
    assert forall|k: int| 0 <= k < v.len() implies reads_back(#[trigger] v[k], f, at) by {
        lemma_found_reads_back(v[k]);
    }
    assert forall|b: Seq<u8>, n: int, i: int| 0 <= i && 0 <= n <= b.len() implies (
    #[trigger] at(b.take(n), i) matches Some((t, j)) ==> at(b, i) == Some((t, j)) && j <= n) by {
        if i + 24 <= n {
            assert(b.take(n).subrange(i, i + 16) =~= b.subrange(i, i + 16));
            assert(b.take(n).subrange(i + 16, i + 24) =~= b.subrange(i + 16, i + 24));
            lemma_text_at_steady(b, n, i + 24);
        }
    }
    lemma_whole_records(v, f, n);
    lemma_cut_row(b, 0, n, v, whole_records(v, f, n), f, at);
}

// ---------------------------------------------------------------------------
// Delivery marks
// ---------------------------------------------------------------------------

pub type UpdateModel = (u64, u8, Seq<char>);

pub open spec fn update_model(u: DeliveryUpdate) -> UpdateModel {
    (u.display_ts, u.status, u.text@)
}

pub open spec fn update_models(v: Seq<DeliveryUpdate>) -> Seq<UpdateModel> {
    v.map_values(|u: DeliveryUpdate| update_model(u))
}

/// The record of a delivery mark: bubble, status, text.
pub open spec fn update_bytes(u: UpdateModel) -> Seq<u8> {
    be(u.0 as nat, 8) + seq![u.1] + sized_text(u.2)
}

/// The records of delivery marks.
pub open spec fn all_update_bytes(v: Seq<UpdateModel>) -> Seq<u8> {
    row(v, |u: UpdateModel| update_bytes(u))
}

/// The record at `i`, and the index after it.
pub open spec fn update_at(b: Seq<u8>, i: int) -> Option<(UpdateModel, int)> {
    if i + 9 > b.len() {
        None
    } else {
        match text_at(b, i + 9) {
            Some((text, j)) => Some(((of_be(b.subrange(i, i + 8)) as u64, b[i + 8], text), j)),
            None => None,
        }
    }
}

/// The records from `i` on.
pub open spec fn updates_from(b: Seq<u8>, i: int) -> Seq<UpdateModel> {
    unrow(b, i, |b: Seq<u8>, i: int| update_at(b, i))
}

/// The records of delivery marks.
pub fn serialize_updates(updates: &[DeliveryUpdate]) -> (r: Vec<u8>)
    ensures
        r@ == all_update_bytes(update_models(updates@)),
{
    let mut out: Vec<u8> = Vec::new();
    let mut i: usize = 0;
    let ghost all = update_models(updates@);
    while i < updates.len()
        invariant
            i <= updates@.len(),
            all == update_models(updates@),
            out@ == all_update_bytes(all.take(i as int)),
        decreases updates@.len() - i,
    {
        let ghost o = out@;
        push_be(&mut out, updates[i].display_ts, 8);
        out.push(updates[i].status);
        push_text(&mut out, updates[i].text.as_str());
        proof {
            let t = all.take(i + 1);
            assert(t.drop_last() =~= all.take(i as int));
            assert(t.last() == update_model(updates@[i as int]));
            assert(out@ =~= o + update_bytes(t.last()));
        }
        i += 1;
    }
    assert(all.take(all.len() as int) =~= all);
    out
}

/// The delivery marks that records hold.
pub fn deserialize_updates(buf: &[u8]) -> (r: Vec<DeliveryUpdate>)
    ensures
        update_models(r@) == updates_from(buf@, 0),
{
    let mut out: Vec<DeliveryUpdate> = Vec::new();
    let mut i: usize = 0;
    assert(update_models(out@) + updates_from(buf@, 0) =~= updates_from(buf@, 0));
    loop
        invariant_except_break
            i <= buf@.len(),
            update_models(out@) + updates_from(buf@, i as int) == updates_from(buf@, 0),
        ensures
            update_models(out@) == updates_from(buf@, 0),
        decreases buf@.len() - i,
    {
        let mut got: Option<(DeliveryUpdate, usize)> = None;
        if buf.len() - i >= 9 {
            let display_ts = number(buf, i, 8);
            let status = buf[i + 8];
            if let Some((text, j)) = read_text(buf, i + 9) {
                got = Some((DeliveryUpdate { display_ts, text, status }, j));
            }
        }
        match got {
            Some((u, k)) => {
                let ghost o = update_models(out@);
                out.push(u);
                proof {
                    assert(update_at(buf@, i as int) == Some((update_model(u), k as int)));
                    assert(update_models(out@) =~= o + seq![update_model(u)]);
                    assert(o + (seq![update_model(u)] + updates_from(buf@, k as int)) =~= o + seq![
                        update_model(u),
                    ] + updates_from(buf@, k as int));
                }
                i = k;
            },
            None => {
                proof {
                    assert(update_at(buf@, i as int) is None);
                    assert(update_models(out@) + Seq::<UpdateModel>::empty() =~= update_models(
                        out@,
                    ));
                }
                break;
            },
        }
    }
    out
}

proof fn lemma_update_reads_back(u: UpdateModel)
    requires
        storable_text(u.2),
    ensures
        reads_back(u, |u: UpdateModel| update_bytes(u), |b: Seq<u8>, i: int| update_at(b, i)),
{
    let t = be(u.0 as nat, 8);
    lemma_pow256();
    lemma_be_len(u.0 as nat, 8);
    assert forall|b: Seq<u8>, i: int| stands_at(b, i, update_bytes(u)) implies #[trigger] update_at(
        b,
        i,
    ) == Some((u, i + update_bytes(u).len())) by {
        lemma_stands_split(b, i, t + seq![u.1], sized_text(u.2));
        lemma_stands_split(b, i, t, seq![u.1]);
        lemma_number_stands(b, i, u.0 as nat, 8);
        assert(b.subrange(i + 8, i + 9)[0] == u.1);
        lemma_text_reads_back(b, i + 9, u.2);
    }
}

/// Delivery marks read back from their records.
pub proof fn delivery_updates_read_back(v: Seq<UpdateModel>)
    requires
        forall|k: int| 0 <= k < v.len() ==> storable_text((#[trigger] v[k]).2),
    ensures
        updates_from(all_update_bytes(v), 0) == v,
{
    let f = |u: UpdateModel| update_bytes(u);
    let at = |b: Seq<u8>, i: int| update_at(b, i);
    let bytes = all_update_bytes(v);
    assert(bytes.skip(0) =~= bytes);
    assert forall|k: int| 0 <= k < v.len() implies reads_back(#[trigger] v[k], f, at) by {
        lemma_update_reads_back(v[k]);
    }
    lemma_row_reads_back(bytes, 0, v, f, at);
}

/// Of records that were cut off after `n` bytes the whole ones read back; the one that is
/// cut is dropped.
pub proof fn cut_delivery_updates_are_dropped(v: Seq<UpdateModel>, n: int)
    requires
        forall|k: int| 0 <= k < v.len() ==> storable_text((#[trigger] v[k]).2),
        0 <= n <= all_update_bytes(v).len(),
    ensures
        updates_from(all_update_bytes(v).take(n), 0) == v.take(
            whole_records(v, |u: UpdateModel| update_bytes(u), n),
        ),
{
    let f = |u: UpdateModel| update_bytes(u);
    let at = |b: Seq<u8>, i: int| update_at(b, i);
    let b = all_update_bytes(v);
    assert(b.skip(0) =~= b);
    assert forall|k: int| 0 <= k < v.len() implies reads_back(#[trigger] v[k], f, at) by {
        lemma_update_reads_back(v[k]);
    }
    assert forall|b: Seq<u8>, n: int, i: int| 0 <= i && 0 <= n <= b.len() implies (
    #[trigger] at(b.take(n), i) matches Some((t, j)) ==> at(b, i) == Some((t, j)) && j <= n) by {
        if i + 9 <= n {
            assert(b.take(n).subrange(i, i + 8) =~= b.subrange(i, i + 8));
            lemma_text_at_steady(b, n, i + 9);
        }
    }
    lemma_whole_records(v, f, n);
    lemma_cut_row(b, 0, n, v, whole_records(v, f, n), f, at);
}

// ---------------------------------------------------------------------------
// Tickets
// ---------------------------------------------------------------------------

/// The record of a ticket: when it expires, and its bytes.
pub open spec fn ticket_bytes(expiry: u64, ticket: Seq<u8>) -> Seq<u8> {
    be(expiry as nat, 8) + ticket
}

/// The record of a ticket.
pub fn serialize_ticket(expiry: u64, ticket: &[u8; 16]) -> (r: Vec<u8>)
    ensures
        r@ == ticket_bytes(expiry, ticket@),
{
    let mut out: Vec<u8> = Vec::new();
    push_be(&mut out, expiry, 8);
    push_all(&mut out, ticket.as_slice());
    assert(out@ =~= ticket_bytes(expiry, ticket@));
    out
}

/// A ticket that was read.
pub enum StoredTicket {
    /// Not a record of a ticket.
    Malformed,
    /// Its time is over; the record is to be deleted.
    Expired,
    Valid(u64, [u8; 16]),
}

/// Reads the record of a ticket at the time `now`.
pub fn deserialize_ticket(buf: &[u8], now: u64) -> (r: StoredTicket)
    ensures
        match r {
            StoredTicket::Malformed => buf@.len() != 24,
            StoredTicket::Expired => buf@.len() == 24 && of_be(buf@.take(8)) <= now,
            StoredTicket::Valid(expiry, ticket) => expiry > now && buf@ == ticket_bytes(
                expiry,
                ticket@,
            ),
        },
{
    if buf.len() != 24 {
        return StoredTicket::Malformed;
    }
    let expiry = number(buf, 0, 8);
    assert(buf@.subrange(0, 8) =~= buf@.take(8));
    if expiry <= now {
        return StoredTicket::Expired;
    }
    let tail = slice_subrange(buf, 8, 24);
    let ticket = first16(tail);
    proof {
        assert(ticket@ =~= tail@);
        of_be_writes_back(buf@.take(8));
        assert(buf@ =~= buf@.take(8) + tail@);
    }
    StoredTicket::Valid(expiry, ticket)
}

/// A ticket and its expiry read back from their record.
pub proof fn ticket_reads_back(expiry: u64, ticket: Seq<u8>)
    requires
        ticket.len() == 16,
    ensures
        ticket_bytes(expiry, ticket).len() == 24,
        of_be(ticket_bytes(expiry, ticket).take(8)) == expiry,
        ticket_bytes(expiry, ticket).skip(8) == ticket,
{
    lemma_pow256();
    be_reads_back(expiry as nat, 8);
    assert(ticket_bytes(expiry, ticket).take(8) =~= be(expiry as nat, 8));
    assert(ticket_bytes(expiry, ticket).skip(8) =~= ticket);
}

// ---------------------------------------------------------------------------
// Contacts and nodes
// ---------------------------------------------------------------------------

/// Bytes in a public key.
pub const KEYSIZE: usize = 64;

/// Bytes in a ratchet.
pub const RATCHET_SIZE: usize = 32;

/// The record of a contact: the name, then the key and the ratchet in hexadecimal
/// digits as far as they are known, with a zero character between two of them.
pub open spec fn contact_text(
    name: Seq<char>,
    pubkey: Option<Seq<u8>>,
    ratchet: Option<Seq<u8>>,
) -> Seq<char> {
    match (pubkey, ratchet) {
        (None, _) => name,
        (Some(k), None) => name + seq!['\0'] + hex_text(k),
        (Some(k), Some(r)) => name + seq!['\0'] + hex_text(k) + seq!['\0'] + hex_text(r),
    }
}

/// The record of a contact.
pub fn contact_record(name: &str, pubkey: Option<&[u8]>, ratchet: Option<&[u8; 32]>) -> (r: String)
    ensures
        r@ == contact_text(
            name@,
            match pubkey {
                Some(k) => Some(k@),
                None => None,
            },
            match ratchet {
                Some(x) => Some(x@),
                None => None,
            },
        ),
{
    let mut val = String::from_str(name);
    if let Some(k) = pubkey {
        val.push('\0');
        let t = hex(k);
        val.append(t.as_str());
        assert(val@ =~= name@ + seq!['\0'] + hex_text(k@));
        if let Some(x) = ratchet {
            let ghost v = val@;
            val.push('\0');
            let u = hex(x.as_slice());
            val.append(u.as_str());
            assert(val@ =~= v + seq!['\0'] + hex_text(x@));
        }
    }
    val
}

/// A contact that was read.
pub struct StoredContact {
    pub name: String,
    pub pubkey: Option<Vec<u8>>,
    pub ratchet: Option<[u8; 32]>,
}

/// The bytes that part `k` of `parts` writes, if it is there and writes `n` of
/// them.
pub open spec fn part_bytes(parts: Seq<Seq<char>>, k: int, n: nat) -> Option<Seq<u8>> {
    if k < parts.len() && all_hex(parts[k]) && parts[k].len() == 2 * n {
        Some(hex_bytes(parts[k]))
    } else {
        None
    }
}

/// The bytes that `s` writes, if it writes `n` of them.
fn exact_bytes(s: &[char], n: usize) -> (r: Option<Vec<u8>>)
    requires
        n <= 64,
    ensures
        match r {
            Some(b) => all_hex(s@) && s@.len() == 2 * n && b@ == hex_bytes(s@) && b@.len() == n,
            None => !all_hex(s@) || s@.len() != 2 * n,
        },
{
    match unhex(s) {
        Some(b) => if b.len() == n {
            Some(b)
        } else {
            None
        },
        None => None,
    }
}

/// Reads the record of a contact. A key of the wrong length counts as none, and
/// without a key there is no ratchet.
pub fn parse_contact(buf: &[u8]) -> (r: StoredContact)
    ensures
        ({
            let parts = split(text_of(buf@), '\0');
            let key = part_bytes(parts, 1, KEYSIZE as nat);
            &&& r.name@ == parts[0]
            &&& match r.pubkey {
                Some(k) => key == Some(k@),
                None => key is None,
            }
            &&& match r.ratchet {
                Some(x) => key is Some && part_bytes(parts, 2, RATCHET_SIZE as nat) == Some(x@),
                None => key is None || part_bytes(parts, 2, RATCHET_SIZE as nat) is None,
            }
        }),
{
    let text = lossy_string(buf);
    let chars = chars_of(text.as_str());
    let s = chars.as_slice();
    let ghost parts = split(s@, '\0');
    let a = find_char(s, '\0', 0);
    let first = slice_subrange(s, 0, a);
    assert(first@ =~= s@.take(a as int));
    let name = string_of(first);
    if a == s.len() {
        assert(s@.take(a as int) =~= s@);
        assert(parts =~= seq![s@]);
        return StoredContact { name, pubkey: None, ratchet: None };
    }
    let rest = slice_subrange(s, a + 1, s.len());
    assert(rest@ =~= s@.skip(a + 1));
    let ghost more = split(rest@, '\0');
    assert(parts == seq![first@] + more);
    let b = find_char(rest, '\0', 0);
    let second = slice_subrange(rest, 0, b);
    assert(second@ =~= rest@.take(b as int));
    proof {
        if b == rest@.len() {
            assert(second@ =~= rest@);
            assert(more =~= seq![rest@]);
        } else {
            assert(more == seq![second@] + split(rest@.skip(b + 1), '\0'));
        }
        assert(parts[1] == second@);
    }
    let pubkey = match exact_bytes(second, KEYSIZE) {
        Some(k) => k,
        None => {
            return StoredContact { name, pubkey: None, ratchet: None };
        },
    };
    if b == rest.len() {
        return StoredContact { name, pubkey: Some(pubkey), ratchet: None };
    }
    let tail = slice_subrange(rest, b + 1, rest.len());
    assert(tail@ =~= rest@.skip(b + 1));
    let c = find_char(tail, '\0', 0);
    let third = slice_subrange(tail, 0, c);
    assert(third@ =~= tail@.take(c as int));
    proof {
        let last = split(tail@, '\0');
        if c == tail@.len() {
            assert(third@ =~= tail@);
            assert(last =~= seq![tail@]);
        } else {
            assert(last == seq![third@] + split(tail@.skip(c + 1), '\0'));
        }
        assert(parts[2] == last[0]);
        assert(last[0] == third@);
    }
    let ratchet = match exact_bytes(third, RATCHET_SIZE) {
        Some(x) => {
            let y = first32(x.as_slice());
            assert(y@ =~= x@);
            Some(y)
        },
        None => None,
    };
    StoredContact { name, pubkey: Some(pubkey), ratchet }
}

/// A text without the separator is one part.
proof fn lemma_split_alone(s: Seq<char>, c: char)
    requires
        !s.contains(c),
    ensures
        split(s, c) == seq![s],
{
    lemma_find(s, c, 0);
    if find(s, c, 0) < s.len() {
        assert(s.contains(s[find(s, c, 0)]));
    }
}

/// A text without the separator, the separator, and more.
proof fn lemma_split_first(s: Seq<char>, c: char, t: Seq<char>)
    requires
        !s.contains(c),
    ensures
        split(s + seq![c] + t, c) == seq![s] + split(t, c),
{
    let all = s + seq![c] + t;
    lemma_find(all, c, 0);
    let k = find(all, c, 0);
    assert(all[s.len() as int] == c);
    if k < s.len() {
        assert(s[k] == all[k]);
        assert(s.contains(c));
    }
    assert(k == s.len());
    assert(all.take(k) =~= s);
    assert(all.skip(k + 1) =~= t);
}

proof fn lemma_hex_has_no_zero(b: Seq<u8>)
    ensures
        !hex_text(b).contains('\0'),
{
    hex_reads_back(b);
    let t = hex_text(b);
    if t.contains('\0') {
        let i = choose|i: int| 0 <= i < t.len() && t[i] == '\0';
        assert(hex_value(t[i]) is Some);
    }
}

/// A contact whose name holds no zero character reads back from its record.
pub proof fn contact_reads_back(name: Seq<char>, pubkey: Option<Seq<u8>>, ratchet: Option<Seq<u8>>)
    requires
        !name.contains('\0'),
        pubkey matches Some(k) ==> k.len() == KEYSIZE,
        ratchet matches Some(r) ==> r.len() == RATCHET_SIZE,
    ensures
        ({
            let parts = split(
                text_of(encode_utf8(contact_text(name, pubkey, ratchet))),
                '\0',
            );
            &&& parts[0] == name
            &&& part_bytes(parts, 1, KEYSIZE as nat) == pubkey
            &&& pubkey is Some ==> part_bytes(parts, 2, RATCHET_SIZE as nat) == ratchet
        }),
{
    let text = contact_text(name, pubkey, ratchet);
    text_reads_back(text);
    match (pubkey, ratchet) {
        (None, _) => {
            lemma_split_alone(name, '\0');
        },
        (Some(k), None) => {
            lemma_hex_has_no_zero(k);
            hex_reads_back(k);
            lemma_split_first(name, '\0', hex_text(k));
            lemma_split_alone(hex_text(k), '\0');
        },
        (Some(k), Some(r)) => {
            lemma_hex_has_no_zero(k);
            lemma_hex_has_no_zero(r);
            hex_reads_back(k);
            hex_reads_back(r);
            let tail = hex_text(k) + seq!['\0'] + hex_text(r);
            assert(text =~= name + seq!['\0'] + tail);
            lemma_split_first(name, '\0', tail);
            lemma_split_first(hex_text(k), '\0', hex_text(r));
            lemma_split_alone(hex_text(r), '\0');
        },
    }
}

/// The name of a saved node: its record, trimmed, or its key where that is empty.
pub open spec fn node_name_of(key: Seq<char>, record: Seq<u8>) -> Seq<char> {
    let name = trimmed(text_of(record));
    if name.len() == 0 {
        key
    } else {
        name
    }
}

/// The name of a saved node.
pub fn stored_node_name(key: &str, buf: &[u8]) -> (r: String)
    ensures
        r@ == node_name_of(key@, buf@),
{
    let text = lossy_string(buf);
    let chars = chars_of(text.as_str());
    let name = trim(chars.as_slice());
    if name.len() == 0 {
        String::from_str(key)
    } else {
        string_of(name)
    }
}

// ---------------------------------------------------------------------------
// At the start
// ---------------------------------------------------------------------------

/// Takes up the messages held for `addr`; all of them are unread.
pub fn restore_pending(
    pending: &mut Book<Vec<Held>>,
    unread: &mut Book<u32>,
    addr: &Address,
    buf: &[u8],
)
    requires
        old(pending).wf(),
        old(unread).wf(),
    ensures
        final(pending).wf(),
        final(unread).wf(),
        ({
            let held = held_from(buf@, 0);
            if held.len() == 0 {
                *final(pending) == *old(pending) && *final(unread) == *old(unread)
            } else {
                &&& final(unread)@ == old(unread)@.insert(*addr, held.len() as u32)
                &&& final(pending)@.contains_key(*addr)
                &&& held_models(final(pending)@[*addr]@) == held
                &&& final(pending)@.remove(*addr) == old(pending)@.remove(*addr)
            }
        }),
{
    let msgs = deserialize_pending(buf);
    assert(held_models(msgs@).len() == msgs@.len());
    if msgs.len() > 0 {
        let ghost before = pending@;
        unread.insert(*addr, msgs.len() as u32);
        pending.insert(*addr, msgs);
        assert(pending@.remove(*addr) =~= before.remove(*addr));
    }
}

/// Takes up the ticket of `addr`. Whether its time is over, and the record is to be
/// deleted.
pub fn restore_ticket(
    tickets: &mut Book<(u64, [u8; 16])>,
    addr: &Address,
    buf: &[u8],
    now: u64,
) -> (expired: bool)
    requires
        old(tickets).wf(),
    ensures
        final(tickets).wf(),
        expired == (buf@.len() == 24 && of_be(buf@.take(8)) <= now),
        if buf@.len() == 24 && !expired {
            &&& final(tickets)@.contains_key(*addr)
            &&& buf@ == ticket_bytes(final(tickets)@[*addr].0, final(tickets)@[*addr].1@)
            &&& final(tickets)@.remove(*addr) == old(tickets)@.remove(*addr)
        } else {
            *final(tickets) == *old(tickets)
        },
{
    match deserialize_ticket(buf, now) {
        StoredTicket::Malformed => false,
        StoredTicket::Expired => true,
        StoredTicket::Valid(expiry, ticket) => {
            let ghost before = tickets@;
            proof {
                lemma_pow256();
                be_reads_back(expiry as nat, 8);
                assert(buf@.take(8) =~= be(expiry as nat, 8));
            }
            tickets.insert(*addr, (expiry, ticket));
            assert(tickets@.remove(*addr) =~= before.remove(*addr));
            false
        },
    }
}

/// Takes up the delivery marks held for `addr`.
pub fn restore_updates(updates: &mut Book<Vec<DeliveryUpdate>>, addr: &Address, buf: &[u8])
    requires
        old(updates).wf(),
    ensures
        final(updates).wf(),
        ({
            let held = updates_from(buf@, 0);
            if held.len() == 0 {
                *final(updates) == *old(updates)
            } else {
                &&& final(updates)@.contains_key(*addr)
                &&& update_models(final(updates)@[*addr]@) == held
                &&& final(updates)@.remove(*addr) == old(updates)@.remove(*addr)
            }
        }),
{
    let list = deserialize_updates(buf);
    assert(update_models(list@).len() == list@.len());
    if list.len() > 0 {
        let ghost before = updates@;
        updates.insert(*addr, list);
        assert(updates@.remove(*addr) =~= before.remove(*addr));
    }
}

/// Takes up a contact. One with a key is listed only where `sound` says that the key
/// is one; one without a key is listed, and the key is asked for when it is written
/// to.
pub fn restore_contact(
    contacts: &mut Book<String>,
    addr: &Address,
    contact: &StoredContact,
    sound: bool,
)
    requires
        old(contacts).wf(),
    ensures
        final(contacts).wf(),
        if contact.pubkey is None || sound {
            &&& final(contacts)@.contains_key(*addr)
            &&& final(contacts)@[*addr]@ == contact.name@
            &&& final(contacts)@.remove(*addr) == old(contacts)@.remove(*addr)
        } else {
            *final(contacts) == *old(contacts)
        },
{
    if contact.pubkey.is_none() || sound {
        let ghost before = contacts@;
        contacts.insert(*addr, String::from_str(contact.name.as_str()));
        assert(contacts@.remove(*addr) =~= before.remove(*addr));
    }
}

} // verus!
