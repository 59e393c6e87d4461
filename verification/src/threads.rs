//! Conversations: writing to a peer, opening a peer's thread, and the lines that
//! tell where one is and what waits to be read.
use vstd::prelude::*;
use vstd::slice::slice_subrange;

use crate::address::{same_address, Address};
use crate::book::Book;
use crate::hex::{hex, hex_text};
use crate::inbox::{
    author_name, author_of, delivered, known_name, label_name, peer_label, Delivery, Inbox,
};
use crate::message::ParsedMessage;
use crate::outbox::{
    bubble, bubble_text, drop_peer, mark_of, status_mark, DeliveryUpdate, OutboundMsg, MARK_PENDING,
};
use crate::storage::{
    found_model, found_models, held_models, update_models, Found, FoundModel, Held, HeldModel,
    UpdateModel,
};
use crate::text::{chars_of, decimal_text, join2, join3, push_decimal, string_of};

verus! {

// ---------------------------------------------------------------------------
// Writing
// ---------------------------------------------------------------------------

/// A message about to be packed and queued.
pub struct Draft {
    pub peer: Address,
    /// The time under which its bubble stands.
    pub display_ts: u64,
    /// What its bubble shows at first.
    pub bubble: String,
    /// The ticket that stamps it.
    pub ticket: Option<[u8; 16]>,
    /// The stamp cost that has to be mined for.
    pub needs_stamp: Option<u32>,
    /// The name under which the peer is saved as a contact.
    pub name: String,
}

/// What writing a message leads to.
pub enum Written {
    /// A page is on the screen; say that it has to be left first.
    Browsing,
    /// No thread is open; say so.
    NoPeer,
    Draft(Draft),
}

/// The time of the next own bubble: now, but behind everything shown.
pub open spec fn next_ts(now: u64, last: u64) -> int {
    if now > last {
        now as int
    } else {
        last + 1
    }
}

impl Inbox {
    /// Writes a message to the peer of the open thread. An expired ticket is dropped;
    /// without a ticket, the peer's stamp cost has to be mined for.
    pub fn write_message(&mut self, text: &str, browsing: bool, costs: &Book<u32>, now: u64) -> (r:
        Written)
        requires
            old(self).wf(),
            costs.wf(),
            old(self).last_ts < u64::MAX,
        ensures
            final(self).wf(),
            match r {
                Written::Browsing => browsing && *final(self) == *old(self),
                Written::NoPeer => !browsing && old(self).current_peer is None && *final(self)
                    == *old(self),
                Written::Draft(d) => {
                    let t = old(self).tickets@;
                    let held = t.contains_key(d.peer);
                    &&& !browsing
                    &&& old(self).current_peer == Some(d.peer)
                    &&& d.display_ts == next_ts(now, old(self).last_ts)
                    &&& final(self).last_ts == d.display_ts
                    &&& d.bubble@ == bubble(text@, MARK_PENDING@)
                    &&& d.ticket == (if held && t[d.peer].0 > now {
                        Some(t[d.peer].1)
                    } else {
                        None
                    })
                    &&& final(self).tickets@ == (if held && t[d.peer].0 <= now {
                        t.remove(d.peer)
                    } else {
                        t
                    })
                    &&& d.needs_stamp == (if d.ticket is None && costs@.contains_key(d.peer) {
                        Some(costs@[d.peer])
                    } else {
                        None
                    })
                    &&& d.name@ == author_name(old(self).contacts@, old(self).seen@, d.peer)
                    &&& final(self).contacts@.contains_key(d.peer)
                    &&& final(self).contacts@[d.peer]@ == d.name@
                    &&& final(self).contacts@.remove(d.peer) == old(self).contacts@.remove(d.peer)
                },
            },
            final(self).our_dh == old(self).our_dh,
            final(self).seen == old(self).seen,
            final(self).recent == old(self).recent,
            final(self).found == old(self).found,
            final(self).ticket_pending == old(self).ticket_pending,
            final(self).pending == old(self).pending,
            final(self).unread == old(self).unread,
            final(self).current_peer == old(self).current_peer,
    {
        if browsing {
            return Written::Browsing;
        }
        let peer = match self.current_peer {
            Some(p) => p,
            None => {
                return Written::NoPeer;
            },
        };
        let display_ts = if now > self.last_ts {
            now
        } else {
            self.last_ts + 1
        };
        self.last_ts = display_ts;
        let held: Option<(u64, [u8; 16])> = match self.tickets.get(&peer) {
            Some(e) => Some(*e),
            None => None,
        };
        let ticket: Option<[u8; 16]> = match held {
            Some((expiry, t)) => if expiry <= now {
                self.tickets.remove(&peer);
                None
            } else {
                Some(t)
            },
            None => None,
        };
        let needs_stamp: Option<u32> = if ticket.is_some() {
            None
        } else {
            match costs.get(&peer) {
                Some(c) => Some(*c),
                None => None,
            }
        };
        let name = author_of(&self.contacts, &self.seen, &peer);
        let ghost contacts0 = self.contacts@;
        self.contacts.insert(peer, name.clone());
        assert(self.contacts@.remove(peer) =~= contacts0.remove(peer));
        Written::Draft(
            Draft {
                peer,
                display_ts,
                bubble: bubble_text(text, MARK_PENDING),
                ticket,
                needs_stamp,
                name,
            },
        )
    }
}

/// An own bubble always stands behind everything shown before it.
pub proof fn own_bubble_comes_last(now: u64, last: u64)
    requires
        last < u64::MAX,
    ensures
        next_ts(now, last) > last,
        next_ts(now, last) >= now,
{
}

// ---------------------------------------------------------------------------
// Opening a thread
// ---------------------------------------------------------------------------

/// The open thread and the one before it, after the thread of `addr` was opened.
pub open spec fn after_opening(
    current: Option<Address>,
    prev: Option<Address>,
    addr: Address,
) -> (Option<Address>, Option<Address>) {
    (
        Some(addr),
        if current == Some(addr) {
            prev
        } else {
            current
        },
    )
}

/// The latest time among held messages, or `last` where that is later.
pub open spec fn latest(v: Seq<HeldModel>, last: u64) -> u64
    decreases v.len(),
{
    if v.len() == 0 {
        last
    } else {
        let m = latest(v.drop_last(), last);
        if v.last().1 > m {
            v.last().1
        } else {
            m
        }
    }
}

/// What opening the thread of `addr` leads to: `queued` are the messages that were held
/// for it.
pub open spec fn opened(
    before: Inbox,
    after: Inbox,
    prev: Option<Address>,
    prev_after: Option<Address>,
    addr: Address,
    queued: Seq<HeldModel>,
) -> bool {
    &&& (after.current_peer, prev_after) == after_opening(before.current_peer, prev, addr)
    &&& queued == before.held_for(addr)
    &&& after.pending@ == before.pending@.remove(addr)
    &&& after.unread@ == before.unread@.remove(addr)
    &&& after.last_ts == latest(before.held_for(addr), before.last_ts)
    &&& after.our_dh == before.our_dh
    &&& after.contacts == before.contacts
    &&& after.seen == before.seen
    &&& after.recent == before.recent
    &&& after.found == before.found
    &&& after.tickets == before.tickets
    &&& after.ticket_pending == before.ticket_pending
}

impl Inbox {
    /// Opens the thread of a peer: the messages that were held for it.
    pub fn activate_peer(&mut self, prev: &mut Option<Address>, addr: &Address) -> (queued: Vec<Held>)
        requires
            old(self).wf(),
        ensures
            final(self).wf(),
            opened(*old(self), *final(self), *old(prev), *final(prev), *addr, held_models(queued@)),
    {
        let same = match &self.current_peer {
            Some(p) => same_address(p, addr),
            None => false,
        };
        if !same {
            *prev = self.current_peer;
        }
        self.current_peer = Some(*addr);
        let queued: Vec<Held> = match self.pending.remove(addr) {
            Some(v) => v,
            None => Vec::new(),
        };
        let ghost all = held_models(queued@);
        assert(all =~= old(self).held_for(*addr));
        let ghost last0 = self.last_ts;
        let mut i: usize = 0;
        while i < queued.len()
            invariant
                i <= queued@.len(),
                all == held_models(queued@),
                self.last_ts == latest(all.take(i as int), last0),
                self.current_peer == Some(*addr),
                self.pending.wf(),
                self.pending@ == old(self).pending@.remove(*addr),
                self.our_dh == old(self).our_dh,
                self.contacts == old(self).contacts,
                self.seen == old(self).seen,
                self.recent == old(self).recent,
                self.found == old(self).found,
                self.tickets == old(self).tickets,
                self.ticket_pending == old(self).ticket_pending,
                self.unread == old(self).unread,
            decreases queued@.len() - i,
        {
            proof {
                let t = all.take(i + 1);
                assert(t.drop_last() =~= all.take(i as int));
                assert(t.last() == all[i as int]);
            }
            if queued[i].1 > self.last_ts {
                self.last_ts = queued[i].1;
            }
            i += 1;
        }
        assert(all.take(all.len() as int) =~= all);
        self.unread.remove(addr);
        queued
    }

    /// Forgets what waits for a thread whose history is wiped: messages held,
    /// the count of unread ones, delivery marks, and messages on their way. The
    /// contact and its ticket stay.
    pub fn clear_history(
        &mut self,
        updates: &mut Book<Vec<DeliveryUpdate>>,
        outbox: &mut Vec<OutboundMsg>,
        addr: &Address,
    )
        requires
            old(self).wf(),
            old(updates).wf(),
        ensures
            final(self).wf(),
            final(updates).wf(),
            final(self).pending@ == old(self).pending@.remove(*addr),
            final(self).unread@ == old(self).unread@.remove(*addr),
            final(updates)@ == old(updates)@.remove(*addr),
            final(outbox)@ == old(outbox)@.filter(|m: OutboundMsg| m.peer != *addr),
            final(self).our_dh == old(self).our_dh,
            final(self).contacts == old(self).contacts,
            final(self).seen == old(self).seen,
            final(self).recent == old(self).recent,
            final(self).found == old(self).found,
            final(self).tickets == old(self).tickets,
            final(self).ticket_pending == old(self).ticket_pending,
            final(self).current_peer == old(self).current_peer,
            final(self).last_ts == old(self).last_ts,
    {
        self.pending.remove(addr);
        self.unread.remove(addr);
        updates.remove(addr);
        drop_peer(outbox, addr);
    }

    /// Forgets an address that was imported.
    pub fn forget_found(&mut self, addr: &Address)
        requires
            old(self).wf(),
        ensures
            final(self).wf(),
            found_models(final(self).found@) == found_models(old(self).found@).filter(
                |x: FoundModel| x.0 != addr@,
            ),
            final(self).our_dh == old(self).our_dh,
            final(self).contacts == old(self).contacts,
            final(self).seen == old(self).seen,
            final(self).recent == old(self).recent,
            final(self).tickets == old(self).tickets,
            final(self).ticket_pending == old(self).ticket_pending,
            final(self).pending == old(self).pending,
            final(self).unread == old(self).unread,
            final(self).current_peer == old(self).current_peer,
            final(self).last_ts == old(self).last_ts,
    {
        let ghost keep = |x: FoundModel| x.0 != addr@;
        let ghost all = found_models(self.found@);
        let mut kept: Vec<Found> = Vec::new();
        let mut i: usize = 0;
        assert(found_models(kept@) =~= Seq::<FoundModel>::empty());
        assert(all.take(0).filter(keep) =~= Seq::<FoundModel>::empty());
        while i < self.found.len()
            invariant
                i <= self.found@.len(),
                *self == *old(self),
                all == found_models(self.found@),
                keep == (|x: FoundModel| x.0 != addr@),
                found_models(kept@) == all.take(i as int).filter(keep),
                kept@.len() <= i,
            decreases self.found@.len() - i,
        {
            proof {
                let t = all.take(i + 1);
                assert(t.drop_last() =~= all.take(i as int));
                assert(t.last() == found_model(self.found@[i as int]));
                reveal(Seq::filter);
            }
            if !same_address(&self.found[i].0, addr) {
                let ghost k = found_models(kept@);
                let e = &self.found[i];
                kept.push((e.0, e.1.clone(), e.2));
                assert(found_models(kept@) =~= k.push(all[i as int]));
            }
            i += 1;
        }
        assert(all.take(all.len() as int) =~= all);
        self.found = kept;
    }
}

/// A message for a thread that is not open is handed out when the thread is opened,
/// behind those that were held before, and the thread has nothing unread from then on.
pub proof fn held_message_is_handed_out(
    before: Inbox,
    held: Inbox,
    after: Inbox,
    m: ParsedMessage,
    raw: Seq<u8>,
    live: bool,
    now: u64,
    d: Delivery,
    prev: Option<Address>,
    prev_after: Option<Address>,
    queued: Seq<HeldModel>,
)
    requires
        delivered(before, held, m, raw, live, now, d),
        before.current_peer != Some(m.source_hash),
        opened(held, after, prev, prev_after, m.source_hash, queued),
    ensures
        !d.shown,
        queued == before.held_for(m.source_hash).push((d.author@, d.ts, d.text@)),
        after.held_for(m.source_hash) == Seq::<HeldModel>::empty(),
        after.unread_of(m.source_hash) == 0,
        after.current_peer == Some(m.source_hash),
{
}

/// Going back from a thread returns to the one before, and going back once more
/// returns to the thread.
pub proof fn going_back_toggles(here: Address, there: Address, prev: Option<Address>)
    requires
        here != there,
    ensures
        ({
            let (c1, p1) = after_opening(Some(here), prev, there);
            let (c2, p2) = after_opening(c1, p1, p1->0);
            let (c3, p3) = after_opening(c2, p2, p2->0);
            &&& p1 == Some(here)
            &&& c2 == Some(here) && p2 == Some(there)
            &&& c3 == Some(there) && p3 == Some(here)
        }),
{
}

// ---------------------------------------------------------------------------
// Delivery marks of threads that are not open
// ---------------------------------------------------------------------------

/// The delivery marks held for a peer.
pub open spec fn marks_for(updates: Map<Address, Vec<DeliveryUpdate>>, peer: Address) -> Seq<
    UpdateModel,
> {
    if updates.contains_key(peer) {
        update_models(updates[peer]@)
    } else {
        Seq::empty()
    }
}

/// A mark is held behind those of the same peer.
pub open spec fn mark_held(
    before: Map<Address, Vec<DeliveryUpdate>>,
    after: Map<Address, Vec<DeliveryUpdate>>,
    peer: Address,
    display_ts: u64,
    text: Seq<char>,
    status: u8,
) -> bool {
    &&& after.contains_key(peer)
    &&& marks_for(after, peer) == marks_for(before, peer).push((display_ts, status, text))
    &&& after.remove(peer) == before.remove(peer)
}

/// The marks of a peer are taken: for each, the time of the bubble and what it shows.
pub open spec fn marks_taken(
    before: Map<Address, Vec<DeliveryUpdate>>,
    after: Map<Address, Vec<DeliveryUpdate>>,
    peer: Address,
    r: Seq<(u64, String)>,
) -> bool {
    let marks = marks_for(before, peer);
    &&& after == before.remove(peer)
    &&& r.len() == marks.len()
    &&& forall|i: int|
        0 <= i < r.len() ==> (#[trigger] r[i]).0 == marks[i].0 && r[i].1@ == bubble(
            marks[i].2,
            mark_of(marks[i].1),
        )
}

/// A mark that changed while its thread was not open is on the bubble once it is, as
/// the last word on it.
pub proof fn held_mark_is_shown(
    before: Map<Address, Vec<DeliveryUpdate>>,
    held: Map<Address, Vec<DeliveryUpdate>>,
    after: Map<Address, Vec<DeliveryUpdate>>,
    peer: Address,
    display_ts: u64,
    text: Seq<char>,
    status: u8,
    r: Seq<(u64, String)>,
)
    requires
        mark_held(before, held, peer, display_ts, text, status),
        marks_taken(held, after, peer, r),
    ensures
        r.len() > 0,
        r.last().0 == display_ts,
        r.last().1@ == bubble(text, mark_of(status)),
        marks_for(after, peer) == Seq::<UpdateModel>::empty(),
{
    assert(marks_for(held, peer).last() == (display_ts, status, text));
    assert(r[r.len() - 1].0 == display_ts);
}

/// Holds a delivery mark for a thread that is not open.
pub fn hold_mark(
    updates: &mut Book<Vec<DeliveryUpdate>>,
    peer: &Address,
    display_ts: u64,
    text: &str,
    status: u8,
)
    requires
        old(updates).wf(),
    ensures
        final(updates).wf(),
        mark_held(old(updates)@, final(updates)@, *peer, display_ts, text@, status),
{
    let ghost before = updates@;
    let mut list: Vec<DeliveryUpdate> = match updates.remove(peer) {
        Some(l) => l,
        None => Vec::new(),
    };
    let ghost o = update_models(list@);
    assert(o =~= marks_for(before, *peer));
    list.push(DeliveryUpdate { display_ts, text: String::from_str(text), status });
    assert(update_models(list@) =~= o.push((display_ts, status, text@)));
    updates.insert(*peer, list);
    assert(updates@.remove(*peer) =~= before.remove(*peer));
}

/// Takes the delivery marks that are held for a thread that opens: for each, the time
/// of the bubble and what it shows now.
pub fn take_marks(updates: &mut Book<Vec<DeliveryUpdate>>, peer: &Address) -> (r: Vec<(u64, String)>)
    requires
        old(updates).wf(),
    ensures
        final(updates).wf(),
        marks_taken(old(updates)@, final(updates)@, *peer, r@),
{
    let list: Vec<DeliveryUpdate> = match updates.remove(peer) {
        Some(l) => l,
        None => Vec::new(),
    };
    let ghost m = update_models(list@);
    assert(m =~= marks_for(old(updates)@, *peer));
    let mut out: Vec<(u64, String)> = Vec::new();
    let mut i: usize = 0;
    while i < list.len()
        invariant
            i <= list@.len(),
            m == update_models(list@),
            out@.len() == i,
            forall|k: int|
                0 <= k < i ==> (#[trigger] out@[k]).0 == m[k].0 && out@[k].1@ == bubble(
                    m[k].2,
                    mark_of(m[k].1),
                ),
        decreases list@.len() - i,
    {
        let u = &list[i];
        assert(m[i as int] == (u.display_ts, u.status, u.text@));
        out.push((u.display_ts, bubble_text(u.text.as_str(), status_mark(u.status))));
        i += 1;
    }
    out
}

// ---------------------------------------------------------------------------
// What waits to be read
// ---------------------------------------------------------------------------

/// The time that the first message held for a peer bears, or the end of time.
pub open spec fn waiting_since(pending: Map<Address, Vec<Held>>, peer: Address) -> u64 {
    if pending.contains_key(peer) && pending[peer]@.len() > 0 {
        pending[peer]@[0].1
    } else {
        u64::MAX
    }
}

/// The place of the peer with unread messages that waits longest, of the first `n`;
/// the first of several.
pub open spec fn longest_waiting(
    s: Seq<(Address, u32)>,
    pending: Map<Address, Vec<Held>>,
    n: int,
) -> Option<int>
    decreases n,
{
    if n <= 0 {
        None
    } else {
        let best = longest_waiting(s, pending, n - 1);
        if s[n - 1].1 == 0 {
            best
        } else {
            match best {
                None => Some(n - 1),
                Some(k) => if waiting_since(pending, s[n - 1].0) < waiting_since(pending, s[k].0) {
                    Some(n - 1)
                } else {
                    Some(k)
                },
            }
        }
    }
}

fn held_since(pending: &Book<Vec<Held>>, peer: &Address) -> (r: u64)
    requires
        pending.wf(),
    ensures
        r == waiting_since(pending@, *peer),
{
    match pending.get(peer) {
        Some(v) => if v.len() > 0 {
            v[0].1
        } else {
            u64::MAX
        },
        None => u64::MAX,
    }
}

/// The next thread to catch up on: the one with unread messages that waits longest,
/// with their number.
pub fn first_unread(unread: &Book<u32>, pending: &Book<Vec<Held>>) -> (r: Option<(Address, u32)>)
    requires
        unread.wf(),
        pending.wf(),
    ensures
        r == (match longest_waiting(
            unread.entries@,
            pending@,
            unread.entries@.len() as int,
        ) {
            Some(k) => Some(unread.entries@[k]),
            None => None,
        }),
{
    let mut best: Option<usize> = None;
    let mut n: usize = 0;
    while n < unread.entries.len()
        invariant
            n <= unread.entries@.len(),
            pending.wf(),
            match best {
                Some(k) => k < n && longest_waiting(unread.entries@, pending@, n as int) == Some(
                    k as int,
                ),
                None => longest_waiting(unread.entries@, pending@, n as int) is None,
            },
        decreases unread.entries@.len() - n,
    {
        let e = unread.entries[n];
        if e.1 > 0 {
            match best {
                None => {
                    best = Some(n);
                },
                Some(k) => {
                    let other = unread.entries[k].0;
                    if held_since(pending, &e.0) < held_since(pending, &other) {
                        best = Some(n);
                    }
                },
            }
        }
        n += 1;
    }
    match best {
        Some(k) => Some(unread.entries[k]),
        None => None,
    }
}

/// The next thread to catch up on has unread messages, and none with unread messages
/// waits longer by the times that its messages bear.
pub proof fn first_unread_waits_longest(
    s: Seq<(Address, u32)>,
    pending: Map<Address, Vec<Held>>,
    n: int,
)
    requires
        0 <= n <= s.len(),
    ensures
        match longest_waiting(s, pending, n) {
            Some(k) => {
                &&& 0 <= k < n
                &&& s[k].1 > 0
                &&& forall|i: int|
                    0 <= i < n && (#[trigger] s[i]).1 > 0 ==> waiting_since(pending, s[k].0)
                        <= waiting_since(pending, s[i].0)
            },
            None => forall|i: int| 0 <= i < n ==> (#[trigger] s[i]).1 == 0,
        },
    decreases n,
{
    if n > 0 {
        first_unread_waits_longest(s, pending, n - 1);
    }
}

// ---------------------------------------------------------------------------
// Status lines and key labels
// ---------------------------------------------------------------------------

/// The first `n` characters.
pub open spec fn first_chars(s: Seq<char>, n: int) -> Seq<char> {
    if s.len() > n {
        s.take(n)
    } else {
        s
    }
}

/// A label short enough for a key.
pub fn slot_label(label: &str, max: usize) -> (r: String)
    ensures
        r@ == first_chars(label@, max as int),
{
    let chars = chars_of(label);
    if chars.len() > max {
        let head = slice_subrange(chars.as_slice(), 0, max);
        assert(head@ =~= label@.take(max as int));
        string_of(head)
    } else {
        string_of(chars.as_slice())
    }
}

/// The idle status line: with whom one talks.
pub open spec fn idle_words(label: Option<Seq<char>>) -> Seq<char> {
    match label {
        Some(l) => "\u{25c9} "@ + l,
        None => ""@,
    }
}

/// The label of the first key: the next unread thread, and how much is unread.
pub open spec fn unread_words(next: Option<(Seq<char>, nat)>) -> Seq<char> {
    match next {
        Some((l, n)) => "\u{2709}"@ + first_chars(l, 8) + " "@ + decimal_text(n),
        None => ""@,
    }
}

/// The label of the second key: the thread to jump back to.
pub open spec fn back_words(label: Option<Seq<char>>) -> Seq<char> {
    match label {
        Some(l) => "\u{21a9}"@ + first_chars(l, 10),
        None => ""@,
    }
}

/// The idle status line and the labels of the first two keys.
pub struct IdleStatus {
    pub line: String,
    pub f1: String,
    pub f2: String,
}

impl Inbox {
    /// The thread to jump back to: the one before, unless it is the open one.
    pub fn way_back(&self, prev: &Option<Address>) -> (r: Option<Address>)
        ensures
            r == (if *prev is Some && *prev != self.current_peer {
                *prev
            } else {
                None
            }),
    {
        match prev {
            Some(p) => {
                let open = match &self.current_peer {
                    Some(c) => same_address(c, p),
                    None => false,
                };
                if open {
                    None
                } else {
                    Some(*p)
                }
            },
            None => None,
        }
    }

    /// The idle status line and the labels of the first two keys.
    pub fn idle_status(&self, prev: &Option<Address>) -> (r: IdleStatus)
        requires
            self.wf(),
        ensures
            ({
                let label = |a: Address| label_name(self.contacts@, self.seen@, a);
                let next = longest_waiting(
                    self.unread.entries@,
                    self.pending@,
                    self.unread.entries@.len() as int,
                );
                let back = if *prev is Some && *prev != self.current_peer {
                    *prev
                } else {
                    None
                };
                &&& r.line@ == idle_words(
                    match self.current_peer {
                        Some(p) => Some(label(p)),
                        None => None,
                    },
                )
                &&& r.f1@ == unread_words(
                    match next {
                        Some(k) => Some(
                            (
                                label(self.unread.entries@[k].0),
                                self.unread.entries@[k].1 as nat,
                            ),
                        ),
                        None => None,
                    },
                )
                &&& r.f2@ == back_words(
                    match back {
                        Some(p) => Some(label(p)),
                        None => None,
                    },
                )
            }),
    {
        let line = match &self.current_peer {
            Some(p) => join2("\u{25c9} ", peer_label(&self.contacts, &self.seen, p).as_str()),
            None => String::from_str(""),
        };
        let f1 = match first_unread(&self.unread, &self.pending) {
            Some((peer, n)) => {
                let l = peer_label(&self.contacts, &self.seen, &peer);
                let short = slot_label(l.as_str(), 8);
                let mut s = join3("\u{2709}", short.as_str(), " ");
                push_decimal(&mut s, n as u64);
                s
            },
            None => String::from_str(""),
        };
        let f2 = match self.way_back(prev) {
            Some(p) => {
                let l = peer_label(&self.contacts, &self.seen, &p);
                let short = slot_label(l.as_str(), 10);
                join2("\u{21a9}", short.as_str())
            },
            None => String::from_str(""),
        };
        IdleStatus { line, f1, f2 }
    }

    /// The name of a peer, else the start of its address and an ellipsis.
    pub fn peer_name(&self, addr: &Address) -> (r: String)
        requires
            self.wf(),
        ensures
            r@ == (match known_name(self.contacts@, self.seen@, *addr) {
                Some(n) => n,
                None => hex_text(addr@.take(4)) + "\u{2026}"@,
            }),
    {
        match self.contacts.get(addr) {
            Some(n) => n.clone(),
            None => match self.seen.get(addr) {
                Some(e) => e.0.clone(),
                None => {
                    let head = slice_subrange(addr.as_slice(), 0, 4);
                    assert(head@ =~= addr@.take(4));
                    join2(hex(head).as_str(), "\u{2026}")
                },
            },
        }
    }
}

} // verus!
