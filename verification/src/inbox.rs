//! Inbound messages: dropping duplicates, naming the author, spotting addresses
//! and tickets, and showing a message or holding it for its thread.
use vstd::prelude::*;
use vstd::slice::slice_subrange;

use crate::address::{
    addresses_in, extract_addresses, same_address, same_digest, Address,
};
use crate::book::Book;
use crate::bytes::{first16, to_vec};
use crate::float::{as_seconds, double_to_u64};
use crate::hex::{hex, hex_text};
use crate::message::{extract_ticket, ticket_in, InboundTicket, ParsedMessage};
use crate::outbox::{bubble, bubble_text, MARK_SYNCED};
use crate::storage::{found_models, held_models, Found, FoundModel, Held, HeldModel};
use crate::text::{join2, join3, text_of};

verus! {

/// How many message identifiers are remembered.
pub const MAX_RECENT: usize = 64;

/// How many addresses that came in messages are remembered.
pub const MAX_FOUND_ADDRS: usize = 16;

// ---------------------------------------------------------------------------
// Duplicates
// ---------------------------------------------------------------------------

/// The identifiers remembered after one more: the oldest goes where there are too
/// many.
pub open spec fn remembered(recent: Seq<[u8; 32]>, id: [u8; 32]) -> Seq<[u8; 32]> {
    let all = recent.push(id);
    if all.len() > MAX_RECENT {
        all.skip(1)
    } else {
        all
    }
}

/// Remembers the identifier of a message; false where it was remembered already.
pub fn remember_id(recent: &mut Vec<[u8; 32]>, id: &[u8; 32]) -> (fresh: bool)
    ensures
        fresh == !old(recent)@.contains(*id),
        fresh ==> final(recent)@ == remembered(old(recent)@, *id),
        !fresh ==> *final(recent) == *old(recent),
{
    let mut i: usize = 0;
    while i < recent.len()
        invariant
            i <= recent@.len(),
            *recent == *old(recent),
            forall|k: int| 0 <= k < i ==> recent@[k] != *id,
        decreases recent@.len() - i,
    {
        if same_digest(&recent[i], id) {
            assert(recent@[i as int] == *id);
            return false;
        }
        i += 1;
    }
    recent.push(*id);
    if recent.len() > MAX_RECENT {
        recent.remove(0);
        assert(recent@ =~= old(recent)@.push(*id).skip(1));
    }
    true
}

/// A message is new once: its identifier is remembered, all identifiers differ,
/// and there are never more than `MAX_RECENT` of them.
pub proof fn a_message_is_new_once(recent: Seq<[u8; 32]>, id: [u8; 32])
    requires
        recent.no_duplicates(),
        recent.len() <= MAX_RECENT,
        !recent.contains(id),
    ensures
        remembered(recent, id).contains(id),
        remembered(recent, id).no_duplicates(),
        remembered(recent, id).len() <= MAX_RECENT,
{
    let all = recent.push(id);
    let r = remembered(recent, id);
    assert(r.last() == id);
    assert forall|i: int, j: int| 0 <= i < all.len() && 0 <= j < all.len() && i != j implies all[i]
        != all[j] by {
        if i == recent.len() {
            assert(recent.contains(recent[j]));
        } else if j == recent.len() {
            assert(recent.contains(recent[i]));
        }
    }
}

// ---------------------------------------------------------------------------
// Names
// ---------------------------------------------------------------------------

/// The name of a peer: as a contact, else as it announced itself.
pub open spec fn known_name(
    contacts: Map<Address, String>,
    seen: Map<Address, (String, u64)>,
    peer: Address,
) -> Option<Seq<char>> {
    if contacts.contains_key(peer) {
        Some(contacts[peer]@)
    } else if seen.contains_key(peer) {
        Some(seen[peer].0@)
    } else {
        None
    }
}

/// The name of a peer, else its whole address.
pub open spec fn author_name(
    contacts: Map<Address, String>,
    seen: Map<Address, (String, u64)>,
    peer: Address,
) -> Seq<char> {
    match known_name(contacts, seen, peer) {
        Some(n) => n,
        None => hex_text(peer@),
    }
}

/// The name of a peer, else the start of its address.
pub open spec fn label_name(
    contacts: Map<Address, String>,
    seen: Map<Address, (String, u64)>,
    peer: Address,
) -> Seq<char> {
    match known_name(contacts, seen, peer) {
        Some(n) => n,
        None => hex_text(peer@.take(4)),
    }
}

fn name_of(contacts: &Book<String>, seen: &Book<(String, u64)>, peer: &Address) -> (r: Option<String>)
    requires
        contacts.wf(),
        seen.wf(),
    ensures
        match r {
            Some(s) => known_name(contacts@, seen@, *peer) == Some(s@),
            None => known_name(contacts@, seen@, *peer) is None,
        },
{
    match contacts.get(peer) {
        Some(n) => Some(n.clone()),
        None => match seen.get(peer) {
            Some(e) => Some(e.0.clone()),
            None => None,
        },
    }
}

/// The name of a peer, else its whole address.
pub fn author_of(contacts: &Book<String>, seen: &Book<(String, u64)>, peer: &Address) -> (r: String)
    requires
        contacts.wf(),
        seen.wf(),
    ensures
        r@ == author_name(contacts@, seen@, *peer),
{
    match name_of(contacts, seen, peer) {
        Some(n) => n,
        None => hex(peer.as_slice()),
    }
}

/// A short label for a peer: its name, else the start of its address.
pub fn peer_label(contacts: &Book<String>, seen: &Book<(String, u64)>, peer: &Address) -> (r: String)
    requires
        contacts.wf(),
        seen.wf(),
    ensures
        r@ == label_name(contacts@, seen@, *peer),
{
    match name_of(contacts, seen, peer) {
        Some(n) => n,
        None => {
            let head = slice_subrange(peer.as_slice(), 0, 4);
            assert(head@ =~= peer@.take(4));
            hex(head)
        },
    }
}

// ---------------------------------------------------------------------------
// The text of a message
// ---------------------------------------------------------------------------

/// What is shown of a message: its content, a warning where the signature was not
/// valid, and a mark where it came by way of the propagation node.
pub open spec fn shown_text(content: Seq<char>, validated: bool, live: bool) -> Seq<char> {
    let t = if validated {
        content
    } else {
        content + "  \u{26a0}(unverified)"@
    };
    if live {
        t
    } else {
        bubble(t, MARK_SYNCED@)
    }
}

/// What is shown of a message.
pub fn message_text(m: &ParsedMessage, live: bool) -> (r: String)
    ensures
        r@ == shown_text(text_of(m.content@), m.signature_validated, live),
{
    let mut text = m.content_string();
    if !m.signature_validated {
        text.append("  \u{26a0}(unverified)");
    }
    if live {
        text
    } else {
        bubble_text(text.as_str(), MARK_SYNCED)
    }
}

// ---------------------------------------------------------------------------
// Addresses in a message
// ---------------------------------------------------------------------------

/// What an address in a message is.
#[derive(Debug, Clone, Copy, PartialEq, Eq, Structural)]
pub enum Spotted {
    /// Our own.
    Own,
    /// The sender's.
    Sender,
    /// A contact's.
    Saved,
    /// One that can be imported.
    Fresh,
}

/// What the address `a` in a message from `src` is.
pub open spec fn spotted(
    a: Address,
    ours: Address,
    src: Address,
    contacts: Map<Address, String>,
) -> Spotted {
    if a == ours {
        Spotted::Own
    } else if a == src {
        Spotted::Sender
    } else if contacts.contains_key(a) {
        Spotted::Saved
    } else {
        Spotted::Fresh
    }
}

/// Why an address is not importable, for the status line.
pub open spec fn filtered_words(
    a: Address,
    ours: Address,
    src: Address,
    author: Seq<char>,
    contacts: Map<Address, String>,
) -> Seq<char> {
    match spotted(a, ours, src, contacts) {
        Spotted::Own => "that address is this device's own"@,
        Spotted::Sender => "that's "@ + author + "'s address (already a contact)"@,
        _ => "address already saved as "@ + contacts[a]@,
    }
}

/// The importable ones among `all`, in order.
pub open spec fn fresh_among(
    all: Seq<Address>,
    ours: Address,
    src: Address,
    contacts: Map<Address, String>,
) -> Seq<Address> {
    all.filter(|a: Address| spotted(a, ours, src, contacts) == Spotted::Fresh)
}

/// Why the last one of `all` that is not importable is not.
pub open spec fn last_filtered(
    all: Seq<Address>,
    ours: Address,
    src: Address,
    author: Seq<char>,
    contacts: Map<Address, String>,
) -> Option<Seq<char>>
    decreases all.len(),
{
    if all.len() == 0 {
        None
    } else if spotted(all.last(), ours, src, contacts) != Spotted::Fresh {
        Some(filtered_words(all.last(), ours, src, author, contacts))
    } else {
        last_filtered(all.drop_last(), ours, src, author, contacts)
    }
}

/// Parts the addresses in a message into importable ones, and a word on the last
/// of the others.
pub fn sift_addresses(
    all: &Vec<Address>,
    ours: &Address,
    src: &Address,
    author: &str,
    contacts: &Book<String>,
) -> (r: (Vec<Address>, Option<String>))
    requires
        contacts.wf(),
    ensures
        r.0@ == fresh_among(all@, *ours, *src, contacts@),
        match r.1 {
            Some(w) => last_filtered(all@, *ours, *src, author@, contacts@) == Some(w@),
            None => last_filtered(all@, *ours, *src, author@, contacts@) is None,
        },
{
    let ghost keep = |a: Address| spotted(a, *ours, *src, contacts@) == Spotted::Fresh;
    let mut fresh: Vec<Address> = Vec::new();
    let mut why: Option<String> = None;
    let mut i: usize = 0;
    assert(all@.take(0).filter(keep) =~= Seq::<Address>::empty());
    while i < all.len()
        invariant
            i <= all@.len(),
            contacts.wf(),
            keep == (|a: Address| spotted(a, *ours, *src, contacts@) == Spotted::Fresh),
            fresh@ == all@.take(i as int).filter(keep),
            match why {
                Some(w) => last_filtered(all@.take(i as int), *ours, *src, author@, contacts@)
                    == Some(w@),
                None => last_filtered(
                    all@.take(i as int),
                    *ours,
                    *src,
                    author@,
                    contacts@,
                ) is None,
            },
        decreases all@.len() - i,
    {
        let a = all[i];
        proof {
            let t = all@.take(i + 1);
            assert(t.drop_last() =~= all@.take(i as int));
            assert(t.last() == a);
            reveal(Seq::filter);
        }
        if same_address(&a, ours) {
            why = Some(String::from_str("that address is this device's own"));
        } else if same_address(&a, src) {
            why = Some(join3("that's ", author, "'s address (already a contact)"));
        } else {
            match contacts.get(&a) {
                Some(n) => {
                    why = Some(join2("address already saved as ", n.as_str()));
                },
                None => {
                    fresh.push(a);
                },
            }
        }
        i += 1;
    }
    assert(all@.take(all@.len() as int) =~= all@);
    (fresh, why)
}

/// `list` has an entry for the address `a`.
pub open spec fn has_found(list: Seq<FoundModel>, a: Seq<u8>) -> bool {
    exists|i: int| 0 <= i < list.len() && (#[trigger] list[i]).0 == a
}

/// The list after one more address; one that is there already is left alone.
pub open spec fn with_found(
    list: Seq<FoundModel>,
    a: Seq<u8>,
    author: Seq<char>,
    now: u64,
) -> Seq<FoundModel> {
    if has_found(list, a) {
        list
    } else {
        list.push((a, author, now))
    }
}

/// The list after several more addresses.
pub open spec fn with_all_found(
    list: Seq<FoundModel>,
    fresh: Seq<Address>,
    author: Seq<char>,
    now: u64,
) -> Seq<FoundModel>
    decreases fresh.len(),
{
    if fresh.len() == 0 {
        list
    } else {
        with_found(
            with_all_found(list, fresh.drop_last(), author, now),
            fresh.last()@,
            author,
            now,
        )
    }
}

/// The last `n` of `s`, or all of them.
pub open spec fn newest<T>(s: Seq<T>, n: nat) -> Seq<T> {
    if s.len() > n {
        s.skip(s.len() - n)
    } else {
        s
    }
}

/// Remembers importable addresses; the oldest go where there are too many.
pub fn remember_found(found: &mut Vec<Found>, fresh: &Vec<Address>, author: &str, now: u64)
    ensures
        found_models(final(found)@) == newest(
            with_all_found(found_models(old(found)@), fresh@, author@, now),
            MAX_FOUND_ADDRS as nat,
        ),
{
    let ghost before = found_models(found@);
    let mut i: usize = 0;
    while i < fresh.len()
        invariant
            i <= fresh@.len(),
            found_models(found@) == with_all_found(before, fresh@.take(i as int), author@, now),
        decreases fresh@.len() - i,
    {
        let a = fresh[i];
        let ghost list = found_models(found@);
        proof {
            let t = fresh@.take(i + 1);
            assert(t.drop_last() =~= fresh@.take(i as int));
            assert(t.last() == a);
        }
        let mut there = false;
        let mut k: usize = 0;
        while k < found.len() && !there
            invariant
                k <= found@.len(),
                list == found_models(found@),
                there ==> has_found(list, a@),
                !there ==> forall|x: int| 0 <= x < k ==> (#[trigger] list[x]).0 != a@,
            decreases found@.len() - k,
                if there {
                    0int
                } else {
                    1int
                },
        {
            if same_address(&found[k].0, &a) {
                assert(list[k as int].0 == a@);
                there = true;
            } else {
                assert(list[k as int].0 != a@);
                k += 1;
            }
        }
        if !there {
            assert(!has_found(list, a@));
            found.push((a, String::from_str(author), now));
            assert(found_models(found@) =~= list.push((a@, author@, now)));
        }
        i += 1;
    }
    assert(fresh@.take(fresh@.len() as int) =~= fresh@);
    let ghost all = found_models(found@);
    assert(all.skip(0) =~= all);
    let ghost mut gone: int = 0;
    while found.len() > MAX_FOUND_ADDRS
        invariant
            0 <= gone <= all.len(),
            found_models(found@) == all.skip(gone),
            gone > 0 ==> found@.len() >= MAX_FOUND_ADDRS,
        decreases found@.len(),
    {
        let ghost f = found_models(found@);
        found.remove(0);
        proof {
            assert(found_models(found@) =~= f.skip(1));
            assert(all.skip(gone).skip(1) =~= all.skip(gone + 1));
            gone = gone + 1;
        }
    }
    proof {
        assert(found_models(found@).len() == found@.len());
    }
}

// ---------------------------------------------------------------------------
// Tickets
// ---------------------------------------------------------------------------

/// A ticket is kept that has not expired and does not expire before the one held.
pub open spec fn worth_keeping(
    tickets: Map<Address, (u64, [u8; 16])>,
    src: Address,
    expires: nat,
    now: u64,
) -> bool {
    expires > now && (!tickets.contains_key(src) || expires >= tickets[src].0)
}

/// Keeps a ticket from `src` if it is worth it.
pub fn store_ticket(
    tickets: &mut Book<(u64, [u8; 16])>,
    src: &Address,
    t: &InboundTicket,
    now: u64,
) -> (kept: bool)
    requires
        old(tickets).wf(),
    ensures
        final(tickets).wf(),
        kept == worth_keeping(old(tickets)@, *src, t.expires as nat, now),
        kept ==> final(tickets)@ == old(tickets)@.insert(*src, (t.expires, t.ticket)),
        !kept ==> final(tickets)@ == old(tickets)@,
{
    if t.expires <= now {
        return false;
    }
    let keep = match tickets.get(src) {
        Some(e) => t.expires >= e.0,
        None => true,
    };
    if keep {
        tickets.insert(*src, (t.expires, t.ticket));
    }
    keep
}

/// The line about a new ticket.
pub open spec fn ticket_words(label: Seq<char>) -> Seq<char> {
    "received a ticket from "@ + label + " \u{2014} you can now reply"@
}

/// The line about a new ticket.
pub fn ticket_note(label: &str) -> (r: String)
    ensures
        r@ == ticket_words(label@),
{
    join3("received a ticket from ", label, " \u{2014} you can now reply")
}

// ---------------------------------------------------------------------------
// Delivery
// ---------------------------------------------------------------------------

/// What inbound messages are held against, and what they change.
pub struct Inbox {
    pub our_dh: Address,
    pub contacts: Book<String>,
    pub seen: Book<(String, u64)>,
    pub recent: Vec<[u8; 32]>,
    pub found: Vec<Found>,
    pub tickets: Book<(u64, [u8; 16])>,
    /// Whole messages with a ticket whose sender's key is not known yet.
    pub ticket_pending: Book<Vec<u8>>,
    /// Messages held for threads that are not open.
    pub pending: Book<Vec<Held>>,
    pub unread: Book<u32>,
    /// The open thread.
    pub current_peer: Option<Address>,
    /// The latest time shown in any thread.
    pub last_ts: u64,
}

impl Inbox {
    pub open spec fn wf(&self) -> bool {
        &&& self.contacts.wf()
        &&& self.seen.wf()
        &&& self.tickets.wf()
        &&& self.ticket_pending.wf()
        &&& self.pending.wf()
        &&& self.unread.wf()
        &&& self.recent@.no_duplicates()
        &&& self.recent@.len() <= MAX_RECENT
    }

    /// The messages held for `peer`.
    pub open spec fn held_for(&self, peer: Address) -> Seq<HeldModel> {
        if self.pending@.contains_key(peer) {
            held_models(self.pending@[peer]@)
        } else {
            Seq::empty()
        }
    }

    /// The number of unread messages from `peer`.
    pub open spec fn unread_of(&self, peer: Address) -> nat {
        if self.unread@.contains_key(peer) {
            self.unread@[peer] as nat
        } else {
            0
        }
    }
}

/// What a delivered message leads to.
pub struct Delivery {
    pub author: String,
    pub text: String,
    pub ts: u64,
    /// A word on the addresses in the message.
    pub note: Option<String>,
    /// The list of importable addresses was added to.
    pub addresses: bool,
    /// A ticket that was kept.
    pub ticket: Option<InboundTicket>,
    /// The message belongs to the open thread; otherwise it is held.
    pub shown: bool,
}

/// The sender of a whole message.
pub fn sender_of(lxmf_bytes: &[u8]) -> (r: Option<Address>)
    ensures
        match r {
            Some(a) => lxmf_bytes@.len() >= 32 && a@ == lxmf_bytes@.subrange(16, 32),
            None => lxmf_bytes@.len() < 32,
        },
{
    if lxmf_bytes.len() < 32 {
        return None;
    }
    let s = slice_subrange(lxmf_bytes, 16, 32);
    let a = first16(s);
    assert(a@ =~= s@);
    Some(a)
}

/// Puts a message at the end of those held for `src`.
fn hold(pending: &mut Book<Vec<Held>>, src: &Address, author: &str, ts: u64, text: &str)
    requires
        old(pending).wf(),
    ensures
        final(pending).wf(),
        final(pending)@.contains_key(*src),
        final(pending)@.remove(*src) == old(pending)@.remove(*src),
        held_models(final(pending)@[*src]@) == (if old(pending)@.contains_key(*src) {
            held_models(old(pending)@[*src]@)
        } else {
            Seq::empty()
        }).push((author@, ts, text@)),
{
    let ghost before = pending@;
    let mut list: Vec<Held> = match pending.remove(src) {
        Some(l) => l,
        None => Vec::new(),
    };
    let ghost o = held_models(list@);
    assert(!before.contains_key(*src) ==> o =~= Seq::<HeldModel>::empty());
    list.push((String::from_str(author), ts, String::from_str(text)));
    assert(held_models(list@) =~= o.push((author@, ts, text@)));
    pending.insert(*src, list);
    assert(pending@.remove(*src) =~= before.remove(*src));
}

/// One more unread message from `src`, up to the end of the counter.
fn count_unread(unread: &mut Book<u32>, src: &Address)
    requires
        old(unread).wf(),
    ensures
        final(unread).wf(),
        ({
            let n: u32 = if old(unread)@.contains_key(*src) {
                old(unread)@[*src]
            } else {
                0
            };
            final(unread)@ == old(unread)@.insert(
                *src,
                if n < u32::MAX {
                    (n + 1) as u32
                } else {
                    n
                },
            )
        }),
{
    let n: u32 = match unread.get(src) {
        Some(n) => *n,
        None => 0,
    };
    unread.insert(*src, n.saturating_add(1));
}

/// What a message that was not delivered before leads to: `before` and `after` are the
/// inbox around its delivery.
pub open spec fn delivered(
    before: Inbox,
    after: Inbox,
    m: ParsedMessage,
    raw: Seq<u8>,
    live: bool,
    now: u64,
    d: Delivery,
) -> bool {
    let src = m.source_hash;
    let author = author_name(before.contacts@, before.seen@, src);
    let fresh = fresh_among(
        addresses_in(d.text@),
        before.our_dh,
        src,
        after.contacts@,
    );
    &&& d.author@ == author
    &&& d.text@ == shown_text(text_of(m.content@), m.signature_validated, live)
    &&& d.ts == as_seconds(m.timestamp as nat)
    &&& d.shown == (before.current_peer == Some(src))
    // The identifier is remembered.
    &&& after.recent@ == remembered(before.recent@, m.message_id)
    // The sender is a contact from now on.
    &&& after.contacts@.contains_key(src)
    &&& after.contacts@[src]@ == author
    &&& after.contacts@.remove(src) == before.contacts@.remove(src)
    // Addresses in the text can be imported.
    &&& d.addresses == (fresh.len() > 0)
    &&& found_models(after.found@) == (if fresh.len() > 0 {
        newest(
            with_all_found(found_models(before.found@), fresh, author, now),
            MAX_FOUND_ADDRS as nat,
        )
    } else {
        found_models(before.found@)
    })
    &&& match d.note {
        Some(n) => if fresh.len() > 0 {
            n@ == "address received \u{2014} menu \u{2192} Import contact"@
        } else {
            last_filtered(
                addresses_in(d.text@),
                before.our_dh,
                src,
                author,
                after.contacts@,
            ) == Some(n@)
        },
        None => fresh.len() == 0 && last_filtered(
            addresses_in(d.text@),
            before.our_dh,
            src,
            author,
            after.contacts@,
        ) is None,
    }
    // A ticket counts from a verified sender only; otherwise the message
    // is kept until the sender's key is known.
    &&& match ticket_in(m.fields@) {
        Some((expires, ticket)) => if m.signature_validated {
            &&& after.ticket_pending@ == before.ticket_pending@
            &&& (d.ticket is Some) == worth_keeping(
                before.tickets@,
                src,
                expires,
                now,
            )
            &&& match d.ticket {
                Some(t) => t.expires == expires && t.ticket@ == ticket
                    && after.tickets@ == before.tickets@.insert(
                    src,
                    (t.expires, t.ticket),
                ),
                None => after.tickets@ == before.tickets@,
            }
        } else {
            &&& d.ticket is None
            &&& after.tickets@ == before.tickets@
            &&& after.ticket_pending@.contains_key(src)
            &&& after.ticket_pending@[src]@ == raw
            &&& after.ticket_pending@.remove(src) == before.ticket_pending@.remove(src)
        },
        None => d.ticket is None && after.tickets@ == before.tickets@
            && after.ticket_pending@ == before.ticket_pending@,
    }
    // Shown at once, or held for its thread.
    &&& if d.shown {
        &&& after.last_ts == if before.last_ts < d.ts {
            d.ts
        } else {
            before.last_ts
        }
        &&& after.pending == before.pending
        &&& after.unread == before.unread
    } else {
        &&& after.last_ts == before.last_ts
        &&& after.held_for(src) == before.held_for(src).push(
            (author, d.ts, d.text@),
        )
        &&& after.pending@.remove(src) == before.pending@.remove(src)
        &&& after.unread@.contains_key(src)
        &&& after.unread@.remove(src) == before.unread@.remove(src)
        &&& after.unread_of(src) == if before.unread_of(src) < u32::MAX {
            before.unread_of(src) + 1
        } else {
            u32::MAX as nat
        }
    }
}

impl Inbox {
    /// Takes a message whose signature was judged; `raw` is the whole message.
    /// Nothing comes of one that was delivered before.
    pub fn deliver(&mut self, m: &ParsedMessage, raw: &[u8], live: bool, now: u64) -> (r: Option<
        Delivery,
    >)
        requires
            old(self).wf(),
        ensures
            final(self).wf(),
            r is None <==> old(self).recent@.contains(m.message_id),
            r is None ==> *final(self) == *old(self),
            final(self).our_dh == old(self).our_dh,
            final(self).seen == old(self).seen,
            final(self).current_peer == old(self).current_peer,
            r matches Some(d) ==> delivered(*old(self), *final(self), *m, raw@, live, now, d),
    {
        if !remember_id(&mut self.recent, &m.message_id) {
            return None;
        }
        proof {
            a_message_is_new_once(old(self).recent@, m.message_id);
        }
        let src = m.source_hash;
        let author = author_of(&self.contacts, &self.seen, &src);
        let text = message_text(m, live);
        let ghost contacts0 = self.contacts@;
        self.contacts.insert(src, author.clone());
        assert(self.contacts@.remove(src) =~= contacts0.remove(src));
        let all = extract_addresses(text.as_str());
        let (fresh, why) = sift_addresses(
            &all,
            &self.our_dh,
            &src,
            author.as_str(),
            &self.contacts,
        );
        let addresses = fresh.len() > 0;
        let note = if addresses {
            remember_found(&mut self.found, &fresh, author.as_str(), now);
            Some(String::from_str("address received \u{2014} menu \u{2192} Import contact"))
        } else {
            why
        };
        let offered = extract_ticket(&m.fields);
        let mut ticket: Option<InboundTicket> = None;
        if let Some(t) = offered {
            if m.signature_validated {
                if store_ticket(&mut self.tickets, &src, &t, now) {
                    ticket = Some(t);
                }
            } else {
                let ghost before = self.ticket_pending@;
                self.ticket_pending.insert(src, to_vec(raw));
                assert(self.ticket_pending@.remove(src) =~= before.remove(src));
            }
        }
        let ts = double_to_u64(m.timestamp);
        let shown = match &self.current_peer {
            Some(p) => same_address(p, &src),
            None => false,
        };
        if shown {
            if self.last_ts < ts {
                self.last_ts = ts;
            }
        } else {
            hold(&mut self.pending, &src, author.as_str(), ts, text.as_str());
            let ghost unread0 = self.unread@;
            count_unread(&mut self.unread, &src);
            assert(self.unread@.remove(src) =~= unread0.remove(src));
        }
        Some(Delivery { author, text, ts, note, addresses, ticket, shown })
    }
}

} // verus!
