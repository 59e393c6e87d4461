//! What becomes of a message that came in, and what its thread shows of it.
use vstd::prelude::*;

use crate::address::{addresses_in, Address};
use crate::float::as_seconds;
use crate::hex::hex_text;
use crate::inbox::{
    author_name, delivered, fresh_among, has_found, label_name, last_filtered, newest, remembered,
    shown_text, spotted, with_all_found, with_found, worth_keeping, Delivery, Inbox, Spotted,
};
use crate::message::{ticket_in, ParsedMessage};
use crate::outbox::{bubble, mark_of, DeliveryUpdate};
use crate::storage::{found_models, FoundModel, Held, HeldModel};
use crate::text::{decimal_text, text_of};
use crate::threads::{
    after_opening, back_words, first_chars, idle_words, latest, marks_for, marks_taken, next_ts,
    opened, unread_words, waiting_since,
};

verus! {

/// The identifiers of the last 64 messages are remembered, the newest last; the oldest
/// goes.
pub proof fn the_last_sixty_four_are_remembered(recent: Seq<[u8; 32]>, id: [u8; 32])
    ensures
        remembered(recent, id).last() == id,
        recent.len() < 64 ==> remembered(recent, id) == recent.push(id),
        recent.len() == 64 ==> remembered(recent, id) == recent.subrange(1, 64).push(id),
{
    if recent.len() == 64 {
        assert(remembered(recent, id) =~= recent.subrange(1, 64).push(id));
    }
}

/// A peer goes by the name it has as a contact; without one by the name it announced;
/// without that by the digits of its address, of which a label shows the first eight.
pub proof fn a_peer_goes_by_its_best_name(
    contacts: Map<Address, String>,
    seen: Map<Address, (String, u64)>,
    peer: Address,
)
    ensures
        contacts.contains_key(peer) ==> author_name(contacts, seen, peer) == contacts[peer]@
            && label_name(contacts, seen, peer) == contacts[peer]@,
        !contacts.contains_key(peer) && seen.contains_key(peer) ==> author_name(
            contacts,
            seen,
            peer,
        ) == seen[peer].0@ && label_name(contacts, seen, peer) == seen[peer].0@,
        !contacts.contains_key(peer) && !seen.contains_key(peer) ==> author_name(
            contacts,
            seen,
            peer,
        ) == hex_text(peer@) && label_name(contacts, seen, peer) == hex_text(peer@).take(8),
{
    assert(peer@.len() == 16);
    assert(hex_text(peer@.take(4)) =~= hex_text(peer@).take(8));
}

/// A message is shown with its content first; a warning follows where its signature was
/// not verified, and a sign where it came from the propagation node. Nothing is added to
/// a verified message that came direct.
pub proof fn a_message_shows_its_content(content: Seq<char>, validated: bool, live: bool)
    ensures
        ({
            let shown = shown_text(content, validated, live);
            &&& shown.len() >= content.len() && shown.take(content.len() as int) == content
            &&& validated && live ==> shown == content
            &&& !validated && live ==> shown == content + "  \u{26a0}(unverified)"@
            &&& validated && !live ==> shown == content + seq![' ', ' ', '\u{bb}']
            &&& !validated && !live ==> shown == content + "  \u{26a0}(unverified)"@ + seq![
                ' ',
                ' ',
                '\u{bb}',
            ]
        }),
{
    reveal_strlit("  ");
    reveal_strlit("\u{bb}");
    assert("  "@ =~= seq![' ', ' ']);
    assert("\u{bb}"@ =~= seq!['\u{bb}']);
    let shown = shown_text(content, validated, live);
    assert(shown.take(content.len() as int) =~= content);
    let base = if validated {
        content
    } else {
        content + "  \u{26a0}(unverified)"@
    };
    assert(base + "  "@ + "\u{bb}"@ =~= base + seq![' ', ' ', '\u{bb}']);
}

/// Of the addresses in a text those are offered that are neither our own, nor the
/// sender's, nor a contact's, in their order.
pub proof fn only_new_addresses_are_offered(
    before: Seq<Address>,
    a: Address,
    ours: Address,
    src: Address,
    contacts: Map<Address, String>,
)
    ensures
        fresh_among(Seq::empty(), ours, src, contacts) == Seq::<Address>::empty(),
        fresh_among(before.push(a), ours, src, contacts) == (if a != ours && a != src
            && !contacts.contains_key(a) {
            fresh_among(before, ours, src, contacts).push(a)
        } else {
            fresh_among(before, ours, src, contacts)
        }),
        spotted(a, ours, src, contacts) == Spotted::Own <==> a == ours,
        spotted(a, ours, src, contacts) == Spotted::Sender <==> a != ours && a == src,
        spotted(a, ours, src, contacts) == Spotted::Saved <==> a != ours && a != src
            && contacts.contains_key(a),
{
    reveal(Seq::filter);
    assert(before.push(a).drop_last() =~= before);
}

/// What is said of addresses that are not offered is said of the last of them: that it
/// is our own, the sender's, or saved under its name.
pub proof fn the_last_known_address_is_named(
    before: Seq<Address>,
    a: Address,
    ours: Address,
    src: Address,
    author: Seq<char>,
    contacts: Map<Address, String>,
)
    ensures
        last_filtered(Seq::empty(), ours, src, author, contacts) is None,
        last_filtered(before.push(a), ours, src, author, contacts) == (if a == ours {
            Some("that address is this device's own"@)
        } else if a == src {
            Some("that's "@ + author + "'s address (already a contact)"@)
        } else if contacts.contains_key(a) {
            Some("address already saved as "@ + contacts[a]@)
        } else {
            last_filtered(before, ours, src, author, contacts)
        }),
{
    assert(before.push(a).drop_last() =~= before);
}

/// An address is listed once, at the end, with whom it came from and when; one that is
/// listed stays where it is. The sixteen newest are kept.
pub proof fn an_address_is_listed_once(
    list: Seq<FoundModel>,
    fresh: Seq<Address>,
    a: Address,
    author: Seq<char>,
    now: u64,
)
    ensures
        has_found(list, a@) ==> with_found(list, a@, author, now) == list,
        (forall|i: int| 0 <= i < list.len() ==> (#[trigger] list[i]).0 != a@) ==> with_found(
            list,
            a@,
            author,
            now,
        ) == list.push((a@, author, now)),
        with_all_found(list, Seq::empty(), author, now) == list,
        with_all_found(list, fresh.push(a), author, now) == with_found(
            with_all_found(list, fresh, author, now),
            a@,
            author,
            now,
        ),
        list.len() <= 16 ==> newest(list, 16) == list,
        list.len() > 16 ==> newest(list, 16) == list.subrange(list.len() - 16, list.len() as int),
{
    assert(fresh.push(a).drop_last() =~= fresh);
}

/// A ticket is kept that is not over, and that ends no earlier than the one that is
/// there.
pub proof fn the_later_ticket_is_kept(
    tickets: Map<Address, (u64, [u8; 16])>,
    src: Address,
    expires: nat,
    now: u64,
)
    ensures
        expires <= now ==> !worth_keeping(tickets, src, expires, now),
        expires > now && !tickets.contains_key(src) ==> worth_keeping(tickets, src, expires, now),
        expires > now && tickets.contains_key(src) ==> (worth_keeping(tickets, src, expires, now)
            <==> tickets[src].0 <= expires),
{
}

/// A message that is delivered: it bears the sender's name and its own time and text,
/// its identifier is remembered, its sender is a contact, and no other contact changes.
/// It shows where its thread is open; else it waits behind those that wait, counts as
/// one more unread, and no other thread changes.
pub proof fn a_delivered_message_shows_or_waits(
    before: Inbox,
    after: Inbox,
    m: ParsedMessage,
    raw: Seq<u8>,
    live: bool,
    now: u64,
    d: Delivery,
    other: Address,
)
    requires
        delivered(before, after, m, raw, live, now, d),
        other != m.source_hash,
    ensures
        ({
            let src = m.source_hash;
            &&& before.contacts@.contains_key(src) ==> d.author@ == before.contacts@[src]@
            &&& after.contacts@.contains_key(src) && after.contacts@[src]@ == d.author@
            &&& before.contacts@.contains_key(other) <==> after.contacts@.contains_key(other)
            &&& before.contacts@.contains_key(other) ==> after.contacts@[other]
                == before.contacts@[other]
            &&& m.signature_validated && live ==> d.text@ == text_of(m.content@)
            &&& d.text@.take(text_of(m.content@).len() as int) == text_of(m.content@)
            &&& d.ts == as_seconds(m.timestamp as nat)
            &&& after.recent@.last() == m.message_id
            &&& d.shown <==> before.current_peer == Some(src)
            &&& d.shown ==> {
                &&& after.last_ts >= d.ts && after.last_ts >= before.last_ts
                &&& after.last_ts == d.ts || after.last_ts == before.last_ts
                &&& after.pending == before.pending
                &&& after.unread == before.unread
            }
            &&& !d.shown ==> {
                &&& after.held_for(src) == before.held_for(src).push((d.author@, d.ts, d.text@))
                &&& before.unread_of(src) < u32::MAX ==> after.unread_of(src) == before.unread_of(
                    src,
                ) + 1
                &&& after.unread@.contains_key(src)
                &&& after.held_for(other) == before.held_for(other)
                &&& after.unread_of(other) == before.unread_of(other)
                &&& after.last_ts == before.last_ts
            }
        }),
{
    let src = m.source_hash;
    a_message_shows_its_content(text_of(m.content@), m.signature_validated, live);
    the_last_sixty_four_are_remembered(before.recent@, m.message_id);
    let rest = before.contacts@.remove(src);
    assert(rest.contains_key(other) == before.contacts@.contains_key(other));
    assert(after.contacts@.remove(src).contains_key(other) == after.contacts@.contains_key(other));
    if before.contacts@.contains_key(other) {
        assert(rest[other] == before.contacts@[other]);
        assert(after.contacts@.remove(src)[other] == after.contacts@[other]);
    }
    if !d.shown {
        assert(after.pending@.remove(src).contains_key(other) == after.pending@.contains_key(
            other,
        ));
        assert(before.pending@.remove(src).contains_key(other) == before.pending@.contains_key(
            other,
        ));
        assert(after.unread@.remove(src).contains_key(other) == after.unread@.contains_key(other));
        assert(before.unread@.remove(src).contains_key(other) == before.unread@.contains_key(
            other,
        ));
        if before.pending@.contains_key(other) {
            assert(after.pending@.remove(src)[other] == after.pending@[other]);
            assert(before.pending@.remove(src)[other] == before.pending@[other]);
        }
        if before.unread@.contains_key(other) {
            assert(after.unread@.remove(src)[other] == after.unread@[other]);
            assert(before.unread@.remove(src)[other] == before.unread@[other]);
        }
    }
}

/// The addresses in what a message shows are offered: those that are new are listed with
/// the sender's name and the time, the sixteen newest of all are kept, and that there are
/// some is said. Where none is new, nothing is listed, and the last one that is known is
/// named.
pub proof fn addresses_of_a_message_are_offered(
    before: Inbox,
    after: Inbox,
    m: ParsedMessage,
    raw: Seq<u8>,
    live: bool,
    now: u64,
    d: Delivery,
)
    requires
        delivered(before, after, m, raw, live, now, d),
    ensures
        ({
            let all = addresses_in(d.text@);
            let fresh = fresh_among(all, before.our_dh, m.source_hash, after.contacts@);
            let listed = with_all_found(found_models(before.found@), fresh, d.author@, now);
            let known = last_filtered(
                all,
                before.our_dh,
                m.source_hash,
                d.author@,
                after.contacts@,
            );
            &&& d.addresses <==> fresh.len() > 0
            &&& d.addresses ==> found_models(after.found@) == newest(listed, 16)
            &&& !d.addresses ==> found_models(after.found@) == found_models(before.found@)
            &&& d.addresses ==> (d.note matches Some(n) && n@
                == "address received \u{2014} menu \u{2192} Import contact"@)
            &&& !d.addresses ==> (d.note is Some <==> known is Some)
            &&& !d.addresses && d.note is Some ==> Some(d.note->0@) == known
        }),
{
}

/// A ticket counts only from a sender whose signature was verified. Without that the
/// whole message is kept, and the tickets stay as they are; what is kept of other senders
/// stays.
pub proof fn a_ticket_needs_a_signature(
    before: Inbox,
    after: Inbox,
    m: ParsedMessage,
    raw: Seq<u8>,
    live: bool,
    now: u64,
    d: Delivery,
    other: Address,
)
    requires
        delivered(before, after, m, raw, live, now, d),
        other != m.source_hash,
    ensures
        !m.signature_validated ==> d.ticket is None && after.tickets@ == before.tickets@,
        ticket_in(m.fields@) is None ==> d.ticket is None && after.tickets@ == before.tickets@
            && after.ticket_pending@ == before.ticket_pending@,
        ticket_in(m.fields@) is Some && !m.signature_validated
            ==> after.ticket_pending@.contains_key(m.source_hash)
            && after.ticket_pending@[m.source_hash]@ == raw,
        ticket_in(m.fields@) matches Some((expires, ticket)) ==> (m.signature_validated && expires
            > now && !before.tickets@.contains_key(m.source_hash)
            ==> after.tickets@.contains_key(m.source_hash) && after.tickets@[m.source_hash].0
            == expires && after.tickets@[m.source_hash].1@ == ticket),
        m.signature_validated ==> after.ticket_pending@ == before.ticket_pending@,
        before.ticket_pending@.contains_key(other) <==> after.ticket_pending@.contains_key(other),
        before.ticket_pending@.contains_key(other) ==> after.ticket_pending@[other]
            == before.ticket_pending@[other],
{
    let src = m.source_hash;
    assert(after.ticket_pending@.remove(src).contains_key(other)
        == after.ticket_pending@.contains_key(other));
    assert(before.ticket_pending@.remove(src).contains_key(other)
        == before.ticket_pending@.contains_key(other));
    if before.ticket_pending@.contains_key(other) {
        assert(after.ticket_pending@.remove(src)[other] == after.ticket_pending@[other]);
        assert(before.ticket_pending@.remove(src)[other] == before.ticket_pending@[other]);
    }
}

/// Our own message bears the time of the clock, or the second after the latest shown
/// where the clock is not past that.
pub proof fn an_own_message_bears_the_clock(now: u64, last: u64)
    ensures
        now > last ==> next_ts(now, last) == now,
        now <= last ==> next_ts(now, last) == last + 1,
{
}

/// Opening a thread remembers the one that was open; opening the open one forgets
/// nothing.
pub proof fn opening_remembers_the_last(
    current: Option<Address>,
    prev: Option<Address>,
    addr: Address,
)
    ensures
        after_opening(current, prev, addr).0 == Some(addr),
        current == Some(addr) ==> after_opening(current, prev, addr).1 == prev,
        current != Some(addr) ==> after_opening(current, prev, addr).1 == current,
{
}

/// The latest of some times and of the messages that wait: none of them is later, and
/// it is one of them.
pub proof fn the_latest_is_not_passed(v: Seq<HeldModel>, last: u64)
    ensures
        latest(v, last) >= last,
        forall|i: int| 0 <= i < v.len() ==> (#[trigger] v[i]).1 <= latest(v, last),
        latest(v, last) == last || exists|i: int|
            0 <= i < v.len() && (#[trigger] v[i]).1 == latest(v, last),
    decreases v.len(),
{
    if v.len() > 0 {
        let front = v.drop_last();
        the_latest_is_not_passed(front, last);
        let m = latest(front, last);
        assert forall|i: int| 0 <= i < v.len() implies (#[trigger] v[i]).1 <= latest(v, last) by {
            if i < front.len() {
                assert(front[i] == v[i]);
            }
        }
        if latest(v, last) != last {
            if v.last().1 > m {
                assert(v[v.len() - 1].1 == latest(v, last));
            } else {
                let i = choose|i: int|
                    0 <= i < front.len() && (#[trigger] front[i]).1 == latest(front, last);
                assert(v[i] == front[i]);
            }
        }
    }
}

/// Opening a thread hands out what waits for it, in its order, and nothing is unread in
/// it from there; the other threads stay as they are.
pub proof fn an_opened_thread_is_read(
    before: Inbox,
    after: Inbox,
    prev: Option<Address>,
    prev_after: Option<Address>,
    addr: Address,
    queued: Seq<HeldModel>,
    other: Address,
)
    requires
        opened(before, after, prev, prev_after, addr, queued),
        other != addr,
    ensures
        queued == before.held_for(addr),
        after.current_peer == Some(addr),
        after.held_for(addr).len() == 0 && after.unread_of(addr) == 0,
        after.held_for(other) == before.held_for(other),
        after.unread_of(other) == before.unread_of(other),
        after.last_ts >= before.last_ts,
        forall|i: int| 0 <= i < queued.len() ==> (#[trigger] queued[i]).1 <= after.last_ts,
        after.last_ts == latest(queued, before.last_ts),
        prev_after == (if before.current_peer == Some(addr) {
            prev
        } else {
            before.current_peer
        }),
        after.contacts@ == before.contacts@ && after.seen@ == before.seen@,
        after.recent@ == before.recent@ && after.found@ == before.found@,
        after.tickets@ == before.tickets@ && after.ticket_pending@ == before.ticket_pending@,
        after.our_dh == before.our_dh,
{
    the_latest_is_not_passed(before.held_for(addr), before.last_ts);
}

/// A bubble is its text, two spaces and its mark: a tick for delivered (1), a double
/// angle for queued (2), and a cross for anything else.
pub proof fn a_bubble_bears_its_mark(text: Seq<char>, status: u8)
    ensures
        bubble(text, mark_of(status)) == text + seq![
            ' ',
            ' ',
            if status == 1 {
                '\u{2713}'
            } else if status == 2 {
                '\u{bb}'
            } else {
                '\u{d7}'
            },
        ],
{
    reveal_strlit("  ");
    reveal_strlit("\u{bb}");
    reveal_strlit("\u{2713}");
    reveal_strlit("\u{d7}");
    assert("  "@ =~= seq![' ', ' ']);
    assert("\u{bb}"@ =~= seq!['\u{bb}']);
    assert("\u{2713}"@ =~= seq!['\u{2713}']);
    assert("\u{d7}"@ =~= seq!['\u{d7}']);
    assert(bubble(text, mark_of(status)) =~= text + seq![
        ' ',
        ' ',
        if status == 1 {
            '\u{2713}'
        } else if status == 2 {
            '\u{bb}'
        } else {
            '\u{d7}'
        },
    ]);
}

/// The marks that wait for a thread are taken all, once, in their order, each for the
/// bubble of its time.
pub proof fn waiting_marks_are_taken_once(
    before: Map<Address, Vec<DeliveryUpdate>>,
    after: Map<Address, Vec<DeliveryUpdate>>,
    peer: Address,
    r: Seq<(u64, String)>,
    other: Address,
)
    requires
        marks_taken(before, after, peer, r),
        other != peer,
    ensures
        before.contains_key(peer) ==> r.len() == before[peer]@.len() && forall|i: int|
            0 <= i < r.len() ==> (#[trigger] r[i]).0 == before[peer]@[i].display_ts && r[i].1@
                == bubble(before[peer]@[i].text@, mark_of(before[peer]@[i].status)),
        !before.contains_key(peer) ==> r.len() == 0,
        !after.contains_key(peer),
        marks_for(after, peer).len() == 0,
        marks_for(after, other) == marks_for(before, other),
{
}

/// A thread waits since the first of its messages; one with none never did.
pub proof fn a_thread_waits_since_its_first(pending: Map<Address, Vec<Held>>, peer: Address)
    ensures
        pending.contains_key(peer) && pending[peer]@.len() > 0 ==> waiting_since(pending, peer)
            == pending[peer]@[0].1,
        !pending.contains_key(peer) || pending[peer]@.len() == 0 ==> waiting_since(pending, peer)
            == u64::MAX,
{
}

/// The words of the bar below: the open thread under its name; the thread with unread
/// messages under the first eight characters of its name, with their number; the way
/// back under the first ten.
pub proof fn the_bar_names_the_threads(label: Seq<char>, n: nat)
    ensures
        idle_words(Some(label)) == seq!['\u{25c9}', ' '] + label,
        idle_words(None) == Seq::<char>::empty(),
        unread_words(Some((label, n))) == seq!['\u{2709}'] + first_chars(label, 8) + seq![' ']
            + decimal_text(n),
        unread_words(None) == Seq::<char>::empty(),
        back_words(Some(label)) == seq!['\u{21a9}'] + first_chars(label, 10),
        back_words(None) == Seq::<char>::empty(),
        label.len() <= 8 ==> first_chars(label, 8) == label,
        label.len() > 8 ==> first_chars(label, 8) == label.take(8),
        label.len() <= 10 ==> first_chars(label, 10) == label,
        label.len() > 10 ==> first_chars(label, 10) == label.take(10),
{
    reveal_strlit("\u{25c9} ");
    reveal_strlit("");
    reveal_strlit(" ");
    reveal_strlit("\u{2709}");
    reveal_strlit("\u{21a9}");
    assert("\u{25c9} "@ =~= seq!['\u{25c9}', ' ']);
    assert(" "@ =~= seq![' ']);
    assert("\u{2709}"@ =~= seq!['\u{2709}']);
    assert("\u{21a9}"@ =~= seq!['\u{21a9}']);
    assert(""@ =~= Seq::empty());
}

} // verus!
