//! What follows from what the network brings: the steps for each event, and what an
//! announcement changes.
use vstd::prelude::*;

use crate::address::Address;
use crate::announce::{display_name, stamp_cost};
use crate::frames::{
    heard, steps_for, ticket_recovered, touched, waits_for, woken, Event, Heard, Outlook,
    StepModel,
};
use crate::hex::hex_text;
use crate::inbox::Inbox;
use crate::message::{ticket_in, InboundTicket, ParsedMessage};
use crate::outbox::OutboundMsg;
use crate::transfer::Context;

verus! {

/// Our own announcement is known by its address and nothing follows from it; else the
/// name tells a node that serves pages from a peer, and any other is passed over.
pub proof fn announcements_are_told_apart(e: Event, o: Outlook)
    requires
        e is Announce,
    ensures
        ({
            let dest = e->Announce_destination_hash;
            let name = e->Announce_name_hash;
            let steps = steps_for(e, o);
            &&& dest == o.our_dh ==> steps.len() == 0
            &&& dest != o.our_dh && name == o.node_name ==> steps == seq![StepModel::HearNode]
            &&& dest != o.our_dh && name != o.node_name && name == o.delivery_name ==> steps
                == seq![StepModel::HearPeer]
            &&& name != o.node_name && name != o.delivery_name ==> steps.len() == 0
        }),
{
}

/// A message in a packet is proved, and delivered with the destination in front, which
/// does not travel; one over a link is proved, marks the link as alive and is delivered
/// as it is.
pub proof fn messages_are_proved_and_delivered(e: Event, o: Outlook)
    ensures
        match e {
            Event::Data { destination_hash, plaintext, proof } => {
                let steps = steps_for(e, o);
                &&& steps.len() == 2
                &&& steps[0] == StepModel::Broadcast(proof@)
                &&& steps[1] == StepModel::Deliver(destination_hash@ + plaintext@)
            },
            Event::LinkData { link_id, plaintext, proof } => {
                let steps = steps_for(e, o);
                &&& steps.len() == 3
                &&& steps[0] == StepModel::Broadcast(proof@)
                &&& steps[1] == StepModel::Touch(link_id)
                &&& steps[2] == StepModel::Deliver(plaintext@)
            },
            _ => true,
        },
{
}

/// A peer's link: its proof goes out and the message to come is said; who it is opens
/// the way back over it, and the outbox is looked at; what keeps it alive is answered;
/// its end ends the way back and its transfer.
pub proof fn a_link_of_a_peer_is_kept(e: Event, o: Outlook)
    ensures
        match e {
            Event::LinkEstablished { proof, .. } => steps_for(e, o) == seq![
                StepModel::Broadcast(proof@),
                StepModel::SayIncoming,
            ],
            Event::LinkIdentified { link_id, peer } => steps_for(e, o) == seq![
                StepModel::OpenBackchannel { peer, link: link_id },
                StepModel::Pump,
            ],
            Event::LinkKeepalive { link_id, reply } => steps_for(e, o) == seq![
                StepModel::Broadcast(reply@),
                StepModel::Touch(link_id),
            ],
            Event::InLinkData { .. } => steps_for(e, o) == seq![StepModel::InboundResource],
            Event::InLinkClosed { link_id } => steps_for(e, o) == seq![
                StepModel::DropBackchannel(link_id),
                StepModel::DropTransfer(link_id),
            ],
            Event::Delivered { packet_hash } => steps_for(e, o) == seq![
                StepModel::MarkDelivered(packet_hash),
            ],
            Event::Noise => steps_for(e, o).len() == 0,
            _ => true,
        },
{
}

/// Our own link: its time is measured first, and the outbox is looked at last. We say
/// who we are on it, unless it leads to the propagation node or to the node that a page
/// is fetched from.
pub proof fn a_link_of_ours_is_used(link_id: Address, target: Address, o: Outlook)
    ensures
        ({
            let steps = steps_for(Event::OutboundLinkUp { link_id, target }, o);
            let fetched = o.browser_running && o.browser_node == Some(target);
            &&& steps[0] == StepModel::SendRtt(link_id)
            &&& steps.last() == StepModel::Pump
            &&& steps.contains(StepModel::SyncLinkUp) && steps.contains(StepModel::BrowserLinkUp)
            &&& steps.contains(StepModel::Identify(link_id)) <==> o.pn != Some(target) && !fetched
            &&& steps.len() == 4 || steps.len() == 5
        }),
{
    let steps = steps_for(Event::OutboundLinkUp { link_id, target }, o);
    let n = steps.len();
    assert(steps[n - 3] == StepModel::SyncLinkUp);
    assert(steps[n - 2] == StepModel::BrowserLinkUp);
    if n == 5 {
        assert(steps[1] == StepModel::Identify(link_id));
    }
}

/// Data over a link of ours goes to what the link belongs to: the sync, else the fetch,
/// else a transfer; a request for parts is served first. A closed link is told to each
/// that it belonged to, and to a sync only while it runs.
pub proof fn data_goes_to_the_owner(link_id: Address, context: Context, o: Outlook)
    ensures
        ({
            let steps = steps_for(Event::OutLinkData { link_id, context }, o);
            &&& steps.last() == (if o.sync_link == Some(link_id) {
                StepModel::SyncData
            } else if o.browser_link == Some(link_id) {
                StepModel::BrowserData
            } else {
                StepModel::OutlinkResource
            })
            &&& context == Context::ResourceReq ==> steps.len() == 2 && steps[0]
                == StepModel::Serve
            &&& context != Context::ResourceReq ==> steps.len() == 1
        }),
        ({
            let steps = steps_for(Event::OutLinkClosed { link_id }, o);
            &&& steps.contains(StepModel::SyncLinkClosed) <==> o.sync_running && o.sync_link
                == Some(link_id)
            &&& steps.contains(StepModel::BrowserLinkClosed) <==> o.browser_link == Some(link_id)
            &&& forall|k: int|
                0 <= k < steps.len() ==> (#[trigger] steps[k]) is SyncLinkClosed || steps[k]
                    is BrowserLinkClosed
            &&& steps.len() <= 2
        }),
{
    let steps = steps_for(Event::OutLinkClosed { link_id }, o);
    let sync = o.sync_running && o.sync_link == Some(link_id);
    let browser = o.browser_link == Some(link_id);
    if sync {
        assert(steps[0] == StepModel::SyncLinkClosed);
    }
    if browser {
        assert(steps[steps.len() - 1] == StepModel::BrowserLinkClosed);
    }
}

/// Something over a peer's link marks that link as alive now, and no other.
pub proof fn only_the_link_is_touched(s: Seq<(Address, (Address, u64))>, link: Address, now: u64)
    ensures
        touched(s, link, now).len() == s.len(),
        forall|k: int|
            0 <= k < s.len() ==> {
                let t = #[trigger] touched(s, link, now)[k];
                &&& t.0 == s[k].0 && t.1.0 == s[k].1.0
                &&& t.1.1 == (if s[k].1.0 == link {
                    now
                } else {
                    s[k].1.1
                })
            },
{
}

/// An announcement of a peer makes its waiting messages due: those that were never
/// sent and are not in flight. One that bears no stamp and owes none owes the cost that
/// is announced. Nothing else of a message changes, and no message of another peer.
pub proof fn an_announcement_wakes_its_messages(m: OutboundMsg, peer: Address, cost: Option<u32>)
    ensures
        waits_for(m, peer) <==> m.peer == peer && m.attempts == 0 && m.in_flight is None,
        m.peer != peer || m.attempts > 0 || m.in_flight is Some ==> woken(m, peer, cost) == m,
        m.peer == peer && m.attempts == 0 && m.in_flight is None ==> {
            let w = woken(m, peer, cost);
            &&& w.next_action == 0
            &&& w == (OutboundMsg { next_action: 0, needs_stamp: w.needs_stamp, ..m })
            &&& m.needs_stamp is Some ==> w.needs_stamp == m.needs_stamp
            &&& m.needs_stamp is None && m.stamped ==> w.needs_stamp is None
            &&& m.needs_stamp is None && !m.stamped ==> w.needs_stamp == cost
        },
{
}

/// A peer is heard under the name it announces, or under its digits, at the time it is
/// heard; its cost is the one announced last, or none. A contact keeps its name unless
/// that was a stand-in. No other peer, contact or cost changes.
pub proof fn a_peer_that_is_heard_is_noted(
    before: Inbox,
    after: Inbox,
    costs: Map<Address, u32>,
    costs_after: Map<Address, u32>,
    outbox: Seq<OutboundMsg>,
    outbox_after: Seq<OutboundMsg>,
    dest: Address,
    app_data: Seq<u8>,
    now: u64,
    r: Heard,
    other: Address,
)
    requires
        heard(
            before,
            after,
            costs,
            costs_after,
            outbox,
            outbox_after,
            dest,
            app_data,
            now,
            r,
        ),
        other != dest,
    ensures
        after.seen@.contains_key(dest) && after.seen@[dest].1 == now,
        display_name(app_data) matches Some(n) ==> after.seen@[dest].0@ == n,
        display_name(app_data) is None ==> after.seen@[dest].0@ == hex_text(dest@),
        before.seen@.contains_key(other) <==> after.seen@.contains_key(other),
        before.seen@.contains_key(other) ==> after.seen@[other] == before.seen@[other],
        stamp_cost(app_data) matches Some(c) ==> costs_after.contains_key(dest)
            && costs_after[dest] == c,
        stamp_cost(app_data) is None ==> !costs_after.contains_key(dest),
        costs.contains_key(other) <==> costs_after.contains_key(other),
        costs.contains_key(other) ==> costs_after[other] == costs[other],
        before.contacts@.contains_key(dest) <==> after.contacts@.contains_key(dest),
        before.contacts@.contains_key(dest) && before.contacts@[dest]@ != hex_text(dest@)
            && before.contacts@[dest]@ != hex_text(dest@).take(8).push('\u{2026}')
            ==> after.contacts@[dest]@ == before.contacts@[dest]@,
        before.contacts@.contains_key(dest) && before.contacts@[dest]@ == hex_text(dest@)
            ==> after.contacts@[dest]@ == after.seen@[dest].0@,
        before.contacts@.contains_key(dest) && before.contacts@[dest]@ == hex_text(dest@).take(
            8,
        ).push('\u{2026}') ==> after.contacts@[dest]@ == after.seen@[dest].0@,
        r.save is Some <==> before.contacts@.contains_key(dest),
        r.save is Some ==> r.save->0@ == after.contacts@[dest]@,
        before.contacts@.contains_key(other) <==> after.contacts@.contains_key(other),
        before.contacts@.contains_key(other) ==> after.contacts@[other] == before.contacts@[other],
        r.recover is Some <==> before.ticket_pending@.contains_key(dest),
        r.recover is Some ==> r.recover->0 == before.ticket_pending@[dest],
        r.waking is Some <==> exists|i: int|
            0 <= i < outbox.len() && (#[trigger] outbox[i]).peer == dest && outbox[i].attempts == 0
                && outbox[i].in_flight is None,
        r.waking == Some(true) <==> exists|i: int|
            0 <= i < outbox.len() && (#[trigger] outbox[i]).peer == dest && outbox[i].attempts == 0
                && outbox[i].in_flight is None && outbox[i].awaiting_key,
        outbox_after.len() == outbox.len(),
        forall|k: int|
            0 <= k < outbox.len() && (#[trigger] outbox[k]).peer == dest && outbox[k].attempts == 0
                && outbox[k].in_flight is None ==> outbox_after[k].next_action == 0,
        forall|k: int|
            0 <= k < outbox.len() && (#[trigger] outbox[k]).peer != dest ==> outbox_after[k]
                == outbox[k],
        !after.ticket_pending@.contains_key(dest),
        before.ticket_pending@.contains_key(other) <==> after.ticket_pending@.contains_key(other),
        before.ticket_pending@.contains_key(other) ==> after.ticket_pending@[other]
            == before.ticket_pending@[other],
        after.our_dh == before.our_dh && after.current_peer == before.current_peer,
        after.recent@ == before.recent@ && after.found@ == before.found@,
        after.tickets@ == before.tickets@ && after.pending@ == before.pending@,
        after.unread@ == before.unread@ && after.last_ts == before.last_ts,
{
    assert(after.seen@.remove(dest).contains_key(other) == after.seen@.contains_key(other));
    assert(before.seen@.remove(dest).contains_key(other) == before.seen@.contains_key(other));
    if before.seen@.contains_key(other) {
        assert(after.seen@.remove(dest)[other] == after.seen@[other]);
        assert(before.seen@.remove(dest)[other] == before.seen@[other]);
    }
    assert(after.contacts@.remove(dest).contains_key(other) == after.contacts@.contains_key(
        other,
    ));
    assert(before.contacts@.remove(dest).contains_key(other) == before.contacts@.contains_key(
        other,
    ));
    if before.contacts@.contains_key(other) {
        assert(after.contacts@.remove(dest)[other] == after.contacts@[other]);
        assert(before.contacts@.remove(dest)[other] == before.contacts@[other]);
    }
    if exists|i: int|
        0 <= i < outbox.len() && (#[trigger] outbox[i]).peer == dest && outbox[i].attempts == 0
            && outbox[i].in_flight is None {
        let i = choose|i: int|
            0 <= i < outbox.len() && (#[trigger] outbox[i]).peer == dest && outbox[i].attempts == 0
                && outbox[i].in_flight is None;
        assert(waits_for(outbox[i], dest));
    }
    if exists|i: int|
        0 <= i < outbox.len() && (#[trigger] outbox[i]).peer == dest && outbox[i].attempts == 0
            && outbox[i].in_flight is None && outbox[i].awaiting_key {
        let i = choose|i: int|
            0 <= i < outbox.len() && (#[trigger] outbox[i]).peer == dest && outbox[i].attempts == 0
                && outbox[i].in_flight is None && outbox[i].awaiting_key;
        assert(waits_for(outbox[i], dest));
    }
    reveal_strlit("\u{2026}");
    assert(hex_text(dest@).take(8) + "\u{2026}"@ =~= hex_text(dest@).take(8).push('\u{2026}'));
}

/// A ticket that waited for its sender's key is kept only where the signature is good
/// now; it is the ticket of the message, and its sender's alone.
pub proof fn a_ticket_is_recovered_only_when_signed(
    before: Map<Address, (u64, [u8; 16])>,
    after: Map<Address, (u64, [u8; 16])>,
    src: Address,
    m: ParsedMessage,
    now: u64,
    r: Option<InboundTicket>,
    other: Address,
)
    requires
        ticket_recovered(before, after, src, m, now, r),
        other != src,
    ensures
        !m.signature_validated ==> after == before && r is None,
        ticket_in(m.fields@) is None ==> after == before && r is None,
        ticket_in(m.fields@) matches Some((end, ticket)) ==> {
            &&& end <= now ==> after == before
            &&& m.signature_validated && end > now && !before.contains_key(src)
                ==> after.contains_key(src) && after[src].0 == end && after[src].1@ == ticket
        },
        before.contains_key(other) <==> after.contains_key(other),
        before.contains_key(other) ==> after[other] == before[other],
{
}

} // verus!
