//! What arrives from the network, one event at a time, and the steps that each
//! event calls for.
use vstd::prelude::*;

use crate::address::{same_address, Address};
use crate::announce::{
    announced_node_name, display_name, lxmf_display_name, lxmf_stamp_cost, node_name, stamp_cost,
};
use crate::book::{rank, Book};
use crate::browser::{is_placeholder, placeholder_name};
use crate::bytes::{push_all, same_bytes, to_vec};
use crate::hex::{hex, hex_text};
use crate::inbox::{delivered, store_ticket, worth_keeping, Delivery, Inbox};
use crate::message::{
    extract_ticket, parsed, ticket_in, InboundTicket, MessageModel, ParseError, ParsedMessage,
};
use crate::outbox::{outbox_wf, OutboundMsg};
use crate::text::join2;
use crate::transfer::Context;

verus! {

/// The hash of an aspect's name.
pub type NameHash = [u8; 10];

/// What arrives from the network.
pub enum Event {
    Announce { destination_hash: Address, name_hash: NameHash, app_data: Vec<u8> },
    /// A message in one packet to our destination.
    Data { destination_hash: Address, plaintext: Vec<u8>, proof: Vec<u8> },
    /// A peer's link to us is up.
    LinkEstablished { link_id: Address, proof: Vec<u8> },
    /// A message over a peer's link to us.
    LinkData { link_id: Address, plaintext: Vec<u8>, proof: Vec<u8> },
    /// Other data over a peer's link to us.
    InLinkData { link_id: Address, context: Context },
    /// A peer said on its link who it is.
    LinkIdentified { link_id: Address, peer: Address },
    LinkKeepalive { link_id: Address, reply: Vec<u8> },
    /// A peer closed its link to us.
    InLinkClosed { link_id: Address },
    /// Our link to `target` is up.
    OutboundLinkUp { link_id: Address, target: Address },
    /// A proof for something that we sent.
    Delivered { packet_hash: [u8; 32] },
    /// Data over a link of ours.
    OutLinkData { link_id: Address, context: Context },
    /// A link of ours was closed.
    OutLinkClosed { link_id: Address },
    /// Nothing to act on.
    Noise,
}

/// What else decides on the steps.
pub struct Outlook {
    pub our_dh: Address,
    pub delivery_name: NameHash,
    pub node_name: NameHash,
    /// The propagation node.
    pub pn: Option<Address>,
    pub sync_link: Option<Address>,
    pub sync_running: bool,
    pub browser_link: Option<Address>,
    pub browser_running: bool,
    /// The node that the browser fetches from.
    pub browser_node: Option<Address>,
}

/// One step for an event.
pub enum Step {
    /// Send this out on every interface.
    Broadcast(Vec<u8>),
    /// Deliver this whole message.
    Deliver(Vec<u8>),
    /// Say that a message is coming in.
    SayIncoming,
    /// A node that serves pages announced itself.
    HearNode,
    /// A peer announced itself.
    HearPeer,
    /// The link showed activity.
    Touch(Address),
    /// Take a packet of a transfer on a peer's link.
    InboundResource,
    /// The peer can be answered over its link.
    OpenBackchannel { peer: Address, link: Address },
    /// No peer can be answered over the link any more.
    DropBackchannel(Address),
    /// The transfer on the link is over.
    DropTransfer(Address),
    /// Work on the outbox.
    Pump,
    /// Send the round-trip packet that opens the link.
    SendRtt(Address),
    /// Say on the link who we are.
    Identify(Address),
    /// Let a sync go on over the link.
    SyncLinkUp,
    /// Let a fetch go on over the link.
    BrowserLinkUp,
    /// Take a proof.
    MarkDelivered([u8; 32]),
    /// Send parts that were asked for; if there were any, the event is done.
    Serve,
    /// Data for the sync.
    SyncData,
    /// Data for the browser.
    BrowserData,
    /// A packet of a transfer from a peer on a link of ours.
    OutlinkResource,
    /// The sync lost its link.
    SyncLinkClosed,
    /// The browser lost its link.
    BrowserLinkClosed,
}

/// What an announce is of.
#[derive(Debug, Clone, Copy, PartialEq, Eq, Structural)]
pub enum AnnounceKind {
    /// Ourselves, as the answer to a probe.
    Own,
    /// A node that serves pages.
    Node,
    /// A peer that takes messages.
    Peer,
    Other,
}

/// What an announce is of.
pub open spec fn announce_kind(dest: Address, name: NameHash, o: Outlook) -> AnnounceKind {
    if dest == o.our_dh {
        AnnounceKind::Own
    } else if name == o.node_name {
        AnnounceKind::Node
    } else if name == o.delivery_name {
        AnnounceKind::Peer
    } else {
        AnnounceKind::Other
    }
}

/// A step as plain mathematics.
pub enum StepModel {
    Broadcast(Seq<u8>),
    Deliver(Seq<u8>),
    SayIncoming,
    HearNode,
    HearPeer,
    Touch(Address),
    InboundResource,
    OpenBackchannel { peer: Address, link: Address },
    DropBackchannel(Address),
    DropTransfer(Address),
    Pump,
    SendRtt(Address),
    Identify(Address),
    SyncLinkUp,
    BrowserLinkUp,
    MarkDelivered([u8; 32]),
    Serve,
    SyncData,
    BrowserData,
    OutlinkResource,
    SyncLinkClosed,
    BrowserLinkClosed,
}

impl View for Step {
    type V = StepModel;

    open spec fn view(&self) -> StepModel {
        match *self {
            Step::Broadcast(b) => StepModel::Broadcast(b@),
            Step::Deliver(b) => StepModel::Deliver(b@),
            Step::SayIncoming => StepModel::SayIncoming,
            Step::HearNode => StepModel::HearNode,
            Step::HearPeer => StepModel::HearPeer,
            Step::Touch(l) => StepModel::Touch(l),
            Step::InboundResource => StepModel::InboundResource,
            Step::OpenBackchannel { peer, link } => StepModel::OpenBackchannel { peer, link },
            Step::DropBackchannel(l) => StepModel::DropBackchannel(l),
            Step::DropTransfer(l) => StepModel::DropTransfer(l),
            Step::Pump => StepModel::Pump,
            Step::SendRtt(l) => StepModel::SendRtt(l),
            Step::Identify(l) => StepModel::Identify(l),
            Step::SyncLinkUp => StepModel::SyncLinkUp,
            Step::BrowserLinkUp => StepModel::BrowserLinkUp,
            Step::MarkDelivered(h) => StepModel::MarkDelivered(h),
            Step::Serve => StepModel::Serve,
            Step::SyncData => StepModel::SyncData,
            Step::BrowserData => StepModel::BrowserData,
            Step::OutlinkResource => StepModel::OutlinkResource,
            Step::SyncLinkClosed => StepModel::SyncLinkClosed,
            Step::BrowserLinkClosed => StepModel::BrowserLinkClosed,
        }
    }
}

pub open spec fn step_models(v: Seq<Step>) -> Seq<StepModel> {
    v.map_values(|s: Step| s@)
}

/// We say who we are on a link to a peer, so that it can answer over it; not on one
/// to the propagation node, which a sync does itself, and never on one that the
/// browser opened: pages are read anonymously.
pub open spec fn identifies(target: Address, o: Outlook) -> bool {
    o.pn != Some(target) && !(o.browser_running && o.browser_node == Some(target))
}

/// The steps that an event calls for.
pub open spec fn steps_for(e: Event, o: Outlook) -> Seq<StepModel> {
    match e {
        Event::Announce { destination_hash, name_hash, .. } => match announce_kind(
            destination_hash,
            name_hash,
            o,
        ) {
            AnnounceKind::Node => seq![StepModel::HearNode],
            AnnounceKind::Peer => seq![StepModel::HearPeer],
            _ => Seq::empty(),
        },
        // The proof goes out first: it is how the sender learns of the delivery. The
        // destination does not travel in the packet.
        Event::Data { destination_hash, plaintext, proof } => seq![
            StepModel::Broadcast(proof@),
            StepModel::Deliver(destination_hash@ + plaintext@),
        ],
        Event::LinkEstablished { proof, .. } => seq![
            StepModel::Broadcast(proof@),
            StepModel::SayIncoming,
        ],
        Event::LinkData { link_id, plaintext, proof } => seq![
            StepModel::Broadcast(proof@),
            StepModel::Touch(link_id),
            StepModel::Deliver(plaintext@),
        ],
        Event::InLinkData { .. } => seq![StepModel::InboundResource],
        Event::LinkIdentified { link_id, peer } => seq![
            StepModel::OpenBackchannel { peer, link: link_id },
            StepModel::Pump,
        ],
        Event::LinkKeepalive { link_id, reply } => seq![
            StepModel::Broadcast(reply@),
            StepModel::Touch(link_id),
        ],
        Event::InLinkClosed { link_id } => seq![
            StepModel::DropBackchannel(link_id),
            StepModel::DropTransfer(link_id),
        ],
        Event::OutboundLinkUp { link_id, target } => if identifies(target, o) {
            seq![
                StepModel::SendRtt(link_id),
                StepModel::Identify(link_id),
                StepModel::SyncLinkUp,
                StepModel::BrowserLinkUp,
                StepModel::Pump,
            ]
        } else {
            seq![
                StepModel::SendRtt(link_id),
                StepModel::SyncLinkUp,
                StepModel::BrowserLinkUp,
                StepModel::Pump,
            ]
        },
        Event::Delivered { packet_hash } => seq![StepModel::MarkDelivered(packet_hash)],
        Event::OutLinkData { link_id, context } => {
            let owner = if o.sync_link == Some(link_id) {
                StepModel::SyncData
            } else if o.browser_link == Some(link_id) {
                StepModel::BrowserData
            } else {
                StepModel::OutlinkResource
            };
            if context == Context::ResourceReq {
                seq![StepModel::Serve, owner]
            } else {
                seq![owner]
            }
        },
        Event::OutLinkClosed { link_id } => {
            let sync = o.sync_running && o.sync_link == Some(link_id);
            let browser = o.browser_link == Some(link_id);
            if sync && browser {
                seq![StepModel::SyncLinkClosed, StepModel::BrowserLinkClosed]
            } else if sync {
                seq![StepModel::SyncLinkClosed]
            } else if browser {
                seq![StepModel::BrowserLinkClosed]
            } else {
                Seq::empty()
            }
        },
        Event::Noise => Seq::empty(),
    }
}

fn is_address(a: &Option<Address>, b: &Address) -> (r: bool)
    ensures
        r == (*a == Some(*b)),
{
    match a {
        Some(x) => same_address(x, b),
        None => false,
    }
}

fn same_name(a: &NameHash, b: &NameHash) -> (r: bool)
    ensures
        r == (*a == *b),
{
    let r = same_bytes(a.as_slice(), b.as_slice());
    assert(a@ =~= b@ ==> *a =~= *b);
    r
}

/// What an announce is of.
pub fn classify(dest: &Address, name: &NameHash, o: &Outlook) -> (r: AnnounceKind)
    ensures
        r == announce_kind(*dest, *name, *o),
{
    if same_address(dest, &o.our_dh) {
        AnnounceKind::Own
    } else if same_name(name, &o.node_name) {
        AnnounceKind::Node
    } else if same_name(name, &o.delivery_name) {
        AnnounceKind::Peer
    } else {
        AnnounceKind::Other
    }
}

/// The steps that an event calls for, in order.
pub fn handle_frame(e: &Event, o: &Outlook) -> (r: Vec<Step>)
    ensures
        step_models(r@) == steps_for(*e, *o),
{
    let mut steps: Vec<Step> = Vec::new();
    match e {
        Event::Announce { destination_hash, name_hash, app_data: _ } => {
            match classify(destination_hash, name_hash, o) {
                AnnounceKind::Node => {
                    steps.push(Step::HearNode);
                },
                AnnounceKind::Peer => {
                    steps.push(Step::HearPeer);
                },
                _ => {},
            }
        },
        Event::Data { destination_hash, plaintext, proof } => {
            steps.push(Step::Broadcast(to_vec(proof.as_slice())));
            let mut whole = to_vec(destination_hash.as_slice());
            push_all(&mut whole, plaintext.as_slice());
            steps.push(Step::Deliver(whole));
        },
        Event::LinkEstablished { link_id: _, proof } => {
            steps.push(Step::Broadcast(to_vec(proof.as_slice())));
            steps.push(Step::SayIncoming);
        },
        Event::LinkData { link_id, plaintext, proof } => {
            steps.push(Step::Broadcast(to_vec(proof.as_slice())));
            steps.push(Step::Touch(*link_id));
            steps.push(Step::Deliver(to_vec(plaintext.as_slice())));
        },
        Event::InLinkData { link_id: _, context: _ } => {
            steps.push(Step::InboundResource);
        },
        Event::LinkIdentified { link_id, peer } => {
            steps.push(Step::OpenBackchannel { peer: *peer, link: *link_id });
            steps.push(Step::Pump);
        },
        Event::LinkKeepalive { link_id, reply } => {
            steps.push(Step::Broadcast(to_vec(reply.as_slice())));
            steps.push(Step::Touch(*link_id));
        },
        Event::InLinkClosed { link_id } => {
            steps.push(Step::DropBackchannel(*link_id));
            steps.push(Step::DropTransfer(*link_id));
        },
        Event::OutboundLinkUp { link_id, target } => {
            steps.push(Step::SendRtt(*link_id));
            if !is_address(&o.pn, target) && !(o.browser_running && is_address(
                &o.browser_node,
                target,
            )) {
                steps.push(Step::Identify(*link_id));
            }
            steps.push(Step::SyncLinkUp);
            steps.push(Step::BrowserLinkUp);
            steps.push(Step::Pump);
        },
        Event::Delivered { packet_hash } => {
            steps.push(Step::MarkDelivered(*packet_hash));
        },
        Event::OutLinkData { link_id, context } => {
            if *context == Context::ResourceReq {
                steps.push(Step::Serve);
            }
            if is_address(&o.sync_link, link_id) {
                steps.push(Step::SyncData);
            } else if is_address(&o.browser_link, link_id) {
                steps.push(Step::BrowserData);
            } else {
                steps.push(Step::OutlinkResource);
            }
        },
        Event::OutLinkClosed { link_id } => {
            if o.sync_running && is_address(&o.sync_link, link_id) {
                steps.push(Step::SyncLinkClosed);
            }
            if is_address(&o.browser_link, link_id) {
                steps.push(Step::BrowserLinkClosed);
            }
        },
        Event::Noise => {},
    }
    assert(step_models(steps@) =~= steps_for(*e, *o));
    steps
}

/// Whatever carries a message to us is acknowledged before the message is
/// delivered.
pub proof fn proof_goes_out_before_delivery(e: Event, o: Outlook, i: int)
    requires
        0 <= i < steps_for(e, o).len(),
        steps_for(e, o)[i] is Deliver,
    ensures
        i > 0,
        steps_for(e, o)[0] is Broadcast,
{
}

/// The browser's links stay anonymous.
pub proof fn browser_links_are_anonymous(link_id: Address, node: Address, o: Outlook, i: int)
    requires
        o.browser_running,
        o.browser_node == Some(node),
        0 <= i < steps_for(Event::OutboundLinkUp { link_id, target: node }, o).len(),
    ensures
        !(steps_for(Event::OutboundLinkUp { link_id, target: node }, o)[i] is Identify),
{
}

// ---------------------------------------------------------------------------
// Backchannels
// ---------------------------------------------------------------------------

/// The links over which peers can be answered, after activity on `link`.
pub open spec fn touched(
    s: Seq<(Address, (Address, u64))>,
    link: Address,
    now: u64,
) -> Seq<(Address, (Address, u64))> {
    s.map_values(
        |e: (Address, (Address, u64))|
            if e.1.0 == link {
                (e.0, (e.1.0, now))
            } else {
                e
            },
    )
}

/// The link showed activity.
pub fn touch_link(b: &mut Book<(Address, u64)>, link: &Address, now: u64)
    requires
        old(b).wf(),
    ensures
        final(b).wf(),
        final(b).entries@ == touched(old(b).entries@, *link, now),
{
    let ghost s = b.entries@;
    let ghost t = touched(s, *link, now);
    let mut i: usize = 0;
    while i < b.entries.len()
        invariant
            i <= b.entries@.len(),
            b.entries@.len() == s.len(),
            t == touched(s, *link, now),
            forall|k: int| 0 <= k < i ==> #[trigger] b.entries@[k] == t[k],
            forall|k: int| i <= k < s.len() ==> #[trigger] b.entries@[k] == s[k],
        decreases b.entries@.len() - i,
    {
        let e = b.entries[i];
        if same_address(&e.1.0, link) {
            b.entries.set(i, (e.0, (e.1.0, now)));
        }
        i += 1;
    }
    proof {
        assert(b.entries@ =~= t);
        assert forall|i: int, j: int| 0 <= i < j < t.len() implies rank((#[trigger] t[i]).0) < rank(
            (#[trigger] t[j]).0,
        ) by {
            assert(s[i].0 == t[i].0 && s[j].0 == t[j].0);
        }
    }
}

/// No peer can be answered over `link` any more.
pub fn drop_link(b: &mut Book<(Address, u64)>, link: &Address)
    requires
        old(b).wf(),
    ensures
        final(b).wf(),
        final(b).entries@ == old(b).entries@.filter(
            |e: (Address, (Address, u64))| e.1.0 != *link,
        ),
{
    let ghost keep = |e: (Address, (Address, u64))| e.1.0 != *link;
    let ghost before = b.entries@;
    let mut kept: Vec<(Address, (Address, u64))> = Vec::new();
    let mut i: usize = 0;
    assert(before.take(0).filter(keep) =~= Seq::empty());
    while i < b.entries.len()
        invariant
            i <= b.entries@.len(),
            b.entries@ == before,
            keep == (|e: (Address, (Address, u64))| e.1.0 != *link),
            kept@ == before.take(i as int).filter(keep),
            forall|x: int, y: int|
                0 <= x < y < before.len() ==> rank((#[trigger] before[x]).0) < rank(
                    (#[trigger] before[y]).0,
                ),
            forall|x: int, y: int|
                0 <= x < y < kept@.len() ==> rank((#[trigger] kept@[x]).0) < rank(
                    (#[trigger] kept@[y]).0,
                ),
            forall|x: int, y: int|
                0 <= x < kept@.len() && i <= y < before.len() ==> rank((#[trigger] kept@[x]).0)
                    < rank((#[trigger] before[y]).0),
        decreases b.entries@.len() - i,
    {
        let e = b.entries[i];
        proof {
            let t = before.take(i + 1);
            assert(t.drop_last() =~= before.take(i as int));
            assert(t.last() == e);
            reveal(Seq::filter);
        }
        if !same_address(&e.1.0, link) {
            kept.push(e);
        }
        i += 1;
    }
    assert(before.take(before.len() as int) =~= before);
    b.entries = kept;
}

// ---------------------------------------------------------------------------
// A peer announced itself
// ---------------------------------------------------------------------------

/// A message that waits for its peer's announce: it was never sent.
pub open spec fn waits_for(m: OutboundMsg, peer: Address) -> bool {
    m.peer == peer && m.attempts == 0 && m.in_flight is None
}

/// The message after its peer announced a stamp cost, or none: one that waits for
/// the announce is due at once, and needs a stamp first where the peer asks for one
/// and it carries none.
pub open spec fn woken(m: OutboundMsg, peer: Address, cost: Option<u32>) -> OutboundMsg {
    if waits_for(m, peer) {
        OutboundMsg {
            needs_stamp: if cost is Some && !m.stamped && m.needs_stamp is None {
                cost
            } else {
                m.needs_stamp
            },
            next_action: 0,
            ..m
        }
    } else {
        m
    }
}

/// Wakes the messages that wait for the peer's announce: whether there are any, and
/// whether one of them lacked the peer's key.
pub fn wake_messages(outbox: &mut Vec<OutboundMsg>, peer: &Address, cost: Option<u32>) -> (r: Option<
    bool,
>)
    ensures
        final(outbox)@ == old(outbox)@.map_values(|m: OutboundMsg| woken(m, *peer, cost)),
        r is Some <==> exists|i: int|
            0 <= i < old(outbox)@.len() && waits_for(#[trigger] old(outbox)@[i], *peer),
        r == Some(true) <==> exists|i: int|
            0 <= i < old(outbox)@.len() && waits_for(#[trigger] old(outbox)@[i], *peer)
                && old(outbox)@[i].awaiting_key,
{
    let ghost before = outbox@;
    let mut waiting = false;
    let mut keyless = false;
    let mut i: usize = 0;
    while i < outbox.len()
        invariant
            i <= outbox@.len(),
            outbox@.len() == before.len(),
            forall|k: int| 0 <= k < i ==> #[trigger] outbox@[k] == woken(before[k], *peer, cost),
            forall|k: int| i <= k < before.len() ==> #[trigger] outbox@[k] == before[k],
            waiting <==> exists|k: int| 0 <= k < i && waits_for(#[trigger] before[k], *peer),
            keyless <==> exists|k: int|
                0 <= k < i && waits_for(#[trigger] before[k], *peer) && before[k].awaiting_key,
        decreases outbox@.len() - i,
    {
        let ghost m0 = before[i as int];
        assert(outbox@[i as int] == m0);
        if same_address(&outbox[i].peer, peer) && outbox[i].attempts == 0
            && outbox[i].in_flight.is_none() {
            let ghost o = outbox@;
            let mut m = outbox.remove(i);
            waiting = true;
            keyless = keyless || m.awaiting_key;
            if cost.is_some() && !m.stamped && m.needs_stamp.is_none() {
                m.needs_stamp = cost;
            }
            m.next_action = 0;
            outbox.insert(i, m);
            assert(outbox@ =~= o.update(i as int, woken(m0, *peer, cost)));
            assert(waits_for(m0, *peer));
        } else {
            assert(!waits_for(m0, *peer));
        }
        i += 1;
    }
    assert(outbox@ =~= before.map_values(|m: OutboundMsg| woken(m, *peer, cost)));
    if waiting {
        Some(keyless)
    } else {
        None
    }
}

/// What an announce of a peer leads to.
pub struct Heard {
    /// The name under which a contact's record is to be saved anew.
    pub save: Option<String>,
    /// A message with a ticket that can be verified now.
    pub recover: Option<Vec<u8>>,
    /// Messages to the peer can go out; whether its key was missing.
    pub waking: Option<bool>,
}

/// The name that a peer announced, else its address.
pub open spec fn heard_name(app_data: Seq<u8>, dest: Address) -> Seq<char> {
    match display_name(app_data) {
        Some(n) => n,
        None => hex_text(dest@),
    }
}

/// What the announce of a peer leads to: the peer is seen, its stamp cost known, a
/// contact saved anew with a name in place of its address, messages to it woken, and a
/// message given back whose ticket waited for the peer's key.
pub open spec fn heard(
    before: Inbox,
    after: Inbox,
    costs: Map<Address, u32>,
    costs_after: Map<Address, u32>,
    outbox: Seq<OutboundMsg>,
    outbox_after: Seq<OutboundMsg>,
    dest: Address,
    app_data: Seq<u8>,
    now: u64,
    r: Heard,
) -> bool {
    let name = heard_name(app_data, dest);
    let cost = stamp_cost(app_data);
    &&& after.seen@.contains_key(dest)
    &&& after.seen@[dest].0@ == name
    &&& after.seen@[dest].1 == now
    &&& after.seen@.remove(dest) == before.seen@.remove(dest)
    &&& costs_after == (match cost {
        Some(c) => costs.insert(dest, c),
        None => costs.remove(dest),
    })
    &&& match r.save {
        Some(s) => {
            &&& before.contacts@.contains_key(dest)
            &&& s@ == if is_placeholder(before.contacts@[dest]@, dest) {
                name
            } else {
                before.contacts@[dest]@
            }
            &&& after.contacts@.contains_key(dest)
            &&& after.contacts@[dest]@ == s@
            &&& after.contacts@.remove(dest) == before.contacts@.remove(dest)
        },
        None => !before.contacts@.contains_key(dest) && after.contacts@ == before.contacts@,
    }
    &&& after.ticket_pending@ == before.ticket_pending@.remove(dest)
    &&& match r.recover {
        Some(b) => before.ticket_pending@.contains_key(dest) && b == before.ticket_pending@[dest],
        None => !before.ticket_pending@.contains_key(dest),
    }
    &&& outbox_after == outbox.map_values(|m: OutboundMsg| woken(m, dest, cost))
    &&& r.waking is Some <==> exists|i: int|
        0 <= i < outbox.len() && waits_for(#[trigger] outbox[i], dest)
    &&& r.waking == Some(true) <==> exists|i: int|
        0 <= i < outbox.len() && waits_for(#[trigger] outbox[i], dest) && outbox[i].awaiting_key
    &&& after.our_dh == before.our_dh
    &&& after.recent == before.recent
    &&& after.found == before.found
    &&& after.tickets == before.tickets
    &&& after.pending == before.pending
    &&& after.unread == before.unread
    &&& after.current_peer == before.current_peer
    &&& after.last_ts == before.last_ts
}

/// A peer announced itself: it is listed with its name, its stamp cost is known, a
/// contact saved under a placeholder gets the name, and what waited for the announce
/// goes on.
pub fn hear_peer(
    inbox: &mut Inbox,
    costs: &mut Book<u32>,
    outbox: &mut Vec<OutboundMsg>,
    dest: &Address,
    app_data: &[u8],
    now: u64,
) -> (r: Heard)
    requires
        old(inbox).wf(),
        old(costs).wf(),
    ensures
        final(inbox).wf(),
        final(costs).wf(),
        heard(
            *old(inbox),
            *final(inbox),
            old(costs)@,
            final(costs)@,
            old(outbox)@,
            final(outbox)@,
            *dest,
            app_data@,
            now,
            r,
        ),
{
    let name = match lxmf_display_name(app_data) {
        Some(n) => n,
        None => hex(dest.as_slice()),
    };
    let ghost seen0 = inbox.seen@;
    inbox.seen.insert(*dest, (name.clone(), now));
    assert(inbox.seen@.remove(*dest) =~= seen0.remove(*dest));
    let cost = lxmf_stamp_cost(app_data);
    match cost {
        Some(c) => {
            costs.insert(*dest, c);
        },
        None => {
            costs.remove(dest);
        },
    }
    let kept: Option<String> = match inbox.contacts.get(dest) {
        Some(existing) => if placeholder_name(existing.as_str(), dest) {
            Some(name)
        } else {
            Some(existing.clone())
        },
        None => None,
    };
    let ghost contacts0 = inbox.contacts@;
    let save = match kept {
        Some(s) => {
            inbox.contacts.insert(*dest, s.clone());
            assert(inbox.contacts@.remove(*dest) =~= contacts0.remove(*dest));
            Some(s)
        },
        None => None,
    };
    let recover = inbox.ticket_pending.remove(dest);
    let waking = wake_messages(outbox, dest, cost);
    Heard { save, recover, waking }
}

/// Waking messages keeps the outbox well formed.
pub proof fn woken_outbox_is_well_formed(
    outbox: Seq<OutboundMsg>,
    peer: Address,
    cost: Option<u32>,
    pn: bool,
)
    requires
        outbox_wf(outbox, pn),
    ensures
        outbox_wf(outbox.map_values(|m: OutboundMsg| woken(m, peer, cost)), pn),
{
    let w = outbox.map_values(|m: OutboundMsg| woken(m, peer, cost));
    assert forall|i: int| 0 <= i < w.len() implies (#[trigger] w[i]).wf(pn) by {
        assert(outbox[i].wf(pn));
    }
}

/// A message that carries a ticket's stamp is never stamped twice.
pub proof fn stamped_message_is_not_stamped_again(m: OutboundMsg, peer: Address, cost: Option<u32>)
    requires
        m.stamped,
        m.needs_stamp is None,
    ensures
        woken(m, peer, cost).needs_stamp is None,
        woken(m, peer, cost).packed == m.packed,
{
}

/// The line about messages that go out because of an announce.
pub fn waking_note(label: &str, keyless: bool) -> (r: String)
    ensures
        r@ == label@ + (if keyless {
            ": key received \u{2014} sending\u{2026}"@
        } else {
            ": route found \u{2014} sending\u{2026}"@
        }),
{
    if keyless {
        join2(label, ": key received \u{2014} sending\u{2026}")
    } else {
        join2(label, ": route found \u{2014} sending\u{2026}")
    }
}

/// A node that serves pages announced itself.
pub fn hear_node(nodes: &mut Book<(String, u64)>, dest: &Address, app_data: &[u8], now: u64)
    requires
        old(nodes).wf(),
    ensures
        final(nodes).wf(),
        final(nodes)@.contains_key(*dest),
        final(nodes)@[*dest].0@ == announced_node_name(app_data@, dest@),
        final(nodes)@[*dest].1 == now,
        final(nodes)@.remove(*dest) == old(nodes)@.remove(*dest),
{
    let ghost before = nodes@;
    nodes.insert(*dest, (node_name(app_data, dest), now));
    assert(nodes@.remove(*dest) =~= before.remove(*dest));
}

/// What comes of a message whose signature was judged again: a ticket counts from a
/// verified sender only, and where it is worth keeping.
pub open spec fn ticket_recovered(
    before: Map<Address, (u64, [u8; 16])>,
    after: Map<Address, (u64, [u8; 16])>,
    src: Address,
    m: ParsedMessage,
    now: u64,
    r: Option<InboundTicket>,
) -> bool {
    match r {
        Some(t) => {
            &&& m.signature_validated
            &&& ticket_in(m.fields@) == Some((t.expires as nat, t.ticket@))
            &&& worth_keeping(before, src, t.expires as nat, now)
            &&& after == before.insert(src, (t.expires, t.ticket))
        },
        None => {
            &&& after == before
            &&& !m.signature_validated || (match ticket_in(m.fields@) {
                Some((expires, _)) => !worth_keeping(before, src, expires, now),
                None => true,
            })
        },
    }
}

/// Takes the ticket of a message whose signature was judged again, now that the
/// sender's key is known.
pub fn recover_ticket(
    tickets: &mut Book<(u64, [u8; 16])>,
    src: &Address,
    m: &ParsedMessage,
    now: u64,
) -> (r: Option<InboundTicket>)
    requires
        old(tickets).wf(),
    ensures
        final(tickets).wf(),
        ticket_recovered(old(tickets)@, final(tickets)@, *src, *m, now, r),
{
    if !m.signature_validated {
        return None;
    }
    match extract_ticket(&m.fields) {
        Some(t) => if store_ticket(tickets, src, &t, now) {
            Some(t)
        } else {
            None
        },
        None => None,
    }
}

/// A ticket is not lost when its message comes before the sender's key: the message is
/// given back when the sender is heard, and with its signature verified the ticket is
/// kept as if it came then.
pub proof fn ticket_is_recovered_with_the_key(
    before: Inbox,
    held: Inbox,
    after: Inbox,
    m: ParsedMessage,
    raw: Seq<u8>,
    live: bool,
    now: u64,
    d: Delivery,
    costs: Map<Address, u32>,
    costs_after: Map<Address, u32>,
    outbox: Seq<OutboundMsg>,
    outbox_after: Seq<OutboundMsg>,
    app_data: Seq<u8>,
    later: u64,
    h: Heard,
    again: ParsedMessage,
    tickets: Map<Address, (u64, [u8; 16])>,
    r: Option<InboundTicket>,
)
    requires
        // The message came in, and its signature could not be verified.
        parsed(raw) == Ok::<MessageModel, ParseError>(m@),
        !m.signature_validated,
        delivered(before, held, m, raw, live, now, d),
        // The sender is heard.
        heard(
            held,
            after,
            costs,
            costs_after,
            outbox,
            outbox_after,
            m.source_hash,
            app_data,
            later,
            h,
        ),
        // The message that was given back is parsed, and its signature verified.
        h.recover matches Some(b) ==> exists|unjudged: MessageModel|
            parsed(b@) == Ok::<MessageModel, ParseError>(unjudged) && again@ == (MessageModel {
                signature_validated: true,
                ..unjudged
            }),
        ticket_recovered(after.tickets@, tickets, m.source_hash, again, later, r),
        ticket_in(m.fields@) matches Some((expires, _)) && worth_keeping(
            after.tickets@,
            m.source_hash,
            expires,
            later,
        ),
    ensures
        h.recover matches Some(b) && b@ == raw,
        tickets.contains_key(m.source_hash),
        ticket_in(m.fields@) == Some(
            (tickets[m.source_hash].0 as nat, tickets[m.source_hash].1@),
        ),
{
    assert(again@.fields == m@.fields);
}

} // verus!
