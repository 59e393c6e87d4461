//! What a message on its way out meets: how it is sent, how long it waits, when it
//! turns to the propagation node and when it is given up.
use vstd::prelude::*;

use crate::address::Address;
use crate::outbox::{
    advanced, armed, delivered_of, failure_of, fresh, in_flight_at, message_at, others,
    unstamped_at, unwrapped_at, without_signature, Action, Answer, LinkReqOutcome, Move, Notice,
    OutboundMsg, Reason, Stage,
};

verus! {

/// A message is sent as one packet only where it fits in one. Whatever the answer,
/// what goes to the peer goes as a resource exactly where the packed message is longer
/// than 431 bytes, and what goes to the node exactly where the wrapped message is.
/// What is remembered of the send agrees with what is done.
pub proof fn nothing_long_goes_as_one_packet(
    stage: Stage,
    m: OutboundMsg,
    now: u64,
    pn: bool,
    answer: Answer,
)
    ensures
        ({
            let o = advanced(stage, m, now, pn, answer);
            match o.action {
                Action::SendPeer { link, resource, theirs } => {
                    &&& resource <==> m.packed@.len() > 431
                    &&& o.stage == (Stage::PeerSend { resource, theirs })
                    &&& o.msg == m
                    &&& o.fate is Stay
                },
                Action::SendNode { link, resource } => {
                    &&& m.pn_blob matches Some(blob) && (resource <==> blob@.len() > 431)
                    &&& o.stage == (Stage::NodeSend { resource })
                    &&& o.msg == m
                    &&& o.fate is Stay
                },
                _ => true,
            }
        }),
{
}

/// A peer is reached over our own link where there is one. Their link is used only
/// where we have none, and only while it was heard of within 540 seconds; an older one
/// is forgotten before a new link is thought of.
pub proof fn our_own_link_comes_first(
    m: OutboundMsg,
    now: u64,
    pn: bool,
    link: Option<Address>,
    backchannel: Option<(Address, u64)>,
)
    ensures
        ({
            let o = advanced(Stage::Peer, m, now, pn, Answer::Peer { link, backchannel });
            match (link, backchannel) {
                (Some(l), _) => o.action matches Action::SendPeer { link: used, theirs, .. }
                    && used == l && !theirs,
                (None, Some((b, seen))) => if now <= seen + 540 {
                    o.action matches Action::SendPeer { link: used, theirs, .. } && used == b
                        && theirs
                } else {
                    o.stage is Establish && o.action == (Action::LookRoute { forget: true })
                },
                (None, None) => o.stage is Establish && o.action == (Action::LookRoute {
                    forget: false,
                }),
            }
        }),
{
}

/// A message that went out to the peer waits for its confirmation 45 seconds where it
/// is longer than 431 bytes and 10 seconds where it is not, under the hash it went out
/// with, and counts one attempt more. Nothing else of it changes.
pub proof fn a_message_sent_to_the_peer_waits(
    m: OutboundMsg,
    now: u64,
    pn: bool,
    link: Option<Address>,
    backchannel: Option<(Address, u64)>,
    hash: [u8; 32],
)
    requires
        m.attempts < 5,
        now <= 0xffff_ffff_ffff_0000,
        advanced(Stage::Peer, m, now, pn, Answer::Peer { link, backchannel }).action is SendPeer,
    ensures
        ({
            let asked = advanced(Stage::Peer, m, now, pn, Answer::Peer { link, backchannel });
            let o = advanced(asked.stage, asked.msg, now, pn, Answer::Sent(Some(hash)));
            let wait: int = if m.packed@.len() > 431 {
                45
            } else {
                10
            };
            &&& o.fate is Advance
            &&& o.stage is Open
            &&& o.msg.in_flight == Some(hash)
            &&& o.msg.attempts == m.attempts + 1
            &&& o.msg.next_action == now + wait
            &&& o.msg == (OutboundMsg {
                in_flight: o.msg.in_flight,
                attempts: o.msg.attempts,
                next_action: o.msg.next_action,
                ..m
            })
            &&& o.action == Action::Next(
                if m.packed@.len() <= 431 {
                    Notice::Sent(o.msg.attempts)
                } else if link is Some {
                    Notice::TransferringLarge
                } else {
                    Notice::TransferringTheirs
                },
            )
        }),
{
}

/// A message that could not be sent over their link is tried over a new one at once,
/// and that link is forgotten; over our own it is tried again after a second. It is
/// not in flight and no attempt is counted.
pub proof fn a_failed_send_counts_for_nothing(
    m: OutboundMsg,
    now: u64,
    pn: bool,
    resource: bool,
    theirs: bool,
)
    requires
        now <= 0xffff_ffff_ffff_0000,
    ensures
        ({
            let o = advanced(
                Stage::PeerSend { resource, theirs },
                m,
                now,
                pn,
                Answer::Sent(None),
            );
            if theirs {
                &&& o.msg == m
                &&& o.stage is Establish
                &&& o.fate is Stay
                &&& o.action == (Action::LookRoute { forget: true })
            } else {
                &&& o.msg.next_action == now + 1
                &&& o.msg == (OutboundMsg { next_action: o.msg.next_action, ..m })
                &&& o.fate is Advance
                &&& o.action == Action::Next(Notice::Silent)
            }
        }),
        ({
            let o = advanced(Stage::NodeSend { resource }, m, now, pn, Answer::Sent(None));
            &&& o.msg.next_action == now + 2
            &&& o.msg == (OutboundMsg { next_action: o.msg.next_action, ..m })
            &&& o.fate is Advance
        }),
{
}

/// The way to the propagation node: its key and a route first, asked for again after 5
/// seconds; a link next, asked for again after 15; the wrapped message next, looked for
/// again after 1. What went out waits 45 seconds as a resource and 18 as a packet, and
/// the node counts as tried.
pub proof fn the_node_is_reached_step_by_step(
    m: OutboundMsg,
    now: u64,
    pn: bool,
    known: bool,
    path: bool,
    link: Option<Address>,
    hash: [u8; 32],
)
    requires
        now <= 0xffff_ffff_ffff_0000,
    ensures
        ({
            let o = advanced(Stage::Node, m, now, pn, Answer::Node { known, path, link });
            let went = advanced(o.stage, o.msg, now, pn, Answer::Sent(Some(hash)));
            if !(known && path) {
                &&& o.action is AskNode
                &&& o.fate is Advance
                &&& o.msg.next_action == now + 5
                &&& o.msg.awaiting_key == !known
                &&& o.msg == (OutboundMsg {
                    next_action: o.msg.next_action,
                    awaiting_key: o.msg.awaiting_key,
                    ..m
                })
            } else if link is None {
                &&& o.action == Action::LinkNode(Notice::ContactingNode)
                &&& o.fate is Advance
                &&& o.msg.next_action == now + 15
                &&& o.msg == (OutboundMsg { next_action: o.msg.next_action, ..m })
            } else if m.pn_blob is None {
                &&& o.action == Action::Next(Notice::Silent)
                &&& o.fate is Advance
                &&& o.msg.next_action == now + 1
                &&& o.msg == (OutboundMsg { next_action: o.msg.next_action, ..m })
            } else {
                let large = m.pn_blob->0@.len() > 431;
                &&& o.action == (Action::SendNode { link: link->0, resource: large })
                &&& went.fate is Advance
                &&& went.msg.tried_pn
                &&& went.msg.in_flight == Some(hash)
                &&& went.msg.next_action == now + (if large {
                    45int
                } else {
                    18int
                })
                &&& went.msg == (OutboundMsg {
                    tried_pn: true,
                    in_flight: went.msg.in_flight,
                    next_action: went.msg.next_action,
                    ..m
                })
                &&& went.action == Action::Next(
                    if large {
                        Notice::TransferringToNode
                    } else {
                        Notice::SendingToNode
                    },
                )
            }
        }),
{
}

/// A message that waits for its stamp, or whose moment has not come, is passed over
/// untouched.
pub proof fn a_message_not_due_is_left_alone(m: OutboundMsg, now: u64, pn: bool)
    requires
        m.needs_stamp is Some || (now <= m.deadline && now < m.next_action),
    ensures
        ({
            let o = advanced(Stage::Open, m, now, pn, Answer::Go);
            &&& o.msg == m
            &&& o.fate is Advance
            &&& o.stage is Open
            &&& o.action == Action::Next(Notice::Silent)
        }),
{
}

/// A message that is due and not in flight is looked after on its own way, as it is:
/// at the node where it goes by the node, else at the peer, and no link is forgotten.
pub proof fn a_message_due_is_looked_after(m: OutboundMsg, now: u64, pn: bool)
    requires
        m.needs_stamp is None,
        now <= m.deadline,
        m.next_action <= now,
        m.in_flight is None,
    ensures
        ({
            let o = advanced(Stage::Open, m, now, pn, Answer::Go);
            &&& o.msg == m
            &&& o.fate is Stay
            &&& if m.via_pn {
                o.stage is Node && o.action == (Action::LookNode {
                    forget: false,
                    notice: Notice::Silent,
                })
            } else {
                o.stage is Peer && o.action == (Action::LookPeer { forget: false })
            }
        }),
{
}

/// A confirmation that does not come in time takes the message out of flight. By the
/// node it is sent anew over a new link. At the peer it is sent anew over a new link
/// until it was sent five times; after that it turns to the propagation node with 120
/// seconds, once, and is given up as not acknowledged where that is not left.
pub proof fn an_overdue_message_is_sent_again(m: OutboundMsg, now: u64, pn: bool)
    requires
        m.needs_stamp is None,
        now <= m.deadline,
        m.next_action <= now,
        m.in_flight is Some,
        now <= 0xffff_ffff_ffff_0000,
    ensures
        ({
            let o = advanced(Stage::Open, m, now, pn, Answer::Go);
            let landed = OutboundMsg { in_flight: None, ..m };
            if m.via_pn {
                &&& o.msg == landed
                &&& o.stage is Node
                &&& o.fate is Stay
                &&& o.action == (Action::LookNode { forget: true, notice: Notice::RetryingNode })
            } else if m.attempts < 5 {
                &&& o.msg == landed
                &&& o.stage is Peer
                &&& o.fate is Stay
                &&& o.action == (Action::LookPeer { forget: true })
            } else if pn && !m.tried_pn {
                &&& o.msg.via_pn
                &&& o.msg.deadline == now + 120
                &&& o.msg == (OutboundMsg { via_pn: true, deadline: o.msg.deadline, ..landed })
                &&& o.stage is Node
                &&& o.fate is Stay
                &&& o.action == (Action::LookNode {
                    forget: false,
                    notice: Notice::NoConfirmation,
                })
            } else {
                &&& o.msg == landed
                &&& o.fate == Move::Fail(Reason::NoAcknowledgement)
            }
        }),
{
}

/// A message whose time is up turns to the propagation node with 120 seconds, at once,
/// where it was direct and the node is untried; else it ends. By the node it ends as
/// unconfirmed; a direct message that was never sent ends for want of a route, or of a
/// link where there is a route; any other for want of an acknowledgement. The route to
/// the node is dropped where the node was never reached.
pub proof fn a_message_out_of_time_ends_or_turns(m: OutboundMsg, now: u64, pn: bool, path: bool)
    requires
        m.needs_stamp is None,
        now > m.deadline,
        now <= 0xffff_ffff_ffff_0000,
    ensures
        ({
            let o = advanced(Stage::Open, m, now, pn, Answer::Go);
            let end = advanced(o.stage, o.msg, now, pn, Answer::Path(path));
            if pn && !m.via_pn && !m.tried_pn {
                &&& o.msg.via_pn
                &&& o.msg.next_action == now
                &&& o.msg.deadline == now + 120
                &&& o.msg == (OutboundMsg {
                    via_pn: true,
                    next_action: now,
                    deadline: o.msg.deadline,
                    ..m
                })
                &&& o.fate is Advance
                &&& o.action == Action::Next(Notice::DirectTimedOut)
            } else {
                &&& o.action == (Action::CheckPath { expire_node: m.via_pn && !m.tried_pn && pn })
                &&& o.fate is Stay
                &&& o.msg == m
                &&& end.msg == m
                &&& end.fate == Move::Fail(
                    if m.via_pn {
                        Reason::NodeUnconfirmed
                    } else if m.attempts > 0 || m.tried_pn {
                        Reason::NoAcknowledgement
                    } else if path {
                        Reason::NoLink
                    } else {
                        Reason::NoRoute
                    },
                )
            }
        }),
{
}

/// No link without a key and a route. A key is asked for again after 5 seconds. A route
/// is asked for until three requests went out, and a link until three requests went
/// out and none is pending; after that the message turns to the propagation node with
/// 120 seconds, once. Where that is not left, routes are asked for still, and links
/// again after a second, over a new route.
pub proof fn a_link_needs_a_key_and_a_route(
    m: OutboundMsg,
    now: u64,
    pn: bool,
    known: bool,
    path: bool,
    pending: bool,
)
    requires
        now <= 0xffff_ffff_ffff_0000,
    ensures
        ({
            let o = advanced(
                Stage::Establish,
                m,
                now,
                pn,
                Answer::Route { known, path, pending },
            );
            let turned = OutboundMsg {
                via_pn: true,
                next_action: now,
                deadline: (now + 120) as u64,
                ..m
            };
            let spent = m.link_tries >= 3 && !pending;
            if !known {
                &&& o.action == Action::AskKey(Notice::RequestingKey)
                &&& o.fate is Advance
                &&& o.msg.awaiting_key
                &&& o.msg.next_action == now + 5
                &&& o.msg == (OutboundMsg {
                    awaiting_key: true,
                    next_action: o.msg.next_action,
                    ..m
                })
            } else if !path && m.route_tries >= 3 && pn && !m.tried_pn {
                &&& o.msg == turned
                &&& o.stage is Open
                &&& o.fate is Stay
                &&& o.action == Action::Next(Notice::NoRoute)
            } else if !path {
                &&& o.msg == m
                &&& o.stage is AskedPath
                &&& o.fate is Stay
                &&& o.action == Action::AskPath(Notice::FindingRoute)
            } else if !spent {
                &&& o.msg == m
                &&& o.stage is Linking
                &&& o.fate is Stay
                &&& o.action is LinkPeer
            } else if pn && !m.tried_pn {
                &&& o.msg == turned
                &&& o.stage is Open
                &&& o.fate is Stay
                &&& o.action == Action::ExpirePath(Notice::LinkFailed)
            } else {
                &&& o.msg.link_tries == 0
                &&& o.msg.next_action == now + 1
                &&& o.msg == (OutboundMsg {
                    link_tries: 0,
                    next_action: o.msg.next_action,
                    ..m
                })
                &&& o.fate is Advance
                &&& o.action == Action::ExpirePath(Notice::Silent)
            }
        }),
{
}

/// Only a request that went out counts as a try. After a route was asked for the
/// message waits 5 seconds, and no longer for a key; after a link, 2 seconds.
pub proof fn only_what_went_out_is_counted(
    m: OutboundMsg,
    now: u64,
    pn: bool,
    sent: bool,
    outcome: LinkReqOutcome,
)
    requires
        now <= 0xffff_ffff_ffff_0000,
        m.route_tries < 255,
        m.link_tries < 255,
    ensures
        ({
            let o = advanced(Stage::AskedPath, m, now, pn, Answer::Asked(sent));
            &&& o.fate is Advance
            &&& o.msg.next_action == now + 5
            &&& !o.msg.awaiting_key
            &&& o.msg.route_tries == m.route_tries + (if sent {
                1int
            } else {
                0int
            })
            &&& o.msg == (OutboundMsg {
                next_action: o.msg.next_action,
                awaiting_key: false,
                route_tries: o.msg.route_tries,
                ..m
            })
        }),
        ({
            let o = advanced(Stage::Linking, m, now, pn, Answer::Link(outcome));
            &&& o.fate is Advance
            &&& o.msg.next_action == now + 2
            &&& o.msg.link_tries == m.link_tries + (if outcome is Sent {
                1int
            } else {
                0int
            })
            &&& o.msg == (OutboundMsg {
                next_action: o.msg.next_action,
                link_tries: o.msg.link_tries,
                ..m
            })
            &&& o.action == Action::Next(
                if outcome is Sent {
                    Notice::EstablishingLink
                } else {
                    Notice::Silent
                },
            )
        }),
{
}

/// A new message is due at once, goes direct, was tried nowhere, and has 90 seconds.
pub proof fn a_new_message_has_ninety_seconds(
    peer: Address,
    display_ts: u64,
    text: String,
    packed: Vec<u8>,
    needs_stamp: Option<u32>,
    stamped: bool,
    now: u64,
)
    requires
        now <= 0xffff_ffff_ffff_0000,
    ensures
        ({
            let m = fresh(peer, display_ts, text, packed, needs_stamp, stamped, now);
            &&& m.peer == peer && m.display_ts == display_ts && m.text == text
            &&& m.packed == packed && m.needs_stamp == needs_stamp && m.stamped == stamped
            &&& m.deadline == now + 90 && m.created == now && m.next_action == 0
            &&& m.attempts == 0 && m.route_tries == 0 && m.link_tries == 0
            &&& !m.via_pn && !m.tried_pn && !m.awaiting_key
            &&& m.in_flight is None && m.pn_blob is None
        }),
{
}

/// The time of a message begins when its stamp is on it: it has 90 seconds from there,
/// no stamp is owed any more, and nothing else of it changes.
pub proof fn a_stamped_message_has_its_time_anew(m: OutboundMsg, packed: Vec<u8>, now: u64)
    requires
        now <= 0xffff_ffff_ffff_0000,
    ensures
        ({
            let a = armed(m, packed, now);
            &&& a.packed == packed
            &&& a.needs_stamp is None
            &&& a.created == now
            &&& a.deadline == now + 90
            &&& a == (OutboundMsg {
                packed,
                needs_stamp: None,
                created: now,
                deadline: a.deadline,
                ..m
            })
        }),
{
}

/// A confirmation goes to the first message in flight under its hash, and to none where
/// there is no such message.
pub proof fn a_confirmation_finds_its_message(outbox: Seq<OutboundMsg>, hash: [u8; 32], i: int)
    requires
        0 <= i <= outbox.len(),
    ensures
        ({
            let k = in_flight_at(outbox, hash, i);
            &&& i <= k <= outbox.len()
            &&& k < outbox.len() ==> outbox[k].in_flight == Some(hash)
            &&& forall|j: int| i <= j < k ==> (#[trigger] outbox[j]).in_flight != Some(hash)
        }),
    decreases outbox.len() - i,
{
    if i < outbox.len() && outbox[i].in_flight != Some(hash) {
        a_confirmation_finds_its_message(outbox, hash, i + 1);
    }
}

/// The next stamp is mined for the first message that owes one, and the next message is
/// wrapped that goes by the node and is not wrapped yet.
pub proof fn work_is_done_in_order(outbox: Seq<OutboundMsg>, i: int)
    requires
        0 <= i <= outbox.len(),
    ensures
        ({
            let k = unstamped_at(outbox, i);
            &&& i <= k <= outbox.len()
            &&& k < outbox.len() ==> outbox[k].needs_stamp is Some
            &&& forall|j: int| i <= j < k ==> (#[trigger] outbox[j]).needs_stamp is None
        }),
        ({
            let k = unwrapped_at(outbox, i);
            &&& i <= k <= outbox.len()
            &&& k < outbox.len() ==> outbox[k].via_pn && outbox[k].pn_blob is None
            &&& forall|j: int|
                i <= j < k ==> !((#[trigger] outbox[j]).via_pn && outbox[j].pn_blob is None)
        }),
    decreases outbox.len() - i,
{
    if i < outbox.len() {
        work_is_done_in_order(outbox, i + 1);
    }
}

/// A message is found again by its peer and its time together.
pub proof fn a_message_is_found_by_peer_and_time(
    outbox: Seq<OutboundMsg>,
    peer: Address,
    ts: u64,
    i: int,
)
    requires
        0 <= i <= outbox.len(),
    ensures
        ({
            let k = message_at(outbox, peer, ts, i);
            &&& i <= k <= outbox.len()
            &&& k < outbox.len() ==> outbox[k].peer == peer && outbox[k].display_ts == ts
            &&& forall|j: int|
                i <= j < k ==> !((#[trigger] outbox[j]).peer == peer && outbox[j].display_ts == ts)
        }),
    decreases outbox.len() - i,
{
    if i < outbox.len() {
        a_message_is_found_by_peer_and_time(outbox, peer, ts, i + 1);
    }
}

/// Taking a message out of the outbox takes out what has its peer and its time, and
/// leaves the others as they stand, each before or after it.
pub proof fn only_the_message_is_taken_out(
    before: Seq<OutboundMsg>,
    m: OutboundMsg,
    peer: Address,
    ts: u64,
)
    ensures
        others(Seq::empty(), peer, ts) == Seq::<OutboundMsg>::empty(),
        others(before.push(m), peer, ts) == (if m.peer == peer && m.display_ts == ts {
            others(before, peer, ts)
        } else {
            others(before, peer, ts).push(m)
        }),
{
    reveal(Seq::filter);
    assert(before.push(m).drop_last() =~= before);
}

/// A message that arrived is reported for its own peer, time and text: as stored (2)
/// where it went by the node, else as delivered (1). One that was given up is reported
/// for its own peer, time and text, with the reason.
pub proof fn the_report_is_of_the_message(m: OutboundMsg, why: Reason)
    ensures
        delivered_of(m).peer == m.peer && failure_of(m, why).peer == m.peer,
        delivered_of(m).display_ts == m.display_ts,
        failure_of(m, why).display_ts == m.display_ts,
        delivered_of(m).text == m.text && failure_of(m, why).text == m.text,
        delivered_of(m).status == (if m.via_pn {
            2u8
        } else {
            1u8
        }),
        failure_of(m, why).why == why,
{
}

/// What a stamp is mined for: the two addresses and the payload of the packed message,
/// without the 64 bytes of the signature between them.
pub proof fn the_signature_is_not_stamped(
    dest: Seq<u8>,
    source: Seq<u8>,
    signature: Seq<u8>,
    payload: Seq<u8>,
)
    requires
        dest.len() == 16,
        source.len() == 16,
        signature.len() == 64,
    ensures
        without_signature(dest + source + signature + payload) == dest + source + payload,
{
    let packed = dest + source + signature + payload;
    assert(packed.take(32) =~= dest + source);
    assert(packed.skip(96) =~= payload);
}

} // verus!
