//! The outbox: every outbound message until it is delivered, stored at the
//! propagation node, or given up on.
//!
//! Direct delivery over a link comes first, then the propagation node. Each of
//! the two has a time budget of its own. What the network answers is handed in;
//! what to do next is handed out.
use vstd::prelude::*;
use vstd::slice::slice_subrange;

use crate::address::{same_address, same_digest, Address};
use crate::bytes::{push_all, to_vec};
use crate::message::{
    append_stamp, hashed_part, id_of, packable, packed_bytes, parsed, payload, stamped_message_reads_back,
    with_stamp, DEST_LEN, HEADER_LENGTH, SIG_LENGTH,
};
use crate::msgpack::{encoded, Model};
use crate::sha256::{full_hash, sha256};
use crate::stamp::{
    counter_stamp, find_stamp, first_stamp, stamp_valid, STAMP_SIZE, WORKBLOCK_EXPAND_ROUNDS_DELIVERY,
};
use crate::text::{decimal_text, join2, join3, push_decimal};

verus! {

// ---------------------------------------------------------------------------
// Delivery marks
// ---------------------------------------------------------------------------

/// Sent, awaiting acknowledgement.
pub const MARK_PENDING: &'static str = "\u{25cb}";

/// The recipient acknowledged.
pub const MARK_DELIVERED: &'static str = "\u{2713}";

/// Handed to the propagation node: stored, not yet delivered.
pub const MARK_QUEUED: &'static str = "\u{bb}";

/// Received by way of the propagation node.
pub const MARK_SYNCED: &'static str = "\u{bb}";

/// Neither direct delivery nor propagation worked.
pub const MARK_FAILED: &'static str = "\u{d7}";

pub const STATUS_DELIVERED: u8 = 1;

pub const STATUS_QUEUED: u8 = 2;

pub const STATUS_FAILED: u8 = 3;

/// The mark for a stored delivery status.
pub fn status_mark(status: u8) -> (r: &'static str)
    ensures
        r@ == mark_of(status),
{
    if status == STATUS_DELIVERED {
        MARK_DELIVERED
    } else if status == STATUS_QUEUED {
        MARK_QUEUED
    } else {
        MARK_FAILED
    }
}

/// The mark for a stored delivery status.
pub open spec fn mark_of(status: u8) -> Seq<char> {
    if status == STATUS_DELIVERED {
        MARK_DELIVERED@
    } else if status == STATUS_QUEUED {
        MARK_QUEUED@
    } else {
        MARK_FAILED@
    }
}

/// What a sent message's bubble shows: the text, two spaces and the mark.
pub fn bubble_text(text: &str, mark: &str) -> (r: String)
    ensures
        r@ == bubble(text@, mark@),
{
    join3(text, "  ", mark)
}

/// What a sent message's bubble shows: the text, two spaces and the mark.
pub open spec fn bubble(text: Seq<char>, mark: Seq<char>) -> Seq<char> {
    text + "  "@ + mark
}

// ---------------------------------------------------------------------------
// Timing, in seconds
// ---------------------------------------------------------------------------

/// How long to await the propagation node's proof.
pub const PROOF_TIMEOUT: u64 = 18;

/// When to ask for a link to the propagation node again.
pub const LINK_RETRY: u64 = 15;

/// When to ask for a key or a route again.
pub const KEY_RETRY: u64 = 5;

/// The time budget of direct delivery.
pub const DIRECT_DEADLINE: u64 = 90;

/// The time budget of propagation, from the moment a message turns to it.
pub const PROP_DEADLINE: u64 = 120;

/// When to send again over a link if no proof came.
pub const DELIVERY_RETRY: u64 = 10;

/// When to send a resource again if no proof came.
pub const RESOURCE_RETRY: u64 = 45;

/// A peer's link idle for longer is not used for replies.
pub const BACKCHANNEL_MAX_IDLE: u64 = 540;

/// Direct deliveries tried before the propagation node.
pub const MAX_ATTEMPTS: u8 = 5;

/// Route requests sent before the propagation node.
pub const MAX_ROUTE_TRIES: u8 = 3;

/// Link requests sent before the propagation node.
pub const MAX_LINK_TRIES: u8 = 3;

/// The largest packed message that fits one link packet; a larger one travels as
/// a resource.
pub const LINK_PACKED_MAX: usize = 431;

/// The largest stamp cost that is mined for a peer.
pub const MAX_DELIVERY_STAMP_COST: u32 = 20;

/// The latest time at which the outbox does its sums.
pub const LAST_MOMENT: u64 = 0xffff_ffff_ffff_0000;

// ---------------------------------------------------------------------------
// Messages
// ---------------------------------------------------------------------------

/// An outbound message.
pub struct OutboundMsg {
    pub peer: Address,
    /// The timestamp of the message's bubble, by which it is found again.
    pub display_ts: u64,
    pub text: String,
    /// The packed message: sent as it is over a link, and wrapped for the
    /// propagation node.
    pub packed: Vec<u8>,
    /// The stamp cost that the recipient asks for, while the stamp is not mined.
    /// Nothing is sent until then.
    pub needs_stamp: Option<u32>,
    /// `packed` carries a ticket's stamp.
    pub stamped: bool,
    /// On the way to the propagation node, not direct.
    pub via_pn: bool,
    /// Was sent to the propagation node at least once.
    pub tried_pn: bool,
    /// The hash whose proof is awaited.
    pub in_flight: Option<[u8; 32]>,
    /// Direct deliveries tried.
    pub attempts: u8,
    /// Route requests sent.
    pub route_tries: u8,
    /// Link requests sent.
    pub link_tries: u8,
    /// What was missing last: the peer's key, or else a route.
    pub awaiting_key: bool,
    /// The message wrapped for the propagation node, once that is done.
    pub pn_blob: Option<Vec<u8>>,
    /// When to act next.
    pub next_action: u64,
    /// When the message came in.
    pub created: u64,
    /// When the time budget of the current way of delivery ends.
    pub deadline: u64,
}

impl OutboundMsg {
    /// Direct delivery has a try left while nothing is in flight; the way over the
    /// propagation node is taken only where one is configured.
    pub open spec fn wf(&self, pn: bool) -> bool {
        &&& self.via_pn ==> pn
        &&& self.attempts <= MAX_ATTEMPTS
        &&& !self.via_pn && self.in_flight is None ==> self.attempts < MAX_ATTEMPTS
    }

    /// A message that has just been written.
    pub fn new(
        peer: Address,
        display_ts: u64,
        text: String,
        packed: Vec<u8>,
        needs_stamp: Option<u32>,
        stamped: bool,
        now: u64,
    ) -> (r: OutboundMsg)
        requires
            now <= LAST_MOMENT,
        ensures
            r == fresh(peer, display_ts, text, packed, needs_stamp, stamped, now),
            forall|pn: bool| r.wf(pn),
    {
        OutboundMsg {
            peer,
            display_ts,
            text,
            packed,
            needs_stamp,
            stamped,
            via_pn: false,
            tried_pn: false,
            in_flight: None,
            attempts: 0,
            route_tries: 0,
            link_tries: 0,
            awaiting_key: false,
            pn_blob: None,
            next_action: 0,
            created: now,
            deadline: now + DIRECT_DEADLINE,
        }
    }
}

/// A message that has just been written: due at once, with the whole time budget
/// of direct delivery.
pub open spec fn fresh(
    peer: Address,
    display_ts: u64,
    text: String,
    packed: Vec<u8>,
    needs_stamp: Option<u32>,
    stamped: bool,
    now: u64,
) -> OutboundMsg {
    OutboundMsg {
        peer,
        display_ts,
        text,
        packed,
        needs_stamp,
        stamped,
        via_pn: false,
        tried_pn: false,
        in_flight: None,
        attempts: 0,
        route_tries: 0,
        link_tries: 0,
        awaiting_key: false,
        pn_blob: None,
        next_action: 0,
        created: now,
        deadline: (now + DIRECT_DEADLINE) as u64,
    }
}

// ---------------------------------------------------------------------------
// What the outbox says
// ---------------------------------------------------------------------------

/// Why a message was given up.
#[derive(Debug, Clone, Copy, PartialEq, Eq, Structural)]
pub enum Reason {
    NodeUnconfirmed,
    NoLink,
    NoRoute,
    NoAcknowledgement,
}

/// A line for the status bar about one message.
#[derive(Debug, Clone, Copy, PartialEq, Eq, Structural)]
pub enum Notice {
    Silent,
    DirectTimedOut,
    NoConfirmation,
    NoRoute,
    LinkFailed,
    RetryingNode,
    ContactingNode,
    TransferringToNode,
    SendingToNode,
    TransferringLarge,
    TransferringTheirs,
    Sent(u8),
    RequestingKey,
    FindingRoute,
    EstablishingLink,
}

/// The words for a reason.
pub open spec fn reason_words(r: Reason) -> Seq<char> {
    match r {
        Reason::NodeUnconfirmed => "propagation node unconfirmed"@,
        Reason::NoLink => "link could not be established"@,
        Reason::NoRoute => "no route found"@,
        Reason::NoAcknowledgement => "no acknowledgement"@,
    }
}

/// The words for a reason.
pub fn reason_text(r: Reason) -> (t: &'static str)
    ensures
        t@ == reason_words(r),
{
    match r {
        Reason::NodeUnconfirmed => "propagation node unconfirmed",
        Reason::NoLink => "link could not be established",
        Reason::NoRoute => "no route found",
        Reason::NoAcknowledgement => "no acknowledgement",
    }
}

/// The status line for a message over a link; a retry carries the count.
pub open spec fn send_words(label: Seq<char>, attempt: u8) -> Seq<char> {
    if attempt > 1 {
        label + ": sent over link, awaiting confirmation\u{2026} (try "@ + decimal_text(
            attempt as nat,
        ) + "/"@ + decimal_text(MAX_ATTEMPTS as nat) + ")"@
    } else {
        label + ": sent over link, awaiting confirmation\u{2026}"@
    }
}

/// The status line for a message over a link; a retry carries the count.
pub fn send_status(label: &str, attempt: u8) -> (r: String)
    ensures
        r@ == send_words(label@, attempt),
{
    if attempt > 1 {
        let mut r = join2(label, ": sent over link, awaiting confirmation\u{2026} (try ");
        push_decimal(&mut r, attempt as u64);
        r.append("/");
        push_decimal(&mut r, MAX_ATTEMPTS as u64);
        r.append(")");
        r
    } else {
        join2(label, ": sent over link, awaiting confirmation\u{2026}")
    }
}

/// The words of a notice about the peer called `label`; none for a silent one.
pub open spec fn notice_words(n: Notice, label: Seq<char>) -> Seq<char> {
    match n {
        Notice::Silent => ""@,
        Notice::DirectTimedOut => label
            + ": direct delivery timed out \u{2014} trying propagation node\u{2026}"@,
        Notice::NoConfirmation => label
            + ": no confirmation \u{2014} trying propagation node\u{2026}"@,
        Notice::NoRoute => label + ": no route \u{2014} trying propagation node\u{2026}"@,
        Notice::LinkFailed => label
            + ": link won't establish \u{2014} trying propagation node\u{2026}"@,
        Notice::RetryingNode => label + ": retrying propagation node\u{2026}"@,
        Notice::ContactingNode => label + ": contacting propagation node\u{2026}"@,
        Notice::TransferringToNode => label + ": transferring to propagation node\u{2026}"@,
        Notice::SendingToNode => label + ": sending to propagation node\u{2026}"@,
        Notice::TransferringLarge => label + ": transferring (large message)\u{2026}"@,
        Notice::TransferringTheirs => label + ": transferring over their link\u{2026}"@,
        Notice::Sent(attempt) => send_words(label, attempt),
        Notice::RequestingKey => label + ": requesting key\u{2026}"@,
        Notice::FindingRoute => label + ": finding a route\u{2026}"@,
        Notice::EstablishingLink => label + ": establishing link\u{2026}"@,
    }
}

/// The words of a notice about the peer called `label`; none for a silent one.
pub fn notice_text(n: Notice, label: &str) -> (r: String)
    ensures
        r@ == notice_words(n, label@),
{
    match n {
        Notice::Silent => String::from_str(""),
        Notice::DirectTimedOut => join2(
            label,
            ": direct delivery timed out \u{2014} trying propagation node\u{2026}",
        ),
        Notice::NoConfirmation => join2(
            label,
            ": no confirmation \u{2014} trying propagation node\u{2026}",
        ),
        Notice::NoRoute => join2(label, ": no route \u{2014} trying propagation node\u{2026}"),
        Notice::LinkFailed => join2(
            label,
            ": link won't establish \u{2014} trying propagation node\u{2026}",
        ),
        Notice::RetryingNode => join2(label, ": retrying propagation node\u{2026}"),
        Notice::ContactingNode => join2(label, ": contacting propagation node\u{2026}"),
        Notice::TransferringToNode => join2(label, ": transferring to propagation node\u{2026}"),
        Notice::SendingToNode => join2(label, ": sending to propagation node\u{2026}"),
        Notice::TransferringLarge => join2(label, ": transferring (large message)\u{2026}"),
        Notice::TransferringTheirs => join2(label, ": transferring over their link\u{2026}"),
        Notice::Sent(attempt) => send_status(label, attempt),
        Notice::RequestingKey => join2(label, ": requesting key\u{2026}"),
        Notice::FindingRoute => join2(label, ": finding a route\u{2026}"),
        Notice::EstablishingLink => join2(label, ": establishing link\u{2026}"),
    }
}

/// The line about a message that was given up.
pub open spec fn failure_words(label: Seq<char>, why: Seq<char>) -> Seq<char> {
    "\u{d7} "@ + label + ": "@ + why
}

/// The line about a message that was given up.
pub fn failure_note(label: &str, why: &str) -> (r: String)
    ensures
        r@ == failure_words(label@, why@),
{
    let mut r = join3("\u{d7} ", label, ": ");
    r.append(why);
    r
}

// ---------------------------------------------------------------------------
// One message at a time
// ---------------------------------------------------------------------------

/// What came of a link request.
#[derive(Debug, Clone, Copy, PartialEq, Eq, Structural)]
pub enum LinkReqOutcome {
    Sent,
    /// A request is still pending, or the link is up.
    Pending,
    WriteFailed,
}

/// What came of a link request: `already` tells that one is pending or the link is up,
/// so that none was made; `went_out` whether the one that was made went out. One that
/// did not is forgotten, or else it would count as pending: the second answer says so.
pub fn link_outcome(already: bool, went_out: bool) -> (r: (LinkReqOutcome, bool))
    ensures
        r == (if already {
            (LinkReqOutcome::Pending, false)
        } else if went_out {
            (LinkReqOutcome::Sent, false)
        } else {
            (LinkReqOutcome::WriteFailed, true)
        }),
{
    if already {
        (LinkReqOutcome::Pending, false)
    } else if went_out {
        (LinkReqOutcome::Sent, false)
    } else {
        (LinkReqOutcome::WriteFailed, true)
    }
}

/// Where the work on a message stands between two answers.
#[derive(Debug, Clone, Copy, PartialEq, Eq, Structural)]
pub enum Stage {
    /// Nothing asked yet.
    Open,
    /// Out of time; whether there is a route to the peer decides the reason.
    Expiring,
    /// Asked about the propagation node.
    Node,
    /// Sending to the propagation node.
    NodeSend { resource: bool },
    /// Asked about links with the peer.
    Peer,
    /// Sending to the peer, over our link or over theirs.
    PeerSend { resource: bool, theirs: bool },
    /// Asked whether a link can be established.
    Establish,
    /// Asked the network for a route.
    AskedPath,
    /// Asked the peer for a link.
    Linking,
}

/// What the network says.
#[derive(Debug, Clone, Copy, PartialEq, Eq)]
pub enum Answer {
    /// Nothing was asked.
    Go,
    /// Whether there is a route to the peer.
    Path(bool),
    /// Whether the node's key is known, whether there is a route to it, and a link
    /// to it.
    Node { known: bool, path: bool, link: Option<Address> },
    /// A link to the peer, and the peer's own link to us with its last activity.
    Peer { link: Option<Address>, backchannel: Option<(Address, u64)> },
    /// Whether the peer's key is known, whether there is a route, and whether a
    /// link request is pending.
    Route { known: bool, path: bool, pending: bool },
    /// Whether a request for a route went out.
    Asked(bool),
    Link(LinkReqOutcome),
    /// The hash to be proved, if something was sent.
    Sent(Option<[u8; 32]>),
}

/// What to do, and what to say, before the next answer.
#[derive(Debug, Clone, Copy, PartialEq, Eq)]
pub enum Action {
    /// Nothing; go on.
    Next(Notice),
    /// Find out whether there is a route to the peer, after the route to the node
    /// was dropped where that is asked for.
    CheckPath { expire_node: bool },
    /// Look at the propagation node, after its link was forgotten where that is
    /// asked for (a link that a sync uses is kept).
    LookNode { forget: bool, notice: Notice },
    /// Look at the links with the peer, after both were forgotten where that is
    /// asked for.
    LookPeer { forget: bool },
    /// Look whether a link can be established, after the peer's own link was
    /// forgotten where that is asked for.
    LookRoute { forget: bool },
    /// Ask the network for the node's key and route; go on.
    AskNode,
    /// Ask the network for the peer's key; go on.
    AskKey(Notice),
    /// Ask the network for a route to the peer.
    AskPath(Notice),
    /// Ask the node for a link; go on.
    LinkNode(Notice),
    /// Ask the peer for a link.
    LinkPeer,
    /// Drop the route to the peer; go on.
    ExpirePath(Notice),
    /// Send the wrapped message to the node over the link.
    SendNode { link: Address, resource: bool },
    /// Send the message to the peer over the link, ours or theirs.
    SendPeer { link: Address, resource: bool, theirs: bool },
}

/// What becomes of the place of a message in the outbox.
#[derive(Debug, Clone, Copy, PartialEq, Eq, Structural)]
pub enum Move {
    /// More to do on this message.
    Stay,
    /// On to the next message.
    Advance,
    /// The message is given up.
    Fail(Reason),
}

/// What one answer leads to.
pub struct Outcome {
    pub stage: Stage,
    pub msg: OutboundMsg,
    pub fate: Move,
    pub action: Action,
}

/// `m` turned to the propagation node, with the whole time budget of that way.
pub open spec fn escalated(m: OutboundMsg, now: u64) -> OutboundMsg {
    OutboundMsg { via_pn: true, deadline: (now + PROP_DEADLINE) as u64, ..m }
}

/// `m` left alone for `secs` seconds.
pub open spec fn deferred(m: OutboundMsg, now: u64, secs: u64) -> OutboundMsg {
    OutboundMsg { next_action: (now + secs) as u64, ..m }
}

/// No more to do on this message for now.
pub open spec fn leave(m: OutboundMsg, action: Action) -> Outcome {
    Outcome { stage: Stage::Open, msg: m, fate: Move::Advance, action }
}

/// More to do on this message.
pub open spec fn stay(stage: Stage, m: OutboundMsg, action: Action) -> Outcome {
    Outcome { stage, msg: m, fate: Move::Stay, action }
}

/// Give the message up.
pub open spec fn give_up(m: OutboundMsg, why: Reason) -> Outcome {
    Outcome {
        stage: Stage::Open,
        msg: m,
        fate: Move::Fail(why),
        action: Action::Next(Notice::Silent),
    }
}

/// The start of the work on a message: whether it is due, and whether its time is
/// up or its proof overdue.
pub open spec fn opened(m: OutboundMsg, now: u64, pn: bool) -> Outcome {
    if m.needs_stamp is Some {
        leave(m, Action::Next(Notice::Silent))
    } else if now > m.deadline {
        if !m.via_pn && !m.tried_pn && pn {
            leave(
                OutboundMsg { next_action: now, ..escalated(m, now) },
                Action::Next(Notice::DirectTimedOut),
            )
        } else {
            stay(
                Stage::Expiring,
                m,
                Action::CheckPath { expire_node: m.via_pn && !m.tried_pn && pn },
            )
        }
    } else if now < m.next_action {
        leave(m, Action::Next(Notice::Silent))
    } else if m.in_flight is None {
        if m.via_pn {
            stay(
                Stage::Node,
                m,
                Action::LookNode { forget: false, notice: Notice::Silent },
            )
        } else {
            stay(Stage::Peer, m, Action::LookPeer { forget: false })
        }
    } else {
        let overdue = OutboundMsg { in_flight: None, ..m };
        if m.via_pn {
            stay(
                Stage::Node,
                overdue,
                Action::LookNode { forget: true, notice: Notice::RetryingNode },
            )
        } else if m.attempts < MAX_ATTEMPTS {
            stay(Stage::Peer, overdue, Action::LookPeer { forget: true })
        } else if !m.tried_pn && pn {
            stay(
                Stage::Node,
                escalated(overdue, now),
                Action::LookNode { forget: false, notice: Notice::NoConfirmation },
            )
        } else {
            give_up(overdue, Reason::NoAcknowledgement)
        }
    }
}

/// Why a message whose time is up was not delivered.
pub open spec fn expiry_reason(m: OutboundMsg, path: bool) -> Reason {
    if m.via_pn {
        Reason::NodeUnconfirmed
    } else if m.attempts == 0 && !m.tried_pn {
        if path {
            Reason::NoLink
        } else {
            Reason::NoRoute
        }
    } else {
        Reason::NoAcknowledgement
    }
}

/// On the way over the propagation node, with what is known of the node.
pub open spec fn at_node(
    m: OutboundMsg,
    now: u64,
    known: bool,
    path: bool,
    link: Option<Address>,
) -> Outcome {
    if !known || !path {
        leave(
            OutboundMsg { awaiting_key: !known, ..deferred(m, now, KEY_RETRY) },
            Action::AskNode,
        )
    } else {
        match (link, m.pn_blob) {
            (None, _) => leave(
                deferred(m, now, LINK_RETRY),
                Action::LinkNode(Notice::ContactingNode),
            ),
            (Some(_), None) => leave(deferred(m, now, 1), Action::Next(Notice::Silent)),
            (Some(l), Some(blob)) => {
                let resource = blob@.len() > LINK_PACKED_MAX;
                stay(Stage::NodeSend { resource }, m, Action::SendNode { link: l, resource })
            },
        }
    }
}

/// After a transfer to the propagation node was tried.
pub open spec fn node_sent(
    m: OutboundMsg,
    now: u64,
    resource: bool,
    hash: Option<[u8; 32]>,
) -> Outcome {
    match hash {
        Some(h) => leave(
            OutboundMsg {
                in_flight: Some(h),
                tried_pn: true,
                ..deferred(
                    m,
                    now,
                    if resource {
                        RESOURCE_RETRY
                    } else {
                        PROOF_TIMEOUT
                    },
                )
            },
            Action::Next(
                if resource {
                    Notice::TransferringToNode
                } else {
                    Notice::SendingToNode
                },
            ),
        ),
        None => leave(deferred(m, now, 2), Action::Next(Notice::Silent)),
    }
}

/// A peer's own link that was active lately enough to carry a reply.
pub open spec fn lively(backchannel: Option<(Address, u64)>, now: u64) -> bool {
    match backchannel {
        Some((_, seen)) => now - seen <= BACKCHANNEL_MAX_IDLE,
        None => false,
    }
}

/// On the direct way, with the links there are: ours, else the peer's own, else
/// one is to be established.
pub open spec fn at_peer(
    m: OutboundMsg,
    now: u64,
    link: Option<Address>,
    backchannel: Option<(Address, u64)>,
) -> Outcome {
    let resource = m.packed@.len() > LINK_PACKED_MAX;
    match link {
        Some(l) => stay(
            Stage::PeerSend { resource, theirs: false },
            m,
            Action::SendPeer { link: l, resource, theirs: false },
        ),
        None => if lively(backchannel, now) {
            stay(
                Stage::PeerSend { resource, theirs: true },
                m,
                Action::SendPeer { link: (backchannel->0).0, resource, theirs: true },
            )
        } else {
            stay(Stage::Establish, m, Action::LookRoute { forget: backchannel is Some })
        },
    }
}

/// After a direct delivery was tried.
pub open spec fn peer_sent(
    m: OutboundMsg,
    now: u64,
    resource: bool,
    theirs: bool,
    hash: Option<[u8; 32]>,
) -> Outcome {
    match hash {
        Some(h) => {
            let attempts = (m.attempts + 1) as u8;
            leave(
                OutboundMsg {
                    in_flight: Some(h),
                    attempts,
                    ..deferred(
                        m,
                        now,
                        if resource {
                            RESOURCE_RETRY
                        } else {
                            DELIVERY_RETRY
                        },
                    )
                },
                Action::Next(
                    if !resource {
                        Notice::Sent(attempts)
                    } else if theirs {
                        Notice::TransferringTheirs
                    } else {
                        Notice::TransferringLarge
                    },
                ),
            )
        },
        None => if theirs {
            stay(Stage::Establish, m, Action::LookRoute { forget: true })
        } else {
            leave(deferred(m, now, 1), Action::Next(Notice::Silent))
        },
    }
}

/// No link with the peer: what establishing one takes.
pub open spec fn establishing(
    m: OutboundMsg,
    now: u64,
    pn: bool,
    known: bool,
    path: bool,
    pending: bool,
) -> Outcome {
    let fall_back = !m.tried_pn && pn;
    if !known {
        leave(
            OutboundMsg { awaiting_key: true, ..deferred(m, now, KEY_RETRY) },
            Action::AskKey(Notice::RequestingKey),
        )
    } else if !path {
        if m.route_tries >= MAX_ROUTE_TRIES && fall_back {
            stay(
                Stage::Open,
                OutboundMsg { next_action: now, ..escalated(m, now) },
                Action::Next(Notice::NoRoute),
            )
        } else {
            stay(Stage::AskedPath, m, Action::AskPath(Notice::FindingRoute))
        }
    } else if !pending && m.link_tries >= MAX_LINK_TRIES {
        if fall_back {
            stay(
                Stage::Open,
                OutboundMsg { next_action: now, ..escalated(m, now) },
                Action::ExpirePath(Notice::LinkFailed),
            )
        } else {
            leave(
                OutboundMsg { link_tries: 0, ..deferred(m, now, 1) },
                Action::ExpirePath(Notice::Silent),
            )
        }
    } else {
        stay(Stage::Linking, m, Action::LinkPeer)
    }
}

/// One more try, up to the end of the counter.
pub open spec fn one_more(n: u8) -> u8 {
    if n < 255 {
        (n + 1) as u8
    } else {
        255
    }
}

/// After a route was asked for; only a request that went out counts.
pub open spec fn path_asked(m: OutboundMsg, now: u64, sent: bool) -> Outcome {
    leave(
        OutboundMsg {
            route_tries: if sent {
                one_more(m.route_tries)
            } else {
                m.route_tries
            },
            awaiting_key: false,
            ..deferred(m, now, KEY_RETRY)
        },
        Action::Next(Notice::Silent),
    )
}

/// After a link was asked for; only a request that went out counts.
pub open spec fn link_asked(m: OutboundMsg, now: u64, outcome: LinkReqOutcome) -> Outcome {
    if outcome == LinkReqOutcome::Sent {
        leave(
            OutboundMsg { link_tries: one_more(m.link_tries), ..deferred(m, now, 2) },
            Action::Next(Notice::EstablishingLink),
        )
    } else {
        leave(deferred(m, now, 2), Action::Next(Notice::Silent))
    }
}

/// The answer is one to what the stage asked.
pub open spec fn answers(stage: Stage, answer: Answer) -> bool {
    match stage {
        Stage::Open => answer is Go,
        Stage::Expiring => answer is Path,
        Stage::Node => answer is Node,
        Stage::NodeSend { .. } => answer is Sent,
        Stage::Peer => answer is Peer,
        Stage::PeerSend { .. } => answer is Sent,
        Stage::Establish => answer is Route,
        Stage::AskedPath => answer is Asked,
        Stage::Linking => answer is Link,
    }
}

/// Where a message can stand at a stage.
pub open spec fn fits(stage: Stage, m: OutboundMsg) -> bool {
    match stage {
        Stage::Open => true,
        Stage::Expiring => m.needs_stamp is None,
        Stage::Node => m.via_pn && m.in_flight is None && m.needs_stamp is None,
        Stage::NodeSend { .. } => m.via_pn && m.in_flight is None && m.needs_stamp is None
            && m.pn_blob is Some,
        _ => !m.via_pn && m.in_flight is None && m.needs_stamp is None,
    }
}

/// What an answer at a stage leads to.
pub open spec fn advanced(
    stage: Stage,
    m: OutboundMsg,
    now: u64,
    pn: bool,
    answer: Answer,
) -> Outcome {
    match (stage, answer) {
        (Stage::Open, Answer::Go) => opened(m, now, pn),
        (Stage::Expiring, Answer::Path(path)) => give_up(m, expiry_reason(m, path)),
        (Stage::Node, Answer::Node { known, path, link }) => at_node(m, now, known, path, link),
        (Stage::NodeSend { resource }, Answer::Sent(hash)) => node_sent(m, now, resource, hash),
        (Stage::Peer, Answer::Peer { link, backchannel }) => at_peer(m, now, link, backchannel),
        (Stage::PeerSend { resource, theirs }, Answer::Sent(hash)) => peer_sent(
            m,
            now,
            resource,
            theirs,
            hash,
        ),
        (Stage::Establish, Answer::Route { known, path, pending }) => establishing(
            m,
            now,
            pn,
            known,
            path,
            pending,
        ),
        (Stage::AskedPath, Answer::Asked(sent)) => path_asked(m, now, sent),
        (Stage::Linking, Answer::Link(outcome)) => link_asked(m, now, outcome),
        _ => stay(stage, m, Action::Next(Notice::Silent)),
    }
}

/// The result of a step, but for the message.
type Turn = (Stage, Move, Action);

/// `t` and the message `m` are what `o` says.
spec fn told(t: Turn, m: OutboundMsg, o: Outcome) -> bool {
    t.0 == o.stage && t.1 == o.fate && t.2 == o.action && m == o.msg
}

fn open_message(m: &mut OutboundMsg, now: u64, pn: bool) -> (t: Turn)
    requires
        now <= LAST_MOMENT,
    ensures
        told(t, *final(m), opened(*old(m), now, pn)),
{
    if m.needs_stamp.is_some() {
        return (Stage::Open, Move::Advance, Action::Next(Notice::Silent));
    }
    if now > m.deadline {
        if !m.via_pn && !m.tried_pn && pn {
            m.via_pn = true;
            m.deadline = now + PROP_DEADLINE;
            m.next_action = now;
            return (Stage::Open, Move::Advance, Action::Next(Notice::DirectTimedOut));
        }
        return (
            Stage::Expiring,
            Move::Stay,
            Action::CheckPath { expire_node: m.via_pn && !m.tried_pn && pn },
        );
    }
    if now < m.next_action {
        return (Stage::Open, Move::Advance, Action::Next(Notice::Silent));
    }
    if m.in_flight.is_none() {
        if m.via_pn {
            return (
                Stage::Node,
                Move::Stay,
                Action::LookNode { forget: false, notice: Notice::Silent },
            );
        }
        return (Stage::Peer, Move::Stay, Action::LookPeer { forget: false });
    }
    m.in_flight = None;
    if m.via_pn {
        (
            Stage::Node,
            Move::Stay,
            Action::LookNode { forget: true, notice: Notice::RetryingNode },
        )
    } else if m.attempts < MAX_ATTEMPTS {
        (Stage::Peer, Move::Stay, Action::LookPeer { forget: true })
    } else if !m.tried_pn && pn {
        m.via_pn = true;
        m.deadline = now + PROP_DEADLINE;
        (
            Stage::Node,
            Move::Stay,
            Action::LookNode { forget: false, notice: Notice::NoConfirmation },
        )
    } else {
        (Stage::Open, Move::Fail(Reason::NoAcknowledgement), Action::Next(Notice::Silent))
    }
}

fn see_node(m: &mut OutboundMsg, now: u64, known: bool, path: bool, link: Option<Address>) -> (t: Turn)
    requires
        now <= LAST_MOMENT,
    ensures
        told(t, *final(m), at_node(*old(m), now, known, path, link)),
{
    if !known || !path {
        m.awaiting_key = !known;
        m.next_action = now + KEY_RETRY;
        return (Stage::Open, Move::Advance, Action::AskNode);
    }
    match link {
        None => {
            m.next_action = now + LINK_RETRY;
            (Stage::Open, Move::Advance, Action::LinkNode(Notice::ContactingNode))
        },
        Some(l) => {
            let size: Option<usize> = match &m.pn_blob {
                Some(blob) => Some(blob.len()),
                None => None,
            };
            match size {
                None => {
                    m.next_action = now + 1;
                    (Stage::Open, Move::Advance, Action::Next(Notice::Silent))
                },
                Some(n) => {
                    let resource = n > LINK_PACKED_MAX;
                    (
                        Stage::NodeSend { resource },
                        Move::Stay,
                        Action::SendNode { link: l, resource },
                    )
                },
            }
        },
    }
}

fn after_node_send(m: &mut OutboundMsg, now: u64, resource: bool, hash: Option<[u8; 32]>) -> (t: Turn)
    requires
        now <= LAST_MOMENT,
    ensures
        told(t, *final(m), node_sent(*old(m), now, resource, hash)),
{
    match hash {
        Some(h) => {
            m.in_flight = Some(h);
            m.tried_pn = true;
            if resource {
                m.next_action = now + RESOURCE_RETRY;
                (Stage::Open, Move::Advance, Action::Next(Notice::TransferringToNode))
            } else {
                m.next_action = now + PROOF_TIMEOUT;
                (Stage::Open, Move::Advance, Action::Next(Notice::SendingToNode))
            }
        },
        None => {
            m.next_action = now + 2;
            (Stage::Open, Move::Advance, Action::Next(Notice::Silent))
        },
    }
}

fn see_peer(
    m: &OutboundMsg,
    now: u64,
    link: Option<Address>,
    backchannel: Option<(Address, u64)>,
) -> (t: Turn)
    ensures
        told(t, *m, at_peer(*m, now, link, backchannel)),
{
    let resource = m.packed.len() > LINK_PACKED_MAX;
    match link {
        Some(l) => (
            Stage::PeerSend { resource, theirs: false },
            Move::Stay,
            Action::SendPeer { link: l, resource, theirs: false },
        ),
        None => match backchannel {
            Some((l, seen)) => if now.saturating_sub(seen) <= BACKCHANNEL_MAX_IDLE {
                (
                    Stage::PeerSend { resource, theirs: true },
                    Move::Stay,
                    Action::SendPeer { link: l, resource, theirs: true },
                )
            } else {
                (Stage::Establish, Move::Stay, Action::LookRoute { forget: true })
            },
            None => (Stage::Establish, Move::Stay, Action::LookRoute { forget: false }),
        },
    }
}

fn after_peer_send(
    m: &mut OutboundMsg,
    now: u64,
    resource: bool,
    theirs: bool,
    hash: Option<[u8; 32]>,
) -> (t: Turn)
    requires
        now <= LAST_MOMENT,
        old(m).attempts < MAX_ATTEMPTS,
    ensures
        told(t, *final(m), peer_sent(*old(m), now, resource, theirs, hash)),
{
    match hash {
        Some(h) => {
            m.in_flight = Some(h);
            m.attempts = m.attempts + 1;
            if resource {
                m.next_action = now + RESOURCE_RETRY;
            } else {
                m.next_action = now + DELIVERY_RETRY;
            }
            let notice = if !resource {
                Notice::Sent(m.attempts)
            } else if theirs {
                Notice::TransferringTheirs
            } else {
                Notice::TransferringLarge
            };
            (Stage::Open, Move::Advance, Action::Next(notice))
        },
        None => if theirs {
            (Stage::Establish, Move::Stay, Action::LookRoute { forget: true })
        } else {
            m.next_action = now + 1;
            (Stage::Open, Move::Advance, Action::Next(Notice::Silent))
        },
    }
}

fn see_route(
    m: &mut OutboundMsg,
    now: u64,
    pn: bool,
    known: bool,
    path: bool,
    pending: bool,
) -> (t: Turn)
    requires
        now <= LAST_MOMENT,
    ensures
        told(t, *final(m), establishing(*old(m), now, pn, known, path, pending)),
{
    let fall_back = !m.tried_pn && pn;
    if !known {
        m.awaiting_key = true;
        m.next_action = now + KEY_RETRY;
        (Stage::Open, Move::Advance, Action::AskKey(Notice::RequestingKey))
    } else if !path {
        if m.route_tries >= MAX_ROUTE_TRIES && fall_back {
            m.via_pn = true;
            m.deadline = now + PROP_DEADLINE;
            m.next_action = now;
            (Stage::Open, Move::Stay, Action::Next(Notice::NoRoute))
        } else {
            (Stage::AskedPath, Move::Stay, Action::AskPath(Notice::FindingRoute))
        }
    } else if !pending && m.link_tries >= MAX_LINK_TRIES {
        if fall_back {
            m.via_pn = true;
            m.deadline = now + PROP_DEADLINE;
            m.next_action = now;
            (Stage::Open, Move::Stay, Action::ExpirePath(Notice::LinkFailed))
        } else {
            m.link_tries = 0;
            m.next_action = now + 1;
            (Stage::Open, Move::Advance, Action::ExpirePath(Notice::Silent))
        }
    } else {
        (Stage::Linking, Move::Stay, Action::LinkPeer)
    }
}

/// Takes one answer for the message and says what to do next.
pub fn advance(m: &mut OutboundMsg, stage: Stage, now: u64, pn: bool, answer: Answer) -> (t: (
    Stage,
    Move,
    Action,
))
    requires
        now <= LAST_MOMENT,
        old(m).wf(pn),
        fits(stage, *old(m)),
        answers(stage, answer),
    ensures
        ({
            let o = advanced(stage, *old(m), now, pn, answer);
            t.0 == o.stage && t.1 == o.fate && t.2 == o.action && *final(m) == o.msg
        }),
        final(m).wf(pn) || t.1 is Fail,
        fits(t.0, *final(m)),
{
    match (stage, answer) {
        (Stage::Open, Answer::Go) => open_message(m, now, pn),
        (Stage::Expiring, Answer::Path(path)) => {
            let why = if m.via_pn {
                Reason::NodeUnconfirmed
            } else if m.attempts == 0 && !m.tried_pn {
                if path {
                    Reason::NoLink
                } else {
                    Reason::NoRoute
                }
            } else {
                Reason::NoAcknowledgement
            };
            (Stage::Open, Move::Fail(why), Action::Next(Notice::Silent))
        },
        (Stage::Node, Answer::Node { known, path, link }) => see_node(m, now, known, path, link),
        (Stage::NodeSend { resource }, Answer::Sent(hash)) => after_node_send(
            m,
            now,
            resource,
            hash,
        ),
        (Stage::Peer, Answer::Peer { link, backchannel }) => see_peer(m, now, link, backchannel),
        (Stage::PeerSend { resource, theirs }, Answer::Sent(hash)) => after_peer_send(
            m,
            now,
            resource,
            theirs,
            hash,
        ),
        (Stage::Establish, Answer::Route { known, path, pending }) => see_route(
            m,
            now,
            pn,
            known,
            path,
            pending,
        ),
        (Stage::AskedPath, Answer::Asked(sent)) => {
            if sent {
                m.route_tries = m.route_tries.saturating_add(1);
            }
            m.awaiting_key = false;
            m.next_action = now + KEY_RETRY;
            (Stage::Open, Move::Advance, Action::Next(Notice::Silent))
        },
        (Stage::Linking, Answer::Link(outcome)) => {
            m.next_action = now + 2;
            if outcome == LinkReqOutcome::Sent {
                m.link_tries = m.link_tries.saturating_add(1);
                (Stage::Open, Move::Advance, Action::Next(Notice::EstablishingLink))
            } else {
                (Stage::Open, Move::Advance, Action::Next(Notice::Silent))
            }
        },
        _ => (stage, Move::Stay, Action::Next(Notice::Silent)),
    }
}

// ---------------------------------------------------------------------------
// A pass over the outbox
// ---------------------------------------------------------------------------

/// A message that was given up.
pub struct Failure {
    pub peer: Address,
    pub display_ts: u64,
    pub text: String,
    pub why: Reason,
}

/// A pass over the outbox: the message it is at, where the work on that stands,
/// and the messages given up so far.
pub struct Pump {
    pub at: usize,
    pub stage: Stage,
    pub failures: Vec<Failure>,
}

/// All messages are well formed.
pub open spec fn outbox_wf(outbox: Seq<OutboundMsg>, pn: bool) -> bool {
    forall|i: int| 0 <= i < outbox.len() ==> (#[trigger] outbox[i]).wf(pn)
}

/// The record of a message that was given up.
pub open spec fn failure_of(m: OutboundMsg, why: Reason) -> Failure {
    Failure { peer: m.peer, display_ts: m.display_ts, text: m.text, why }
}

impl Pump {
    /// The pass is at a message and its stage fits that, or it is at its end.
    pub open spec fn wf(&self, outbox: Seq<OutboundMsg>) -> bool {
        &&& self.at <= outbox.len()
        &&& self.at < outbox.len() ==> fits(self.stage, outbox[self.at as int])
        &&& self.at == outbox.len() ==> self.stage == Stage::Open
    }

    /// A pass from the start.
    pub fn new() -> (r: Pump)
        ensures
            r.at == 0,
            r.stage == Stage::Open,
            r.failures@ == Seq::<Failure>::empty(),
            forall|outbox: Seq<OutboundMsg>| r.wf(outbox),
    {
        Pump { at: 0, stage: Stage::Open, failures: Vec::new() }
    }

    /// Takes one answer and says what to do next; nothing where the pass is over.
    pub fn resume(&mut self, outbox: &mut Vec<OutboundMsg>, now: u64, pn: bool, answer: Answer) -> (r:
        Option<Action>)
        requires
            now <= LAST_MOMENT,
            old(self).wf(old(outbox)@),
            outbox_wf(old(outbox)@, pn),
            old(self).at < old(outbox)@.len() ==> answers(old(self).stage, answer),
        ensures
            final(self).wf(final(outbox)@),
            outbox_wf(final(outbox)@, pn),
            r is None <==> old(self).at == old(outbox)@.len(),
            r is None ==> *final(self) == *old(self) && final(outbox)@ == old(outbox)@,
            r matches Some(action) ==> {
                let at = old(self).at as int;
                let o = advanced(old(self).stage, old(outbox)@[at], now, pn, answer);
                &&& action == o.action
                &&& final(self).stage == o.stage
                &&& match o.fate {
                    Move::Stay => {
                        &&& final(outbox)@ == old(outbox)@.update(at, o.msg)
                        &&& final(self).at == at
                        &&& final(self).failures@ == old(self).failures@
                    },
                    Move::Advance => {
                        &&& final(outbox)@ == old(outbox)@.update(at, o.msg)
                        &&& final(self).at == at + 1
                        &&& final(self).failures@ == old(self).failures@
                    },
                    Move::Fail(why) => {
                        &&& final(outbox)@ == old(outbox)@.remove(at)
                        &&& final(self).at == at
                        &&& final(self).failures@ == old(self).failures@.push(
                            failure_of(o.msg, why),
                        )
                    },
                }
            },
    {
        if self.at >= outbox.len() {
            return None;
        }
        let ghost before = outbox@;
        let ghost at = self.at as int;
        let mut m = outbox.remove(self.at);
        assert(m == before[at]);
        let (stage, fate, action) = advance(&mut m, self.stage, now, pn, answer);
        self.stage = stage;
        match fate {
            Move::Fail(why) => {
                self.failures.push(
                    Failure { peer: m.peer, display_ts: m.display_ts, text: m.text, why },
                );
            },
            Move::Stay => {
                outbox.insert(self.at, m);
                assert(outbox@ =~= before.update(at, m));
            },
            Move::Advance => {
                outbox.insert(self.at, m);
                assert(outbox@ =~= before.update(at, m));
                self.at = self.at + 1;
            },
        }
        Some(action)
    }
}

// ---------------------------------------------------------------------------
// Proofs of delivery
// ---------------------------------------------------------------------------

/// The first message from `i` on whose proof has the hash `hash`, or the length
/// of the outbox.
pub open spec fn in_flight_at(outbox: Seq<OutboundMsg>, hash: [u8; 32], i: int) -> int
    decreases outbox.len() - i,
{
    if i >= outbox.len() || outbox[i].in_flight == Some(hash) {
        if i > outbox.len() {
            outbox.len() as int
        } else {
            i
        }
    } else {
        in_flight_at(outbox, hash, i + 1)
    }
}

/// A message that arrived somewhere.
pub struct Delivered {
    pub peer: Address,
    pub display_ts: u64,
    pub text: String,
    pub status: u8,
}

/// The record of a message that arrived: at the propagation node if it went there,
/// else at the peer.
pub open spec fn delivered_of(m: OutboundMsg) -> Delivered {
    Delivered {
        peer: m.peer,
        display_ts: m.display_ts,
        text: m.text,
        status: if m.via_pn {
            STATUS_QUEUED
        } else {
            STATUS_DELIVERED
        },
    }
}

/// A proof came: the message it is for leaves the outbox.
pub fn mark_delivered(outbox: &mut Vec<OutboundMsg>, packet_hash: &[u8; 32]) -> (r: Option<Delivered>)
    ensures
        ({
            let at = in_flight_at(old(outbox)@, *packet_hash, 0);
            match r {
                Some(d) => at < old(outbox)@.len() && final(outbox)@ == old(outbox)@.remove(at) && d
                    == delivered_of(old(outbox)@[at]),
                None => at == old(outbox)@.len() && final(outbox)@ == old(outbox)@,
            }
        }),
{
    let mut i: usize = 0;
    while i < outbox.len()
        invariant
            i <= outbox@.len(),
            outbox@ == old(outbox)@,
            in_flight_at(outbox@, *packet_hash, 0) == in_flight_at(
                outbox@,
                *packet_hash,
                i as int,
            ),
        decreases outbox@.len() - i,
    {
        let hit = match &outbox[i].in_flight {
            Some(h) => same_digest(h, packet_hash),
            None => false,
        };
        if hit {
            let m = outbox.remove(i);
            let status = if m.via_pn {
                STATUS_QUEUED
            } else {
                STATUS_DELIVERED
            };
            return Some(
                Delivered { peer: m.peer, display_ts: m.display_ts, text: m.text, status },
            );
        }
        i += 1;
    }
    None
}

/// The line about a message that arrived.
pub open spec fn delivery_words(label: Seq<char>, status: u8) -> Seq<char> {
    if status == STATUS_QUEUED {
        MARK_QUEUED@ + " stored at propagation node for "@ + label
    } else {
        MARK_DELIVERED@ + " delivered to "@ + label
    }
}

/// The line about a message that arrived.
pub fn delivery_note(label: &str, status: u8) -> (r: String)
    ensures
        r@ == delivery_words(label@, status),
{
    if status == STATUS_QUEUED {
        join3(MARK_QUEUED, " stored at propagation node for ", label)
    } else {
        join3(MARK_DELIVERED, " delivered to ", label)
    }
}

/// A delivery mark for a thread that was not open when it changed.
pub struct DeliveryUpdate {
    pub display_ts: u64,
    pub text: String,
    pub status: u8,
}

// ---------------------------------------------------------------------------
// Stamps and wrapped messages
// ---------------------------------------------------------------------------

/// The first message from `i` on that waits for its stamp, or the length of the
/// outbox.
pub open spec fn unstamped_at(outbox: Seq<OutboundMsg>, i: int) -> int
    decreases outbox.len() - i,
{
    if i >= outbox.len() {
        outbox.len() as int
    } else if outbox[i].needs_stamp is Some {
        i
    } else {
        unstamped_at(outbox, i + 1)
    }
}

/// The first message that waits for its stamp.
pub fn stamp_job(outbox: &Vec<OutboundMsg>) -> (r: Option<usize>)
    ensures
        match r {
            Some(i) => i == unstamped_at(outbox@, 0) && i < outbox@.len()
                && outbox@[i as int].needs_stamp is Some,
            None => unstamped_at(outbox@, 0) == outbox@.len(),
        },
{
    let mut i: usize = 0;
    while i < outbox.len()
        invariant
            i <= outbox@.len(),
            unstamped_at(outbox@, 0) == unstamped_at(outbox@, i as int),
        decreases outbox@.len() - i,
    {
        if outbox[i].needs_stamp.is_some() {
            return Some(i);
        }
        i += 1;
    }
    None
}

/// The first message from `i` on that is to be wrapped for the propagation node,
/// or the length of the outbox.
pub open spec fn unwrapped_at(outbox: Seq<OutboundMsg>, i: int) -> int
    decreases outbox.len() - i,
{
    if i >= outbox.len() {
        outbox.len() as int
    } else if outbox[i].via_pn && outbox[i].pn_blob is None {
        i
    } else {
        unwrapped_at(outbox, i + 1)
    }
}

/// The first message that is to be wrapped for the propagation node.
pub fn blob_job(outbox: &Vec<OutboundMsg>) -> (r: Option<usize>)
    ensures
        match r {
            Some(i) => i == unwrapped_at(outbox@, 0) && i < outbox@.len(),
            None => unwrapped_at(outbox@, 0) == outbox@.len(),
        },
{
    let mut i: usize = 0;
    while i < outbox.len()
        invariant
            i <= outbox@.len(),
            unwrapped_at(outbox@, 0) == unwrapped_at(outbox@, i as int),
        decreases outbox@.len() - i,
    {
        if outbox[i].via_pn && outbox[i].pn_blob.is_none() {
            return Some(i);
        }
        i += 1;
    }
    None
}

/// The message is the one to `peer` with the bubble of `ts`.
pub open spec fn is_message(m: OutboundMsg, peer: Address, ts: u64) -> bool {
    m.peer == peer && m.display_ts == ts
}

/// The first message from `i` on to `peer` with the bubble of `ts`, or the length
/// of the outbox.
pub open spec fn message_at(outbox: Seq<OutboundMsg>, peer: Address, ts: u64, i: int) -> int
    decreases outbox.len() - i,
{
    if i >= outbox.len() {
        outbox.len() as int
    } else if is_message(outbox[i], peer, ts) {
        i
    } else {
        message_at(outbox, peer, ts, i + 1)
    }
}

/// Where the message to `peer` with the bubble of `ts` stands.
pub fn find_message(outbox: &Vec<OutboundMsg>, peer: &Address, ts: u64) -> (r: Option<usize>)
    ensures
        match r {
            Some(i) => i == message_at(outbox@, *peer, ts, 0) && i < outbox@.len(),
            None => message_at(outbox@, *peer, ts, 0) == outbox@.len(),
        },
{
    let mut i: usize = 0;
    while i < outbox.len()
        invariant
            i <= outbox@.len(),
            message_at(outbox@, *peer, ts, 0) == message_at(outbox@, *peer, ts, i as int),
        decreases outbox@.len() - i,
    {
        if outbox[i].display_ts == ts && same_address(&outbox[i].peer, peer) {
            return Some(i);
        }
        i += 1;
    }
    None
}

/// `m` with its stamp on; its time budget starts now.
pub open spec fn armed(m: OutboundMsg, packed: Vec<u8>, now: u64) -> OutboundMsg {
    OutboundMsg {
        packed,
        needs_stamp: None,
        created: now,
        deadline: (now + DIRECT_DEADLINE) as u64,
        ..m
    }
}

/// Puts the stamped form into the message it is for, which may be gone.
pub fn arm_stamped(
    outbox: &mut Vec<OutboundMsg>,
    peer: &Address,
    ts: u64,
    packed: Vec<u8>,
    now: u64,
) -> (r: bool)
    requires
        now <= LAST_MOMENT,
    ensures
        ({
            let at = message_at(old(outbox)@, *peer, ts, 0);
            &&& r == (at < old(outbox)@.len())
            &&& r ==> final(outbox)@ == old(outbox)@.update(
                at,
                armed(old(outbox)@[at], packed, now),
            )
            &&& !r ==> final(outbox)@ == old(outbox)@
        }),
{
    match find_message(outbox, peer, ts) {
        Some(i) => {
            let mut m = outbox.remove(i);
            m.packed = packed;
            m.needs_stamp = None;
            m.created = now;
            m.deadline = now + DIRECT_DEADLINE;
            outbox.insert(i, m);
            assert(outbox@ =~= old(outbox)@.update(i as int, m));
            true
        },
        None => false,
    }
}

/// Puts the wrapped form into the message it is for, which may be gone.
pub fn store_blob(outbox: &mut Vec<OutboundMsg>, peer: &Address, ts: u64, blob: Vec<u8>) -> (r: bool)
    ensures
        ({
            let at = message_at(old(outbox)@, *peer, ts, 0);
            &&& r == (at < old(outbox)@.len())
            &&& r ==> final(outbox)@ == old(outbox)@.update(
                at,
                (OutboundMsg { pn_blob: Some(blob), ..old(outbox)@[at] }),
            )
            &&& !r ==> final(outbox)@ == old(outbox)@
        }),
{
    match find_message(outbox, peer, ts) {
        Some(i) => {
            let mut m = outbox.remove(i);
            m.pn_blob = Some(blob);
            outbox.insert(i, m);
            assert(outbox@ =~= old(outbox)@.update(i as int, m));
            true
        },
        None => false,
    }
}

/// The messages other than those to `peer` with the bubble of `ts`.
pub open spec fn others(outbox: Seq<OutboundMsg>, peer: Address, ts: u64) -> Seq<OutboundMsg> {
    outbox.filter(|m: OutboundMsg| !is_message(m, peer, ts))
}

/// Drops the messages to `peer` with the bubble of `ts`.
pub fn drop_message(outbox: &mut Vec<OutboundMsg>, peer: &Address, ts: u64)
    ensures
        final(outbox)@ == others(old(outbox)@, *peer, ts),
{
    let ghost keep = |m: OutboundMsg| !is_message(m, *peer, ts);
    let mut i: usize = 0;
    let ghost before = outbox@;
    assert(before.skip(0) =~= before);
    assert(before.take(0).filter(keep) =~= Seq::<OutboundMsg>::empty());
    let ghost mut done: int = 0;
    while i < outbox.len()
        invariant
            i <= outbox@.len(),
            0 <= done <= before.len(),
            keep == (|m: OutboundMsg| !is_message(m, *peer, ts)),
            outbox@.take(i as int) == before.take(done).filter(keep),
            outbox@.skip(i as int) == before.skip(done),
        decreases outbox@.len() - i,
    {
        let ghost o = outbox@;
        proof {
            assert(o.skip(i as int).len() == before.skip(done).len());
            assert(done < before.len());
            assert(o.skip(i as int)[0] == before.skip(done)[0]);
            assert(before.take(done + 1).drop_last() =~= before.take(done));
            assert(before.take(done + 1).last() == o[i as int]);
            reveal(Seq::filter);
        }
        if outbox[i].display_ts == ts && same_address(&outbox[i].peer, peer) {
            outbox.remove(i);
            proof {
                assert(outbox@.take(i as int) =~= o.take(i as int));
                assert(outbox@.skip(i as int) =~= o.skip(i as int).skip(1));
                assert(before.skip(done + 1) =~= before.skip(done).skip(1));
            }
        } else {
            proof {
                assert(outbox@.take(i + 1) =~= o.take(i as int).push(o[i as int]));
                assert(outbox@.skip(i + 1) =~= o.skip(i as int).skip(1));
                assert(before.skip(done + 1) =~= before.skip(done).skip(1));
            }
            i += 1;
        }
        proof {
            done = done + 1;
        }
    }
    proof {
        assert(outbox@.skip(i as int).len() == 0);
        assert(before.skip(done).len() == 0);
        assert(before.take(done) =~= before);
        assert(outbox@.take(i as int) =~= outbox@);
    }
}

/// Drops all messages to `peer`.
pub fn drop_peer(outbox: &mut Vec<OutboundMsg>, peer: &Address)
    ensures
        final(outbox)@ == old(outbox)@.filter(|m: OutboundMsg| m.peer != *peer),
{
    let ghost keep = |m: OutboundMsg| m.peer != *peer;
    let mut i: usize = 0;
    let ghost before = outbox@;
    assert(before.skip(0) =~= before);
    assert(before.take(0).filter(keep) =~= Seq::<OutboundMsg>::empty());
    let ghost mut done: int = 0;
    while i < outbox.len()
        invariant
            i <= outbox@.len(),
            0 <= done <= before.len(),
            keep == (|m: OutboundMsg| m.peer != *peer),
            outbox@.take(i as int) == before.take(done).filter(keep),
            outbox@.skip(i as int) == before.skip(done),
        decreases outbox@.len() - i,
    {
        let ghost o = outbox@;
        proof {
            assert(o.skip(i as int).len() == before.skip(done).len());
            assert(done < before.len());
            assert(o.skip(i as int)[0] == before.skip(done)[0]);
            assert(before.take(done + 1).drop_last() =~= before.take(done));
            assert(before.take(done + 1).last() == o[i as int]);
            reveal(Seq::filter);
        }
        if same_address(&outbox[i].peer, peer) {
            outbox.remove(i);
            proof {
                assert(outbox@.take(i as int) =~= o.take(i as int));
                assert(outbox@.skip(i as int) =~= o.skip(i as int).skip(1));
                assert(before.skip(done + 1) =~= before.skip(done).skip(1));
            }
        } else {
            proof {
                assert(outbox@.take(i + 1) =~= o.take(i as int).push(o[i as int]));
                assert(outbox@.skip(i + 1) =~= o.skip(i as int).skip(1));
                assert(before.skip(done + 1) =~= before.skip(done).skip(1));
            }
            i += 1;
        }
        proof {
            done = done + 1;
        }
    }
    proof {
        assert(outbox@.skip(i as int).len() == 0);
        assert(before.skip(done).len() == 0);
        assert(before.take(done) =~= before);
        assert(outbox@.take(i as int) =~= outbox@);
    }
}

/// What became of a stamp job.
pub enum StampJob {
    /// The peer asks for more than is mined for anyone.
    TooCostly,
    /// The packed message takes no stamp, or there is none to be found.
    Unstampable,
    Stamped(Vec<u8>),
}

/// The packed message without its signature, which its identifier is the digest
/// of.
pub open spec fn without_signature(packed: Seq<u8>) -> Seq<u8> {
    packed.take(32) + packed.skip(96)
}

/// Mines the stamp that a recipient asks for and puts it on the packed message.
pub fn mine_delivery_stamp(packed: &[u8], cost: u32) -> (r: StampJob)
    requires
        packed@.len() >= HEADER_LENGTH,
    ensures
        ({
            let id = sha256(without_signature(packed@));
            let rounds = WORKBLOCK_EXPAND_ROUNDS_DELIVERY as nat;
            match r {
                StampJob::TooCostly => cost > MAX_DELIVERY_STAMP_COST,
                StampJob::Unstampable => cost <= MAX_DELIVERY_STAMP_COST && ((forall|c: u64|
                    !stamp_valid(id, cost as int, rounds, #[trigger] counter_stamp(c))) || exists|
                    stamp: Seq<u8>,
                |
                    first_stamp(id, cost as int, rounds, stamp) && #[trigger] with_stamp(
                        packed@,
                        stamp,
                    ) is None),
                StampJob::Stamped(b) => cost <= MAX_DELIVERY_STAMP_COST && exists|stamp: Seq<u8>|
                    first_stamp(id, cost as int, rounds, stamp) && #[trigger] with_stamp(
                        packed@,
                        stamp,
                    ) == Some(b@),
            }
        }),
{
    if cost > MAX_DELIVERY_STAMP_COST {
        return StampJob::TooCostly;
    }
    let mut hashed = to_vec(slice_subrange(packed, 0, 32));
    push_all(&mut hashed, slice_subrange(packed, HEADER_LENGTH, packed.len()));
    assert(hashed@ =~= without_signature(packed@));
    let id = full_hash(hashed.as_slice());
    match find_stamp(id.as_slice(), cost, WORKBLOCK_EXPAND_ROUNDS_DELIVERY) {
        Some(stamp) => match append_stamp(packed, stamp.as_slice()) {
            Some(b) => StampJob::Stamped(b),
            None => StampJob::Unstampable,
        },
        None => StampJob::Unstampable,
    }
}

/// The stamp that a message to a demanding peer gets is mined over the message's
/// own identifier, and the message still parses to what was packed.
pub proof fn delivery_stamp_covers_the_message(
    signature: Seq<u8>,
    dest: Seq<u8>,
    source: Seq<u8>,
    timestamp: u64,
    title: Seq<u8>,
    content: Seq<u8>,
    fields: Seq<(i64, Model)>,
    stamp: Seq<u8>,
)
    requires
        signature.len() == SIG_LENGTH,
        dest.len() == DEST_LEN,
        source.len() == DEST_LEN,
        packable(title, content, fields),
        stamp.len() == STAMP_SIZE,
    ensures
        ({
            let p = payload(timestamp, title, content, fields);
            let packed = packed_bytes(signature, dest, source, p, None);
            &&& sha256(without_signature(packed)) == id_of(dest, source, encoded(Model::Array(p)))
            &&& with_stamp(packed, stamp) is Some
            &&& parsed(with_stamp(packed, stamp)->0) == parsed(packed)
        }),
{
    let p = payload(timestamp, title, content, fields);
    let packed = packed_bytes(signature, dest, source, p, None);
    stamped_message_reads_back(
        signature,
        dest,
        source,
        timestamp,
        title,
        content,
        fields,
        stamp,
    );
    assert(without_signature(packed) =~= hashed_part(dest, source, encoded(Model::Array(p))));
}

// ---------------------------------------------------------------------------
// What holds of every pass
// ---------------------------------------------------------------------------

/// How many answers a message can still ask for before the pass leaves it.
pub open spec fn answers_left(stage: Stage, via_pn: bool) -> nat {
    match stage {
        Stage::Open => if via_pn {
            3
        } else {
            7
        },
        Stage::Peer => 6,
        Stage::PeerSend { .. } => 5,
        Stage::Establish => 4,
        Stage::AskedPath => 1,
        Stage::Linking => 1,
        Stage::Node => 2,
        Stage::NodeSend { .. } => 1,
        Stage::Expiring => 1,
    }
}

/// A pass ends: each answer leaves the message for good or brings it closer to
/// that, by at most seven answers a message.
pub proof fn pass_ends(stage: Stage, m: OutboundMsg, now: u64, pn: bool, answer: Answer)
    requires
        m.wf(pn),
        fits(stage, m),
        answers(stage, answer),
    ensures
        ({
            let o = advanced(stage, m, now, pn, answer);
            o.fate is Stay ==> answers_left(o.stage, o.msg.via_pn) < answers_left(stage, m.via_pn)
        }),
{
}

/// Nothing is sent before its stamp is on.
pub proof fn nothing_is_sent_unstamped(
    stage: Stage,
    m: OutboundMsg,
    now: u64,
    pn: bool,
    answer: Answer,
)
    requires
        m.wf(pn),
        fits(stage, m),
        answers(stage, answer),
        m.needs_stamp is Some,
    ensures
        ({
            let o = advanced(stage, m, now, pn, answer);
            o.msg == m && o.fate is Advance && o.action == Action::Next(Notice::Silent)
        }),
{
}

/// A message turns to the propagation node once, with the whole budget of that
/// way, and never turns back. Only one that was not sent there before does so, and
/// only where a node is configured.
pub proof fn escalation_is_fresh_and_final(
    stage: Stage,
    m: OutboundMsg,
    now: u64,
    pn: bool,
    answer: Answer,
)
    requires
        now <= LAST_MOMENT,
        m.wf(pn),
        fits(stage, m),
        answers(stage, answer),
    ensures
        ({
            let o = advanced(stage, m, now, pn, answer).msg;
            &&& m.via_pn ==> o.via_pn && o.deadline == m.deadline
            &&& !m.via_pn && o.via_pn ==> o.deadline == now + PROP_DEADLINE && !m.tried_pn && pn
            &&& !m.via_pn && !o.via_pn ==> o.deadline == m.deadline
        }),
{
}

/// A message is given up only when its time is up, or when its last direct try
/// went unanswered and the propagation node is no way out.
pub proof fn given_up_only_when_spent(
    stage: Stage,
    m: OutboundMsg,
    now: u64,
    pn: bool,
    answer: Answer,
)
    requires
        m.wf(pn),
        fits(stage, m),
        answers(stage, answer),
    ensures
        ({
            let o = advanced(stage, m, now, pn, answer);
            &&& o.fate is Fail ==> stage == Stage::Expiring || (stage == Stage::Open && !m.via_pn
                && m.in_flight is Some && m.attempts == MAX_ATTEMPTS && now >= m.next_action && (
            m.tried_pn || !pn))
            &&& o.stage == Stage::Expiring ==> m.needs_stamp is None && now > m.deadline && (
            m.via_pn || m.tried_pn || !pn)
        }),
{
}

/// What identifies a message, its text and its packed form stay as they are, and
/// its tries never run past their number.
pub proof fn a_pass_keeps_the_message(
    stage: Stage,
    m: OutboundMsg,
    now: u64,
    pn: bool,
    answer: Answer,
)
    requires
        m.wf(pn),
        fits(stage, m),
        answers(stage, answer),
    ensures
        ({
            let o = advanced(stage, m, now, pn, answer).msg;
            &&& o.peer == m.peer
            &&& o.display_ts == m.display_ts
            &&& o.text == m.text
            &&& o.packed == m.packed
            &&& o.pn_blob == m.pn_blob
            &&& o.needs_stamp == m.needs_stamp
            &&& m.attempts <= o.attempts <= MAX_ATTEMPTS
            &&& m.tried_pn ==> o.tried_pn
        }),
{
}

/// No message waits for ever: one whose time is up turns to the propagation node, which
/// it does once, or is given up with the next answer.
pub proof fn a_message_out_of_time_is_settled(m: OutboundMsg, now: u64, pn: bool, path: bool)
    requires
        now <= LAST_MOMENT,
        now > m.deadline,
        m.needs_stamp is None,
    ensures
        ({
            let o = advanced(Stage::Open, m, now, pn, Answer::Go);
            if !m.via_pn && !m.tried_pn && pn {
                &&& o.fate == Move::Advance
                &&& o.msg.via_pn
                &&& o.msg.deadline == now + PROP_DEADLINE
            } else {
                &&& o.fate == Move::Stay
                &&& advanced(o.stage, o.msg, now, pn, Answer::Path(path)).fate is Fail
            }
        }),
{
}

} // verus!
