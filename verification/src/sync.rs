//! Fetching messages that a propagation node has stored for us: finding the node,
//! linking to it, asking what it has, downloading that, and confirming it.
use vstd::prelude::*;
use vstd::slice::slice_subrange;

use crate::address::{same_address, Address};
use crate::bytes::{push_all, to_vec};
use crate::message::{stored_form, DEST_LEN};
use crate::msgpack::{bin_of, encoded, model, Model, Value};
use crate::outbox::{LinkReqOutcome, LAST_MOMENT};
use crate::request::{request_model, rns_request};
use crate::sha256::{full_hash, sha256};
use crate::text::{decimal_text, push_decimal};
use crate::transfer::{resource_step, ResourceEvent, ResourceStep};

verus! {

/// The request path that the node hands messages out on.
pub const SYNC_GET_PATH: &'static str = "/get";

/// How many kilobytes of messages one download may bring.
pub const SYNC_DELIVERY_LIMIT: i64 = 128;

/// After how many seconds a sync without an end is given up.
pub const SYNC_DEADLINE_SECS: u64 = 120;

/// How many seconds lie between two looks for the node.
pub const SYNC_ROUTE_RETRY_SECS: u64 = 3;

/// How many looks for the node a sync takes.
pub const SYNC_ROUTE_TRIES: u8 = 20;

/// How many seconds lie between two searches for the node's route while the first
/// sync is still to come.
pub const PN_PROBE_RETRY_SECS: u64 = 30;

/// Where a sync stands.
#[derive(Debug, Clone, Copy, PartialEq, Eq, Structural)]
pub enum SyncPhase {
    Idle,
    /// Waiting for the link to the node.
    Linking,
    /// Asked for the list of messages.
    ListRequested,
    /// Asked for the messages.
    GetRequested,
}

/// A sync, or the wait for one.
pub struct SyncState {
    pub phase: SyncPhase,
    /// The link to the node.
    pub link_id: Option<Address>,
    /// A download is under way.
    pub receiving: bool,
    /// When the sync is given up.
    pub deadline: u64,
    /// The first sync of this run was started.
    pub auto_done: bool,
    /// When to search for the node's route again.
    pub pn_probe_at: u64,
    /// A sync is wanted.
    pub requested: bool,
    /// When to look again whether a wanted sync can start.
    pub next_attempt: u64,
    /// Looks at a wanted sync that could not start.
    pub route_tries: u8,
    /// Link requests sent.
    pub link_tries: u8,
}

/// What is known of the way to the node.
#[derive(Clone, Copy)]
pub struct NodeView {
    /// Its key is known.
    pub known: bool,
    /// There is a route to it.
    pub path: bool,
    /// Something can be sent at all.
    pub up: bool,
    /// A link to it.
    pub link: Option<Address>,
}

/// How a sync ends.
#[derive(Debug, Clone, Copy, PartialEq, Eq, Structural)]
pub enum SyncEnd {
    NoConnection,
    NoRoute,
    WriteFailed,
    TimedOut,
    ConnectionLost,
    LinkClosed,
    UnsupportedResource,
    DecryptFailed,
    ResourceFailed,
    NeedsIdentification,
    DeniedAccess,
    NodeError,
    NothingNew,
    Synced(usize),
}

/// The words for the end of a sync.
pub open spec fn end_words(e: SyncEnd) -> Seq<char> {
    match e {
        SyncEnd::NoConnection => "sync: no connection (hub or local peers)"@,
        SyncEnd::NoRoute => "sync: no route to the propagation node"@,
        SyncEnd::WriteFailed => "sync: hub write failed \u{2014} try again"@,
        SyncEnd::TimedOut => "sync: timed out"@,
        SyncEnd::ConnectionLost => "sync: connection lost \u{2014} try again"@,
        SyncEnd::LinkClosed => "sync: node closed the link \u{2014} try again"@,
        SyncEnd::UnsupportedResource => "sync: sync failed (unsupported resource)"@,
        SyncEnd::DecryptFailed => "sync: sync failed (decrypt)"@,
        SyncEnd::ResourceFailed => "sync: sync failed (resource)"@,
        SyncEnd::NeedsIdentification => "sync: node needs identification"@,
        SyncEnd::DeniedAccess => "sync: node denied access"@,
        SyncEnd::NodeError => "sync: node error"@,
        SyncEnd::NothingNew => "sync: no new messages"@,
        SyncEnd::Synced(n) => "sync: synced "@ + decimal_text(n as nat) + " message(s)"@,
    }
}

/// The words for the end of a sync.
pub fn end_text(e: SyncEnd) -> (r: String)
    ensures
        r@ == end_words(e),
{
    match e {
        SyncEnd::NoConnection => String::from_str("sync: no connection (hub or local peers)"),
        SyncEnd::NoRoute => String::from_str("sync: no route to the propagation node"),
        SyncEnd::WriteFailed => String::from_str("sync: hub write failed \u{2014} try again"),
        SyncEnd::TimedOut => String::from_str("sync: timed out"),
        SyncEnd::ConnectionLost => String::from_str("sync: connection lost \u{2014} try again"),
        SyncEnd::LinkClosed => String::from_str("sync: node closed the link \u{2014} try again"),
        SyncEnd::UnsupportedResource => String::from_str(
            "sync: sync failed (unsupported resource)",
        ),
        SyncEnd::DecryptFailed => String::from_str("sync: sync failed (decrypt)"),
        SyncEnd::ResourceFailed => String::from_str("sync: sync failed (resource)"),
        SyncEnd::NeedsIdentification => String::from_str("sync: node needs identification"),
        SyncEnd::DeniedAccess => String::from_str("sync: node denied access"),
        SyncEnd::NodeError => String::from_str("sync: node error"),
        SyncEnd::NothingNew => String::from_str("sync: no new messages"),
        SyncEnd::Synced(n) => {
            let mut r = String::from_str("sync: synced ");
            push_decimal(&mut r, n as u64);
            r.append(" message(s)");
            r
        },
    }
}

/// What to do for a sync.
#[derive(Debug, Clone, Copy, PartialEq, Eq)]
pub enum SyncAction {
    Nothing,
    /// No node is configured; say so.
    SayNoNode,
    /// A sync is running already; say so.
    SayRunning,
    /// Say that a connection is waited for.
    SayWaiting,
    /// Say that the node is looked for, and ask the network for it.
    Find,
    /// Ask the network for the node's route.
    Probe,
    /// Identify on the link and ask for the list of messages.
    AskList(Address),
    /// Ask the node for a link, the first time.
    Contact,
    /// Ask the node for a link again, if its key is known.
    Recontact,
    /// Say how many link requests went out.
    SayTries(u8),
    /// The sync is over: drop the link, drop the route to the node where that is
    /// asked for, and say how it ended.
    End { end: SyncEnd, link: Option<Address>, expire: bool },
}

/// The state after a sync ended. The first sync of a run stays done.
pub open spec fn ended(s: SyncState) -> SyncState {
    SyncState {
        phase: SyncPhase::Idle,
        receiving: false,
        requested: false,
        route_tries: 0,
        link_id: None,
        ..s
    }
}

/// The end of a sync as an action.
pub open spec fn end_action(s: SyncState, end: SyncEnd, expire: bool) -> SyncAction {
    SyncAction::End { end, link: s.link_id, expire }
}

/// One more try, up to the end of the counter.
pub open spec fn tries_after(n: u8) -> u8 {
    if n < 255 {
        (n + 1) as u8
    } else {
        255
    }
}

/// A wanted sync that cannot start yet: wanted again in a while, a limited number
/// of times.
pub open spec fn put_off(s: SyncState, now: u64, end: SyncEnd, action: SyncAction) -> (
    SyncState,
    SyncAction,
) {
    let tries = tries_after(s.route_tries);
    let counted = SyncState { route_tries: tries, ..s };
    if tries <= SYNC_ROUTE_TRIES {
        (
            SyncState {
                requested: true,
                next_attempt: (now + SYNC_ROUTE_RETRY_SECS) as u64,
                ..counted
            },
            action,
        )
    } else {
        (ended(counted), end_action(counted, end, false))
    }
}

/// The start of a sync with the configured node.
pub open spec fn started(s: SyncState, now: u64, node: NodeView) -> (SyncState, SyncAction) {
    if s.phase != SyncPhase::Idle {
        (s, SyncAction::SayRunning)
    } else if !node.up {
        put_off(
            s,
            now,
            SyncEnd::NoConnection,
            if tries_after(s.route_tries) == 1 {
                SyncAction::SayWaiting
            } else {
                SyncAction::Nothing
            },
        )
    } else if !node.known || !node.path {
        put_off(s, now, SyncEnd::NoRoute, SyncAction::Find)
    } else {
        let linking = SyncState {
            phase: SyncPhase::Linking,
            receiving: false,
            deadline: (now + SYNC_DEADLINE_SECS) as u64,
            link_id: None,
            route_tries: 0,
            next_attempt: 0,
            link_tries: 0,
            ..s
        };
        match node.link {
            Some(l) => (
                SyncState { phase: SyncPhase::ListRequested, link_id: Some(l), ..linking },
                SyncAction::AskList(l),
            ),
            None => (linking, SyncAction::Contact),
        }
    }
}

/// A look at the sync from time to time, with a node configured.
pub open spec fn ticked(s: SyncState, now: u64, node: NodeView) -> (SyncState, SyncAction) {
    if s.phase != SyncPhase::Idle && now > s.deadline {
        (ended(s), end_action(s, SyncEnd::TimedOut, s.phase == SyncPhase::Linking))
    } else if s.phase == SyncPhase::Linking {
        (s, SyncAction::Recontact)
    } else if s.requested && now >= s.next_attempt {
        started(SyncState { requested: false, ..s }, now, node)
    } else if s.auto_done || s.phase != SyncPhase::Idle {
        (s, SyncAction::Nothing)
    } else if node.known && node.path {
        started(SyncState { auto_done: true, ..s }, now, node)
    } else if node.up && now >= s.pn_probe_at {
        (
            SyncState { pn_probe_at: (now + PN_PROBE_RETRY_SECS) as u64, ..s },
            SyncAction::Probe,
        )
    } else {
        (s, SyncAction::Nothing)
    }
}

/// After a link to the node was asked for; `first` tells the first time.
pub open spec fn contacted(s: SyncState, outcome: LinkReqOutcome, first: bool) -> (
    SyncState,
    SyncAction,
) {
    if outcome == LinkReqOutcome::WriteFailed {
        (ended(s), end_action(s, SyncEnd::WriteFailed, false))
    } else if first {
        (SyncState { link_tries: 1, ..s }, SyncAction::Nothing)
    } else if outcome == LinkReqOutcome::Sent {
        (
            SyncState { link_tries: tries_after(s.link_tries), ..s },
            SyncAction::SayTries(tries_after(s.link_tries)),
        )
    } else {
        (s, SyncAction::Nothing)
    }
}

impl SyncState {
    /// No sync yet.
    pub fn new() -> (r: SyncState)
        ensures
            r == (SyncState {
                phase: SyncPhase::Idle,
                link_id: None,
                receiving: false,
                deadline: 0,
                auto_done: false,
                pn_probe_at: 0,
                requested: false,
                next_attempt: 0,
                route_tries: 0,
                link_tries: 0,
            }),
    {
        SyncState {
            phase: SyncPhase::Idle,
            link_id: None,
            receiving: false,
            deadline: 0,
            auto_done: false,
            pn_probe_at: 0,
            requested: false,
            next_attempt: 0,
            route_tries: 0,
            link_tries: 0,
        }
    }

    /// A sync is wanted.
    pub fn request_sync(&mut self)
        ensures
            *final(self) == (SyncState { requested: true, ..*old(self) }),
    {
        self.requested = true;
    }

    /// The sync is over.
    pub fn sync_finish(&mut self, end: SyncEnd, expire: bool) -> (r: SyncAction)
        ensures
            *final(self) == ended(*old(self)),
            r == end_action(*old(self), end, expire),
    {
        self.phase = SyncPhase::Idle;
        self.receiving = false;
        self.requested = false;
        self.route_tries = 0;
        let link = self.link_id;
        self.link_id = None;
        SyncAction::End { end, link, expire }
    }

    fn put_off_start(&mut self, now: u64, end: SyncEnd, action: SyncAction) -> (r: SyncAction)
        requires
            now <= LAST_MOMENT,
        ensures
            (*final(self), r) == put_off(*old(self), now, end, action),
    {
        self.route_tries = self.route_tries.saturating_add(1);
        if self.route_tries <= SYNC_ROUTE_TRIES {
            self.requested = true;
            self.next_attempt = now + SYNC_ROUTE_RETRY_SECS;
            action
        } else {
            self.sync_finish(end, false)
        }
    }

    /// Starts a sync; nothing is known of a node where none is configured.
    pub fn start_sync(&mut self, now: u64, node: Option<NodeView>) -> (r: SyncAction)
        requires
            now <= LAST_MOMENT,
        ensures
            (*final(self), r) == (match node {
                Some(n) => started(*old(self), now, n),
                None => (*old(self), SyncAction::SayNoNode),
            }),
    {
        let n = match node {
            Some(n) => n,
            None => {
                return SyncAction::SayNoNode;
            },
        };
        if self.phase != SyncPhase::Idle {
            return SyncAction::SayRunning;
        }
        if !n.up {
            let action = if self.route_tries == 0 {
                SyncAction::SayWaiting
            } else {
                SyncAction::Nothing
            };
            return self.put_off_start(now, SyncEnd::NoConnection, action);
        }
        if !n.known || !n.path {
            return self.put_off_start(now, SyncEnd::NoRoute, SyncAction::Find);
        }
        self.phase = SyncPhase::Linking;
        self.receiving = false;
        self.deadline = now + SYNC_DEADLINE_SECS;
        self.link_id = None;
        self.route_tries = 0;
        self.next_attempt = 0;
        self.link_tries = 0;
        match n.link {
            Some(l) => {
                self.phase = SyncPhase::ListRequested;
                self.link_id = Some(l);
                SyncAction::AskList(l)
            },
            None => SyncAction::Contact,
        }
    }

    /// A look at the sync from time to time: ends one without an end, asks for a
    /// lost link again, starts a wanted sync, and the first of a run by itself.
    pub fn maybe_auto_sync(&mut self, now: u64, node: Option<NodeView>) -> (r: SyncAction)
        requires
            now <= LAST_MOMENT,
        ensures
            (*final(self), r) == (match node {
                Some(n) => ticked(*old(self), now, n),
                None => (
                    SyncState { requested: false, ..*old(self) },
                    if old(self).requested {
                        SyncAction::SayNoNode
                    } else {
                        SyncAction::Nothing
                    },
                ),
            }),
    {
        let n = match node {
            Some(n) => n,
            None => {
                let wanted = self.requested;
                self.requested = false;
                return if wanted {
                    SyncAction::SayNoNode
                } else {
                    SyncAction::Nothing
                };
            },
        };
        if self.phase != SyncPhase::Idle && now > self.deadline {
            let never_linked = self.phase == SyncPhase::Linking;
            return self.sync_finish(SyncEnd::TimedOut, never_linked);
        }
        if self.phase == SyncPhase::Linking {
            return SyncAction::Recontact;
        }
        if self.requested && now >= self.next_attempt {
            self.requested = false;
            return self.start_sync(now, Some(n));
        }
        if self.auto_done || self.phase != SyncPhase::Idle {
            return SyncAction::Nothing;
        }
        if n.known && n.path {
            self.auto_done = true;
            return self.start_sync(now, Some(n));
        }
        if n.up && now >= self.pn_probe_at {
            self.pn_probe_at = now + PN_PROBE_RETRY_SECS;
            return SyncAction::Probe;
        }
        SyncAction::Nothing
    }

    /// After a link to the node was asked for.
    pub fn on_link_request(&mut self, outcome: LinkReqOutcome, first: bool) -> (r: SyncAction)
        ensures
            (*final(self), r) == contacted(*old(self), outcome, first),
    {
        if outcome == LinkReqOutcome::WriteFailed {
            return self.sync_finish(SyncEnd::WriteFailed, false);
        }
        if first {
            self.link_tries = 1;
            return SyncAction::Nothing;
        }
        if outcome == LinkReqOutcome::Sent {
            self.link_tries = self.link_tries.saturating_add(1);
            return SyncAction::SayTries(self.link_tries);
        }
        SyncAction::Nothing
    }

    /// A link that we asked for is up.
    pub fn sync_on_link_up(&mut self, link: Address, to_node: bool) -> (r: SyncAction)
        ensures
            (*final(self), r) == (if to_node && old(self).phase == SyncPhase::Linking {
                (
                    SyncState {
                        phase: SyncPhase::ListRequested,
                        link_id: Some(link),
                        ..*old(self)
                    },
                    SyncAction::AskList(link),
                )
            } else {
                (*old(self), SyncAction::Nothing)
            }),
    {
        if to_node && self.phase == SyncPhase::Linking {
            self.phase = SyncPhase::ListRequested;
            self.link_id = Some(link);
            SyncAction::AskList(link)
        } else {
            SyncAction::Nothing
        }
    }

    /// The link was closed by the node, or the connection was lost: a running sync
    /// on it is over.
    pub fn on_link_lost(&mut self, link: Option<&Address>) -> (r: SyncAction)
        ensures
            (*final(self), r) == (match link {
                Some(l) => if old(self).phase != SyncPhase::Idle && old(self).link_id == Some(*l) {
                    (ended(*old(self)), end_action(*old(self), SyncEnd::LinkClosed, false))
                } else {
                    (*old(self), SyncAction::Nothing)
                },
                None => if old(self).phase != SyncPhase::Idle {
                    (ended(*old(self)), end_action(*old(self), SyncEnd::ConnectionLost, false))
                } else {
                    (*old(self), SyncAction::Nothing)
                },
            }),
    {
        if self.phase == SyncPhase::Idle {
            return SyncAction::Nothing;
        }
        match link {
            Some(l) => {
                let ours = match &self.link_id {
                    Some(mine) => same_address(mine, l),
                    None => false,
                };
                if ours {
                    self.sync_finish(SyncEnd::LinkClosed, false)
                } else {
                    SyncAction::Nothing
                }
            },
            None => self.sync_finish(SyncEnd::ConnectionLost, false),
        }
    }

    /// Whether data on `link` belongs to a running sync.
    pub fn expects(&self, link: &Address) -> (r: bool)
        ensures
            r == (self.phase != SyncPhase::Idle && self.link_id == Some(*link)),
    {
        if self.phase == SyncPhase::Idle {
            return false;
        }
        match &self.link_id {
            Some(mine) => same_address(mine, link),
            None => false,
        }
    }
}

// ---------------------------------------------------------------------------
// What the node sends
// ---------------------------------------------------------------------------

/// What a packet of a download in a sync calls for.
pub enum SyncStep {
    Step(ResourceStep),
    End(SyncAction),
}

impl SyncState {
    /// Takes a packet of a download on the sync's link.
    pub fn on_resource(&mut self, e: ResourceEvent) -> (r: SyncStep)
        ensures
            match e {
                ResourceEvent::Advertised { accepted, request } => if accepted {
                    &&& r == SyncStep::Step(ResourceStep::Begin { request })
                    &&& *final(self) == (SyncState { receiving: true, ..*old(self) })
                } else {
                    &&& r == SyncStep::End(
                        end_action(*old(self), SyncEnd::UnsupportedResource, false),
                    )
                    &&& *final(self) == ended(*old(self))
                },
                _ => {
                    &&& r == SyncStep::Step(resource_step(e, old(self).receiving, false))
                    &&& *final(self) == *old(self)
                },
            },
    {
        match e {
            ResourceEvent::Advertised { accepted, request } => if accepted {
                self.receiving = true;
                SyncStep::Step(ResourceStep::Begin { request })
            } else {
                SyncStep::End(self.sync_finish(SyncEnd::UnsupportedResource, false))
            },
            ResourceEvent::Part { window_done, complete } => if !self.receiving {
                SyncStep::Step(ResourceStep::Nothing)
            } else if complete {
                SyncStep::Step(ResourceStep::Assemble)
            } else if window_done {
                SyncStep::Step(ResourceStep::RequestNext)
            } else {
                SyncStep::Step(ResourceStep::Nothing)
            },
            ResourceEvent::HashmapUpdate { sound } => if sound && self.receiving {
                SyncStep::Step(ResourceStep::RequestNext)
            } else {
                SyncStep::Step(ResourceStep::Nothing)
            },
            _ => SyncStep::Step(ResourceStep::Nothing),
        }
    }

    /// A download was put together: it ends the sync where it could not be
    /// decrypted or was not what was advertised.
    pub fn on_download(&mut self, decrypted: bool, sound: bool) -> (r: SyncAction)
        ensures
            (*final(self), r) == (if !decrypted {
                (ended(*old(self)), end_action(*old(self), SyncEnd::DecryptFailed, false))
            } else if !sound {
                (ended(*old(self)), end_action(*old(self), SyncEnd::ResourceFailed, false))
            } else {
                (SyncState { receiving: false, ..*old(self) }, SyncAction::Nothing)
            }),
    {
        if !decrypted {
            self.sync_finish(SyncEnd::DecryptFailed, false)
        } else if !sound {
            self.sync_finish(SyncEnd::ResourceFailed, false)
        } else {
            self.receiving = false;
            SyncAction::Nothing
        }
    }
}

/// The request for the list of messages.
pub fn list_request(now: u64) -> (r: Vec<u8>)
    ensures
        r@ == encoded(
            request_model(now, SYNC_GET_PATH@, Model::Array(seq![Model::Nil, Model::Nil])),
        ),
{
    let mut a: Vec<Value> = Vec::new();
    a.push(Value::Nil);
    a.push(Value::Nil);
    let v = Value::Array(a);
    proof {
        reveal_with_fuel(model, 2);
        assert(v@->Array_0 =~= seq![Model::Nil, Model::Nil]);
    }
    rns_request(now, SYNC_GET_PATH, v)
}

/// What a reply of the node leads to.
pub enum Reply {
    /// Not awaited.
    Ignored,
    /// The sync is over.
    End(SyncAction),
    /// Send this request; it asks for so many messages.
    Download { count: usize, request: Vec<u8> },
    /// Deliver these, send this request to confirm them, and the sync is over.
    Collected { blobs: Vec<Vec<u8>>, confirm: Option<Vec<u8>>, end: SyncAction },
}

/// How an error code of the node ends a sync.
pub open spec fn code_end(code: i64) -> SyncEnd {
    if code == 240 {
        SyncEnd::NeedsIdentification
    } else if code == 241 {
        SyncEnd::DeniedAccess
    } else {
        SyncEnd::NodeError
    }
}

/// The elements of an array; none of anything else.
pub open spec fn items_of(m: Model) -> Seq<Model> {
    match m {
        Model::Array(a) => a,
        _ => Seq::empty(),
    }
}

/// The argument that asks for the messages `ids`, up to a number of kilobytes.
pub open spec fn wanted(ids: Seq<Model>, limit: i64) -> Model {
    Model::Array(seq![Model::Array(ids), Model::Array(Seq::empty()), Model::Int(limit)])
}

/// The byte strings among `items`, in order.
pub open spec fn blobs_of(items: Seq<Model>) -> Seq<Seq<u8>>
    decreases items.len(),
{
    if items.len() == 0 {
        Seq::empty()
    } else {
        let rest = blobs_of(items.drop_last());
        match bin_of(items.last()) {
            Some(b) => rest.push(b),
            None => rest,
        }
    }
}

/// The argument that confirms the messages `blobs`, each by its digest.
pub open spec fn confirmed(blobs: Seq<Seq<u8>>) -> Model {
    Model::Array(
        seq![
            Model::Nil,
            Model::Array(blobs.map_values(|b: Seq<u8>| Model::Bin(sha256(b)))),
        ],
    )
}

/// Byte strings as plain mathematics.
pub open spec fn blob_models(v: Seq<Vec<u8>>) -> Seq<Seq<u8>> {
    v.map_values(|b: Vec<u8>| b@)
}

fn download_request(now: u64, ids: Vec<Value>, limit: i64) -> (r: Vec<u8>)
    ensures
        r@ == encoded(
            request_model(now, SYNC_GET_PATH@, wanted(Value::Array(ids)@->Array_0, limit)),
        ),
{
    let ghost m = Value::Array(ids)@->Array_0;
    let mut a: Vec<Value> = Vec::new();
    let first = Value::Array(ids);
    assert(first@ == Model::Array(m));
    a.push(first);
    let none: Vec<Value> = Vec::new();
    let second = Value::Array(none);
    assert(second@->Array_0 =~= Seq::<Model>::empty());
    a.push(second);
    a.push(Value::Int(limit));
    let v = Value::Array(a);
    proof {
        assert(a@[2]@ == Model::Int(limit));
        assert(v@->Array_0 =~= wanted(m, limit)->Array_0);
    }
    rns_request(now, SYNC_GET_PATH, v)
}

fn confirm_request(now: u64, haves: Vec<Value>) -> (r: Vec<u8>)
    ensures
        r@ == encoded(
            request_model(
                now,
                SYNC_GET_PATH@,
                Model::Array(seq![Model::Nil, Value::Array(haves)@]),
            ),
        ),
{
    let ghost m = Value::Array(haves)@;
    let mut a: Vec<Value> = Vec::new();
    a.push(Value::Nil);
    a.push(Value::Array(haves));
    let v = Value::Array(a);
    proof {
        assert(a@[0]@ == Model::Nil);
        assert(a@[1]@ == m);
        assert(v@->Array_0 =~= seq![Model::Nil, m]);
    }
    rns_request(now, SYNC_GET_PATH, v)
}

/// The byte strings among the elements of a reply, and their digests.
fn collect(items: &Vec<Value>) -> (r: (Vec<Vec<u8>>, Vec<Value>))
    ensures
        blob_models(r.0@) == blobs_of(Value::Array(*items)@->Array_0),
        Value::Array(r.1)@ == Model::Array(
            blobs_of(Value::Array(*items)@->Array_0).map_values(
                |b: Seq<u8>| Model::Bin(sha256(b)),
            ),
        ),
{
    let ghost all = Value::Array(*items)@->Array_0;
    let mut blobs: Vec<Vec<u8>> = Vec::new();
    let mut haves: Vec<Value> = Vec::new();
    let mut i: usize = 0;
    assert(blob_models(blobs@) =~= Seq::<Seq<u8>>::empty());
    while i < items.len()
        invariant
            i <= items@.len(),
            all == Value::Array(*items)@->Array_0,
            all.len() == items@.len(),
            blob_models(blobs@) == blobs_of(all.take(i as int)),
            haves@.len() == blobs@.len(),
            forall|k: int|
                0 <= k < haves@.len() ==> (#[trigger] haves@[k])@ == Model::Bin(
                    sha256(blobs@[k]@),
                ),
        decreases items@.len() - i,
    {
        proof {
            let t = all.take(i + 1);
            assert(t.drop_last() =~= all.take(i as int));
            assert(t.last() == items@[i as int]@);
        }
        match items[i].as_bin() {
            Some(bin) => {
                let ghost o = blob_models(blobs@);
                let h = full_hash(bin);
                let v = Value::Bin(to_vec(h.as_slice()));
                assert(v@ == Model::Bin(sha256(bin@)));
                blobs.push(to_vec(bin));
                haves.push(v);
                assert(blob_models(blobs@) =~= o.push(bin@));
            },
            None => {},
        }
        i += 1;
    }
    proof {
        assert(all.take(all.len() as int) =~= all);
        let b = blob_models(blobs@);
        assert forall|k: int| 0 <= k < haves@.len() implies (#[trigger] haves@[k])@ == Model::Bin(
            sha256(b[k]),
        ) by {
            assert(b[k] == blobs@[k]@);
        }
        assert(Value::Array(haves)@->Array_0 =~= b.map_values(
            |b: Seq<u8>| Model::Bin(sha256(b)),
        ));
    }
    (blobs, haves)
}

impl SyncState {
    /// Takes a reply of the node; `limit` is how many kilobytes a download may bring.
    pub fn handle_sync_response(&mut self, resp: Value, now: u64, limit: i64) -> (r: Reply)
        ensures
            match (resp@, old(self).phase) {
                (Model::Int(code), _) => {
                    &&& r == Reply::End(end_action(*old(self), code_end(code), false))
                    &&& *final(self) == ended(*old(self))
                },
                (m, SyncPhase::ListRequested) => {
                    let ids = items_of(m);
                    if ids.len() == 0 {
                        &&& r == Reply::End(end_action(*old(self), SyncEnd::NothingNew, false))
                        &&& *final(self) == ended(*old(self))
                    } else {
                        &&& *final(self) == (SyncState {
                            phase: SyncPhase::GetRequested,
                            ..*old(self)
                        })
                        &&& r matches Reply::Download { count, request } && count == ids.len()
                            && request@ == encoded(
                            request_model(now, SYNC_GET_PATH@, wanted(ids, limit)),
                        )
                    }
                },
                (m, SyncPhase::GetRequested) => {
                    let all = blobs_of(items_of(m));
                    &&& *final(self) == ended(*old(self))
                    &&& r matches Reply::Collected { blobs, confirm, end } && {
                        &&& blob_models(blobs@) == all
                        &&& end == end_action(
                            *old(self),
                            SyncEnd::Synced(all.len() as usize),
                            false,
                        )
                        &&& match confirm {
                            Some(c) => all.len() > 0 && c@ == encoded(
                                request_model(now, SYNC_GET_PATH@, confirmed(all)),
                            ),
                            None => all.len() == 0,
                        }
                    }
                },
                _ => r == Reply::Ignored && *final(self) == *old(self),
            },
    {
        if let Value::Int(code) = resp {
            let end = if code == 240 {
                SyncEnd::NeedsIdentification
            } else if code == 241 {
                SyncEnd::DeniedAccess
            } else {
                SyncEnd::NodeError
            };
            return Reply::End(self.sync_finish(end, false));
        }
        if self.phase == SyncPhase::ListRequested {
            let ids: Vec<Value> = match resp {
                Value::Array(a) => a,
                _ => Vec::new(),
            };
            if ids.len() == 0 {
                return Reply::End(self.sync_finish(SyncEnd::NothingNew, false));
            }
            let count = ids.len();
            let request = download_request(now, ids, limit);
            self.phase = SyncPhase::GetRequested;
            return Reply::Download { count, request };
        }
        if self.phase == SyncPhase::GetRequested {
            let items: Vec<Value> = match resp {
                Value::Array(a) => a,
                _ => Vec::new(),
            };
            assert(Value::Array(items)@->Array_0 =~= items_of(resp@));
            let (blobs, haves) = collect(&items);
            let count = blobs.len();
            proof {
                assert(blob_models(blobs@).len() == count);
            }
            let confirm = if count > 0 {
                Some(confirm_request(now, haves))
            } else {
                None
            };
            let end = self.sync_finish(SyncEnd::Synced(count), false);
            return Reply::Collected { blobs, confirm, end };
        }
        Reply::Ignored
    }
}

/// The parts of a stored message: whom it is for, and what is encrypted to them;
/// nothing where the second is empty.
pub fn synced_parts(blob: &[u8]) -> (r: Option<(&[u8], &[u8])>)
    ensures
        match r {
            Some((dest, sealed)) => blob@.len() > 16 && dest@ == blob@.take(16) && sealed@
                == blob@.skip(16),
            None => blob@.len() <= 16,
        },
{
    if blob.len() <= 16 {
        return None;
    }
    let dest = slice_subrange(blob, 0, 16);
    let sealed = slice_subrange(blob, 16, blob.len());
    assert(dest@ =~= blob@.take(16));
    assert(sealed@ =~= blob@.skip(16));
    Some((dest, sealed))
}

/// The whole message from whom it is for and what was decrypted.
pub fn whole_message(dest: &[u8], plaintext: &[u8]) -> (r: Vec<u8>)
    ensures
        r@ == dest@ + plaintext@,
{
    let mut full = to_vec(dest);
    push_all(&mut full, plaintext);
    full
}

/// A sync that ended can start again, and a finished sync holds no link and no
/// download.
pub proof fn ended_sync_is_idle(s: SyncState, now: u64, node: NodeView)
    requires
        node.up,
        node.known,
        node.path,
        now <= LAST_MOMENT,
    ensures
        ({
            let e = ended(s);
            let (t, a) = started(e, now, node);
            &&& e.phase == SyncPhase::Idle
            &&& e.link_id is None
            &&& !e.receiving
            &&& !e.requested
            &&& a is AskList || a is Contact
            &&& t.deadline == now + SYNC_DEADLINE_SECS
        }),
{
}

/// A wanted sync that cannot start is not wanted for ever: after
/// `SYNC_ROUTE_TRIES` looks it ends with a word.
pub proof fn a_wanted_sync_is_answered(s: SyncState, now: u64, node: NodeView)
    requires
        s.phase == SyncPhase::Idle,
        !node.up || !node.known || !node.path,
    ensures
        ({
            let (t, a) = started(s, now, node);
            &&& s.route_tries < SYNC_ROUTE_TRIES ==> t.requested && t.route_tries == s.route_tries
                + 1
            &&& s.route_tries >= SYNC_ROUTE_TRIES ==> !t.requested && a is End
        }),
{
}

/// A run syncs by itself once: the first look with a route to the node starts a sync,
/// and from then on only a wanted one does.
pub proof fn a_run_syncs_by_itself_once(s: SyncState, now: u64, node: NodeView)
    requires
        now <= LAST_MOMENT,
        s.phase == SyncPhase::Idle,
        !s.requested,
    ensures
        !s.auto_done && node.up && node.known && node.path ==> ticked(s, now, node).0.auto_done && (
        ticked(s, now, node).1 is AskList || ticked(s, now, node).1 is Contact),
        s.auto_done ==> ticked(s, now, node) == (s, SyncAction::Nothing),
        s.auto_done ==> ended(s).auto_done,
{
}

/// A message that was stored comes back whole: `encrypted` is what follows the
/// destination of the packed message, encrypted to the recipient. The stored form falls
/// into the destination and `encrypted`, and with that decrypted the destination in
/// front makes the packed message again.
pub proof fn stored_message_comes_back(packed: Seq<u8>, encrypted: Seq<u8>)
    requires
        packed.len() >= DEST_LEN,
        encrypted.len() > 0,
    ensures
        ({
            let blob = stored_form(packed.take(DEST_LEN as int), encrypted);
            &&& blob.len() > 16
            &&& blob.take(16) == packed.take(DEST_LEN as int)
            &&& blob.skip(16) == encrypted
            &&& blob.take(16) + packed.skip(DEST_LEN as int) == packed
        }),
{
    let blob = stored_form(packed.take(DEST_LEN as int), encrypted);
    assert(blob.take(16) =~= packed.take(DEST_LEN as int));
    assert(blob.skip(16) =~= encrypted);
    assert(blob.take(16) + packed.skip(DEST_LEN as int) =~= packed);
}

} // verus!
