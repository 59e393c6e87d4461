//! Reading pages of NomadNet nodes: fetching one at a time over a link, and going
//! from page to page and back.
use vstd::prelude::*;
use vstd::slice::slice_subrange;
use vstd::utf8::*;

use crate::address::{same_address, Address};
use crate::book::Book;
use crate::chat_api::{
    DocLine, DOC_ALIGN_CENTER, DOC_ALIGN_LEFT, DOC_ALIGN_RIGHT, DOC_KIND_DIVIDER, DOC_KIND_LINK,
    DOC_KIND_TEXT, DOC_STYLE_BOLD, DOC_STYLE_LARGE, DOC_STYLE_MONO, DOC_STYLE_REGULAR,
};
use crate::hex::{hex, hex_text};
use crate::micron::{
    field_model, page_of, parse, resolve_link, target_of, title_of, truncate_utf8, within, Align,
    Document, Kind, LineModel, Link, LinkModel, LinkTarget, PageModel, Style, TargetModel,
};
use crate::msgpack::{bin_of, encoded, Model, Value};
use crate::outbox::{LinkReqOutcome, LAST_MOMENT};
use crate::picker::DISPLAY_NAME_MAX;
use crate::request::{request_model, rns_request};
use crate::sync::{tries_after, NodeView};
use crate::text::{chars_of, join2, join3, lossy_string, string_of, text_of, trim, trimmed};
use crate::threads::first_chars;
use crate::transfer::{resource_step, ResourceEvent, ResourceStep};

verus! {

/// The page that a node serves where none is asked for.
pub const PAGE_PATH_DEFAULT: &'static str = "/page/index.mu";

/// After how many seconds without progress a fetch is given up.
pub const PAGE_DEADLINE_SECS: u64 = 60;

/// How many more seconds a fetch gets for each hop to the node.
pub const PAGE_HOP_SECS: u64 = 12;

/// How many seconds lie between two looks for the node.
pub const BROWSER_ROUTE_RETRY_SECS: u64 = 3;

/// How many looks for the node a fetch takes.
pub const BROWSER_ROUTE_TRIES: u8 = 40;

/// How many pages one can go back through.
pub const BACK_STACK_MAX: usize = 16;

/// Where a fetch stands.
#[derive(Debug, Clone, Copy, PartialEq, Eq, Structural)]
pub enum BrowserPhase {
    Idle,
    /// Waiting for the link to the node.
    Linking,
    /// Waiting for the page.
    Fetching,
}

/// Variables of a page as plain mathematics.
pub open spec fn vars_model(v: Seq<(String, String)>) -> Seq<(Seq<char>, Seq<char>)> {
    v.map_values(|f: (String, String)| field_model(f))
}

/// A page: the node, the path and the variables.
pub struct PageAddr {
    pub node: Address,
    pub path: String,
    pub vars: Vec<(String, String)>,
}

/// A page as plain mathematics.
#[verifier::ext_equal]
pub struct Place {
    pub node: Address,
    pub path: Seq<char>,
    pub vars: Seq<(Seq<char>, Seq<char>)>,
}

impl View for PageAddr {
    type V = Place;

    open spec fn view(&self) -> Place {
        Place { node: self.node, path: self.path@, vars: vars_model(self.vars@) }
    }
}

fn copy_vars(v: &Vec<(String, String)>) -> (r: Vec<(String, String)>)
    ensures
        vars_model(r@) == vars_model(v@),
{
    let mut r: Vec<(String, String)> = Vec::new();
    let mut i: usize = 0;
    while i < v.len()
        invariant
            i <= v@.len(),
            r@.len() == i,
            forall|k: int| 0 <= k < i ==> field_model(#[trigger] r@[k]) == field_model(v@[k]),
        decreases v@.len() - i,
    {
        r.push((v[i].0.clone(), v[i].1.clone()));
        i += 1;
    }
    assert(vars_model(r@) =~= vars_model(v@));
    r
}

impl Clone for PageAddr {
    fn clone(&self) -> (r: PageAddr)
        ensures
            r@ == self@,
    {
        PageAddr { node: self.node, path: self.path.clone(), vars: copy_vars(&self.vars) }
    }
}

/// The browser: the fetch under way, and the page shown.
pub struct BrowserState {
    pub phase: BrowserPhase,
    /// The node of the fetch.
    pub node: Option<Address>,
    /// The path of the fetch.
    pub path: String,
    /// The variables of the fetch.
    pub vars: Vec<(String, String)>,
    /// The link to the node.
    pub link_id: Option<Address>,
    /// A download is under way.
    pub receiving: bool,
    /// When the fetch is given up.
    pub deadline: u64,
    /// A page that is wanted.
    pub requested: Option<PageAddr>,
    /// When to look again whether a wanted fetch can start.
    pub next_attempt: u64,
    /// Looks at a wanted fetch that could not start.
    pub route_tries: u8,
    /// Link requests sent.
    pub link_tries: u8,
    /// The page shown.
    pub current: Option<PageAddr>,
    /// When the fetched page shows, the page before it is one to go back to.
    pub pending_push: bool,
    /// When the fetched page shows, it is no longer one to go back to.
    pub pending_pop: bool,
    /// The pages to go back to, the next of them last.
    pub back: Vec<PageAddr>,
    /// The links of the page shown.
    pub links: Vec<Link>,
    /// The title of the page shown.
    pub current_title: Option<String>,
    /// The page is on the screen.
    pub viewing: bool,
}

/// The browser as plain mathematics.
#[verifier::ext_equal]
pub struct BrowserModel {
    pub phase: BrowserPhase,
    pub node: Option<Address>,
    pub path: Seq<char>,
    pub vars: Seq<(Seq<char>, Seq<char>)>,
    pub link_id: Option<Address>,
    pub receiving: bool,
    pub deadline: u64,
    pub requested: Option<Place>,
    pub next_attempt: u64,
    pub route_tries: u8,
    pub link_tries: u8,
    pub current: Option<Place>,
    pub pending_push: bool,
    pub pending_pop: bool,
    pub back: Seq<Place>,
    pub links: Seq<LinkModel>,
    pub current_title: Option<Seq<char>>,
    pub viewing: bool,
}

pub open spec fn place_of(p: Option<PageAddr>) -> Option<Place> {
    match p {
        Some(a) => Some(a@),
        None => None,
    }
}

pub open spec fn places(v: Seq<PageAddr>) -> Seq<Place> {
    v.map_values(|p: PageAddr| p@)
}

impl View for BrowserState {
    type V = BrowserModel;

    open spec fn view(&self) -> BrowserModel {
        BrowserModel {
            phase: self.phase,
            node: self.node,
            path: self.path@,
            vars: vars_model(self.vars@),
            link_id: self.link_id,
            receiving: self.receiving,
            deadline: self.deadline,
            requested: place_of(self.requested),
            next_attempt: self.next_attempt,
            route_tries: self.route_tries,
            link_tries: self.link_tries,
            current: place_of(self.current),
            pending_push: self.pending_push,
            pending_pop: self.pending_pop,
            back: places(self.back@),
            links: self.links@.map_values(|l: Link| l@),
            current_title: match self.current_title {
                Some(t) => Some(t@),
                None => None,
            },
            viewing: self.viewing,
        }
    }
}

/// How a fetch ends without a page.
#[derive(Debug, Clone, Copy, PartialEq, Eq, Structural)]
pub enum PageEnd {
    NoConnection,
    NoRoute,
    WriteFailed,
    LinkLost,
    TimedOut,
    ConnectionLost,
    LinkClosed,
    Unsupported,
    DecryptFailed,
    ResourceFailed,
    NeedsIdentification,
    DeniedAccess,
    NodeError,
    Unexpected,
}

/// The words for the end of a fetch.
pub open spec fn page_end_words(e: PageEnd) -> Seq<char> {
    match e {
        PageEnd::NoConnection => "page: no connection (hub or local peers)"@,
        PageEnd::NoRoute => "page: no route to the node"@,
        PageEnd::WriteFailed => "page: hub write failed \u{2014} try again"@,
        PageEnd::LinkLost => "page: link lost \u{2014} try again"@,
        PageEnd::TimedOut => "page: timed out"@,
        PageEnd::ConnectionLost => "page: connection lost \u{2014} try again"@,
        PageEnd::LinkClosed => "page: node closed the link \u{2014} try again"@,
        PageEnd::Unsupported => "page: page too large / unsupported"@,
        PageEnd::DecryptFailed => "page: page failed (decrypt)"@,
        PageEnd::ResourceFailed => "page: page failed (resource)"@,
        PageEnd::NeedsIdentification => "page: node needs identification"@,
        PageEnd::DeniedAccess => "page: node denied access"@,
        PageEnd::NodeError => "page: node error"@,
        PageEnd::Unexpected => "page: unexpected response"@,
    }
}

/// The words for the end of a fetch.
pub fn page_end_text(e: PageEnd) -> (r: &'static str)
    ensures
        r@ == page_end_words(e),
{
    match e {
        PageEnd::NoConnection => "page: no connection (hub or local peers)",
        PageEnd::NoRoute => "page: no route to the node",
        PageEnd::WriteFailed => "page: hub write failed \u{2014} try again",
        PageEnd::LinkLost => "page: link lost \u{2014} try again",
        PageEnd::TimedOut => "page: timed out",
        PageEnd::ConnectionLost => "page: connection lost \u{2014} try again",
        PageEnd::LinkClosed => "page: node closed the link \u{2014} try again",
        PageEnd::Unsupported => "page: page too large / unsupported",
        PageEnd::DecryptFailed => "page: page failed (decrypt)",
        PageEnd::ResourceFailed => "page: page failed (resource)",
        PageEnd::NeedsIdentification => "page: node needs identification",
        PageEnd::DeniedAccess => "page: node denied access",
        PageEnd::NodeError => "page: node error",
        PageEnd::Unexpected => "page: unexpected response",
    }
}

/// What to do for a fetch.
#[derive(Debug, Clone, Copy, PartialEq, Eq)]
pub enum BrowserAction {
    Nothing,
    /// Say that a connection is waited for.
    SayWaiting,
    /// Say that the node is looked for, and ask the network for it.
    Find(Address),
    /// Ask the node for a link, the first time.
    Contact(Address),
    /// Ask the node for a link again, if its key is known.
    Recontact(Address),
    /// Say how many link requests went out.
    SayTries(u8),
    /// Send the request for the page over the link.
    Ask(Address),
    /// The fetch is over: drop the link, drop the route to the node where one is
    /// named, and say how it ended.
    End { end: PageEnd, link: Option<Address>, expire: Option<Address> },
}

/// The browser after a fetch ended without a page. The page shown and the pages to
/// go back to stay as they are.
pub open spec fn fetch_over(b: BrowserModel) -> BrowserModel {
    BrowserModel {
        phase: BrowserPhase::Idle,
        node: None,
        receiving: false,
        requested: None,
        pending_push: false,
        pending_pop: false,
        route_tries: 0,
        link_id: None,
        ..b
    }
}

/// The end of a fetch as an action.
pub open spec fn page_end(b: BrowserModel, end: PageEnd) -> BrowserAction {
    BrowserAction::End { end, link: b.link_id, expire: None }
}

/// A wanted fetch that cannot start yet: wanted again in a while, a limited number
/// of times.
pub open spec fn fetch_put_off(
    b: BrowserModel,
    place: Place,
    now: u64,
    end: PageEnd,
    action: BrowserAction,
) -> (BrowserModel, BrowserAction) {
    let tries = tries_after(b.route_tries);
    let counted = BrowserModel { route_tries: tries, ..b };
    if tries <= BROWSER_ROUTE_TRIES {
        (
            BrowserModel {
                requested: Some(place),
                next_attempt: (now + BROWSER_ROUTE_RETRY_SECS) as u64,
                ..counted
            },
            action,
        )
    } else {
        (fetch_over(counted), page_end(counted, end))
    }
}

/// The hops that count for the patience with a node: one at least.
pub open spec fn patience_hops(hops: Option<u8>) -> nat {
    match hops {
        Some(h) => if h > 1 {
            h as nat
        } else {
            1
        },
        None => 1,
    }
}

/// The start of a fetch.
pub open spec fn fetch_started(
    b: BrowserModel,
    place: Place,
    now: u64,
    node: NodeView,
    hops: Option<u8>,
) -> (BrowserModel, BrowserAction) {
    if !node.up {
        fetch_put_off(
            b,
            place,
            now,
            PageEnd::NoConnection,
            if tries_after(b.route_tries) == 1 {
                BrowserAction::SayWaiting
            } else {
                BrowserAction::Nothing
            },
        )
    } else if !node.known || !node.path {
        fetch_put_off(b, place, now, PageEnd::NoRoute, BrowserAction::Find(place.node))
    } else {
        let linking = BrowserModel {
            phase: BrowserPhase::Linking,
            node: Some(place.node),
            path: place.path,
            vars: place.vars,
            receiving: false,
            deadline: (now + PAGE_DEADLINE_SECS + PAGE_HOP_SECS * patience_hops(hops)) as u64,
            link_id: None,
            route_tries: 0,
            next_attempt: 0,
            link_tries: 0,
            ..b
        };
        match node.link {
            Some(l) => (
                BrowserModel { phase: BrowserPhase::Fetching, link_id: Some(l), ..linking },
                BrowserAction::Ask(l),
            ),
            None => (linking, BrowserAction::Contact(place.node)),
        }
    }
}

/// A look at the fetch from time to time; `node` tells of the node of the page that
/// is wanted.
pub open spec fn fetch_ticked(b: BrowserModel, now: u64, node: NodeView, hops: Option<u8>) -> (
    BrowserModel,
    BrowserAction,
) {
    if b.phase != BrowserPhase::Idle && now > b.deadline {
        (
            fetch_over(b),
            BrowserAction::End {
                end: PageEnd::TimedOut,
                link: b.link_id,
                expire: if b.phase == BrowserPhase::Linking {
                    b.node
                } else {
                    None
                },
            },
        )
    } else if b.phase == BrowserPhase::Linking && b.node is Some {
        (b, BrowserAction::Recontact(b.node->0))
    } else if b.phase == BrowserPhase::Idle && b.requested is Some && now >= b.next_attempt {
        fetch_started(BrowserModel { requested: None, ..b }, b.requested->0, now, node, hops)
    } else {
        (b, BrowserAction::Nothing)
    }
}

/// After a link to the node was asked for; `first` tells the first time.
pub open spec fn node_contacted(b: BrowserModel, outcome: LinkReqOutcome, first: bool) -> (
    BrowserModel,
    BrowserAction,
) {
    if outcome == LinkReqOutcome::WriteFailed {
        (fetch_over(b), page_end(b, PageEnd::WriteFailed))
    } else if first {
        (BrowserModel { link_tries: 1, ..b }, BrowserAction::Nothing)
    } else if outcome == LinkReqOutcome::Sent {
        (
            BrowserModel { link_tries: tries_after(b.link_tries), ..b },
            BrowserAction::SayTries(tries_after(b.link_tries)),
        )
    } else {
        (b, BrowserAction::Nothing)
    }
}

impl BrowserState {
    /// No page yet.
    pub fn new() -> (r: BrowserState)
        ensures
            r@ == (BrowserModel {
                phase: BrowserPhase::Idle,
                node: None,
                path: Seq::empty(),
                vars: Seq::empty(),
                link_id: None,
                receiving: false,
                deadline: 0,
                requested: None,
                next_attempt: 0,
                route_tries: 0,
                link_tries: 0,
                current: None,
                pending_push: false,
                pending_pop: false,
                back: Seq::empty(),
                links: Seq::empty(),
                current_title: None,
                viewing: false,
            }),
    {
        let r = BrowserState {
            phase: BrowserPhase::Idle,
            node: None,
            path: String::new(),
            vars: Vec::new(),
            link_id: None,
            receiving: false,
            deadline: 0,
            requested: None,
            next_attempt: 0,
            route_tries: 0,
            link_tries: 0,
            current: None,
            pending_push: false,
            pending_pop: false,
            back: Vec::new(),
            links: Vec::new(),
            current_title: None,
            viewing: false,
        };
        assert(r@.vars =~= Seq::empty());
        assert(r@.back =~= Seq::empty());
        assert(r@.links =~= Seq::empty());
        r
    }

    /// The fetch is over without a page.
    pub fn browser_finish(&mut self, end: PageEnd) -> (r: BrowserAction)
        ensures
            final(self)@ == fetch_over(old(self)@),
            r == page_end(old(self)@, end),
    {
        self.phase = BrowserPhase::Idle;
        self.node = None;
        self.receiving = false;
        self.requested = None;
        self.pending_push = false;
        self.pending_pop = false;
        self.route_tries = 0;
        let link = self.link_id;
        self.link_id = None;
        BrowserAction::End { end, link, expire: None }
    }

    /// Wants a page; refused while a fetch is under way. With `push_back` the page
    /// shown becomes one to go back to, once the new page shows.
    pub fn request_page(&mut self, page: PageAddr, push_back: bool) -> (taken: bool)
        ensures
            taken == (old(self).phase == BrowserPhase::Idle),
            !taken ==> *final(self) == *old(self),
            taken ==> final(self)@ == (BrowserModel {
                requested: Some(page@),
                pending_push: push_back,
                pending_pop: false,
                next_attempt: 0,
                route_tries: 0,
                ..old(self)@
            }),
    {
        if self.phase != BrowserPhase::Idle {
            return false;
        }
        self.requested = Some(page);
        self.pending_push = push_back;
        self.pending_pop = false;
        self.next_attempt = 0;
        self.route_tries = 0;
        true
    }

    fn put_off_fetch(&mut self, page: PageAddr, now: u64, end: PageEnd, action: BrowserAction) -> (r:
        BrowserAction)
        requires
            now <= LAST_MOMENT,
        ensures
            (final(self)@, r) == fetch_put_off(old(self)@, page@, now, end, action),
    {
        self.route_tries = self.route_tries.saturating_add(1);
        if self.route_tries <= BROWSER_ROUTE_TRIES {
            self.requested = Some(page);
            self.next_attempt = now + BROWSER_ROUTE_RETRY_SECS;
            action
        } else {
            self.browser_finish(end)
        }
    }

    /// Starts a fetch.
    pub fn start_fetch(&mut self, page: PageAddr, now: u64, node: NodeView, hops: Option<u8>) -> (r:
        BrowserAction)
        requires
            now <= LAST_MOMENT,
        ensures
            (final(self)@, r) == fetch_started(old(self)@, page@, now, node, hops),
    {
        if !node.up {
            let action = if self.route_tries == 0 {
                BrowserAction::SayWaiting
            } else {
                BrowserAction::Nothing
            };
            return self.put_off_fetch(page, now, PageEnd::NoConnection, action);
        }
        if !node.known || !node.path {
            let target = page.node;
            return self.put_off_fetch(page, now, PageEnd::NoRoute, BrowserAction::Find(target));
        }
        let counted: u64 = match hops {
            Some(h) => if h > 1 {
                h as u64
            } else {
                1
            },
            None => 1,
        };
        let target = page.node;
        self.phase = BrowserPhase::Linking;
        self.node = Some(target);
        self.path = page.path;
        self.vars = page.vars;
        self.receiving = false;
        self.deadline = now + PAGE_DEADLINE_SECS + PAGE_HOP_SECS * counted;
        self.link_id = None;
        self.route_tries = 0;
        self.next_attempt = 0;
        self.link_tries = 0;
        match node.link {
            Some(l) => {
                self.phase = BrowserPhase::Fetching;
                self.link_id = Some(l);
                BrowserAction::Ask(l)
            },
            None => BrowserAction::Contact(target),
        }
    }

    /// The node of the page that is wanted.
    pub fn wanted_node(&self) -> (r: Option<Address>)
        ensures
            r == (match self@.requested {
                Some(p) => Some(p.node),
                None => None,
            }),
    {
        match &self.requested {
            Some(p) => Some(p.node),
            None => None,
        }
    }

    /// A look at the fetch from time to time: ends one without progress, asks for a
    /// lost link again, and starts a wanted one.
    pub fn browser_tick(&mut self, now: u64, node: NodeView, hops: Option<u8>) -> (r: BrowserAction)
        requires
            now <= LAST_MOMENT,
        ensures
            (final(self)@, r) == fetch_ticked(old(self)@, now, node, hops),
    {
        if self.phase != BrowserPhase::Idle && now > self.deadline {
            let expire = if self.phase == BrowserPhase::Linking {
                self.node
            } else {
                None
            };
            let link = self.link_id;
            self.browser_finish(PageEnd::TimedOut);
            return BrowserAction::End { end: PageEnd::TimedOut, link, expire };
        }
        if self.phase == BrowserPhase::Linking {
            if let Some(n) = self.node {
                return BrowserAction::Recontact(n);
            }
        }
        if self.phase == BrowserPhase::Idle && now >= self.next_attempt {
            if let Some(page) = self.requested.take() {
                return self.start_fetch(page, now, node, hops);
            }
        }
        BrowserAction::Nothing
    }

    /// After a link to the node was asked for.
    pub fn on_link_request(&mut self, outcome: LinkReqOutcome, first: bool) -> (r: BrowserAction)
        ensures
            (final(self)@, r) == node_contacted(old(self)@, outcome, first),
    {
        if outcome == LinkReqOutcome::WriteFailed {
            return self.browser_finish(PageEnd::WriteFailed);
        }
        if first {
            self.link_tries = 1;
            return BrowserAction::Nothing;
        }
        if outcome == LinkReqOutcome::Sent {
            self.link_tries = self.link_tries.saturating_add(1);
            return BrowserAction::SayTries(self.link_tries);
        }
        BrowserAction::Nothing
    }

    /// Whether a fetch from `target` is under way.
    pub fn browser_targets(&self, target: &Address) -> (r: bool)
        ensures
            r == (self.phase != BrowserPhase::Idle && self.node == Some(*target)),
    {
        if self.phase == BrowserPhase::Idle {
            return false;
        }
        match &self.node {
            Some(n) => same_address(n, target),
            None => false,
        }
    }

    /// A link that we asked for is up.
    pub fn browser_on_link_up(&mut self, link: Address, target: &Address) -> (r: BrowserAction)
        ensures
            (final(self)@, r) == (if old(self).phase == BrowserPhase::Linking && old(self).node
                == Some(*target) {
                (
                    BrowserModel {
                        phase: BrowserPhase::Fetching,
                        link_id: Some(link),
                        ..old(self)@
                    },
                    BrowserAction::Ask(link),
                )
            } else {
                (old(self)@, BrowserAction::Nothing)
            }),
    {
        if self.phase == BrowserPhase::Linking && self.browser_targets(target) {
            self.phase = BrowserPhase::Fetching;
            self.link_id = Some(link);
            BrowserAction::Ask(link)
        } else {
            BrowserAction::Nothing
        }
    }

    /// After the request for the page: nothing where the link was gone, else
    /// whether it was sent.
    pub fn on_request(&mut self, sent: Option<bool>) -> (r: BrowserAction)
        ensures
            (final(self)@, r) == (match sent {
                Some(true) => (old(self)@, BrowserAction::Nothing),
                Some(false) => (fetch_over(old(self)@), page_end(old(self)@, PageEnd::WriteFailed)),
                None => (fetch_over(old(self)@), page_end(old(self)@, PageEnd::LinkLost)),
            }),
    {
        match sent {
            Some(ok) => if ok {
                BrowserAction::Nothing
            } else {
                self.browser_finish(PageEnd::WriteFailed)
            },
            None => self.browser_finish(PageEnd::LinkLost),
        }
    }

    /// The link was closed by the node, or the connection was lost: a fetch is over,
    /// and a link kept for the next page is forgotten.
    pub fn on_link_lost(&mut self, link: Option<&Address>) -> (r: BrowserAction)
        ensures
            (final(self)@, r) == ({
                let b = old(self)@;
                let gone = match link {
                    Some(l) => b.link_id == Some(*l),
                    None => true,
                };
                if !gone {
                    (b, BrowserAction::Nothing)
                } else if b.phase != BrowserPhase::Idle {
                    (
                        fetch_over(b),
                        page_end(
                            b,
                            if link is Some {
                                PageEnd::LinkClosed
                            } else {
                                PageEnd::ConnectionLost
                            },
                        ),
                    )
                } else {
                    (BrowserModel { link_id: None, ..b }, BrowserAction::Nothing)
                }
            }),
    {
        let gone = match link {
            Some(l) => match &self.link_id {
                Some(mine) => same_address(mine, l),
                None => false,
            },
            None => true,
        };
        if !gone {
            return BrowserAction::Nothing;
        }
        if self.phase != BrowserPhase::Idle {
            if link.is_some() {
                self.browser_finish(PageEnd::LinkClosed)
            } else {
                self.browser_finish(PageEnd::ConnectionLost)
            }
        } else {
            self.link_id = None;
            BrowserAction::Nothing
        }
    }
}

// ---------------------------------------------------------------------------
// The request and its answer
// ---------------------------------------------------------------------------

/// The argument of a request for a page: its variables by name, each name behind
/// `var_`; nothing without variables.
pub open spec fn request_data(vars: Seq<(Seq<char>, Seq<char>)>) -> Model {
    if vars.len() == 0 {
        Model::Nil
    } else {
        Model::StrMap(
            vars.map_values(|v: (Seq<char>, Seq<char>)| ("var_"@ + v.0, Model::Str(v.1))),
        )
    }
}

fn data_value(vars: &Vec<(String, String)>) -> (r: Value)
    ensures
        r@ == request_data(vars_model(vars@)),
{
    if vars.len() == 0 {
        return Value::Nil;
    }
    let mut m: Vec<(String, Value)> = Vec::new();
    let mut i: usize = 0;
    while i < vars.len()
        invariant
            i <= vars@.len(),
            m@.len() == i,
            forall|k: int|
                0 <= k < i ==> (#[trigger] m@[k]).0@ == "var_"@ + vars@[k].0@ && m@[k].1@
                    == Model::Str(vars@[k].1@),
        decreases vars@.len() - i,
    {
        let v = Value::Str(vars[i].1.clone());
        assert(v@ == Model::Str(vars@[i as int].1@));
        m.push((join2("var_", vars[i].0.as_str()), v));
        i += 1;
    }
    let r = Value::StrMap(m);
    assert(r@->StrMap_0 =~= request_data(vars_model(vars@))->StrMap_0);
    r
}

impl BrowserState {
    /// The request for the page of the fetch.
    pub fn page_request(&self, now: u64) -> (r: Vec<u8>)
        ensures
            r@ == encoded(request_model(now, self@.path, request_data(self@.vars))),
    {
        rns_request(now, self.path.as_str(), data_value(&self.vars))
    }

    /// Data came on `link`: whether it is of the fetch. If so, the fetch made
    /// progress and has its time anew.
    pub fn on_data(&mut self, link: &Address, now: u64) -> (r: bool)
        requires
            now <= LAST_MOMENT,
        ensures
            r == (old(self).phase == BrowserPhase::Fetching && old(self).link_id == Some(*link)),
            r ==> final(self)@ == (BrowserModel {
                deadline: (now + PAGE_DEADLINE_SECS) as u64,
                ..old(self)@
            }),
            !r ==> *final(self) == *old(self),
    {
        if self.phase != BrowserPhase::Fetching {
            return false;
        }
        let ours = match &self.link_id {
            Some(mine) => same_address(mine, link),
            None => false,
        };
        if ours {
            self.deadline = now + PAGE_DEADLINE_SECS;
        }
        ours
    }

    /// Takes a packet of a download on the fetch's link: what it calls for, or the
    /// end of the fetch.
    pub fn on_resource(&mut self, e: ResourceEvent) -> (r: (ResourceStep, BrowserAction))
        ensures
            match e {
                ResourceEvent::Advertised { accepted, request } => if accepted {
                    &&& r == (ResourceStep::Begin { request }, BrowserAction::Nothing)
                    &&& final(self)@ == (BrowserModel { receiving: true, ..old(self)@ })
                } else {
                    &&& r == (
                        ResourceStep::Nothing,
                        page_end(old(self)@, PageEnd::Unsupported),
                    )
                    &&& final(self)@ == fetch_over(old(self)@)
                },
                _ => {
                    &&& r == (
                        resource_step(e, old(self).receiving, false),
                        BrowserAction::Nothing,
                    )
                    &&& *final(self) == *old(self)
                },
            },
    {
        match e {
            ResourceEvent::Advertised { accepted, request } => if accepted {
                self.receiving = true;
                (ResourceStep::Begin { request }, BrowserAction::Nothing)
            } else {
                (ResourceStep::Nothing, self.browser_finish(PageEnd::Unsupported))
            },
            ResourceEvent::Part { window_done, complete } => if !self.receiving {
                (ResourceStep::Nothing, BrowserAction::Nothing)
            } else if complete {
                (ResourceStep::Assemble, BrowserAction::Nothing)
            } else if window_done {
                (ResourceStep::RequestNext, BrowserAction::Nothing)
            } else {
                (ResourceStep::Nothing, BrowserAction::Nothing)
            },
            ResourceEvent::HashmapUpdate { sound } => if sound && self.receiving {
                (ResourceStep::RequestNext, BrowserAction::Nothing)
            } else {
                (ResourceStep::Nothing, BrowserAction::Nothing)
            },
            _ => (ResourceStep::Nothing, BrowserAction::Nothing),
        }
    }

    /// A download was put together: it ends the fetch where it could not be
    /// decrypted or was not what was advertised.
    pub fn on_download(&mut self, decrypted: bool, sound: bool) -> (r: BrowserAction)
        ensures
            (final(self)@, r) == (if !decrypted {
                (fetch_over(old(self)@), page_end(old(self)@, PageEnd::DecryptFailed))
            } else if !sound {
                (fetch_over(old(self)@), page_end(old(self)@, PageEnd::ResourceFailed))
            } else {
                (BrowserModel { receiving: false, ..old(self)@ }, BrowserAction::Nothing)
            }),
    {
        if !decrypted {
            self.browser_finish(PageEnd::DecryptFailed)
        } else if !sound {
            self.browser_finish(PageEnd::ResourceFailed)
        } else {
            self.receiving = false;
            BrowserAction::Nothing
        }
    }
}

// ---------------------------------------------------------------------------
// Showing a page
// ---------------------------------------------------------------------------

/// How a line of a page is drawn.
pub open spec fn drawn_style(s: Style) -> u8 {
    match s {
        Style::Heading(d) => if d == 1 {
            DOC_STYLE_LARGE
        } else {
            DOC_STYLE_BOLD
        },
        Style::Bold => DOC_STYLE_BOLD,
        Style::Mono => DOC_STYLE_MONO,
        Style::Regular => DOC_STYLE_REGULAR,
    }
}

pub open spec fn drawn_align(a: Align) -> u8 {
    match a {
        Align::Center => DOC_ALIGN_CENTER,
        Align::Right => DOC_ALIGN_RIGHT,
        Align::Left => DOC_ALIGN_LEFT,
    }
}

/// What a line of a page is drawn as, and its link.
pub open spec fn drawn_kind(k: Kind) -> (u8, u16) {
    match k {
        Kind::Divider => (DOC_KIND_DIVIDER, 0),
        Kind::Link(id) => (DOC_KIND_LINK, id),
        Kind::Text => (DOC_KIND_TEXT, 0),
    }
}

/// The drawn line `d` is the line `l` of a page.
pub open spec fn draws(d: DocLine, l: LineModel) -> bool {
    &&& d.text@ == l.text
    &&& d.style == drawn_style(l.style)
    &&& d.align == drawn_align(l.align)
    &&& (d.kind, d.link_id) == drawn_kind(l.kind)
}

/// The lines of a page as they are drawn.
fn draw_lines(doc: &Document) -> (r: Vec<DocLine>)
    ensures
        r@.len() == doc@.lines.len(),
        forall|i: int| 0 <= i < r@.len() ==> draws(#[trigger] r@[i], doc@.lines[i]),
{
    let mut r: Vec<DocLine> = Vec::new();
    let mut i: usize = 0;
    while i < doc.lines.len()
        invariant
            i <= doc.lines@.len(),
            r@.len() == i,
            forall|k: int| 0 <= k < i ==> draws(#[trigger] r@[k], doc@.lines[k]),
        decreases doc.lines@.len() - i,
    {
        let l = &doc.lines[i];
        let style = match l.style {
            Style::Heading(d) => if d == 1 {
                DOC_STYLE_LARGE
            } else {
                DOC_STYLE_BOLD
            },
            Style::Bold => DOC_STYLE_BOLD,
            Style::Mono => DOC_STYLE_MONO,
            Style::Regular => DOC_STYLE_REGULAR,
        };
        let align = match l.align {
            Align::Center => DOC_ALIGN_CENTER,
            Align::Right => DOC_ALIGN_RIGHT,
            Align::Left => DOC_ALIGN_LEFT,
        };
        let (kind, link_id) = match l.kind {
            Kind::Divider => (DOC_KIND_DIVIDER, 0u16),
            Kind::Link(id) => (DOC_KIND_LINK, id),
            Kind::Text => (DOC_KIND_TEXT, 0u16),
        };
        let d = DocLine { text: l.text.clone(), style, align, kind, link_id };
        assert(doc@.lines[i as int] == l@);
        r.push(d);
        i += 1;
    }
    r
}

/// The pages to go back to after one more; the oldest goes where there are too
/// many.
pub open spec fn pushed(back: Seq<Place>, p: Place) -> Seq<Place> {
    let all = back.push(p);
    if all.len() > BACK_STACK_MAX {
        all.skip(1)
    } else {
        all
    }
}

/// The browser after the page `doc` of the fetch showed.
pub open spec fn page_shown(b: BrowserModel, doc: PageModel) -> BrowserModel {
    let back = if b.pending_push && b.current is Some {
        pushed(b.back, b.current->0)
    } else {
        b.back
    };
    let kept = if b.pending_pop && back.len() > 0 {
        back.drop_last()
    } else {
        back
    };
    BrowserModel {
        phase: BrowserPhase::Idle,
        node: None,
        path: Seq::empty(),
        vars: Seq::empty(),
        receiving: false,
        pending_push: false,
        pending_pop: false,
        back: kept,
        current: Some(Place { node: b.node->0, path: b.path, vars: b.vars }),
        links: doc.links,
        current_title: title_of(doc),
        viewing: true,
        ..b
    }
}

/// A page that shows.
pub struct Shown {
    pub node: Address,
    pub path: String,
    pub title: Option<String>,
    pub lines: Vec<DocLine>,
    /// The browser was not on the screen before.
    pub entering: bool,
}

/// What an answer leads to.
pub enum Received {
    /// The fetch is over without a page.
    End(BrowserAction),
    /// The fetch was over before the answer came.
    Late,
    Page(Shown),
}

/// How an answer that is no page ends the fetch.
pub open spec fn refusal(m: Model) -> Option<PageEnd> {
    match m {
        Model::Int(code) => Some(
            if code == 240 {
                PageEnd::NeedsIdentification
            } else if code == 241 {
                PageEnd::DeniedAccess
            } else {
                PageEnd::NodeError
            },
        ),
        Model::Bin(_) => None,
        Model::Str(_) => None,
        _ => Some(PageEnd::Unexpected),
    }
}

impl BrowserState {
    /// Takes the answer to the request for a page.
    pub fn page_received(&mut self, resp: &Value) -> (r: Received)
        ensures
            match refusal(resp@) {
                Some(end) => {
                    &&& r == Received::End(page_end(old(self)@, end))
                    &&& final(self)@ == fetch_over(old(self)@)
                },
                None => if old(self).node is None {
                    r is Late && final(self)@ == old(self)@
                } else {
                    let doc = page_of(text_of(bin_of(resp@)->0));
                    &&& final(self)@ == page_shown(old(self)@, doc)
                    &&& r matches Received::Page(p) && {
                        &&& Some(p.node) == old(self).node
                        &&& p.path@ == old(self)@.path
                        &&& p.entering == !old(self).viewing
                        &&& match p.title {
                            Some(t) => title_of(doc) == Some(t@),
                            None => title_of(doc) is None,
                        }
                        &&& p.lines@.len() == doc.lines.len()
                        &&& forall|i: int|
                            0 <= i < p.lines@.len() ==> draws(#[trigger] p.lines@[i], doc.lines[i])
                    }
                },
            },
    {
        if let Value::Int(code) = resp {
            let end = if *code == 240 {
                PageEnd::NeedsIdentification
            } else if *code == 241 {
                PageEnd::DeniedAccess
            } else {
                PageEnd::NodeError
            };
            return Received::End(self.browser_finish(end));
        }
        let src = match resp.as_bin() {
            Some(b) => lossy_string(b),
            None => {
                return Received::End(self.browser_finish(PageEnd::Unexpected));
            },
        };
        let doc = parse(src.as_str());
        let lines = draw_lines(&doc);
        let title = doc.title();
        let node = match self.node {
            Some(n) => n,
            None => {
                return Received::Late;
            },
        };
        let mut path = String::new();
        core::mem::swap(&mut path, &mut self.path);
        let mut vars: Vec<(String, String)> = Vec::new();
        assert(vars_model(vars@) =~= Seq::empty());
        core::mem::swap(&mut vars, &mut self.vars);
        let ghost back0 = places(self.back@);
        if self.pending_push {
            if let Some(prev) = self.current.take() {
                self.back.push(prev);
                assert(places(self.back@) =~= back0.push(prev@));
                if self.back.len() > BACK_STACK_MAX {
                    self.back.remove(0);
                    assert(places(self.back@) =~= back0.push(prev@).skip(1));
                }
            }
            self.pending_push = false;
        }
        let ghost back1 = places(self.back@);
        if self.pending_pop {
            self.back.pop();
            proof {
                if back1.len() > 0 {
                    assert(places(self.back@) =~= back1.drop_last());
                } else {
                    assert(places(self.back@) =~= back1);
                }
            }
            self.pending_pop = false;
        }
        let shown_path = path.clone();
        self.current = Some(PageAddr { node, path, vars });
        self.links = doc.links;
        self.current_title = match &title {
            Some(t) => Some(t.clone()),
            None => None,
        };
        self.phase = BrowserPhase::Idle;
        self.node = None;
        self.receiving = false;
        let entering = !self.viewing;
        self.viewing = true;
        Received::Page(Shown { node, path: shown_path, title, lines, entering })
    }

    /// The page shown.
    pub fn current_page(&self) -> (r: Option<PageAddr>)
        ensures
            place_of(r) == self@.current,
    {
        match &self.current {
            Some(p) => Some(p.clone()),
            None => None,
        }
    }

    /// The title of the page shown.
    pub fn current_page_title(&self) -> (r: Option<String>)
        ensures
            match r {
                Some(t) => self@.current_title == Some(t@),
                None => self@.current_title is None,
            },
    {
        match &self.current_title {
            Some(t) => Some(t.clone()),
            None => None,
        }
    }
}

// ---------------------------------------------------------------------------
// Going from page to page
// ---------------------------------------------------------------------------

/// What following a link leads to.
pub enum Follow {
    /// The cursor is on no link; say so.
    NoLink,
    Nothing,
    /// A messaging address; say that these are not supported.
    Messaging,
    /// Say that the link is not supported.
    Unsupported,
    /// Fetch this page.
    Go(PageAddr),
}

/// `f` is what following the link `l` from the page `current` leads to.
pub open spec fn follows(f: Follow, l: LinkModel, current: Option<Place>) -> bool {
    match target_of(l.url) {
        TargetModel::SameNode(path) => match current {
            Some(p) => f matches Follow::Go(a) && a@ == (Place {
                node: p.node,
                path,
                vars: l.fields,
            }),
            None => f is Nothing,
        },
        TargetModel::OtherNode(node, path) => f matches Follow::Go(a) && a@.node@ == node && a@.path
            == path && a@.vars == l.fields,
        TargetModel::NodeIndex(node) => f matches Follow::Go(a) && a@.node@ == node && a@.path
            == PAGE_PATH_DEFAULT@ && a@.vars == l.fields,
        TargetModel::Lxmf(_) => f is Messaging,
        TargetModel::Anchor => f is Unsupported,
        TargetModel::Unsupported => f is Unsupported,
    }
}

impl BrowserState {
    /// Follows the link under the cursor.
    pub fn follow_selected_link(&self, selected: Option<u16>) -> (r: Follow)
        ensures
            match selected {
                None => r is NoLink,
                Some(id) => if id >= self@.links.len() {
                    r is Nothing
                } else {
                    follows(r, self@.links[id as int], self@.current)
                },
            },
    {
        let id: usize = match selected {
            Some(id) => id as usize,
            None => {
                return Follow::NoLink;
            },
        };
        if id >= self.links.len() {
            return Follow::Nothing;
        }
        let link = &self.links[id];
        assert(self@.links[id as int] == link@);
        let vars = copy_vars(&link.fields);
        match resolve_link(link.url.as_str()) {
            LinkTarget::SameNode(path) => match &self.current {
                Some(p) => Follow::Go(PageAddr { node: p.node, path, vars }),
                None => Follow::Nothing,
            },
            LinkTarget::OtherNode(node, path) => Follow::Go(PageAddr { node, path, vars }),
            LinkTarget::NodeIndex(node) => Follow::Go(
                PageAddr { node, path: String::from_str(PAGE_PATH_DEFAULT), vars },
            ),
            LinkTarget::Lxmf(_) => Follow::Messaging,
            LinkTarget::Anchor => Follow::Unsupported,
            LinkTarget::Unsupported => Follow::Unsupported,
        }
    }

    /// Goes back one page: wants the page before, which stays one to go back to
    /// until it shows. False where there is none.
    pub fn browser_back(&mut self) -> (r: bool)
        ensures
            r == (old(self)@.back.len() > 0),
            r && old(self).phase == BrowserPhase::Idle ==> final(self)@ == (BrowserModel {
                requested: Some(old(self)@.back.last()),
                pending_push: false,
                pending_pop: true,
                next_attempt: 0,
                route_tries: 0,
                ..old(self)@
            }),
            !r || old(self).phase != BrowserPhase::Idle ==> final(self)@ == old(self)@,
    {
        let n = self.back.len();
        if n == 0 {
            return false;
        }
        let page = self.back[n - 1].clone();
        assert(old(self)@.back.last() == self.back@[n - 1]@);
        if self.request_page(page, false) {
            self.pending_pop = true;
        }
        true
    }

    /// Leaves the browser: a fetch is over and its link is to be dropped; the page,
    /// the pages to go back to, the links and the title stay.
    pub fn browser_suspend(&mut self) -> (link: Option<Address>)
        ensures
            link == old(self).link_id,
            final(self)@ == (BrowserModel { viewing: false, ..fetch_over(old(self)@) }),
    {
        let link = self.link_id;
        self.browser_finish(PageEnd::LinkLost);
        self.viewing = false;
        link
    }

    /// Comes back to the browser; `parked` tells whether the page is still to be
    /// had. False where there is nothing to come back to.
    pub fn browser_resume(&mut self, parked: bool) -> (r: bool)
        ensures
            r == (old(self)@.current is Some && parked),
            final(self)@ == (if r {
                BrowserModel { viewing: true, ..old(self)@ }
            } else if old(self)@.current is Some {
                BrowserModel {
                    current: None,
                    back: Seq::empty(),
                    links: Seq::empty(),
                    current_title: None,
                    ..old(self)@
                }
            } else {
                old(self)@
            }),
    {
        if self.current.is_none() {
            return false;
        }
        if !parked {
            self.current = None;
            self.back = Vec::new();
            self.links = Vec::new();
            self.current_title = None;
            assert(self@.back =~= Seq::empty());
            assert(self@.links =~= Seq::empty());
            return false;
        }
        self.viewing = true;
        true
    }
}

/// The line above a page: the node's label and the path.
pub fn page_heading(label: &str, path: &str) -> (r: String)
    ensures
        r@ == label@ + path@,
{
    join2(label, path)
}

/// The status line while a page shows.
pub fn page_status(label: &str, path: &str) -> (r: String)
    ensures
        r@ == "\u{25a3} "@ + label@ + path@,
{
    join3("\u{25a3} ", label, path)
}

// ---------------------------------------------------------------------------
// Names of nodes
// ---------------------------------------------------------------------------

/// The name under which a node is saved whose address was typed in as `typed`: the one
/// it announced, else the start of the address.
pub fn browse_name(seen: &Book<(String, u64)>, node: &Address, typed: &str) -> (r: String)
    requires
        seen.wf(),
    ensures
        r@ == (if seen@.contains_key(*node) {
            seen@[*node].0@
        } else {
            first_chars(trimmed(typed@), 8) + "\u{2026}"@
        }),
{
    match seen.get(node) {
        Some(x) => String::from_str(x.0.as_str()),
        None => {
            let chars = chars_of(typed);
            let short = trim(chars.as_slice());
            let n: usize = if short.len() < 8 {
                short.len()
            } else {
                8
            };
            let head = string_of(slice_subrange(short, 0, n));
            assert(head@ =~= first_chars(trimmed(typed@), 8));
            join2(head.as_str(), "\u{2026}")
        },
    }
}

/// A name that only repeats the address: all of its digits, or the first eight and
/// an ellipsis.
pub open spec fn is_placeholder(name: Seq<char>, a: Address) -> bool {
    name == hex_text(a@) || name == hex_text(a@).take(8) + "\u{2026}"@
}

/// Whether a name only repeats the address.
pub fn placeholder_name(name: &str, a: &Address) -> (r: bool)
    ensures
        r == is_placeholder(name@, *a),
{
    let n = chars_of(name);
    let full = hex(a.as_slice());
    let digits = chars_of(full.as_str());
    if crate::text::same_chars(n.as_slice(), digits.as_slice()) {
        return true;
    }
    let mut short = chars_of("\u{2026}");
    let mut k: usize = 8;
    let ghost tail = short@;
    assert(digits@.subrange(8, 8) + tail =~= tail);
    while k > 0
        invariant
            k <= 8,
            digits@.len() == 32,
            short@ == digits@.subrange(k as int, 8) + tail,
        decreases k,
    {
        short.insert(0, digits[k - 1]);
        assert(digits@.subrange(k - 1, 8) + tail =~= seq![digits@[k - 1]] + (digits@.subrange(
            k as int,
            8,
        ) + tail));
        k -= 1;
    }
    assert(digits@.subrange(0, 8) =~= hex_text(a@).take(8));
    crate::text::same_chars(n.as_slice(), short.as_slice())
}

/// The label of a node: as it was saved, else as it announced itself, else the
/// start of its address.
pub fn node_label(saved: &Book<String>, seen: &Book<(String, u64)>, node: &Address) -> (r: String)
    requires
        saved.wf(),
        seen.wf(),
    ensures
        r@ == crate::inbox::label_name(saved@, seen@, *node),
{
    crate::inbox::peer_label(saved, seen, node)
}

/// The name that an index page gives a node saved under a placeholder: the title,
/// trimmed and cut to a name's length.
pub open spec fn name_from_title(
    saved: Map<Address, String>,
    node: Address,
    path: Seq<char>,
    title: Option<Seq<char>>,
) -> Option<Seq<char>> {
    match title {
        Some(t) => if trimmed(t).len() > 0 && path == PAGE_PATH_DEFAULT@ && saved.contains_key(
            node,
        ) && is_placeholder(saved[node]@, node) {
            Some(within(trimmed(t), DISPLAY_NAME_MAX as nat))
        } else {
            None
        },
        None => None,
    }
}

/// Names a node saved under a placeholder after the title of its index page; the
/// new name, where there is one.
pub fn rename_from_title(
    saved: &mut Book<String>,
    node: &Address,
    path: &str,
    title: Option<&str>,
) -> (r: Option<String>)
    requires
        old(saved).wf(),
    ensures
        final(saved).wf(),
        ({
            let name = name_from_title(
                old(saved)@,
                *node,
                path@,
                match title {
                    Some(t) => Some(t@),
                    None => None,
                },
            );
            match r {
                Some(n) => name == Some(n@) && final(saved)@.contains_key(*node)
                    && final(saved)@[*node]@ == n@ && final(saved)@.remove(*node) == old(
                    saved,
                )@.remove(*node),
                None => name is None && final(saved)@ == old(saved)@,
            }
        }),
{
    let title = match title {
        Some(t) => t,
        None => {
            return None;
        },
    };
    let chars = chars_of(title);
    let t = trim(chars.as_slice());
    if t.len() == 0 {
        return None;
    }
    let p = chars_of(path);
    if !crate::text::spells(p.as_slice(), PAGE_PATH_DEFAULT) {
        return None;
    }
    let placeholder = match saved.get(node) {
        Some(n) => placeholder_name(n.as_str(), node),
        None => false,
    };
    if !placeholder {
        return None;
    }
    let name = string_of(truncate_utf8(t, DISPLAY_NAME_MAX));
    let ghost before = saved@;
    saved.insert(*node, name.clone());
    assert(saved@.remove(*node) =~= before.remove(*node));
    Some(name)
}

// ---------------------------------------------------------------------------
// What holds of going back and forth
// ---------------------------------------------------------------------------

/// A fetch that fails changes nothing of what is shown: the page, its links and
/// title, and the pages to go back to.
pub proof fn failed_fetch_keeps_the_page(b: BrowserModel)
    ensures
        fetch_over(b).current == b.current,
        fetch_over(b).back == b.back,
        fetch_over(b).links == b.links,
        fetch_over(b).current_title == b.current_title,
        fetch_over(b).viewing == b.viewing,
        fetch_over(b).phase == BrowserPhase::Idle,
{
}

/// Going back takes a page off the ones to go back to only when that page shows;
/// following a link adds the page left, and going back returns to it.
pub proof fn back_undoes_follow(
    b: BrowserModel,
    there: PageModel,
    next: Place,
    here_again: PageModel,
)
    requires
        b.current is Some,
        b.back.len() < BACK_STACK_MAX,
    ensures
        ({
            // A page fetched by following a link.
            let forth = page_shown(
                BrowserModel {
                    node: Some(next.node),
                    path: next.path,
                    vars: next.vars,
                    pending_push: true,
                    pending_pop: false,
                    ..b
                },
                there,
            );
            let home = forth.back.last();
            // The page before, fetched by going back.
            let again = page_shown(
                BrowserModel {
                    node: Some(home.node),
                    path: home.path,
                    vars: home.vars,
                    pending_push: false,
                    pending_pop: true,
                    ..forth
                },
                here_again,
            );
            &&& forth.current == Some(next)
            &&& forth.back == b.back.push(b.current->0)
            &&& home == b.current->0
            &&& again.current == b.current
            &&& again.back == b.back
        }),
{
    let here = b.current->0;
    assert(b.back.push(here).drop_last() =~= b.back);
}

/// There are never more than `BACK_STACK_MAX` pages to go back to.
pub proof fn back_stack_is_bounded(b: BrowserModel, doc: PageModel)
    requires
        b.back.len() <= BACK_STACK_MAX,
    ensures
        page_shown(b, doc).back.len() <= BACK_STACK_MAX,
{
}

} // verus!
