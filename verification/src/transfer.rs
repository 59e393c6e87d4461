//! Resources: transfers in parts of what does not fit one packet. Which transfers
//! are under way, and what each packet of one calls for.
use vstd::prelude::*;

use crate::address::{same_address, Address};

verus! {

/// How many inbound transfers are under way at most.
pub const MAX_IN_RESOURCES: usize = 4;

/// What a packet on a link carries.
#[derive(Debug, Clone, Copy, PartialEq, Eq, Structural)]
pub enum Context {
    Request,
    Response,
    /// A part of a resource.
    Resource,
    /// The advertisement of a resource.
    ResourceAdv,
    /// A request for parts of a resource.
    ResourceReq,
    /// More part hashes of a resource.
    ResourceHmu,
    Other,
}

/// The links with an inbound transfer under way, the one that began first in
/// front.
pub struct Transfers {
    pub links: Vec<Address>,
}

/// `links` without `link`.
pub open spec fn without(links: Seq<Address>, link: Address) -> Seq<Address> {
    links.filter(|l: Address| l != link)
}

/// The transfers after one on `link` began: it replaces one on the same link, and
/// where there are too many the oldest goes.
pub open spec fn begun(links: Seq<Address>, link: Address) -> Seq<Address> {
    let kept = without(links, link);
    if kept.len() >= MAX_IN_RESOURCES {
        kept.skip(kept.len() - MAX_IN_RESOURCES + 1).push(link)
    } else {
        kept.push(link)
    }
}

/// Every link once.
pub proof fn lemma_without(links: Seq<Address>, link: Address)
    requires
        links.no_duplicates(),
    ensures
        without(links, link).no_duplicates(),
        !without(links, link).contains(link),
        without(links, link).len() <= links.len(),
        links.contains(link) ==> without(links, link).len() < links.len(),
        forall|l: Address| l != link ==> (without(links, link).contains(l) <==> links.contains(l)),
    decreases links.len(),
{
    let p = |l: Address| l != link;
    reveal(Seq::filter);
    if links.len() > 0 {
        let d = links.drop_last();
        lemma_without(d, link);
        let w = without(links, link);
        assert forall|l: Address| l != link implies (w.contains(l) <==> links.contains(l)) by {
            if links.contains(l) {
                let i = choose|i: int| 0 <= i < links.len() && links[i] == l;
                if i < d.len() {
                    assert(d[i] == l);
                    assert(d.contains(l));
                    let j = choose|j: int| 0 <= j < without(d, link).len() && without(d, link)[j] == l;
                    assert(w[j] == l);
                } else {
                    assert(w.last() == l);
                }
            }
            if w.contains(l) {
                let j = choose|j: int| 0 <= j < w.len() && w[j] == l;
                if j < without(d, link).len() {
                    assert(without(d, link)[j] == l);
                    assert(without(d, link).contains(l));
                    assert(d.contains(l));
                    let i = choose|i: int| 0 <= i < d.len() && d[i] == l;
                    assert(links[i] == l);
                } else {
                    assert(links.last() == l);
                }
            }
        }
        if links.last() != link {
            assert(w == without(d, link).push(links.last()));
            assert(!d.contains(links.last())) by {
                if d.contains(links.last()) {
                    let i = choose|i: int| 0 <= i < d.len() && d[i] == links.last();
                    assert(links[i] == links[links.len() - 1]);
                }
            }
            assert(!without(d, link).contains(links.last()));
            assert forall|i: int, j: int| 0 <= i < w.len() && 0 <= j < w.len() && i != j implies w[i]
                != w[j] by {
                let n = without(d, link).len();
                if i == n {
                    assert(without(d, link).contains(without(d, link)[j]));
                } else if j == n {
                    assert(without(d, link).contains(without(d, link)[i]));
                }
            }
            if links.contains(link) {
                let i = choose|i: int| 0 <= i < links.len() && links[i] == link;
                assert(d[i] == link);
                assert(d.contains(link));
            }
            if w.contains(link) {
                let j = choose|j: int| 0 <= j < w.len() && w[j] == link;
                assert(without(d, link).contains(without(d, link)[j]));
            }
        } else {
            assert(w == without(d, link));
        }
    }
}

impl Transfers {
    /// Every link once, and not too many.
    pub open spec fn wf(&self) -> bool {
        self.links@.no_duplicates() && self.links@.len() <= MAX_IN_RESOURCES
    }

    /// No transfer under way.
    pub fn new() -> (r: Transfers)
        ensures
            r.wf(),
            r.links@ == Seq::<Address>::empty(),
    {
        Transfers { links: Vec::new() }
    }

    /// Where the transfer on `link` stands.
    fn find(&self, link: &Address) -> (r: Option<usize>)
        ensures
            match r {
                Some(i) => i < self.links@.len() && self.links@[i as int] == *link,
                None => !self.links@.contains(*link),
            },
    {
        let mut i: usize = 0;
        while i < self.links.len()
            invariant
                i <= self.links@.len(),
                forall|k: int| 0 <= k < i ==> self.links@[k] != *link,
            decreases self.links@.len() - i,
        {
            if same_address(&self.links[i], link) {
                return Some(i);
            }
            i += 1;
        }
        None
    }

    /// Whether a transfer on `link` is under way.
    pub fn contains(&self, link: &Address) -> (r: bool)
        ensures
            r == self.links@.contains(*link),
    {
        match self.find(link) {
            Some(i) => {
                assert(self.links@[i as int] == *link);
                true
            },
            None => false,
        }
    }

    /// The transfer on `link` is over.
    pub fn end(&mut self, link: &Address) -> (r: bool)
        requires
            old(self).wf(),
        ensures
            final(self).wf(),
            r == old(self).links@.contains(*link),
            final(self).links@ == without(old(self).links@, *link),
    {
        let ghost before = self.links@;
        proof {
            lemma_without(before, *link);
        }
        match self.find(link) {
            Some(i) => {
                self.links.remove(i);
                proof {
                    assert(before[i as int] == *link);
                    lemma_remove_is_without(before, i as int);
                }
                true
            },
            None => {
                proof {
                    lemma_nothing_to_remove(before, *link);
                }
                false
            },
        }
    }

    /// All transfers are over.
    pub fn clear(&mut self)
        ensures
            final(self).wf(),
            final(self).links@ == Seq::<Address>::empty(),
    {
        self.links = Vec::new();
    }

    /// A transfer on `link` begins: the links whose transfers go for it.
    pub fn begin(&mut self, link: &Address) -> (gone: Vec<Address>)
        requires
            old(self).wf(),
        ensures
            final(self).wf(),
            final(self).links@ == begun(old(self).links@, *link),
            ({
                let kept = without(old(self).links@, *link);
                gone@ == if kept.len() >= MAX_IN_RESOURCES {
                    kept.take(kept.len() - MAX_IN_RESOURCES + 1)
                } else {
                    Seq::empty()
                }
            }),
    {
        proof {
            lemma_without(self.links@, *link);
        }
        self.end(link);
        let ghost kept = self.links@;
        let mut gone: Vec<Address> = Vec::new();
        if self.links.len() >= MAX_IN_RESOURCES {
            gone.push(self.links[0]);
            self.links.remove(0);
            assert(gone@ =~= kept.take(1));
            assert(self.links@ =~= kept.skip(1));
        }
        let ghost rest = self.links@;
        self.links.push(*link);
        proof {
            assert(!rest.contains(*link)) by {
                if rest.contains(*link) {
                    let i = choose|i: int| 0 <= i < rest.len() && rest[i] == *link;
                    let shift = kept.len() - rest.len();
                    assert(kept[i + shift] == *link);
                    assert(kept.contains(*link));
                }
            }
            let l = self.links@;
            assert forall|i: int, j: int| 0 <= i < l.len() && 0 <= j < l.len() && i != j implies l[i]
                != l[j] by {
                if i == rest.len() {
                    assert(rest.contains(rest[j]));
                } else if j == rest.len() {
                    assert(rest.contains(rest[i]));
                }
            }
        }
        gone
    }
}

proof fn lemma_nothing_to_remove(links: Seq<Address>, link: Address)
    requires
        !links.contains(link),
    ensures
        without(links, link) == links,
    decreases links.len(),
{
    reveal(Seq::filter);
    if links.len() > 0 {
        let d = links.drop_last();
        assert(links.contains(links[links.len() - 1]));
        if d.contains(link) {
            let i = choose|i: int| 0 <= i < d.len() && d[i] == link;
            assert(links[i] == link);
        }
        lemma_nothing_to_remove(d, link);
        assert(d.push(links.last()) =~= links);
    }
}

proof fn lemma_remove_is_without(links: Seq<Address>, i: int)
    requires
        links.no_duplicates(),
        0 <= i < links.len(),
    ensures
        links.remove(i) == without(links, links[i]),
    decreases links.len(),
{
    reveal(Seq::filter);
    let d = links.drop_last();
    let link = links[i];
    if i == links.len() - 1 {
        assert(!d.contains(link)) by {
            if d.contains(link) {
                let k = choose|k: int| 0 <= k < d.len() && d[k] == link;
                assert(links[k] == links[i]);
            }
        }
        lemma_nothing_to_remove(d, link);
        assert(links.remove(i) =~= d);
    } else {
        lemma_remove_is_without(d, i);
        assert(links.last() != link);
        assert(links.remove(i) =~= d.remove(i).push(links.last()));
    }
}

/// What a packet of a transfer turned out to be, and what came of handing it to
/// the receiver.
#[derive(Debug, Clone, Copy, PartialEq, Eq, Structural)]
pub enum ResourceEvent {
    /// An advertisement, taken or not; whether there are parts to request.
    Advertised { accepted: bool, request: bool },
    /// A part: whether the window and whether the whole transfer is complete.
    Part { window_done: bool, complete: bool },
    /// More part hashes, sound or not.
    HashmapUpdate { sound: bool },
    /// The peer asks for parts of what we send.
    PartRequest,
    Other,
}

/// What a packet of a transfer calls for.
#[derive(Debug, Clone, Copy, PartialEq, Eq, Structural)]
pub enum ResourceStep {
    Nothing,
    /// Keep the receiver, and request the first parts where there are any.
    Begin { request: bool },
    /// Request the next parts.
    RequestNext,
    /// Take the receiver out and put the parts together.
    Assemble,
    /// Send the parts that were asked for.
    Serve,
}

/// What a packet calls for, with a transfer `present` on its link or not.
pub open spec fn resource_step(e: ResourceEvent, present: bool, serves: bool) -> ResourceStep {
    match e {
        ResourceEvent::Advertised { accepted, request } => if accepted {
            ResourceStep::Begin { request }
        } else {
            ResourceStep::Nothing
        },
        ResourceEvent::Part { window_done, complete } => if !present {
            ResourceStep::Nothing
        } else if complete {
            ResourceStep::Assemble
        } else if window_done {
            ResourceStep::RequestNext
        } else {
            ResourceStep::Nothing
        },
        ResourceEvent::HashmapUpdate { sound } => if present && sound {
            ResourceStep::RequestNext
        } else {
            ResourceStep::Nothing
        },
        ResourceEvent::PartRequest => if serves {
            ResourceStep::Serve
        } else {
            ResourceStep::Nothing
        },
        ResourceEvent::Other => ResourceStep::Nothing,
    }
}

impl Transfers {
    /// Takes one packet of a transfer on a link: what it calls for, and the links
    /// whose transfers went for a new one. `serves` tells a link on which the peer
    /// may ask for parts of what we send.
    pub fn advance(&mut self, link: &Address, e: ResourceEvent, serves: bool) -> (r: (
        ResourceStep,
        Vec<Address>,
    ))
        requires
            old(self).wf(),
        ensures
            final(self).wf(),
            r.0 == resource_step(e, old(self).links@.contains(*link), serves),
            final(self).links@ == (match r.0 {
                ResourceStep::Begin { .. } => begun(old(self).links@, *link),
                ResourceStep::Assemble => without(old(self).links@, *link),
                _ => old(self).links@,
            }),
            !(r.0 is Begin) ==> r.1@.len() == 0,
            r.0 is Begin ==> ({
                let kept = without(old(self).links@, *link);
                r.1@ == if kept.len() >= MAX_IN_RESOURCES {
                    kept.take(kept.len() - MAX_IN_RESOURCES + 1)
                } else {
                    Seq::empty()
                }
            }),
    {
        match e {
            ResourceEvent::Advertised { accepted, request } => if accepted {
                let gone = self.begin(link);
                (ResourceStep::Begin { request }, gone)
            } else {
                (ResourceStep::Nothing, Vec::new())
            },
            ResourceEvent::Part { window_done, complete } => if !self.contains(link) {
                (ResourceStep::Nothing, Vec::new())
            } else if complete {
                self.end(link);
                (ResourceStep::Assemble, Vec::new())
            } else if window_done {
                (ResourceStep::RequestNext, Vec::new())
            } else {
                (ResourceStep::Nothing, Vec::new())
            },
            ResourceEvent::HashmapUpdate { sound } => if sound && self.contains(link) {
                (ResourceStep::RequestNext, Vec::new())
            } else {
                (ResourceStep::Nothing, Vec::new())
            },
            ResourceEvent::PartRequest => if serves {
                (ResourceStep::Serve, Vec::new())
            } else {
                (ResourceStep::Nothing, Vec::new())
            },
            ResourceEvent::Other => (ResourceStep::Nothing, Vec::new()),
        }
    }
}

/// How the assembly of a transfer goes on.
#[derive(Debug, Clone, Copy, PartialEq, Eq, Structural)]
pub enum Assembly {
    /// Decrypt the parts put together.
    Decrypt,
    /// Check the plaintext against the advertisement.
    Check,
    /// Prove the receipt and deliver what came.
    Deliver,
    /// Drop it; the sender will try again.
    Abandon,
}

/// What came of the last step of an assembly.
#[derive(Debug, Clone, Copy, PartialEq, Eq, Structural)]
pub enum AssemblyEvent {
    Joined { encrypted: bool },
    Decrypted { ok: bool },
    Checked { ok: bool },
}

/// How the assembly of a transfer goes on.
pub fn assemble(e: AssemblyEvent) -> (r: Assembly)
    ensures
        r == (match e {
            AssemblyEvent::Joined { encrypted: true } => Assembly::Decrypt,
            AssemblyEvent::Joined { encrypted: false } => Assembly::Check,
            AssemblyEvent::Decrypted { ok: true } => Assembly::Check,
            AssemblyEvent::Decrypted { ok: false } => Assembly::Abandon,
            AssemblyEvent::Checked { ok: true } => Assembly::Deliver,
            AssemblyEvent::Checked { ok: false } => Assembly::Abandon,
        }),
{
    match e {
        AssemblyEvent::Joined { encrypted } => if encrypted {
            Assembly::Decrypt
        } else {
            Assembly::Check
        },
        AssemblyEvent::Decrypted { ok } => if ok {
            Assembly::Check
        } else {
            Assembly::Abandon
        },
        AssemblyEvent::Checked { ok } => if ok {
            Assembly::Deliver
        } else {
            Assembly::Abandon
        },
    }
}

/// A new transfer always has its place: it is under way, and there are never more
/// than `MAX_IN_RESOURCES`.
pub proof fn new_transfer_has_its_place(links: Seq<Address>, link: Address)
    requires
        links.no_duplicates(),
        links.len() <= MAX_IN_RESOURCES,
    ensures
        begun(links, link).contains(link),
        begun(links, link).last() == link,
        begun(links, link).len() <= MAX_IN_RESOURCES,
        links.len() < MAX_IN_RESOURCES ==> forall|l: Address|
            links.contains(l) ==> begun(links, link).contains(l),
{
    lemma_without(links, link);
    let b = begun(links, link);
    assert(b.last() == link);
    if links.len() < MAX_IN_RESOURCES {
        let kept = without(links, link);
        assert forall|l: Address| links.contains(l) implies b.contains(l) by {
            if l != link {
                assert(kept.contains(l));
                let i = choose|i: int| 0 <= i < kept.len() && kept[i] == l;
                assert(b[i] == l);
            }
        }
    }
}

} // verus!
