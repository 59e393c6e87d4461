//! The connection to the hub, the transfers over it, and what is said of them.
use vstd::prelude::*;

use crate::address::Address;
use crate::connection::{
    backoff_after, cared, cause_words, duration_words, hub_parts, last_before, longer,
    network_words, two_digits, Care, Pulse, Watch,
};
use crate::picker::{hub_host, hub_typed, is_port};
use crate::text::{decimal_text, decimal_up_to, trimmed};
use crate::transfer::{begun, resource_step, without, ResourceEvent, ResourceStep};

verus! {

proof fn lemma_last_before(s: Seq<char>, x: char, n: int)
    requires
        0 <= n <= s.len(),
    ensures
        ({
            let k = last_before(s, x, n);
            &&& -1 <= k < n || (k == -1 && n == 0)
            &&& k >= 0 ==> s[k] == x
            &&& forall|i: int| k < i < n ==> #[trigger] s[i] != x
        }),
    decreases n,
{
    if n > 0 {
        lemma_last_before(s, x, n - 1);
    }
}

proof fn lemma_last(a: Seq<char>, b: Seq<char>)
    requires
        !b.contains(':'),
    ensures
        ({
            let s = a.push(':') + b;
            &&& last_before(s, ':', s.len() as int) == a.len()
            &&& s.take(a.len() as int) == a
            &&& s.skip((a.len() + 1) as int) == b
            &&& last_before(b, ':', b.len() as int) == -1
        }),
{
    let s = a.push(':') + b;
    lemma_last_before(s, ':', s.len() as int);
    lemma_last_before(b, ':', b.len() as int);
    let k = last_before(s, ':', s.len() as int);
    assert(s[a.len() as int] == ':');
    if k > a.len() {
        assert(b[k - a.len() - 1] == ':');
    }
    let j = last_before(b, ':', b.len() as int);
    if j >= 0 {
        assert(b.contains(b[j]));
    }
    assert(s.take(a.len() as int) =~= a);
    assert(s.skip((a.len() + 1) as int) =~= b);
}

/// A hub is a host, a colon and a port: the last colon parts them, and the port is a
/// decimal number of at most 65535. Without a colon it is none.
pub proof fn a_hub_is_host_and_port(host: Seq<char>, port: Seq<char>)
    requires
        !port.contains(':'),
    ensures
        hub_parts(port) is None,
        hub_parts(host.push(':') + port) == (match decimal_up_to(port, 65535) {
            Some(n) => Some((host, n)),
            None => None,
        }),
        hub_host(host.push(':') + port) == host,
        hub_host(port) == port,
        is_port(port) <==> (decimal_up_to(port, 65535) matches Some(n) && n > 0),
{
    lemma_last(host, port);
}

/// A hub is typed as a host and a port. A blank host is the one that was set, a blank
/// port 4242; a host with a port of its own keeps that.
pub proof fn a_hub_is_typed(hub: Seq<char>, host: Seq<char>, port: Seq<char>)
    ensures
        !trimmed(host).contains(':') && trimmed(host).len() > 0 ==> hub_typed(hub, host, port)
            == (trimmed(host), if trimmed(port).len() == 0 {
            seq!['4', '2', '4', '2']
        } else {
            trimmed(port)
        }),
        trimmed(host).len() == 0 && !hub_host(hub).contains(':') ==> hub_typed(hub, host, port).0
            == hub_host(hub),
        forall|a: Seq<char>, b: Seq<char>|
            trimmed(host) == #[trigger] (a.push(':') + b) && !b.contains(':') ==> hub_typed(
                hub,
                host,
                port,
            ) == (a, b),
{
    reveal_strlit("4242");
    assert("4242"@ =~= seq!['4', '2', '4', '2']);
    let h = trimmed(host);
    if !h.contains(':') {
        lemma_last(Seq::empty(), h);
    }
    if !hub_host(hub).contains(':') {
        lemma_last(Seq::empty(), hub_host(hub));
    }
    assert forall|a: Seq<char>, b: Seq<char>|
        h == #[trigger] (a.push(':') + b) && !b.contains(':') implies hub_typed(hub, host, port)
        == (a, b) by {
        lemma_last(a, b);
        assert(h.len() > 0);
    }
}

/// The waits between attempts: 2 seconds first, each twice the last, 30 at most.
pub proof fn waits_double_up_to_thirty(n: nat)
    ensures
        backoff_after(0) == 2,
        2 * backoff_after(n) <= 30 ==> backoff_after(n + 1) == 2 * backoff_after(n),
        2 * backoff_after(n) > 30 ==> backoff_after(n + 1) == 30,
        forall|b: u64| #![trigger longer(b)] 2 * b >= 30 ==> longer(b) == 30,
        forall|b: u64| #![trigger longer(b)] 2 * b <= 30 ==> longer(b) == 2 * b,
{
}

/// A time is said in seconds under a minute, in minutes and seconds under an hour, and
/// in hours and minutes from there; the smaller part has two digits.
pub proof fn times_are_said(secs: nat)
    ensures
        secs < 60 ==> duration_words(secs) == decimal_text(secs).push('s'),
        60 <= secs < 3600 ==> duration_words(secs) == (decimal_text(secs / 60).push('m')
            + two_digits(secs % 60)).push('s'),
        3600 <= secs ==> duration_words(secs) == (decimal_text(secs / 3600).push('h')
            + two_digits((secs / 60) % 60)).push('m'),
        secs < 10 ==> two_digits(secs) == seq!['0'] + decimal_text(secs),
        secs >= 10 ==> two_digits(secs) == decimal_text(secs),
{
    reveal_strlit("s");
    reveal_strlit("m");
    reveal_strlit("h");
    reveal_strlit("0");
    assert("0"@ =~= seq!['0']);
    assert(secs % 3600 / 60 == (secs / 60) % 60) by (nonlinear_arith);
    assert(decimal_text(secs) + "s"@ =~= decimal_text(secs).push('s'));
    let m = decimal_text(secs / 60);
    assert(m + "m"@ + two_digits(secs % 60) + "s"@ =~= (m.push('m') + two_digits(
        secs % 60,
    )).push('s'));
    let h = decimal_text(secs / 3600);
    let rest = two_digits((secs / 60) % 60);
    assert(h + "h"@ + rest + "m"@ =~= (h.push('h') + rest).push('m'));
}

/// A lost connection is laid to what is known of it; that the network is down is added
/// only where it is.
pub proof fn a_cause_is_said(why: Seq<char>)
    ensures
        cause_words(Some(why)) == why,
        cause_words(None) == "connection dropped"@,
        network_words(true) == Seq::<char>::empty(),
        network_words(false) == ", wifi down"@,
{
    reveal_strlit("");
    assert(""@ =~= Seq::empty());
}

/// A look at the connection, the worst first: a clock that jumped by more than 60
/// seconds, a write under way for more than 20, and nothing heard for more than 240,
/// where the hub can be asked, all mean a new connection. Else the hub is asked where
/// nothing was heard for more than 180 seconds and it was not asked for 20, and every
/// sixth look an empty frame goes out. Nothing is done on a connection that is down but
/// to watch a write.
pub proof fn a_connection_is_looked_at(w: Watch, now: u64, p: Pulse)
    requires
        w.ticks < u64::MAX,
        now <= 0xffff_ffff,
    ensures
        ({
            let (next, care) = cared(w, now, p);
            let silent: int = if now >= p.last_inbound {
                now - p.last_inbound
            } else {
                0
            };
            let writing: int = if now >= p.write_started {
                now - p.write_started
            } else {
                0
            };
            let asked: int = if now >= w.last_probe {
                now - w.last_probe
            } else {
                0
            };
            &&& next.ticks == w.ticks + 1 && next.last_wall == now
            &&& if p.connected && now > w.last_wall + 60 {
                care is Woke && next.last_probe == w.last_probe
            } else if p.write_started != 0 && writing > 20 {
                care is Stuck && next.last_probe == w.last_probe
            } else if p.connected && p.can_probe && silent > 240 {
                care == Care::Silent(silent as u32) && next.last_probe == w.last_probe
            } else {
                let probe = p.connected && p.can_probe && silent > 180 && asked >= 20;
                &&& care == (Care::Tend {
                    probe,
                    keepalive: p.connected && (w.ticks + 1) % 6 == 0,
                })
                &&& next.last_probe == (if probe {
                    now as u32
                } else {
                    w.last_probe
                })
            }
        }),
{
}

/// The transfers under way stand in the order in which they began, a link once; a new
/// one is the last, and of more than four the oldest is dropped.
pub proof fn transfers_stand_in_order(links: Seq<Address>, l: Address, link: Address)
    ensures
        without(Seq::empty(), link) == Seq::<Address>::empty(),
        without(links.push(l), link) == (if l == link {
            without(links, link)
        } else {
            without(links, link).push(l)
        }),
        without(links, link).len() < 4 ==> begun(links, link) == without(links, link).push(link),
        without(links, link).len() == 4 ==> begun(links, link) == without(links, link).subrange(
            1,
            4,
        ).push(link),
{
    reveal(Seq::filter);
    assert(links.push(l).drop_last() =~= links);
    let kept = without(links, link);
    if kept.len() == 4 {
        assert(kept.skip(1) =~= kept.subrange(1, 4));
    }
}

/// A packet of a transfer: what is accepted begins; of a transfer under way the parts
/// are put together once all are there, and more are asked for when a window is done or
/// the map grew; what is served is served; anything else is passed over.
pub proof fn packets_of_a_transfer(
    accepted: bool,
    request: bool,
    window_done: bool,
    complete: bool,
    sound: bool,
    present: bool,
    serves: bool,
)
    ensures
        resource_step(ResourceEvent::Advertised { accepted, request }, present, serves) == (
        if accepted {
            ResourceStep::Begin { request }
        } else {
            ResourceStep::Nothing
        }),
        resource_step(ResourceEvent::Part { window_done, complete }, true, serves) == (
        if complete {
            ResourceStep::Assemble
        } else if window_done {
            ResourceStep::RequestNext
        } else {
            ResourceStep::Nothing
        }),
        resource_step(ResourceEvent::Part { window_done, complete }, false, serves)
            == ResourceStep::Nothing,
        resource_step(ResourceEvent::HashmapUpdate { sound }, present, serves) == (if sound
            && present {
            ResourceStep::RequestNext
        } else {
            ResourceStep::Nothing
        }),
        resource_step(ResourceEvent::PartRequest, present, true) == ResourceStep::Serve,
        resource_step(ResourceEvent::PartRequest, present, false) == ResourceStep::Nothing,
        resource_step(ResourceEvent::Other, present, serves) == ResourceStep::Nothing,
{
}

} // verus!
