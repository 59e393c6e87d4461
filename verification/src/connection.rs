//! Keeping the connection to the hub: when to dial, when to give a connection up,
//! and what to say about it.
use vstd::prelude::*;
use vstd::slice::slice_subrange;

use crate::text::{
    chars_of, decimal_text, decimal_up_to, join2, join3, parse_decimal, push_decimal, string_of,
};

verus! {

// ---------------------------------------------------------------------------
// The hub's address
// ---------------------------------------------------------------------------

/// The last index before `n` at which `s` holds `x`, or minus one.
pub open spec fn last_before(s: Seq<char>, x: char, n: int) -> int
    decreases n,
{
    if n <= 0 {
        -1
    } else if s[n - 1] == x {
        n - 1
    } else {
        last_before(s, x, n - 1)
    }
}

/// The host and the port of a hub, which the last colon parts.
pub open spec fn hub_parts(hub: Seq<char>) -> Option<(Seq<char>, nat)> {
    let k = last_before(hub, ':', hub.len() as int);
    if k < 0 {
        None
    } else {
        match decimal_up_to(hub.skip(k + 1), 65535) {
            Some(port) => Some((hub.take(k), port)),
            None => None,
        }
    }
}

/// The host and the port of a hub.
pub fn split_hub(hub: &str) -> (r: Option<(String, u16)>)
    ensures
        match r {
            Some((host, port)) => hub_parts(hub@) == Some((host@, port as nat)),
            None => hub_parts(hub@) is None,
        },
{
    let chars = chars_of(hub);
    let s = chars.as_slice();
    let mut n: usize = s.len();
    while n > 0 && s[n - 1] != ':'
        invariant
            n <= s@.len(),
            last_before(s@, ':', n as int) == last_before(s@, ':', s@.len() as int),
        decreases n,
    {
        n -= 1;
    }
    if n == 0 {
        return None;
    }
    let host = slice_subrange(s, 0, n - 1);
    let port = slice_subrange(s, n, s.len());
    assert(host@ =~= s@.take(n - 1));
    assert(port@ =~= s@.skip(n as int));
    match parse_decimal(port, 65535) {
        Some(p) => Some((string_of(host), p as u16)),
        None => None,
    }
}

// ---------------------------------------------------------------------------
// Words
// ---------------------------------------------------------------------------

/// A number in at least two digits.
pub open spec fn two_digits(n: nat) -> Seq<char> {
    if n < 10 {
        "0"@ + decimal_text(n)
    } else {
        decimal_text(n)
    }
}

fn push_two_digits(s: &mut String, n: u64)
    ensures
        final(s)@ == old(s)@ + two_digits(n as nat),
{
    let ghost o = s@;
    if n < 10 {
        s.append("0");
    }
    push_decimal(s, n);
    assert(s@ =~= o + two_digits(n as nat));
}

/// A span of time in short: seconds, minutes and seconds, or hours and minutes.
pub open spec fn duration_words(secs: nat) -> Seq<char> {
    if secs < 60 {
        decimal_text(secs) + "s"@
    } else if secs < 3600 {
        decimal_text(secs / 60) + "m"@ + two_digits(secs % 60) + "s"@
    } else {
        decimal_text(secs / 3600) + "h"@ + two_digits(secs % 3600 / 60) + "m"@
    }
}

/// A span of time in short.
pub fn fmt_duration(secs: u64) -> (r: String)
    ensures
        r@ == duration_words(secs as nat),
{
    let mut r = String::new();
    if secs < 60 {
        push_decimal(&mut r, secs);
        r.append("s");
    } else if secs < 3600 {
        push_decimal(&mut r, secs / 60);
        r.append("m");
        push_two_digits(&mut r, secs % 60);
        r.append("s");
    } else {
        push_decimal(&mut r, secs / 3600);
        r.append("h");
        push_two_digits(&mut r, secs % 3600 / 60);
        r.append("m");
    }
    assert(r@ =~= duration_words(secs as nat));
    r
}

/// Notes why the connection goes down; the first cause stays.
pub fn note_disconnect(slot: &mut Option<String>, reason: String)
    ensures
        *final(slot) == (if *old(slot) is Some {
            *old(slot)
        } else {
            Some(reason)
        }),
{
    if slot.is_none() {
        *slot = Some(reason);
    }
}

// ---------------------------------------------------------------------------
// Dialling
// ---------------------------------------------------------------------------

/// The first wait before dialling again, in seconds.
pub const FIRST_BACKOFF: u64 = 2;

/// The longest wait before dialling again.
pub const MAX_BACKOFF: u64 = 30;

/// The wait after the next failure.
pub open spec fn longer(backoff: u64) -> u64 {
    if backoff * 2 < MAX_BACKOFF {
        (backoff * 2) as u64
    } else {
        MAX_BACKOFF
    }
}

/// The keeper of the connection, between two tries.
pub struct Dialer {
    /// How long to wait after the next failure.
    pub backoff: u64,
    /// Why the last connection went down, and after how long.
    pub last_drop: Option<String>,
}

/// What to do for the connection.
pub enum Dial {
    /// Wait for so many seconds and look again.
    Sleep(u64),
    /// The hub's address is no address: say so, and wait for so many seconds.
    BadHub { say: String, wait: u64 },
    /// Wait for the network, then dial.
    Go { host: String, port: u16 },
}

/// What became of a connection: what to say, and how long to wait before dialling
/// again.
pub struct Dropped {
    pub say: String,
    pub wait: u64,
}

/// The cause of a drop; a socket that just died has none of its own.
pub open spec fn cause_words(why: Option<Seq<char>>) -> Seq<char> {
    match why {
        Some(w) => w,
        None => "connection dropped"@,
    }
}

/// What is added where the network is gone too.
pub open spec fn network_words(up: bool) -> Seq<char> {
    if up {
        ""@
    } else {
        ", wifi down"@
    }
}

impl Dialer {
    /// The wait is at least the first and at most the longest.
    pub open spec fn wf(&self) -> bool {
        FIRST_BACKOFF <= self.backoff <= MAX_BACKOFF
    }

    pub fn new() -> (r: Dialer)
        ensures
            r.wf(),
            r.backoff == FIRST_BACKOFF,
            r.last_drop is None,
    {
        Dialer { backoff: FIRST_BACKOFF, last_drop: None }
    }

    /// A new round: whether to dial.
    pub fn begin(&mut self, enabled: bool, hub: &str) -> (r: Dial)
        requires
            old(self).wf(),
        ensures
            final(self).wf(),
            final(self).last_drop == old(self).last_drop,
            final(self).backoff == (if enabled {
                old(self).backoff
            } else {
                FIRST_BACKOFF
            }),
            match r {
                Dial::Sleep(n) => !enabled && n == 3,
                Dial::BadHub { say, wait } => enabled && hub_parts(hub@) is None && say@
                    == "bad hub address: "@ + hub@ && wait == 15,
                Dial::Go { host, port } => enabled && hub_parts(hub@) == Some(
                    (host@, port as nat),
                ),
            },
    {
        if !enabled {
            self.backoff = FIRST_BACKOFF;
            return Dial::Sleep(3);
        }
        match split_hub(hub) {
            Some((host, port)) => Dial::Go { host, port },
            None => Dial::BadHub { say: join2("bad hub address: ", hub), wait: 15 },
        }
    }

    /// The network is up; where it was waited for, the first try comes promptly.
    /// What to say while dialling.
    pub fn on_network(&mut self, waited: bool, hub: &str) -> (say: String)
        requires
            old(self).wf(),
        ensures
            final(self).wf(),
            final(self).last_drop == old(self).last_drop,
            final(self).backoff == (if waited {
                FIRST_BACKOFF
            } else {
                old(self).backoff
            }),
            say@ == "connecting to "@ + hub@ + "\u{2026}"@,
    {
        if waited {
            self.backoff = FIRST_BACKOFF;
        }
        join3("connecting to ", hub, "\u{2026}")
    }

    /// The connection is up. What to say: why the last one went down, or else the
    /// hub.
    pub fn on_connected(&mut self, hub: &str) -> (say: String)
        ensures
            final(self).wf(),
            final(self).backoff == FIRST_BACKOFF,
            final(self).last_drop is None,
            say@ == (match old(self).last_drop {
                Some(d) => "connected \u{2014} last drop: "@ + d@,
                None => "connected to "@ + hub@,
            }),
    {
        self.backoff = FIRST_BACKOFF;
        match self.last_drop.take() {
            Some(d) => join2("connected \u{2014} last drop: ", d.as_str()),
            None => join2("connected to ", hub),
        }
    }

    /// A connection went down after `up` seconds.
    pub fn on_dropped(&mut self, why: Option<String>, up: u64, network_up: bool) -> (r: Dropped)
        requires
            old(self).wf(),
        ensures
            final(self).wf(),
            ({
                let cause = cause_words(
                    match why {
                        Some(w) => Some(w@),
                        None => None,
                    },
                );
                let net = network_words(network_up);
                let span = duration_words(up as nat);
                &&& r.say@ == "link lost after "@ + span + " \u{2014} "@ + cause + net
                &&& r.wait == old(self).backoff
                &&& final(self).backoff == longer(old(self).backoff)
                &&& final(self).last_drop matches Some(d) && d@ == cause + " after "@ + span + net
            }),
    {
        let cause = match why {
            Some(w) => w,
            None => String::from_str("connection dropped"),
        };
        let span = fmt_duration(up);
        let net = if network_up {
            ""
        } else {
            ", wifi down"
        };
        let mut say = join3("link lost after ", span.as_str(), " \u{2014} ");
        say.append(cause.as_str());
        say.append(net);
        let mut drop = join3(cause.as_str(), " after ", span.as_str());
        drop.append(net);
        self.last_drop = Some(drop);
        let wait = self.backoff;
        self.lengthen();
        Dropped { say, wait }
    }

    /// Dialling failed.
    pub fn on_failed(&mut self, hub: &str, error: &str) -> (r: Dropped)
        requires
            old(self).wf(),
        ensures
            final(self).wf(),
            r.say@ == "connect to "@ + hub@ + " failed: "@ + error@ + " \u{2014} retrying\u{2026}"@,
            r.wait == old(self).backoff,
            final(self).backoff == longer(old(self).backoff),
            final(self).last_drop == old(self).last_drop,
    {
        let mut say = join3("connect to ", hub, " failed: ");
        say.append(error);
        say.append(" \u{2014} retrying\u{2026}");
        let wait = self.backoff;
        self.lengthen();
        Dropped { say, wait }
    }

    /// A connection came up that cannot be used, for want of more handles on it.
    pub fn on_unusable(&mut self, error: &str) -> (r: Dropped)
        requires
            old(self).wf(),
        ensures
            final(self).wf(),
            r.say@ == "socket clone failed: "@ + error@,
            r.wait == old(self).backoff,
            final(self).backoff == longer(old(self).backoff),
            final(self).last_drop == old(self).last_drop,
    {
        let say = join2("socket clone failed: ", error);
        let wait = self.backoff;
        self.lengthen();
        Dropped { say, wait }
    }

    fn lengthen(&mut self)
        requires
            old(self).wf(),
        ensures
            final(self).wf(),
            final(self).backoff == longer(old(self).backoff),
            final(self).last_drop == old(self).last_drop,
    {
        self.backoff = if self.backoff * 2 < MAX_BACKOFF {
            self.backoff * 2
        } else {
            MAX_BACKOFF
        };
    }
}

/// The wait before dialling again after `n` failures in a row.
pub open spec fn backoff_after(n: nat) -> u64
    decreases n,
{
    if n == 0 {
        FIRST_BACKOFF
    } else {
        longer(backoff_after((n - 1) as nat))
    }
}

/// The waits grow up to the longest and stay there.
pub proof fn backoff_is_capped(n: nat)
    ensures
        FIRST_BACKOFF <= backoff_after(n) <= MAX_BACKOFF,
        backoff_after(n) <= backoff_after(n + 1),
        n >= 4 ==> backoff_after(n) == MAX_BACKOFF,
    decreases n,
{
    if n > 0 {
        backoff_is_capped((n - 1) as nat);
        if n == 4 {
            reveal_with_fuel(backoff_after, 5);
        }
    }
}

// ---------------------------------------------------------------------------
// Reading
// ---------------------------------------------------------------------------

/// What came of reading from the hub.
#[derive(Debug, Clone, Copy, PartialEq, Eq, Structural)]
pub enum ReadEvent {
    Closed,
    Bytes,
    TimedOut,
    Failed,
}

/// What to do after reading.
#[derive(Debug, Clone, Copy, PartialEq, Eq, Structural)]
pub enum ReadStep {
    /// Read on.
    Again,
    /// Note the time of arrival, take the bytes, and read on.
    Take,
    /// Stop, and note why: the hub closed the connection.
    StopClosed,
    /// Stop, and note why: reading failed.
    StopFailed,
    /// Stop; a reconnect was asked for.
    Stop,
}

/// What to do after reading. A reconnect that was asked for comes first: a hub that
/// never falls silent must not hide it.
pub fn read_step(connected: bool, e: ReadEvent) -> (r: ReadStep)
    ensures
        r == (if !connected {
            ReadStep::Stop
        } else {
            match e {
                ReadEvent::Closed => ReadStep::StopClosed,
                ReadEvent::Bytes => ReadStep::Take,
                ReadEvent::TimedOut => ReadStep::Again,
                ReadEvent::Failed => ReadStep::StopFailed,
            }
        }),
{
    if !connected {
        return ReadStep::Stop;
    }
    match e {
        ReadEvent::Closed => ReadStep::StopClosed,
        ReadEvent::Bytes => ReadStep::Take,
        ReadEvent::TimedOut => ReadStep::Again,
        ReadEvent::Failed => ReadStep::StopFailed,
    }
}

// ---------------------------------------------------------------------------
// Keeping alive
// ---------------------------------------------------------------------------

/// Seconds between two looks.
pub const TICK_SECS: u64 = 5;

/// An empty frame goes out every so many looks: every thirty seconds.
pub const KEEPALIVE_TICKS: u64 = 6;

/// A clock that jumped by more tells that the device slept.
pub const SUSPEND_GAP_SECS: u64 = 60;

/// After so many silent seconds the hub is probed.
pub const PROBE_AFTER_SECS: u32 = 180;

/// Seconds between two probes.
pub const PROBE_MIN_INTERVAL_SECS: u32 = 20;

/// After so many silent seconds the connection is dead.
pub const DEAD_AFTER_SECS: u32 = 240;

/// A write that takes longer is stuck.
pub const WRITE_STUCK_SECS: u32 = 20;

/// The watch over a connection.
pub struct Watch {
    pub ticks: u64,
    pub last_wall: u64,
    pub last_probe: u32,
}

/// What a look at the connection leads to.
#[derive(Debug, Clone, Copy, PartialEq, Eq, Structural)]
pub enum Care {
    /// The device slept: connect anew.
    Woke,
    /// A write is stuck: connect anew.
    Stuck,
    /// Nothing came for so many seconds: connect anew.
    Silent(u32),
    /// Ask the hub for ourselves where that is due, and send an empty frame where
    /// that is.
    Tend { probe: bool, keepalive: bool },
}

/// The lowest 32 bits of a time.
pub open spec fn short_time(now: u64) -> u32 {
    now as u32
}

/// How long ago `earlier` was, or zero.
pub open spec fn since(now: u32, earlier: u32) -> u32 {
    if now >= earlier {
        (now - earlier) as u32
    } else {
        0
    }
}

/// What a look at the connection finds.
#[derive(Clone, Copy)]
pub struct Pulse {
    pub connected: bool,
    /// When the write in progress began; zero where there is none.
    pub write_started: u32,
    /// When something came last.
    pub last_inbound: u32,
    /// The hub can be probed.
    pub can_probe: bool,
}

/// What a look at the connection leads to.
pub open spec fn cared(w: Watch, now: u64, p: Pulse) -> (Watch, Care) {
    let t = short_time(now);
    let ticks = w.ticks.wrapping_add(1);
    let seen = Watch { ticks, last_wall: now, ..w };
    let silent = since(t, p.last_inbound);
    if now - w.last_wall > SUSPEND_GAP_SECS && p.connected {
        (seen, Care::Woke)
    } else if p.write_started != 0 && since(t, p.write_started) > WRITE_STUCK_SECS {
        (seen, Care::Stuck)
    } else if p.connected && p.can_probe && silent > DEAD_AFTER_SECS {
        (seen, Care::Silent(silent))
    } else {
        let probe = p.connected && p.can_probe && silent > PROBE_AFTER_SECS && since(
            t,
            w.last_probe,
        ) >= PROBE_MIN_INTERVAL_SECS;
        (
            Watch {
                last_probe: if probe {
                    t
                } else {
                    w.last_probe
                },
                ..seen
            },
            Care::Tend { probe, keepalive: p.connected && ticks % KEEPALIVE_TICKS == 0 },
        )
    }
}

impl Watch {
    pub fn new(now: u64) -> (r: Watch)
        ensures
            r == (Watch { ticks: 0, last_wall: now, last_probe: 0 }),
    {
        Watch { ticks: 0, last_wall: now, last_probe: 0 }
    }

    /// A look at the connection.
    pub fn tick(&mut self, now: u64, p: Pulse) -> (r: Care)
        ensures
            (*final(self), r) == cared(*old(self), now, p),
    {
        self.ticks = self.ticks.wrapping_add(1);
        let gap = now.saturating_sub(self.last_wall);
        self.last_wall = now;
        if gap > SUSPEND_GAP_SECS && p.connected {
            return Care::Woke;
        }
        let t: u32 = #[verifier::truncate] (now as u32);
        if p.write_started != 0 && t.saturating_sub(p.write_started) > WRITE_STUCK_SECS {
            return Care::Stuck;
        }
        let mut probe = false;
        if p.connected && p.can_probe {
            let silent = t.saturating_sub(p.last_inbound);
            if silent > DEAD_AFTER_SECS {
                return Care::Silent(silent);
            }
            if silent > PROBE_AFTER_SECS && t.saturating_sub(self.last_probe)
                >= PROBE_MIN_INTERVAL_SECS {
                self.last_probe = t;
                probe = true;
            }
        }
        Care::Tend { probe, keepalive: p.connected && self.ticks % KEEPALIVE_TICKS == 0 }
    }
}

/// What is said, and what is noted as the cause, when a connection is given up.
pub open spec fn care_words(c: Care) -> (Seq<char>, Seq<char>) {
    match c {
        Care::Woke => ("woke from sleep \u{2014} reconnecting\u{2026}"@, "woke from sleep"@),
        Care::Stuck => (
            "hub write stalled \u{2014} resetting connection\u{2026}"@,
            "write stalled >20s"@,
        ),
        Care::Silent(n) => (
            "hub unresponsive \u{2014} reconnecting\u{2026}"@,
            "no inbound for "@ + decimal_text(n as nat) + "s, probes unanswered"@,
        ),
        Care::Tend { .. } => (""@, ""@),
    }
}

/// What is said, and what is noted as the cause, when a connection is given up.
pub fn care_text(c: Care) -> (r: (String, String))
    ensures
        (r.0@, r.1@) == care_words(c),
{
    match c {
        Care::Woke => (
            String::from_str("woke from sleep \u{2014} reconnecting\u{2026}"),
            String::from_str("woke from sleep"),
        ),
        Care::Stuck => (
            String::from_str("hub write stalled \u{2014} resetting connection\u{2026}"),
            String::from_str("write stalled >20s"),
        ),
        Care::Silent(n) => {
            let mut why = String::from_str("no inbound for ");
            push_decimal(&mut why, n as u64);
            why.append("s, probes unanswered");
            (String::from_str("hub unresponsive \u{2014} reconnecting\u{2026}"), why)
        },
        Care::Tend { .. } => (String::from_str(""), String::from_str("")),
    }
}

/// A connection on which something came lately, with no write stuck and a clock
/// that did not jump, is never given up.
pub proof fn lively_connection_is_kept(w: Watch, now: u64, p: Pulse)
    requires
        now - w.last_wall <= SUSPEND_GAP_SECS,
        p.write_started == 0,
        since(short_time(now), p.last_inbound) <= DEAD_AFTER_SECS,
    ensures
        cared(w, now, p).1 is Tend,
{
}

/// The look number `ticks` is one at which an empty frame goes out.
pub open spec fn keepalive_at(ticks: int) -> bool {
    ticks % (KEEPALIVE_TICKS as int) == 0
}

/// On a connection that is kept, an empty frame goes out once every thirty seconds: at
/// one of any `KEEPALIVE_TICKS` looks in a row, and at no other of them.
pub proof fn keepalives_come_every_thirty_seconds(w: Watch, now: u64, p: Pulse)
    requires
        w.ticks <= u64::MAX - KEEPALIVE_TICKS,
        p.connected,
        cared(w, now, p).1 is Tend,
    ensures
        TICK_SECS * KEEPALIVE_TICKS == 30,
        cared(w, now, p).0.ticks == w.ticks + 1,
        cared(w, now, p).1->keepalive == keepalive_at(w.ticks + 1),
        exists|k: int| 1 <= k <= KEEPALIVE_TICKS && #[trigger] keepalive_at(w.ticks + k),
        forall|j: int, k: int|
            1 <= j <= KEEPALIVE_TICKS && 1 <= k <= KEEPALIVE_TICKS && #[trigger] keepalive_at(
                w.ticks + j,
            ) && #[trigger] keepalive_at(w.ticks + k) ==> j == k,
{
    let k = KEEPALIVE_TICKS - w.ticks as int % (KEEPALIVE_TICKS as int);
    assert(keepalive_at(w.ticks + k));
}

} // verus!
