//! Probing one target over and over: when to send, where to, and what to record.
use crate::icmp::Ip;
use vstd::prelude::*;

verus! {

// ---- pace ------------------------------------------------------------------

/// The interval at which a target is polled: its own, but no shorter than a second, so that no
/// destination is polled more than once in a second.
pub open spec fn interval_view(interval_ms: u64) -> u64 {
    if interval_ms < 1000 {
        1000
    } else {
        interval_ms
    }
}

/// The interval at which a target is polled, in milliseconds.
pub fn poll_interval(interval_ms: u64) -> (r: u64)
    ensures
        r == interval_view(interval_ms),
{
    if interval_ms < 1000 {
        1000
    } else {
        interval_ms
    }
}

/// How long a reply is waited for: fifty milliseconds less than the interval, but no less than
/// 200 and no more than 5000.
pub open spec fn timeout_view(interval_ms: u64) -> u64 {
    if interval_ms < 250 {
        200
    } else if interval_ms > 5050 {
        5000
    } else {
        (interval_ms - 50) as u64
    }
}

/// How long a reply is waited for, in milliseconds.
pub fn reply_timeout(interval_ms: u64) -> (r: u64)
    ensures
        r == timeout_view(interval_ms),
{
    if interval_ms < 250 {
        200
    } else if interval_ms > 5050 {
        5000
    } else {
        interval_ms - 50
    }
}

/// A wait for a reply is over before the next poll is due.
pub proof fn timeout_fits_the_interval(interval_ms: u64)
    ensures
        timeout_view(interval_view(interval_ms)) < interval_view(interval_ms),
{
}

/// When polls are due, on a clock that counts nanoseconds and never goes back.
#[derive(Clone, Copy, PartialEq, Eq, Structural, Debug)]
pub struct Pace {
    pub interval_ns: u128,
    pub next_send: u128,
}

impl Pace {
    /// The interval of some target.
    pub open spec fn well_formed(self) -> bool {
        1_000_000_000 <= self.interval_ns <= u64::MAX * 1_000_000
    }

    /// The pace of a target whose first poll is due at `now`.
    pub fn new(interval_ms: u64, now: u64) -> (r: Pace)
        ensures
            r.well_formed(),
            r.interval_ns == interval_view(interval_ms) * 1_000_000,
            r.next_send == now,
    {
        Pace {
            interval_ns: poll_interval(interval_ms) as u128 * 1_000_000,
            next_send: now as u128,
        }
    }

    /// How long is left at `now` until the next poll is due.
    pub open spec fn wait_view(self, now: u64) -> int {
        if self.next_send > now {
            self.next_send - now
        } else {
            0
        }
    }

    /// How long is left at `now` until the next poll is due, in nanoseconds.
    pub fn wait(&self, now: u64) -> (r: u128)
        ensures
            r == self.wait_view(now),
    {
        if self.next_send > now as u128 {
            self.next_send - now as u128
        } else {
            0
        }
    }

    /// The pace after a poll at `now`: the next is due a full interval later.
    pub open spec fn after_poll(self, now: u64) -> Pace {
        Pace { next_send: (now + self.interval_ns) as u128, ..self }
    }

    /// Notes a poll at `now`.
    pub fn sent(&mut self, now: u64)
        requires
            old(self).well_formed(),
        ensures
            *final(self) == old(self).after_poll(now),
            final(self).well_formed(),
    {
        self.next_send = now as u128 + self.interval_ns;
    }
}

/// Two polls of a target are never less than a second apart: after a poll at `first`, none is
/// due before a second has passed, however long resolving or waiting took.
pub proof fn polls_are_a_second_apart(pace: Pace, first: u64, second: u64)
    requires
        pace.well_formed(),
        pace.after_poll(first).wait_view(second) == 0,
    ensures
        second - first >= 1_000_000_000,
        second - first >= pace.interval_ns,
{
}

// ---- addresses -------------------------------------------------------------

/// How long an address is used before the name is resolved again.
pub const RESOLVE_EVERY_MS: u64 = 60_000;

/// Position `i` is the first IPv4 address.
pub open spec fn first_v4(found: Seq<Ip>, i: int) -> bool {
    &&& 0 <= i < found.len()
    &&& found[i] is V4
    &&& forall|j: int| 0 <= j < i ==> (#[trigger] found[j]) is V6
}

/// The address to use of those that were found: the first IPv4 one, else the first.
pub open spec fn preferred(found: Seq<Ip>) -> Option<Ip> {
    if exists|i: int| first_v4(found, i) {
        Some(found[choose|i: int| first_v4(found, i)])
    } else if found.len() > 0 {
        Some(found[0])
    } else {
        None
    }
}

/// The address to use of those that were found.
fn pick(found: &Vec<Ip>) -> (r: Option<Ip>)
    ensures
        r == preferred(found@),
{
    for i in 0..found.len()
        invariant
            forall|j: int| 0 <= j < i ==> (#[trigger] found@[j]) is V6,
    {
        match found[i] {
            Ip::V4(_) => {
                proof {
                    assert(first_v4(found@, i as int));
                    let k = choose|k: int| first_v4(found@, k);
                    assert(first_v4(found@, k));
                    if k < i {
                        assert(found@[k] is V6);
                    } else if i < k {
                        assert(found@[i as int] is V6);
                    }
                }
                return Some(found[i]);
            },
            Ip::V6(_) => {},
        }
    }
    if found.len() > 0 {
        Some(found[0])
    } else {
        None
    }
}

/// The single address that a host stands for: the one it spells, else the preferred one of those
/// that its name was resolved to.
pub fn resolve(literal: Option<Ip>, found: Option<Vec<Ip>>) -> (r: Option<Ip>)
    ensures
        r == (match (literal, found) {
            (Some(ip), _) => Some(ip),
            (None, Some(v)) => preferred(v@),
            (None, None) => None,
        }),
        literal is Some ==> r == literal,
        literal is None ==> (found matches Some(v) ==> (r is None <==> v@.len() == 0)),
        literal is None ==> (found matches Some(v) ==> (r matches Some(ip) ==> v@.contains(ip))),
        literal is None && found is None ==> r is None,
{
    proof {
        if found is Some && found->0@.len() > 0 {
            let v = found->0@;
            assert(v.contains(v[0]));
            if exists|i: int| first_v4(v, i) {
                let i = choose|i: int| first_v4(v, i);
                assert(first_v4(v, i));
                assert(v.contains(v[i]));
            }
        }
    }
    match (literal, found) {
        (Some(ip), _) => Some(ip),
        (None, Some(v)) => pick(&v),
        (None, None) => None,
    }
}

/// An IPv4 address is used wherever one was found.
pub proof fn ipv4_is_preferred(found: Seq<Ip>, i: int)
    requires
        0 <= i < found.len(),
        found[i] is V4,
    ensures
        preferred(found) is Some,
        preferred(found)->0 is V4,
    decreases i,
{
    if exists|j: int| 0 <= j < i && (#[trigger] found[j]) is V4 {
        let j = choose|j: int| 0 <= j < i && (#[trigger] found[j]) is V4;
        ipv4_is_preferred(found, j);
    } else {
        assert(first_v4(found, i));
    }
}

// ---- the loop --------------------------------------------------------------

/// Where the probing of one target stands.
#[derive(Clone, Copy, PartialEq, Eq, Structural, Debug)]
pub struct ProbeLoop {
    /// The sequence number of the next probe.
    pub seq: u16,
    /// The target's address, once it is known.
    pub ip: Option<Ip>,
    /// The address that the open socket is for, where one is open.
    pub socket: Option<Ip>,
}

impl ProbeLoop {
    /// A socket that is open is open for the target's address.
    pub open spec fn well_formed(self) -> bool {
        self.socket is Some ==> self.socket == self.ip
    }

    /// Nothing is known and nothing is open.
    pub fn new() -> (r: ProbeLoop)
        ensures
            r == (ProbeLoop { seq: 0, ip: None, socket: None }),
            r.well_formed(),
    {
        ProbeLoop { seq: 0, ip: None, socket: None }
    }

    /// Whether to resolve the host now, so long after it was last tried.
    pub fn needs_resolve(&self, since_ms: u64) -> (r: bool)
        ensures
            r == (self.ip is None || since_ms >= RESOLVE_EVERY_MS),
    {
        match self.ip {
            None => true,
            Some(_) => since_ms >= RESOLVE_EVERY_MS,
        }
    }

    /// The state after resolving: another address takes effect and retires the socket; no address
    /// leaves the last one in use.
    pub open spec fn after_resolve(self, found: Option<Ip>) -> ProbeLoop {
        if found is Some && found != self.ip {
            ProbeLoop { ip: found, socket: None, ..self }
        } else {
            self
        }
    }

    /// Notes what resolving gave.
    pub fn resolved(&mut self, found: Option<Ip>)
        requires
            old(self).well_formed(),
        ensures
            *final(self) == old(self).after_resolve(found),
            final(self).well_formed(),
    {
        match found {
            Some(ip) => {
                let same = match self.ip {
                    Some(old_ip) => old_ip == ip,
                    None => false,
                };
                if !same {
                    self.ip = Some(ip);
                    self.socket = None;
                }
            },
            None => {},
        }
    }

    /// The address to open a socket for, where the open one does not serve.
    pub fn wants_socket(&self) -> (r: Option<Ip>)
        requires
            self.well_formed(),
        ensures
            r == if self.socket is None {
                self.ip
            } else {
                None
            },
            r is None && self.ip is Some ==> self.socket == self.ip,
    {
        match self.socket {
            None => self.ip,
            Some(_) => None,
        }
    }

    /// Notes whether a socket could be opened for the target's address.
    pub fn opened(&mut self, ok: bool)
        requires
            old(self).well_formed(),
        ensures
            *final(self) == (ProbeLoop {
                socket: if ok {
                    old(self).ip
                } else {
                    None
                },
                ..*old(self)
            }),
            final(self).well_formed(),
    {
        self.socket = if ok {
            self.ip
        } else {
            None
        };
    }

    /// Whether there is a socket to probe through; without one the probe counts as lost.
    pub fn can_send(&self) -> (r: bool)
        ensures
            r == self.socket is Some,
    {
        self.socket.is_some()
    }

    /// Moves on to the next sequence number, which follows 65535 with 0.
    pub fn advance(&mut self)
        requires
            old(self).well_formed(),
        ensures
            *final(self) == (ProbeLoop {
                seq: ((old(self).seq + 1) % 0x1_0000) as u16,
                ..*old(self)
            }),
            final(self).well_formed(),
    {
        self.seq = if self.seq == 65535 {
            0
        } else {
            self.seq + 1
        };
    }
}

// ---- what is recorded ------------------------------------------------------

/// One measurement. Without a round-trip time the probe got no reply.
#[derive(Clone, Copy, PartialEq, Eq, Structural, Debug)]
pub struct Sample {
    /// Milliseconds since the epoch.
    pub ts: u64,
    /// Microseconds.
    pub rtt_us: Option<u128>,
}

/// A measurement of one target, as it is announced.
#[derive(Debug)]
pub struct SampleEvent {
    pub target_id: String,
    pub resolved_ip: Option<Ip>,
    pub sample: Sample,
}

/// The announcement of a target's measurement.
pub fn sample_event(target_id: &str, state: &ProbeLoop, sample: Sample) -> (r: SampleEvent)
    ensures
        r.target_id@ == target_id@,
        r.resolved_ip == state.ip,
        r.sample == sample,
{
    SampleEvent { target_id: target_id.to_owned(), resolved_ip: state.ip, sample }
}

// ---- step by step ----------------------------------------------------------

/// How the polls of a target follow each other.
#[derive(Clone, Copy, PartialEq, Eq, Structural, Debug)]
pub enum PollStyle {
    /// A full interval, of at least a second, lies between two sends, and a sample has the time of
    /// its send.
    Paced,
    /// An interval of rest follows each sample, which has the time at which it was complete.
    Resting,
}

/// What the loop of a target asks for.
#[derive(Clone, Copy, PartialEq, Eq, Structural, Debug)]
pub enum PollAct {
    /// Look at the clock, at the stop flag, and at the time since the host was last resolved.
    Look,
    /// Sleep for so many nanoseconds.
    Sleep(u128),
    /// Resolve the host.
    Resolve,
    /// Open a socket for this address.
    Open(Ip),
    /// Read the clocks.
    Stamp,
    /// Send a probe and wait for its reply.
    Ping { seq: u16, timeout_ms: u64 },
    /// Record a sample.
    Record(Sample),
    /// End the loop.
    Stop,
}

/// What the loop of a target is told.
#[derive(Clone, Copy, PartialEq, Eq, Structural, Debug)]
pub enum PollEvent {
    /// The clock in nanoseconds, whether to stop, and how long ago the host was last resolved.
    Looked { now: u64, stop: bool, since_ms: u64 },
    /// What the host was resolved to.
    Resolved(Option<Ip>),
    /// Whether a socket could be opened.
    Opened(bool),
    /// The clock in nanoseconds, and the milliseconds since the epoch.
    Stamped { now: u64, ts: u64 },
    /// The round-trip time in microseconds, or none for a probe that was lost.
    Replied(Option<u128>),
    /// It is done.
    Done,
}

/// The event tells what the act asked for; nothing follows the end.
pub open spec fn answers(a: PollAct, e: PollEvent) -> bool {
    match a {
        PollAct::Look => e is Looked,
        PollAct::Sleep(_) => e is Done,
        PollAct::Resolve => e is Resolved,
        PollAct::Open(_) => e is Opened,
        PollAct::Stamp => e is Stamped,
        PollAct::Ping { .. } => e is Replied,
        PollAct::Record(_) => e is Done,
        PollAct::Stop => false,
    }
}

/// The loop of a target.
#[derive(Clone, Copy, PartialEq, Eq, Structural, Debug)]
pub struct PollLoop {
    pub style: PollStyle,
    pub interval_ms: u64,
    pub pace: Pace,
    pub probe: ProbeLoop,
    /// When the probe in flight was sent, where that is known before its reply.
    pub ts: u64,
    /// What the last probe came to, where that is known before its time.
    pub rtt: Option<u128>,
    /// What was asked for last.
    pub act: PollAct,
}

impl PollLoop {
    /// The pace and the probe are well formed.
    pub open spec fn well_formed(self) -> bool {
        self.pace.well_formed() && self.probe.well_formed()
    }

    /// How long a probe waits for its reply.
    pub open spec fn timeout(self) -> u64 {
        match self.style {
            PollStyle::Paced => timeout_view(interval_view(self.interval_ms)),
            PollStyle::Resting => timeout_view(self.interval_ms),
        }
    }

    /// The loop with another act.
    pub open spec fn doing(self, act: PollAct) -> PollLoop {
        PollLoop { act, ..self }
    }

    /// The loop that sends a probe.
    pub open spec fn pinging(self) -> PollLoop {
        self.doing(PollAct::Ping { seq: self.probe.seq, timeout_ms: self.timeout() })
    }

    /// The loop that records a sample, and then goes on with the next sequence number.
    pub open spec fn recording(self, ts: u64, rtt_us: Option<u128>) -> PollLoop {
        PollLoop {
            probe: ProbeLoop { seq: ((self.probe.seq + 1) % 0x1_0000) as u16, ..self.probe },
            act: PollAct::Record(Sample { ts, rtt_us }),
            ..self
        }
    }

    /// The loop once the socket is as good as it gets: a paced one takes the time of sending; a
    /// resting one sends where it can, and takes the time of a loss where it cannot.
    pub open spec fn ready(self) -> PollLoop {
        match self.style {
            PollStyle::Paced => self.doing(PollAct::Stamp),
            PollStyle::Resting => if self.probe.socket is Some {
                self.pinging()
            } else {
                PollLoop { rtt: None, act: PollAct::Stamp, ..self }
            },
        }
    }

    /// The loop once the address is as good as it gets.
    pub open spec fn addressed(self) -> PollLoop {
        if self.probe.socket is None && self.probe.ip is Some {
            self.doing(PollAct::Open(self.probe.ip->0))
        } else {
            self.ready()
        }
    }

    /// The loop after an event.
    pub open spec fn after(self, e: PollEvent) -> PollLoop {
        match e {
            PollEvent::Looked { now, stop, since_ms } => if self.pace.wait_view(now) > 0 {
                self.doing(PollAct::Sleep(self.pace.wait_view(now) as u128))
            } else if stop {
                self.doing(PollAct::Stop)
            } else if self.probe.ip is None || since_ms >= RESOLVE_EVERY_MS {
                self.doing(PollAct::Resolve)
            } else {
                self.addressed()
            },
            PollEvent::Resolved(found) => PollLoop {
                probe: self.probe.after_resolve(found),
                ..self
            }.addressed(),
            PollEvent::Opened(ok) => PollLoop {
                probe: ProbeLoop {
                    socket: if ok {
                        self.probe.ip
                    } else {
                        None
                    },
                    ..self.probe
                },
                ..self
            }.ready(),
            PollEvent::Stamped { now, ts } => match self.style {
                PollStyle::Paced => {
                    let s = PollLoop { pace: self.pace.after_poll(now), ts, ..self };
                    if self.probe.socket is Some {
                        s.pinging()
                    } else {
                        s.recording(ts, None)
                    }
                },
                PollStyle::Resting => self.recording(ts, self.rtt),
            },
            PollEvent::Replied(rtt) => match self.style {
                PollStyle::Paced => self.recording(self.ts, rtt),
                PollStyle::Resting => PollLoop { rtt, act: PollAct::Stamp, ..self },
            },
            PollEvent::Done => if self.act is Record && self.style is Resting {
                self.doing(PollAct::Sleep((self.interval_ms * 1_000_000) as u128))
            } else {
                self.doing(PollAct::Look)
            },
        }
    }

    /// The loop of a target that has not been polled, at `now`.
    pub fn new(style: PollStyle, interval_ms: u64, now: u64) -> (r: PollLoop)
        ensures
            r.well_formed(),
            r.style == style,
            r.interval_ms == interval_ms,
            r.pace.interval_ns == interval_view(interval_ms) * 1_000_000,
            r.pace.next_send == if style is Paced {
                now
            } else {
                0
            },
            r.probe == (ProbeLoop { seq: 0, ip: None, socket: None }),
            r.ts == 0,
            r.rtt is None,
            r.act is Look,
            r.pace.next_send <= now,
            r.pace.interval_ns >= 1_000_000_000,
            interval_ms >= 1000 ==> r.pace.interval_ns == interval_ms * 1_000_000,
    {
        let first: u64 = match style {
            PollStyle::Paced => now,
            PollStyle::Resting => 0,
        };
        PollLoop {
            style,
            interval_ms,
            pace: Pace::new(interval_ms, first),
            probe: ProbeLoop::new(),
            ts: 0,
            rtt: None,
            act: PollAct::Look,
        }
    }

    /// Sends a probe.
    fn ping(&mut self)
        ensures
            *final(self) == old(self).pinging(),
    {
        let timeout_ms: u64 = match self.style {
            PollStyle::Paced => reply_timeout(poll_interval(self.interval_ms)),
            PollStyle::Resting => reply_timeout(self.interval_ms),
        };
        self.act = PollAct::Ping { seq: self.probe.seq, timeout_ms };
    }

    /// Records a sample.
    fn record(&mut self, ts: u64, rtt_us: Option<u128>)
        requires
            old(self).well_formed(),
        ensures
            *final(self) == old(self).recording(ts, rtt_us),
            final(self).well_formed(),
    {
        self.probe.advance();
        self.act = PollAct::Record(Sample { ts, rtt_us });
    }

    /// Goes on with the socket that there is.
    fn prepare(&mut self)
        ensures
            *final(self) == old(self).ready(),
    {
        match self.style {
            PollStyle::Paced => {
                self.act = PollAct::Stamp;
            },
            PollStyle::Resting => {
                if self.probe.can_send() {
                    self.ping();
                } else {
                    self.rtt = None;
                    self.act = PollAct::Stamp;
                }
            },
        }
    }

    /// Goes on with the address that there is.
    fn connect(&mut self)
        requires
            old(self).well_formed(),
        ensures
            *final(self) == old(self).addressed(),
            final(self).well_formed(),
    {
        match self.probe.wants_socket() {
            Some(ip) => {
                self.act = PollAct::Open(ip);
            },
            None => {
                self.prepare();
            },
        }
    }

    /// Takes the answer to what was asked for last, and asks for the next.
    pub fn step(&mut self, e: PollEvent) -> (r: PollAct)
        requires
            old(self).well_formed(),
            answers(old(self).act, e),
        ensures
            *final(self) == old(self).after(e),
            r == final(self).act,
            final(self).well_formed(),
    {
        match e {
            PollEvent::Looked { now, stop, since_ms } => {
                let left = self.pace.wait(now);
                if left > 0 {
                    self.act = PollAct::Sleep(left);
                } else if stop {
                    self.act = PollAct::Stop;
                } else if self.probe.needs_resolve(since_ms) {
                    self.act = PollAct::Resolve;
                } else {
                    self.connect();
                }
            },
            PollEvent::Resolved(found) => {
                self.probe.resolved(found);
                self.connect();
            },
            PollEvent::Opened(ok) => {
                self.probe.opened(ok);
                self.prepare();
            },
            PollEvent::Stamped { now, ts } => match self.style {
                PollStyle::Paced => {
                    self.pace.sent(now);
                    self.ts = ts;
                    if self.probe.can_send() {
                        self.ping();
                    } else {
                        self.record(ts, None);
                    }
                },
                PollStyle::Resting => {
                    let rtt = self.rtt;
                    self.record(ts, rtt);
                },
            },
            PollEvent::Replied(rtt) => match self.style {
                PollStyle::Paced => {
                    let ts: u64 = self.ts;
                    self.record(ts, rtt);
                },
                PollStyle::Resting => {
                    self.rtt = rtt;
                    self.act = PollAct::Stamp;
                },
            },
            PollEvent::Done => {
                let rests = match (self.style, self.act) {
                    (PollStyle::Resting, PollAct::Record(_)) => true,
                    _ => false,
                };
                self.act = if rests {
                    PollAct::Sleep(self.interval_ms as u128 * 1_000_000)
                } else {
                    PollAct::Look
                };
            },
        }
        self.act
    }
}

/// The loop after these events.
pub open spec fn after_all(s: PollLoop, es: Seq<PollEvent>) -> PollLoop
    decreases es.len(),
{
    if es.len() == 0 {
        s
    } else {
        after_all(s, es.drop_last()).after(es.last())
    }
}

/// Each event answers what the loop had asked for by then.
pub open spec fn answered(s: PollLoop, es: Seq<PollEvent>) -> bool
    decreases es.len(),
{
    es.len() > 0 ==> answered(s, es.drop_last()) && answers(
        after_all(s, es.drop_last()).act,
        es.last(),
    )
}

/// How many of these events make the loop record a sample.
pub open spec fn records(s: PollLoop, es: Seq<PollEvent>) -> nat
    decreases es.len(),
{
    if es.len() == 0 {
        0
    } else {
        records(s, es.drop_last()) + if after_all(s, es).act is Record {
            1nat
        } else {
            0
        }
    }
}

/// How many polls these events begin: a paced one begins with its time, a resting one ends so.
pub open spec fn stamps(es: Seq<PollEvent>) -> nat
    decreases es.len(),
{
    if es.len() == 0 {
        0
    } else {
        stamps(es.drop_last()) + if es.last() is Stamped {
            1nat
        } else {
            0
        }
    }
}

/// A paced poll has begun and is not recorded yet.
pub open spec fn in_flight(s: PollLoop) -> nat {
    if s.style is Paced && s.act is Ping {
        1
    } else {
        0
    }
}

/// Every poll is recorded exactly once: there are as many records as times taken, but for one that
/// still waits for its reply.
pub proof fn every_poll_is_recorded_once(s: PollLoop, es: Seq<PollEvent>)
    requires
        answered(s, es),
    ensures
        records(s, es) + in_flight(after_all(s, es)) == stamps(es) + in_flight(s),
        after_all(s, es).style == s.style,
        after_all(s, es).interval_ms == s.interval_ms,
        after_all(s, es).pace.interval_ns == s.pace.interval_ns,
    decreases es.len(),
{
    if es.len() > 0 {
        every_poll_is_recorded_once(s, es.drop_last());
    }
}

/// Between a send and the next there is exactly one record.
pub proof fn one_record_lies_between_sends(s: PollLoop, es: Seq<PollEvent>)
    requires
        answered(s, es),
        s.act is Stamp,
        stamps(es) == 1,
        after_all(s, es).act is Stamp,
    ensures
        records(s, es) == 1,
{
    every_poll_is_recorded_once(s, es);
}

/// A paced poll is recorded with the time of its send: at once, as lost, where nothing can be sent;
/// otherwise with what its reply came to.
pub proof fn polls_are_recorded_as_sent(
    s: PollLoop,
    now: u64,
    ts: u64,
    rtt: Option<u128>,
)
    requires
        s.style is Paced,
        s.act is Stamp,
    ensures
        ({
            let sent = s.after(PollEvent::Stamped { now, ts });
            &&& s.probe.socket is None ==> sent.act == PollAct::Record(Sample { ts, rtt_us: None })
            &&& s.probe.socket is Some ==> {
                &&& sent.act == (PollAct::Ping {
                    seq: s.probe.seq,
                    timeout_ms: timeout_view(interval_view(s.interval_ms)),
                })
                &&& sent.after(PollEvent::Replied(rtt)).act == PollAct::Record(
                    Sample { ts, rtt_us: rtt },
                )
            }
        }),
{
}

/// A resting poll is recorded with the time at which it was complete: what its reply came to, or as
/// lost where nothing can be sent.
pub proof fn rests_are_recorded_when_complete(
    s: PollLoop,
    rtt: Option<u128>,
    now: u64,
    ts: u64,
)
    requires
        s.style is Resting,
    ensures
        s.probe.socket is None ==> s.ready().after(PollEvent::Stamped { now, ts }).act
            == PollAct::Record(Sample { ts, rtt_us: None }),
        s.probe.socket is Some ==> s.ready().act is Ping && s.ready().after(
            PollEvent::Replied(rtt),
        ).after(PollEvent::Stamped { now, ts }).act == PollAct::Record(Sample { ts, rtt_us: rtt }),
{
}

/// Each record takes the next sequence number, and each probe is sent with the one that is next.
pub proof fn sequence_numbers_count_the_records(s: PollLoop, es: Seq<PollEvent>)
    requires
        answered(s, es),
    ensures
        after_all(s, es).probe.seq == (s.probe.seq + records(s, es)) % 0x1_0000,
        es.len() > 0 && (after_all(s, es).act is Ping) ==> after_all(s, es).act->Ping_seq
            == after_all(s, es).probe.seq,
    decreases es.len(),
{
    if es.len() > 0 {
        sequence_numbers_count_the_records(s, es.drop_last());
    }
}

/// Once the stop flag is raised no poll begins: a loop between two polls only sleeps until the next
/// is due, and ends.
pub proof fn no_poll_follows_a_stop(s: PollLoop, es: Seq<PollEvent>)
    requires
        answered(s, es),
        s.act is Look || s.act is Sleep,
        forall|k: int|
            0 <= k < es.len() ==> ((#[trigger] es[k]) matches PollEvent::Looked { stop, .. }
                ==> stop),
    ensures
        after_all(s, es).act is Look || after_all(s, es).act is Sleep || after_all(s, es).act
            is Stop,
        records(s, es) == 0,
        stamps(es) == 0,
    decreases es.len(),
{
    if es.len() > 0 {
        let front = es.drop_last();
        assert forall|k: int| 0 <= k < front.len() implies ((
        #[trigger] front[k]) matches PollEvent::Looked { stop, .. } ==> stop) by {
            assert(front[k] == es[k]);
        }
        no_poll_follows_a_stop(s, front);
        assert(es.last() == es[es.len() - 1]);
    }
}

/// Between a send and the next the loop waits until it is due, on a clock that `latest` bounds.
proof fn lemma_due(s: PollLoop, es: Seq<PollEvent>, latest: u64)
    requires
        s.style is Paced,
        s.act is Ping || s.act is Record,
        answered(s, es),
        stamps(es) == 0,
        forall|k: int|
            0 <= k < es.len() ==> ((#[trigger] es[k]) matches PollEvent::Looked { now, .. } ==> now
                <= latest),
    ensures
        after_all(s, es).style is Paced,
        after_all(s, es).pace == s.pace,
        (after_all(s, es).act is Resolve || after_all(s, es).act is Open || after_all(s, es).act
            is Stamp) ==> latest >= s.pace.next_send,
    decreases es.len(),
{
    if es.len() > 0 {
        let front = es.drop_last();
        assert forall|k: int| 0 <= k < front.len() implies ((
        #[trigger] front[k]) matches PollEvent::Looked { now, .. } ==> now <= latest) by {
            assert(front[k] == es[k]);
        }
        lemma_due(s, front, latest);
        assert(es.last() == es[es.len() - 1]);
    }
}

/// Two sends of a paced loop are a full interval apart, which is at least a second, whatever came
/// between them, on a clock that does not go back.
pub proof fn sends_are_an_interval_apart(
    s: PollLoop,
    first: u64,
    ts: u64,
    es: Seq<PollEvent>,
    second: u64,
)
    requires
        s.well_formed(),
        s.style is Paced,
        s.act is Stamp,
        answered(s.after(PollEvent::Stamped { now: first, ts }), es),
        stamps(es) == 0,
        after_all(s.after(PollEvent::Stamped { now: first, ts }), es).act is Stamp,
        forall|k: int|
            0 <= k < es.len() ==> ((#[trigger] es[k]) matches PollEvent::Looked { now, .. } ==> now
                <= second),
    ensures
        second - first >= s.pace.interval_ns >= 1_000_000_000,
{
    lemma_due(s.after(PollEvent::Stamped { now: first, ts }), es, second);
}

/// A loop that looks before its next poll is due sleeps for exactly what is left, and nothing else
/// changes.
pub proof fn loops_sleep_until_due(s: PollLoop, now: u64, stop: bool, since_ms: u64)
    requires
        now < s.pace.next_send,
    ensures
        s.after(PollEvent::Looked { now, stop, since_ms }) == (PollLoop {
            act: PollAct::Sleep((s.pace.next_send - now) as u128),
            ..s
        }),
{
}

/// In either style, a loop that looks when a poll is due and is not told to stop resolves its host
/// where it has no address, or last resolved a minute ago or more; otherwise it goes on at once
/// with the address that it has. A loop that is told to stop ends. Looking changes nothing else.
pub proof fn hosts_are_resolved_again_each_minute(s: PollLoop, now: u64, stop: bool, since_ms: u64)
    requires
        s.pace.next_send <= now,
    ensures
        ({
            let next = s.after(PollEvent::Looked { now, stop, since_ms });
            &&& next.style == s.style && next.interval_ms == s.interval_ms && next.pace == s.pace
            &&& next.probe == s.probe && next.ts == s.ts
            &&& stop ==> next.act is Stop
            &&& !stop && (since_ms >= 60_000 || s.probe.ip is None) ==> next.act is Resolve
            &&& !stop && since_ms < 60_000 ==> (s.probe.ip matches Some(ip) ==> match (
                s.probe.socket,
                s.style,
            ) {
                (None, _) => next.act == PollAct::Open(ip),
                (Some(_), PollStyle::Paced) => next.act is Stamp,
                (Some(_), PollStyle::Resting) => next.act is Ping,
            })
        }),
{
}

/// An address that the host is found to have now takes the place of another, and the next socket is
/// opened for it. The same address keeps its socket, and where the host is not found the last
/// address stays in use.
pub proof fn another_address_takes_effect(s: PollLoop, ip: Ip)
    requires
        s.well_formed(),
    ensures
        ({
            let next = s.after(PollEvent::Resolved(Some(ip)));
            let same = s.after(PollEvent::Resolved(None));
            &&& next.probe.ip == Some(ip)
            &&& next.probe.seq == s.probe.seq && next.pace == s.pace && next.style == s.style
            &&& next.interval_ms == s.interval_ms
            &&& s.probe.ip != Some(ip) ==> next.probe.socket is None && next.act == PollAct::Open(
                ip,
            )
            &&& s.probe.ip == Some(ip) ==> next.probe == s.probe && next.act == same.act
            &&& same.probe == s.probe && same.pace == s.pace && same.style == s.style
            &&& same.interval_ms == s.interval_ms
            &&& s.probe.socket is None ==> (s.probe.ip matches Some(old_ip) ==> same.act
                == PollAct::Open(old_ip))
            &&& s.probe.ip is None || s.probe.socket is Some ==> (same.act is Stamp || same.act
                is Ping)
            &&& same.act is Ping ==> s.probe.socket is Some && s.style is Resting
        }),
{
}

/// A socket that was opened is the one for the address in use; where none could be opened there is
/// none. Nothing else of the probe changes, and the poll goes on.
pub proof fn sockets_are_for_the_address(s: PollLoop, ok: bool)
    ensures
        ({
            let next = s.after(PollEvent::Opened(ok));
            &&& next.probe.ip == s.probe.ip && next.probe.seq == s.probe.seq && next.pace == s.pace
            &&& next.style == s.style && next.interval_ms == s.interval_ms
            &&& ok ==> next.probe.socket == s.probe.ip
            &&& !ok ==> next.probe.socket is None
            &&& s.style is Paced ==> next.act is Stamp
            &&& s.style is Resting && next.probe.socket is Some ==> next.act is Ping
            &&& s.style is Resting && next.probe.socket is None ==> next.act is Stamp && next.rtt
                is None
        }),
{
}

/// Whatever has happened, a probe is sent only through a socket, and that socket is for the address
/// in use; and a socket is opened only for the address in use.
pub proof fn probes_go_to_the_address_in_use(s: PollLoop, es: Seq<PollEvent>)
    requires
        s.well_formed(),
        s.act is Look,
        answered(s, es),
    ensures
        after_all(s, es).well_formed(),
        after_all(s, es).act is Ping ==> after_all(s, es).probe.socket is Some && after_all(
            s,
            es,
        ).probe.socket == after_all(s, es).probe.ip,
        after_all(s, es).act matches PollAct::Open(ip) ==> after_all(s, es).probe.ip == Some(ip),
    decreases es.len(),
{
    if es.len() > 0 {
        probes_go_to_the_address_in_use(s, es.drop_last());
        let before = after_all(s, es.drop_last());
        assert(before.after(es.last()).pace.well_formed()) by {
            if let PollEvent::Stamped { now, .. } = es.last() {
                assert(before.pace.after_poll(now).interval_ns == before.pace.interval_ns);
            }
        }
    }
}

/// What follows a look that finds the last resolution a minute old begins with another resolution,
/// whose address, where there is one, stays in use.
proof fn lemma_resolved_first(s: PollLoop, now: u64, since_ms: u64, rest: Seq<PollEvent>)
    requires
        s.well_formed(),
        s.pace.next_send <= now,
        since_ms >= 60_000,
        answered(s.after(PollEvent::Looked { now, stop: false, since_ms }), rest),
        forall|k: int| 0 <= k < rest.len() ==> !((#[trigger] rest[k]) is Looked),
    ensures
        ({
            let last = after_all(s.after(PollEvent::Looked { now, stop: false, since_ms }), rest);
            if rest.len() == 0 {
                last.act is Resolve
            } else {
                &&& rest[0] is Resolved
                &&& !(last.act is Resolve)
                &&& rest[0] matches PollEvent::Resolved(Some(ip)) ==> last.probe.ip == Some(ip)
                &&& rest[0] matches PollEvent::Resolved(None) ==> last.probe.ip == s.probe.ip
            }
        }),
    decreases rest.len(),
{
    if rest.len() > 0 {
        let front = rest.drop_last();
        assert forall|k: int| 0 <= k < front.len() implies !((#[trigger] front[k]) is Looked) by {
            assert(front[k] == rest[k]);
        }
        lemma_resolved_first(s, now, since_ms, front);
        assert(rest.last() == rest[rest.len() - 1]);
        if front.len() > 0 {
            assert(front[0] == rest[0]);
        }
    }
}

/// No probe is sent to an address that was resolved a minute or more before the loop last looked:
/// between that look and the probe the host was resolved again, and the probe goes to the address
/// that was found, or to the last one where none was.
pub proof fn no_probe_goes_to_a_stale_address(
    s: PollLoop,
    now: u64,
    since_ms: u64,
    rest: Seq<PollEvent>,
)
    requires
        s.well_formed(),
        s.act is Look,
        s.pace.next_send <= now,
        since_ms >= 60_000,
        answered(s.after(PollEvent::Looked { now, stop: false, since_ms }), rest),
        forall|k: int| 0 <= k < rest.len() ==> !((#[trigger] rest[k]) is Looked),
        after_all(s.after(PollEvent::Looked { now, stop: false, since_ms }), rest).act is Ping,
    ensures
        rest.len() > 0,
        rest[0] is Resolved,
        ({
            let last = after_all(s.after(PollEvent::Looked { now, stop: false, since_ms }), rest);
            &&& rest[0] matches PollEvent::Resolved(Some(ip)) ==> last.probe.socket == Some(ip)
            &&& rest[0] matches PollEvent::Resolved(None) ==> last.probe.socket == s.probe.ip
        }),
{
    let look = PollEvent::Looked { now, stop: false, since_ms };
    lemma_resolved_first(s, now, since_ms, rest);
    lemma_after_one(s, look, rest);
    probes_go_to_the_address_in_use(s, seq![look] + rest);
}

/// Events after one event are events with it in front.
proof fn lemma_after_one(s: PollLoop, e: PollEvent, rest: Seq<PollEvent>)
    requires
        answers(s.act, e),
        answered(s.after(e), rest),
    ensures
        after_all(s, seq![e] + rest) == after_all(s.after(e), rest),
        answered(s, seq![e] + rest),
    decreases rest.len(),
{
    let all = seq![e] + rest;
    if rest.len() == 0 {
        assert(all =~= seq![e]);
        assert(all.drop_last() =~= Seq::empty());
        assert(after_all(s, all.drop_last()) == s);
        assert(answered(s, all.drop_last()));
    } else {
        lemma_after_one(s, e, rest.drop_last());
        assert(all.drop_last() =~= seq![e] + rest.drop_last());
    }
}

/// A probe of a paced loop waits for its reply fifty milliseconds less than its interval, taken for
/// a second where it is shorter, but never longer than five seconds; one of a resting loop waits
/// fifty less than its interval, never less than 200 and never longer than five seconds.
pub proof fn probes_wait_almost_an_interval(s: PollLoop, e: PollEvent, seq: u16, timeout_ms: u64)
    requires
        s.after(e).act == (PollAct::Ping { seq, timeout_ms }),
    ensures
        seq == s.probe.seq,
        s.style is Paced && s.interval_ms <= 1000 ==> timeout_ms == 950,
        s.style is Paced && 1000 <= s.interval_ms <= 5050 ==> timeout_ms + 50 == s.interval_ms,
        s.style is Resting && s.interval_ms <= 250 ==> timeout_ms == 200,
        s.style is Resting && 250 <= s.interval_ms <= 5050 ==> timeout_ms + 50 == s.interval_ms,
        s.interval_ms >= 5050 ==> timeout_ms == 5000,
{
}

/// A resting loop records what its reply came to, with the time at which it was complete; where no
/// socket could be opened, or no address was ever found, it records a loss.
pub proof fn resting_samples_say_what_came_back(
    s: PollLoop,
    rtt: Option<u128>,
    now: u64,
    ts: u64,
)
    requires
        s.style is Resting,
    ensures
        s.after(PollEvent::Replied(rtt)).act is Stamp,
        s.after(PollEvent::Replied(rtt)).after(PollEvent::Stamped { now, ts }).act
            == PollAct::Record(Sample { ts, rtt_us: rtt }),
        s.after(PollEvent::Opened(false)).act is Stamp,
        s.after(PollEvent::Opened(false)).after(PollEvent::Stamped { now, ts }).act
            == PollAct::Record(Sample { ts, rtt_us: None }),
        s.probe.ip is None && s.probe.socket is None ==> {
            let lost = s.after(PollEvent::Resolved(None));
            &&& lost.act is Stamp
            &&& lost.after(PollEvent::Stamped { now, ts }).act == PollAct::Record(
                Sample { ts, rtt_us: None },
            )
        },
{
}

/// A paced send puts the next poll off until a full interval after it, and nothing else ever moves
/// a poll: neither an event of a resting loop nor one that is no send.
pub proof fn only_sends_move_the_next_poll(s: PollLoop, e: PollEvent)
    requires
        s.well_formed(),
    ensures
        s.style is Paced ==> (e matches PollEvent::Stamped { now, .. } ==> s.after(
            e,
        ).pace.next_send == now + s.pace.interval_ns),
        !(e is Stamped) || s.style is Resting ==> s.after(e).pace == s.pace,
        s.after(e).pace.interval_ns == s.pace.interval_ns,
        s.after(e).style == s.style,
        s.after(e).interval_ms == s.interval_ms,
        !(e is Resolved) ==> s.after(e).probe.ip == s.probe.ip,
        !(e is Resolved) && !(e is Opened) ==> s.after(e).probe.socket == s.probe.socket,
{
}

/// After a sample a paced loop looks again at once, a resting one sleeps its interval first; after
/// a sleep either looks.
pub proof fn rests_follow_samples(s: PollLoop)
    ensures
        s.act is Sleep ==> s.after(PollEvent::Done).act is Look,
        s.act is Record && s.style is Paced ==> s.after(PollEvent::Done).act is Look,
        s.act is Record && s.style is Resting ==> (s.after(
            PollEvent::Done,
        ).act matches PollAct::Sleep(ns) && ns == s.interval_ms * 1_000_000),
{
}

/// An interval is never taken for less than a second, and one of a second or more is taken as it
/// is.
pub proof fn intervals_are_at_least_a_second(interval_ms: u64)
    ensures
        interval_view(interval_ms) >= 1000,
        interval_view(interval_ms) >= interval_ms,
        interval_view(interval_ms) == 1000 || interval_view(interval_ms) == interval_ms,
{
}

/// The address in use is the first IPv4 one that was found; without one it is the first of all, and
/// there is none only where none was found.
pub proof fn first_addresses_are_used(found: Seq<Ip>, i: int)
    requires
        0 <= i < found.len(),
    ensures
        (found[i] is V4) && (forall|j: int| 0 <= j < i ==> (#[trigger] found[j]) is V6)
            ==> preferred(found) == Some(found[i]),
        (forall|j: int| 0 <= j < found.len() ==> (#[trigger] found[j]) is V6) ==> preferred(found)
            == Some(found[0]),
        preferred(Seq::<Ip>::empty()) is None,
{
    if (found[i] is V4) && (forall|j: int| 0 <= j < i ==> (#[trigger] found[j]) is V6) {
        assert(first_v4(found, i));
        let k = choose|k: int| first_v4(found, k);
        assert(first_v4(found, k));
        if k < i {
            assert(found[k] is V6);
        } else if i < k {
            assert(found[i] is V6);
        }
    }
}

// ---- reloading -------------------------------------------------------------

/// Whether a configuration file has to be read again: its modification time is not what it was.
pub fn file_changed(before: Option<u128>, now: Option<u128>) -> (r: bool)
    ensures
        r == (before != now),
{
    match (before, now) {
        (Some(a), Some(b)) => a != b,
        (None, None) => false,
        _ => true,
    }
}

} // verus!
