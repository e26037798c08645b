//! The node's timing rules: when a direct message is sent again or falls
//! back to a flood, how long the radio backs off when the channel is busy,
//! and how an NTP reply sets the clock.
use vstd::prelude::*;

verus! {

/// How often a message is sent over one route before the route is given up.
pub const ROUTE_ATTEMPTS: u8 = 3;

/// The shortest wait for an acknowledgement, in milliseconds.
pub const MIN_ACK_WAIT_MS: u64 = 1000;

/// Progress of a direct message that waits for its acknowledgement.
#[derive(Clone, Copy, Debug, PartialEq, Eq, Structural)]
pub struct AckState {
    pub failed: bool,
    pub attempt: u8,
}

/// Where a message that waits for its acknowledgement stands: which attempt
/// is next, and whether it already fell back to flooding.
#[derive(Clone, Copy, Debug, PartialEq, Eq, Structural)]
pub struct RetryState {
    pub attempt: u8,
    pub has_flooded: bool,
}

/// How many more times a message in state `s` is sent, at most: the rest of
/// the attempts over the known route and, unless done already, the four
/// attempts of the flood.
pub open spec fn sends_left(s: RetryState) -> int {
    if s.has_flooded {
        4 - s.attempt
    } else {
        (3 - s.attempt) + 4
    }
}

impl RetryState {
    /// The states the retry loop goes through.
    pub open spec fn wf(&self) -> bool {
        if self.has_flooded {
            self.attempt <= 4
        } else {
            self.attempt < 3
        }
    }

    /// A message before its first attempt.
    pub fn new() -> (r: RetryState)
        ensures
            r.wf(),
            r.attempt == 0,
            !r.has_flooded,
            sends_left(r) == 7,
    {
        RetryState { attempt: 0, has_flooded: false }
    }

    /// Whether the message is sent (again).
    pub fn keeps_trying(&self) -> (r: bool)
        requires
            self.wf(),
        ensures
            r <==> self.attempt <= 3,
            r <==> sends_left(*self) > 0,
    {
        self.attempt <= 3
    }

    /// No acknowledgement came in time: counts the attempt, and when the
    /// route failed three times, starts over as a flood once. Returns
    /// whether the route is given up, so that the contact's stored path is
    /// cleared and the next attempts flood.
    pub fn on_timeout(&mut self) -> (flood: bool)
        requires
            old(self).wf(),
            old(self).attempt <= 3,
        ensures
            final(self).wf(),
            sends_left(*final(self)) == sends_left(*old(self)) - 1,
            flood <==> (old(self).attempt + 1 >= 3 && !old(self).has_flooded),
            flood ==> final(self).attempt == 0 && final(self).has_flooded,
            !flood ==> final(self).attempt == old(self).attempt + 1 && final(self).has_flooded
                == old(self).has_flooded,
    {
        self.attempt = self.attempt + 1;
        if self.attempt >= ROUTE_ATTEMPTS && !self.has_flooded {
            self.attempt = 0;
            self.has_flooded = true;
            true
        } else {
            false
        }
    }
}

/// A message is sent at most seven times: three times over its route, then
/// four times as a flood, each timeout using up one send.
pub proof fn lemma_retry_bounded(s: RetryState)
    requires
        s.wf(),
    ensures
        0 <= sends_left(s) <= 7,
        s.attempt <= 3 <==> sends_left(s) > 0,
{
}

/// How long to wait for an acknowledgement: the estimated round trip, at
/// least a second.
pub fn ack_wait_ms(estimated_ms: u64) -> (r: u64)
    ensures
        r == if estimated_ms < MIN_ACK_WAIT_MS {
            MIN_ACK_WAIT_MS
        } else {
            estimated_ms
        },
{
    if estimated_ms < MIN_ACK_WAIT_MS {
        MIN_ACK_WAIT_MS
    } else {
        estimated_ms
    }
}

/// How many channel-activity checks the radio makes before it sends anyway.
pub const CAD_TRIES: u64 = 5;

/// The longest back-off after a busy channel, in milliseconds.
pub const MAX_CAD_BACKOFF_MS: u64 = 5000;

/// The back-off after the channel was found busy for the `tries`-th time:
/// the random jitter times the square of the number of earlier busy checks,
/// at most five seconds.
pub open spec fn spec_cad_backoff(jitter: u64, tries: u64) -> int {
    let b = jitter * ((tries - 1) * (tries - 1));
    if b > MAX_CAD_BACKOFF_MS {
        MAX_CAD_BACKOFF_MS as int
    } else {
        b
    }
}

/// The back-off after the channel was found busy for the `tries`-th time.
pub fn cad_backoff_ms(jitter: u64, tries: u64) -> (r: u64)
    requires
        1 <= tries <= CAD_TRIES,
        jitter < 200,
    ensures
        r == spec_cad_backoff(jitter, tries),
        r <= MAX_CAD_BACKOFF_MS,
{
    let t = tries - 1;
    assert(t * t <= 16) by (nonlinear_arith)
        requires
            t <= 4,
    ;
    assert(jitter * (t * t) <= 200 * 16) by (nonlinear_arith)
        requires
            jitter < 200,
            t * t <= 16,
    ;
    let backoff = jitter * (t * t);
    if backoff > MAX_CAD_BACKOFF_MS {
        MAX_CAD_BACKOFF_MS
    } else {
        backoff
    }
}

/// The channel-activity checks before a send.
#[derive(Clone, Copy, Debug, PartialEq, Eq, Structural)]
pub struct CadState {
    pub tries: u64,
}

impl CadState {
    /// Before the first check.
    pub fn new() -> (r: CadState)
        ensures
            r.tries == 0,
    {
        CadState { tries: 0 }
    }

    /// Whether the channel is checked (again) before sending.
    pub fn may_check(&self) -> (r: bool)
        ensures
            r <==> self.tries < CAD_TRIES,
    {
        self.tries < CAD_TRIES
    }

    /// The channel was busy: counts the check and returns how long to wait
    /// before the next one.
    pub fn on_busy(&mut self, jitter: u64) -> (r: u64)
        requires
            old(self).tries < CAD_TRIES,
            jitter < 200,
        ensures
            final(self).tries == old(self).tries + 1,
            r == spec_cad_backoff(jitter, final(self).tries),
    {
        self.tries = self.tries + 1;
        cad_backoff_ms(jitter, self.tries)
    }
}

/// Microseconds in a second.
pub const USEC_IN_SEC: u64 = 1_000_000;

/// The clock time, in microseconds, of an NTP time of `sec` seconds and
/// `frac` 2^-32ths of a second.
pub open spec fn spec_ntp_micros(sec: u32, frac: u32) -> int {
    sec * 1_000_000 + (frac * 1_000_000) / 0x1_0000_0000
}

/// The clock time, in microseconds, of an NTP reply.
pub fn ntp_micros(sec: u32, frac: u32) -> (r: u64)
    ensures
        r == spec_ntp_micros(sec, frac),
{
    let whole = (sec as u64) * USEC_IN_SEC;
    let scaled = (frac as u64) * USEC_IN_SEC;
    let part = scaled >> 32;
    assert(part == scaled / 0x1_0000_0000) by (bit_vector)
        requires
            part == scaled >> 32,
    ;
    assert(part < 1_000_000) by (nonlinear_arith)
        requires
            part == scaled / 0x1_0000_0000,
            scaled == frac * 1_000_000,
            frac < 0x1_0000_0000,
    ;
    whole + part
}

/// A clock reading, in microseconds, as the NTP client sees it.
#[derive(Clone, Copy, Debug, PartialEq, Eq, Structural)]
pub struct Timestamp {
    pub current_time_us: u64,
}

impl Timestamp {
    /// Whole seconds of the reading.
    pub fn timestamp_sec(&self) -> (r: u64)
        ensures
            r == self.current_time_us / USEC_IN_SEC,
    {
        self.current_time_us / USEC_IN_SEC
    }

    /// Microseconds past the whole second.
    pub fn timestamp_subsec_micros(&self) -> (r: u32)
        ensures
            r == self.current_time_us % USEC_IN_SEC,
    {
        (self.current_time_us % USEC_IN_SEC) as u32
    }
}

/// Seconds and microseconds together give the reading back.
pub proof fn lemma_timestamp_split(t: Timestamp)
    ensures
        (t.current_time_us / USEC_IN_SEC) * USEC_IN_SEC + t.current_time_us % USEC_IN_SEC
            == t.current_time_us,
        t.current_time_us % USEC_IN_SEC < USEC_IN_SEC,
{
    let u = t.current_time_us as int;
    assert((u / 1_000_000) * 1_000_000 + u % 1_000_000 == u) by (nonlinear_arith);
}

/// What the radio does next after an event of its receive loop.
#[derive(Clone, Copy, Debug, PartialEq, Eq, Structural)]
pub enum RadioEvent {
    /// A queued packet was sent.
    Sent,
    /// A preamble was heard: a packet is arriving.
    PreambleReceived,
    /// A packet arrived and was handed on.
    PacketDone,
    /// Nothing happened.
    Idle,
}

/// Whether the receiver must be restarted before it listens again: after
/// sending or after a packet arrived, not while a packet is arriving or
/// after nothing happened.
pub fn needs_rx_restart(event: RadioEvent) -> (r: bool)
    ensures
        r <==> (event == RadioEvent::Sent || event == RadioEvent::PacketDone),
{
    match event {
        RadioEvent::Sent => true,
        RadioEvent::PreambleReceived => false,
        RadioEvent::PacketDone => true,
        RadioEvent::Idle => false,
    }
}

} // verus!
