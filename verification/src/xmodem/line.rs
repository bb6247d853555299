//! The serial line as the protocol sees it, and transcripts of what passes over it.
//!
//! What a line answers, and when, is outside the protocol's control. The contracts of the
//! functions that talk to it therefore speak of a transcript: the calls that were made, in
//! order, each with the answer that came back. Looks at the clock stand in it too, each one
//! tied to a call of its own on the clock.

use super::XmodemError;
use std::time::{Duration, Instant};
use vstd::prelude::*;

verus! {

/// A serial line. Tests replace it by an implementation in memory.
///
/// Nothing is promised about the answers of a line. Each method has a relation that tells
/// which answers the line may give in its present state and how it may look afterwards; it
/// serves to tie a transcript to the calls that were really made.
pub trait SerialIo {
    /// Whether reading a byte with this timeout may give `result` and leave `after`.
    open spec fn reads(
        &self,
        timeout: Duration,
        result: Result<Option<u8>, XmodemError>,
        after: &Self,
    ) -> bool {
        true
    }

    /// Whether writing `data` may give `result` and leave `after`.
    open spec fn writes(&self, data: Seq<u8>, result: Result<(), XmodemError>, after: &Self) -> bool {
        true
    }

    /// Whether dropping pending input may give `result` and leave `after`.
    open spec fn flushes(&self, result: Result<(), XmodemError>, after: &Self) -> bool {
        true
    }

    /// Whether the line may answer `flag` when asked if the transfer was cancelled.
    open spec fn tells_cancelled(&self, flag: bool) -> bool {
        true
    }

    /// Reads at most one byte; `None` when the time is up.
    fn read_byte(&mut self, timeout: Duration) -> (result: Result<Option<u8>, XmodemError>)
        ensures
            old(self).reads(timeout, result, final(self)),
    ;

    /// Writes all bytes.
    fn write_all(&mut self, data: &[u8]) -> (result: Result<(), XmodemError>)
        ensures
            old(self).writes(data@, result, final(self)),
    ;

    /// Drops what has arrived and was not read yet.
    fn flush_input(&mut self) -> (result: Result<(), XmodemError>)
        ensures
            old(self).flushes(result, final(self)),
    ;

    /// Whether this side wants the transfer to stop.
    fn is_cancelled(&self) -> (flag: bool)
        ensures
            self.tells_cancelled(flag),
    ;
}

/// The operating system's monotonic clock reading.
#[verifier::external_type_specification]
#[verifier::external_body]
pub struct ExInstant(Instant);

/// The length of a duration in nanoseconds, as `Duration::as_nanos` gives it.
pub uninterp spec fn nanos(d: Duration) -> u128;

/// `Duration::as_nanos`: the total number of nanoseconds in the duration.
pub assume_specification[ Duration::as_nanos ](d: &Duration) -> (n: u128)
    ensures
        n == nanos(*d),
;

/// `Duration::from_millis`: a duration of that many milliseconds.
pub assume_specification[ Duration::from_millis ](millis: u64) -> (d: Duration)
    ensures
        nanos(d) == millis * 1_000_000,
;

/// `Duration::saturating_sub`: the difference, or zero where it would be negative.
pub assume_specification[ Duration::saturating_sub ](d: Duration, rhs: Duration) -> (left: Duration)
    ensures
        nanos(left) == (if nanos(d) >= nanos(rhs) {
            nanos(d) - nanos(rhs)
        } else {
            0
        }),
;

/// `Instant::now`: the present reading of the clock. Nothing is said of the reading.
pub assume_specification[ Instant::now ]() -> Instant
;

/// `Instant::elapsed`: how long ago the reading was taken. Nothing is said of the length.
pub assume_specification[ Instant::elapsed ](since: &Instant) -> Duration
;

/// A clock.
///
/// Nothing is promised about what it shows. Each method has a relation that tells how the
/// clock may look afterwards; it ties every look at the clock in a transcript to a call of its
/// own.
pub trait Clock {
    /// Whether the clock may show `now` and be left as `after`.
    open spec fn shows(&self, now: Instant, after: &Self) -> bool {
        true
    }

    /// Whether the clock may give `elapsed` as the time since `since` and be left as `after`.
    open spec fn measures(&self, since: Instant, elapsed: Duration, after: &Self) -> bool {
        true
    }

    /// Reads the clock.
    fn read_now(&mut self) -> (now: Instant)
        ensures
            old(self).shows(now, final(self)),
    ;

    /// Tells how long ago a reading was taken.
    fn time_since(&mut self, since: &Instant) -> (elapsed: Duration)
        ensures
            old(self).measures(*since, elapsed, final(self)),
    ;
}

/// The operating system's clock.
pub struct SystemClock;

impl Clock for SystemClock {
    open spec fn shows(&self, now: Instant, after: &Self) -> bool {
        call_ensures(Instant::now, (), now)
    }

    open spec fn measures(&self, since: Instant, elapsed: Duration, after: &Self) -> bool {
        call_ensures(Instant::elapsed, (&since,), elapsed)
    }

    fn read_now(&mut self) -> (now: Instant) {
        call_plain(Instant::now)
    }

    fn time_since(&mut self, since: &Instant) -> (elapsed: Duration) {
        call_on(Instant::elapsed, since)
    }
}

/// Calls a function that takes nothing.
fn call_plain<F: Fn() -> Instant>(f: F) -> (now: Instant)
    requires
        call_requires(f, ()),
    ensures
        call_ensures(f, (), now),
{
    f()
}

/// Calls a function on a clock reading.
fn call_on<F: Fn(&Instant) -> Duration>(f: F, since: &Instant) -> (elapsed: Duration)
    requires
        call_requires(f, (since,)),
    ensures
        call_ensures(f, (since,), elapsed),
{
    f(since)
}

/// What is left of a wait after so much of it is over; `None` when its time is up.
pub fn time_left(timeout: Duration, elapsed: Duration) -> (left: Option<Duration>)
    ensures
        match left {
            Some(d) => nanos(elapsed) < nanos(timeout) && nanos(d) == nanos(timeout) - nanos(
                elapsed,
            ),
            None => nanos(elapsed) >= nanos(timeout),
        },
{
    if elapsed.as_nanos() >= timeout.as_nanos() {
        None
    } else {
        Some(timeout.saturating_sub(elapsed))
    }
}

/// How often a waiting loop asks the line before it stops waiting, whatever the clock
/// says. No line can be asked that often within a lifetime; the limit makes every wait
/// end.
pub const POLL_LIMIT: u64 = 0xFFFF_FFFF_FFFF_FFFF;

/// The number of nanoseconds in `millis` milliseconds.
pub open spec fn millis_to_nanos(millis: int) -> int {
    millis * 1_000_000
}

/// One call on a serial line, or one look at the clock, with its answer.
pub enum LineEvent {
    Read { timeout: Duration, result: Result<Option<u8>, XmodemError> },
    Write { data: Seq<u8>, result: Result<(), XmodemError> },
    Flush { result: Result<(), XmodemError> },
    Cancelled { flag: bool },
    /// A reading of the clock.
    Now { now: Instant },
    /// How long ago a reading of the clock was.
    Clock { since: Instant, elapsed: Duration },
}

/// Whether `event` is a call on the line that can happen on `before` and leave it as `after`.
pub open spec fn line_step<S: SerialIo>(before: S, event: LineEvent, after: S) -> bool {
    match event {
        LineEvent::Read { timeout, result } => before.reads(timeout, result, &after),
        LineEvent::Write { data, result } => before.writes(data, result, &after),
        LineEvent::Flush { result } => before.flushes(result, &after),
        LineEvent::Cancelled { flag } => before.tells_cancelled(flag) && after == before,
        LineEvent::Now { .. } => false,
        LineEvent::Clock { .. } => false,
    }
}

/// Whether the events, all of them calls on the line, lead it in this order from `before` to
/// `after`.
pub open spec fn line_run<S: SerialIo>(before: S, events: Seq<LineEvent>, after: S) -> bool
    decreases events.len(),
{
    if events.len() == 0 {
        before == after
    } else {
        exists|mid: S|
            line_run(before, events.drop_last(), mid) && #[trigger] line_step(
                mid,
                events.last(),
                after,
            )
    }
}

/// A transcript grows by one event.
pub proof fn lemma_line_push<S: SerialIo>(
    before: S,
    events: Seq<LineEvent>,
    mid: S,
    event: LineEvent,
    after: S,
)
    requires
        line_run(before, events, mid),
        line_step(mid, event, after),
    ensures
        line_run(before, events.push(event), after),
{
    assert(events.push(event).drop_last() =~= events);
    assert(line_step(mid, events.push(event).last(), after));
}

/// Whether `event` can happen on a line and a clock `before` and leave them as `after`.
pub open spec fn timed_step<S: SerialIo, C: Clock>(
    before: (S, C),
    event: LineEvent,
    after: (S, C),
) -> bool {
    match event {
        LineEvent::Now { now } => after.0 == before.0 && before.1.shows(now, &after.1),
        LineEvent::Clock { since, elapsed } => after.0 == before.0 && before.1.measures(
            since,
            elapsed,
            &after.1,
        ),
        _ => line_step(before.0, event, after.0) && after.1 == before.1,
    }
}

/// Whether the events, in this order, lead a line and a clock from `before` to `after`.
pub open spec fn timed_run<S: SerialIo, C: Clock>(
    before: (S, C),
    events: Seq<LineEvent>,
    after: (S, C),
) -> bool
    decreases events.len(),
{
    if events.len() == 0 {
        before == after
    } else {
        exists|mid: (S, C)|
            timed_run(before, events.drop_last(), mid) && #[trigger] timed_step(
                mid,
                events.last(),
                after,
            )
    }
}

/// A transcript grows by one event.
pub proof fn lemma_timed_push<S: SerialIo, C: Clock>(
    before: (S, C),
    events: Seq<LineEvent>,
    mid: (S, C),
    event: LineEvent,
    after: (S, C),
)
    requires
        timed_run(before, events, mid),
        timed_step(mid, event, after),
    ensures
        timed_run(before, events.push(event), after),
{
    assert(events.push(event).drop_last() =~= events);
    assert(timed_step(mid, events.push(event).last(), after));
}

/// Whether an event is a call on the line or the clock that led them from `before` to `after`:
/// with these arguments and this answer, and without touching the other of the two.
pub open spec fn is_call<S: SerialIo, C: Clock>(
    before: (S, C),
    event: LineEvent,
    after: (S, C),
) -> bool {
    let (line, clock) = before;
    let (line_after, clock_after) = after;
    match event {
        LineEvent::Read { timeout, result } => line.reads(timeout, result, &line_after)
            && clock_after == clock,
        LineEvent::Write { data, result } => line.writes(data, result, &line_after) && clock_after
            == clock,
        LineEvent::Flush { result } => line.flushes(result, &line_after) && clock_after == clock,
        LineEvent::Cancelled { flag } => line.tells_cancelled(flag) && line_after == line
            && clock_after == clock,
        LineEvent::Now { now } => clock.shows(now, &clock_after) && line_after == line,
        LineEvent::Clock { since, elapsed } => clock.measures(since, elapsed, &clock_after)
            && line_after == line,
    }
}

/// A transcript holds calls that were really made, each one on what the one before it left: if
/// there is an event, the last one is such a call, and what came before it is a transcript too.
pub proof fn law_transcript_is_made_of_calls<S: SerialIo, C: Clock>(
    before: (S, C),
    events: Seq<LineEvent>,
    after: (S, C),
)
    requires
        timed_run(before, events, after),
    ensures
        events.len() == 0 ==> before == after,
        events.len() > 0 ==> exists|mid: (S, C)|
            #![trigger is_call(mid, events.last(), after)]
            timed_run(before, events.drop_last(), mid) && is_call(mid, events.last(), after),
{
    if events.len() > 0 {
        let mid = choose|mid: (S, C)|
            timed_run(before, events.drop_last(), mid) && #[trigger] timed_step(
                mid,
                events.last(),
                after,
            );
        assert(is_call(mid, events.last(), after));
    }
}

/// The same of a transcript of the line alone: it holds no looks at the clock.
pub proof fn law_line_transcript_is_made_of_calls<S: SerialIo, C: Clock>(
    before: S,
    events: Seq<LineEvent>,
    after: S,
    clock: C,
)
    requires
        line_run(before, events, after),
    ensures
        events.len() == 0 ==> before == after,
        events.len() > 0 ==> exists|mid: S|
            #![trigger is_call((mid, clock), events.last(), (after, clock))]
            line_run(before, events.drop_last(), mid) && is_call(
                (mid, clock),
                events.last(),
                (after, clock),
            ) && !(events.last() is Now) && !(events.last() is Clock),
{
    if events.len() > 0 {
        let mid = choose|mid: S|
            line_run(before, events.drop_last(), mid) && #[trigger] line_step(
                mid,
                events.last(),
                after,
            );
        assert(is_call((mid, clock), events.last(), (after, clock)));
    }
}

} // verus!
