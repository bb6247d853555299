//! Waiting: for an answer, for a handshake, for a frame, and for silence.
//!
//! Each function here is described by a small machine that reads a transcript of the line
//! event by event. A machine that is given an event which the function would not cause next
//! is `Broken`; one that has reached `Done` knows what the function returns.

use super::line::{
    lemma_line_push, lemma_timed_push, line_run, millis_to_nanos, nanos, time_left, timed_run,
    Clock, LineEvent, SerialIo, POLL_LIMIT,
};
use super::packet::{check_len, payload_len_of};
use super::transfer::Reporter;
use super::{
    ChecksumMode, Progress, XmodemError, ACK, CAN, CRC_CHAR, NAK, PAYLOAD_1024, PAYLOAD_128, SOH,
    STX,
};
use std::time::{Duration, Instant};
use vstd::prelude::*;

verus! {

/// The longest single read while waiting, in milliseconds: short, so that the clock and
/// the cancel flag are looked at often.
pub const SLICE_MILLIS: u64 = 200;

/// How long a byte inside a frame may take, in milliseconds.
pub const BYTE_MILLIS: u64 = 500;

/// How long to look for bytes that have already arrived, in milliseconds.
pub const DRAIN_MILLIS: u64 = 1;

/// The smaller of `a` and `b`.
pub open spec fn lesser(a: int, b: int) -> int {
    if a < b {
        a
    } else {
        b
    }
}

/// How long the next read may take when `left` nanoseconds of waiting are left.
pub open spec fn slice_nanos(left: int) -> int {
    lesser(left, millis_to_nanos(SLICE_MILLIS as int))
}

/// The part of the time left that the next read may take.
fn next_slice(left: Duration) -> (slice: Duration)
    ensures
        nanos(slice) == slice_nanos(nanos(left) as int),
{
    let longest: Duration = Duration::from_millis(SLICE_MILLIS);
    if left.as_nanos() < longest.as_nanos() {
        left
    } else {
        longest
    }
}

// ---------------------------------------------------------------------------------------
// An answer from the receiver
// ---------------------------------------------------------------------------------------

/// Whether a byte answers a packet; any other byte is noise.
pub open spec fn is_answer(byte: u8) -> bool {
    byte == ACK || byte == NAK || byte == CAN
}

/// Where [`wait_response`] stands.
pub enum ResponseState {
    /// About to read the clock.
    Starting,
    /// About to ask how long it has waited, after so many reads.
    Polling { start: Instant, polls: nat },
    /// About to read with this timeout.
    Listening { start: Instant, polls: nat, timeout: int },
    /// Read no answer; about to ask whether the transfer was cancelled.
    Unanswered { start: Instant, polls: nat },
    /// Returns this.
    Done { result: Result<Option<u8>, XmodemError> },
    Broken,
}

/// Waiting once more, unless the line was asked often enough.
pub open spec fn response_poll(start: Instant, polls: nat) -> ResponseState {
    if polls < POLL_LIMIT {
        ResponseState::Polling { start, polls }
    } else {
        ResponseState::Done { result: Ok(None) }
    }
}

/// What [`wait_response`] makes of one event.
pub open spec fn response_step(
    timeout: Duration,
    state: ResponseState,
    event: LineEvent,
) -> ResponseState {
    match (state, event) {
        (ResponseState::Starting, LineEvent::Now { now }) => response_poll(now, 0),
        (ResponseState::Polling { start, polls }, LineEvent::Clock { since, elapsed }) => if since
            != start {
            ResponseState::Broken
        } else if nanos(elapsed) >= nanos(timeout) {
            ResponseState::Done { result: Ok(None) }
        } else {
            ResponseState::Listening {
                start,
                polls,
                timeout: slice_nanos(nanos(timeout) - nanos(elapsed)),
            }
        },
        (
            ResponseState::Listening { start, polls, timeout: slice },
            LineEvent::Read { timeout: given, result },
        ) => if nanos(given) != slice {
            ResponseState::Broken
        } else {
            match result {
                Err(error) => ResponseState::Done { result: Err(error) },
                Ok(Some(byte)) if is_answer(byte) => ResponseState::Done { result: Ok(Some(byte)) },
                _ => ResponseState::Unanswered { start, polls },
            }
        },
        (ResponseState::Unanswered { start, polls }, LineEvent::Cancelled { flag }) => if flag {
            ResponseState::Done { result: Err(XmodemError::Cancelled) }
        } else {
            response_poll(start, polls + 1)
        },
        _ => ResponseState::Broken,
    }
}

/// Where [`wait_response`] stands after these events.
pub open spec fn response_after(timeout: Duration, events: Seq<LineEvent>) -> ResponseState
    decreases events.len(),
{
    if events.len() == 0 {
        ResponseState::Starting
    } else {
        response_step(timeout, response_after(timeout, events.drop_last()), events.last())
    }
}

/// Whether waiting for an answer can lead line and clock from `before` to `after` and give
/// `result`.
pub open spec fn response_awaited<S: SerialIo, C: Clock>(
    before: (S, C),
    timeout: Duration,
    result: Result<Option<u8>, XmodemError>,
    after: (S, C),
) -> bool {
    exists|events: Seq<LineEvent>| #[trigger]
        timed_run(before, events, after) && response_after(timeout, events) == (
        ResponseState::Done { result })
}

proof fn lemma_response_push(timeout: Duration, events: Seq<LineEvent>, event: LineEvent)
    ensures
        response_after(timeout, events.push(event)) == response_step(
            timeout,
            response_after(timeout, events),
            event,
        ),
{
    assert(events.push(event).drop_last() =~= events);
}

/// Waits for an answer, skipping noise; `None` when the time is up.
///
/// Skipping noise matters: a byte left over for the next packet would shift every answer
/// that follows.
pub fn wait_response<S: SerialIo, C: Clock>(
    io: &mut S,
    clock: &mut C,
    timeout: Duration,
) -> (result: Result<Option<u8>, XmodemError>)
    ensures
        response_awaited(
            (*old(io), *old(clock)),
            timeout,
            result,
            (*final(io), *final(clock)),
        ),
        result matches Ok(Some(byte)) ==> is_answer(byte),
{
    let ghost first = (*io, *clock);
    let ghost mut events: Seq<LineEvent> = Seq::empty();
    let start: Instant = clock.read_now();
    proof {
        let event = LineEvent::Now { now: start };
        lemma_timed_push(first, events, first, event, (*io, *clock));
        lemma_response_push(timeout, events, event);
        events = events.push(event);
    }
    let mut polls: u64 = 0;
    while polls < POLL_LIMIT
        invariant
            first == (*old(io), *old(clock)),
            timed_run(first, events, (*io, *clock)),
            response_after(timeout, events) == response_poll(start, polls as nat),
        decreases POLL_LIMIT - polls,
    {
        let ghost before = (*io, *clock);
        let elapsed: Duration = clock.time_since(&start);
        proof {
            let event = LineEvent::Clock { since: start, elapsed };
            lemma_timed_push(first, events, before, event, (*io, *clock));
            lemma_response_push(timeout, events, event);
            events = events.push(event);
        }
        let left: Duration = match time_left(timeout, elapsed) {
            Some(left) => left,
            None => {
                return Ok(None);
            },
        };
        let slice: Duration = next_slice(left);
        let ghost before = (*io, *clock);
        let read = io.read_byte(slice);
        proof {
            let event = LineEvent::Read { timeout: slice, result: read };
            lemma_timed_push(first, events, before, event, (*io, *clock));
            lemma_response_push(timeout, events, event);
            events = events.push(event);
        }
        match read {
            Err(error) => {
                return Err(error);
            },
            Ok(Some(byte)) => {
                if byte == ACK || byte == NAK || byte == CAN {
                    return Ok(Some(byte));
                }
            },
            Ok(None) => {},
        }
        let cancelled: bool = io.is_cancelled();
        proof {
            let event = LineEvent::Cancelled { flag: cancelled };
            lemma_timed_push(
                first,
                events,
                (*io, *clock),
                event,
                (*io, *clock),
            );
            lemma_response_push(timeout, events, event);
            events = events.push(event);
        }
        if cancelled {
            return Err(XmodemError::Cancelled);
        }
        polls = polls + 1;
    }
    Ok(None)
}

// ---------------------------------------------------------------------------------------
// Silence
// ---------------------------------------------------------------------------------------

/// Where [`drain_pending`] stands.
pub enum DrainState {
    /// About to read; the last `empty` reads found nothing.
    Draining { empty: nat, polls: nat },
    Done,
    Broken,
}

/// Reading once more, unless two reads in a row found nothing.
pub open spec fn drain_poll(empty: nat, polls: nat) -> DrainState {
    if empty < 2 && polls < POLL_LIMIT {
        DrainState::Draining { empty, polls }
    } else {
        DrainState::Done
    }
}

/// What [`drain_pending`] makes of one event.
pub open spec fn drain_step(state: DrainState, event: LineEvent) -> DrainState {
    match (state, event) {
        (DrainState::Draining { empty, polls }, LineEvent::Read { timeout, result }) => if nanos(
            timeout,
        ) != millis_to_nanos(DRAIN_MILLIS as int) {
            DrainState::Broken
        } else {
            match result {
                Ok(Some(_)) => drain_poll(0, polls + 1),
                Ok(None) => drain_poll(empty + 1, polls + 1),
                Err(_) => DrainState::Done,
            }
        },
        _ => DrainState::Broken,
    }
}

/// Where [`drain_pending`] stands after these events.
pub open spec fn drain_after(events: Seq<LineEvent>) -> DrainState
    decreases events.len(),
{
    if events.len() == 0 {
        DrainState::Draining { empty: 0, polls: 0 }
    } else {
        drain_step(drain_after(events.drop_last()), events.last())
    }
}

/// Whether draining can lead the line from `before` to `after`.
pub open spec fn drained<S: SerialIo>(before: S, after: S) -> bool {
    exists|events: Seq<LineEvent>| #[trigger]
        line_run(before, events, after) && drain_after(events) is Done
}

proof fn lemma_drain_push(events: Seq<LineEvent>, event: LineEvent)
    ensures
        drain_after(events.push(event)) == drain_step(drain_after(events), event),
{
    assert(events.push(event).drop_last() =~= events);
}

/// Reads away what has already arrived, until two short reads in a row find nothing or a
/// read fails.
///
/// A receiver may refuse one packet several times over. Left in place, each refusal would
/// count as a retry of its own.
pub fn drain_pending<S: SerialIo>(io: &mut S)
    ensures
        drained(*old(io), *final(io)),
{
    let mut empty: u32 = 0;
    let mut polls: u64 = 0;
    let ghost first = *io;
    let ghost mut events: Seq<LineEvent> = Seq::empty();
    while empty < 2 && polls < POLL_LIMIT
        invariant
            first == *old(io),
            empty <= 2,
            line_run(first, events, *io),
            drain_after(events) == drain_poll(empty as nat, polls as nat),
        decreases POLL_LIMIT - polls,
    {
        let timeout: Duration = Duration::from_millis(DRAIN_MILLIS);
        let ghost before = *io;
        let read = io.read_byte(timeout);
        proof {
            let event = LineEvent::Read { timeout, result: read };
            lemma_line_push(first, events, before, event, *io);
            lemma_drain_push(events, event);
            events = events.push(event);
        }
        match read {
            Ok(Some(_)) => {
                empty = 0;
            },
            Ok(None) => {
                empty = empty + 1;
            },
            Err(_) => {
                return ;
            },
        }
        polls = polls + 1;
    }
}

// ---------------------------------------------------------------------------------------
// The handshake, as the sender sees it
// ---------------------------------------------------------------------------------------

/// The check that a byte asks for, before the first packet.
pub open spec fn mode_asked_by(byte: u8) -> Option<ChecksumMode> {
    if byte == CRC_CHAR {
        Some(ChecksumMode::Crc)
    } else if byte == NAK {
        Some(ChecksumMode::Checksum)
    } else {
        None
    }
}

/// The check that a byte asks for, before the first packet; any other byte is noise.
pub fn requested_mode(byte: u8) -> (mode: Option<ChecksumMode>)
    ensures
        mode == mode_asked_by(byte),
{
    if byte == CRC_CHAR {
        Some(ChecksumMode::Crc)
    } else if byte == NAK {
        Some(ChecksumMode::Checksum)
    } else {
        None
    }
}

/// Where [`wait_handshake`] stands.
pub enum HandshakeState {
    /// About to read the clock.
    Starting,
    /// About to ask whether the transfer was cancelled.
    Polling { start: Instant, polls: nat },
    /// About to ask how long it has waited.
    Timing { start: Instant, polls: nat },
    /// About to read.
    Listening { start: Instant, polls: nat },
    Done { result: Result<ChecksumMode, XmodemError> },
    Broken,
}

/// Waiting once more, unless the line was asked often enough.
pub open spec fn handshake_poll(start: Instant, polls: nat) -> HandshakeState {
    if polls < POLL_LIMIT {
        HandshakeState::Polling { start, polls }
    } else {
        HandshakeState::Done { result: Err(XmodemError::Timeout) }
    }
}

/// What [`wait_handshake`] makes of one event.
pub open spec fn handshake_step(
    timeout: Duration,
    state: HandshakeState,
    event: LineEvent,
) -> HandshakeState {
    match (state, event) {
        (HandshakeState::Starting, LineEvent::Now { now }) => handshake_poll(now, 0),
        (HandshakeState::Polling { start, polls }, LineEvent::Cancelled { flag }) => if flag {
            HandshakeState::Done { result: Err(XmodemError::Cancelled) }
        } else {
            HandshakeState::Timing { start, polls }
        },
        (HandshakeState::Timing { start, polls }, LineEvent::Clock { since, elapsed }) => if since
            != start {
            HandshakeState::Broken
        } else if nanos(elapsed) >= nanos(timeout) {
            HandshakeState::Done { result: Err(XmodemError::Timeout) }
        } else {
            HandshakeState::Listening { start, polls }
        },
        (
            HandshakeState::Listening { start, polls },
            LineEvent::Read { timeout: given, result },
        ) => if nanos(given) != millis_to_nanos(SLICE_MILLIS as int) {
            HandshakeState::Broken
        } else {
            match result {
                Err(error) => HandshakeState::Done { result: Err(error) },
                Ok(Some(byte)) => match mode_asked_by(byte) {
                    Some(mode) => HandshakeState::Done { result: Ok(mode) },
                    None => handshake_poll(start, polls + 1),
                },
                Ok(None) => handshake_poll(start, polls + 1),
            }
        },
        _ => HandshakeState::Broken,
    }
}

/// Where [`wait_handshake`] stands after these events.
pub open spec fn handshake_after(timeout: Duration, events: Seq<LineEvent>) -> HandshakeState
    decreases events.len(),
{
    if events.len() == 0 {
        HandshakeState::Starting
    } else {
        handshake_step(timeout, handshake_after(timeout, events.drop_last()), events.last())
    }
}

/// Whether waiting for the handshake can lead line and clock from `before` to `after` and give
/// `result`.
pub open spec fn handshake_awaited<S: SerialIo, C: Clock>(
    before: (S, C),
    timeout: Duration,
    result: Result<ChecksumMode, XmodemError>,
    after: (S, C),
) -> bool {
    exists|events: Seq<LineEvent>| #[trigger]
        timed_run(before, events, after) && handshake_after(timeout, events) == (
        HandshakeState::Done { result })
}

proof fn lemma_handshake_push(timeout: Duration, events: Seq<LineEvent>, event: LineEvent)
    ensures
        handshake_after(timeout, events.push(event)) == handshake_step(
            timeout,
            handshake_after(timeout, events),
            event,
        ),
{
    assert(events.push(event).drop_last() =~= events);
}

/// Whether a reporter was told of the wait for the handshake first, and of its end, if it
/// succeeded, last; and of nothing else.
pub open spec fn handshake_told<R: Reporter>(
    told: R,
    result: Result<ChecksumMode, XmodemError>,
    told_after: R,
) -> bool {
    exists|told_mid: R| #[trigger]
        told.reports(Progress::WaitingHandshake, &told_mid) && match result {
            Ok(mode) => told_mid.reports(Progress::HandshakeDone(mode), &told_after),
            Err(_) => told_after == told_mid,
        }
}

/// Waits until the receiver asks for the first packet, and reports the wait and its end.
pub fn wait_handshake<S: SerialIo, C: Clock, R: Reporter>(
    io: &mut S,
    clock: &mut C,
    timeout: Duration,
    reporter: &mut R,
) -> (result: Result<ChecksumMode, XmodemError>)
    requires
        old(reporter).accepts(),
    ensures
        handshake_awaited(
            (*old(io), *old(clock)),
            timeout,
            result,
            (*final(io), *final(clock)),
        ),
        handshake_told(*old(reporter), result, *final(reporter)),
        final(reporter).accepts(),
{
    let ghost told = *reporter;
    reporter.report(Progress::WaitingHandshake);
    let ghost told_mid = *reporter;
    let ghost first = (*io, *clock);
    let ghost mut events: Seq<LineEvent> = Seq::empty();
    let start: Instant = clock.read_now();
    proof {
        let event = LineEvent::Now { now: start };
        lemma_timed_push(first, events, first, event, (*io, *clock));
        lemma_handshake_push(timeout, events, event);
        events = events.push(event);
    }
    let mut polls: u64 = 0;
    while polls < POLL_LIMIT
        invariant
            first == (*old(io), *old(clock)),
            told == *old(reporter),
            told_mid == *reporter,
            told.reports(Progress::WaitingHandshake, &told_mid),
            reporter.accepts(),
            timed_run(first, events, (*io, *clock)),
            handshake_after(timeout, events) == handshake_poll(start, polls as nat),
        decreases POLL_LIMIT - polls,
    {
        let cancelled: bool = io.is_cancelled();
        proof {
            let event = LineEvent::Cancelled { flag: cancelled };
            lemma_timed_push(
                first,
                events,
                (*io, *clock),
                event,
                (*io, *clock),
            );
            lemma_handshake_push(timeout, events, event);
            events = events.push(event);
        }
        if cancelled {
            return Err(XmodemError::Cancelled);
        }
        let ghost before = (*io, *clock);
        let elapsed: Duration = clock.time_since(&start);
        proof {
            let event = LineEvent::Clock { since: start, elapsed };
            lemma_timed_push(first, events, before, event, (*io, *clock));
            lemma_handshake_push(timeout, events, event);
            events = events.push(event);
        }
        if time_left(timeout, elapsed).is_none() {
            return Err(XmodemError::Timeout);
        }
        let slice: Duration = Duration::from_millis(SLICE_MILLIS);
        let ghost before = (*io, *clock);
        let read = io.read_byte(slice);
        proof {
            let event = LineEvent::Read { timeout: slice, result: read };
            lemma_timed_push(first, events, before, event, (*io, *clock));
            lemma_handshake_push(timeout, events, event);
            events = events.push(event);
        }
        match read {
            Err(error) => {
                return Err(error);
            },
            Ok(Some(byte)) => {
                if let Some(mode) = requested_mode(byte) {
                    reporter.report(Progress::HandshakeDone(mode));
                    return Ok(mode);
                }
            },
            Ok(None) => {},
        }
        polls = polls + 1;
    }
    Err(XmodemError::Timeout)
}

// ---------------------------------------------------------------------------------------
// A frame, as the receiver sees it
// ---------------------------------------------------------------------------------------

/// The length of a frame that starts with `header`.
pub open spec fn frame_len(header: u8, mode: ChecksumMode) -> nat {
    3 + payload_len_of(header) + check_len(mode)
}

/// The length of a frame that starts with `header`.
fn expected_len(header: u8, mode: ChecksumMode) -> (len: usize)
    ensures
        len == frame_len(header, mode),
{
    let payload_len: usize = if header == STX {
        PAYLOAD_1024
    } else {
        PAYLOAD_128
    };
    let checksum_len: usize = match mode {
        ChecksumMode::Crc => 2,
        ChecksumMode::Checksum => 1,
    };
    3 + payload_len + checksum_len
}

/// Where [`read_frame`] stands.
pub enum FrameState {
    /// About to read the clock.
    Starting,
    /// No header yet; about to ask whether the transfer was cancelled.
    Polling { start: Instant, polls: nat },
    /// No header yet; about to ask how long it has waited.
    Timing { start: Instant, polls: nat },
    /// No header yet; about to read with this timeout.
    Listening { start: Instant, polls: nat, timeout: int },
    /// Inside the frame; about to ask whether the transfer was cancelled.
    Inside { frame: Seq<u8> },
    /// Inside the frame; about to read its next byte.
    Reading { frame: Seq<u8> },
    Done { result: Result<Option<Seq<u8>>, XmodemError> },
    Broken,
}

/// Waiting once more, unless the line was asked often enough.
pub open spec fn frame_poll(start: Instant, polls: nat) -> FrameState {
    if polls < POLL_LIMIT {
        FrameState::Polling { start, polls }
    } else {
        FrameState::Done { result: Ok(None) }
    }
}

/// Going on inside the frame until it has its full length.
pub open spec fn frame_inside(mode: ChecksumMode, frame: Seq<u8>) -> FrameState {
    if frame.len() < frame_len(frame[0], mode) {
        FrameState::Inside { frame }
    } else {
        FrameState::Done { result: Ok(Some(frame)) }
    }
}

/// What [`read_frame`] makes of one event.
pub open spec fn frame_step(
    mode: ChecksumMode,
    timeout: Duration,
    state: FrameState,
    event: LineEvent,
) -> FrameState {
    match (state, event) {
        (FrameState::Starting, LineEvent::Now { now }) => frame_poll(now, 0),
        (FrameState::Polling { start, polls }, LineEvent::Cancelled { flag }) => if flag {
            FrameState::Done { result: Err(XmodemError::Cancelled) }
        } else {
            FrameState::Timing { start, polls }
        },
        (FrameState::Timing { start, polls }, LineEvent::Clock { since, elapsed }) => if since
            != start {
            FrameState::Broken
        } else if nanos(elapsed) >= nanos(timeout) {
            FrameState::Done { result: Ok(None) }
        } else {
            FrameState::Listening {
                start,
                polls,
                timeout: slice_nanos(nanos(timeout) - nanos(elapsed)),
            }
        },
        (
            FrameState::Listening { start, polls, timeout: slice },
            LineEvent::Read { timeout: given, result },
        ) => if nanos(given) != slice {
            FrameState::Broken
        } else {
            match result {
                Err(error) => FrameState::Done { result: Err(error) },
                Ok(Some(byte)) if byte == SOH || byte == STX => frame_inside(mode, seq![byte]),
                _ => frame_poll(start, polls + 1),
            }
        },
        (FrameState::Inside { frame }, LineEvent::Cancelled { flag }) => if flag {
            FrameState::Done { result: Err(XmodemError::Cancelled) }
        } else {
            FrameState::Reading { frame }
        },
        (FrameState::Reading { frame }, LineEvent::Read { timeout: given, result }) => if nanos(
            given,
        ) != millis_to_nanos(BYTE_MILLIS as int) {
            FrameState::Broken
        } else {
            match result {
                Err(error) => FrameState::Done { result: Err(error) },
                Ok(Some(byte)) => frame_inside(mode, frame.push(byte)),
                Ok(None) => FrameState::Done { result: Ok(None) },
            }
        },
        _ => FrameState::Broken,
    }
}

/// Where [`read_frame`] stands after these events.
pub open spec fn frame_after(
    mode: ChecksumMode,
    timeout: Duration,
    events: Seq<LineEvent>,
) -> FrameState
    decreases events.len(),
{
    if events.len() == 0 {
        FrameState::Starting
    } else {
        frame_step(mode, timeout, frame_after(mode, timeout, events.drop_last()), events.last())
    }
}

/// The contents of what [`read_frame`] returns.
pub open spec fn frame_result(result: Result<Option<Vec<u8>>, XmodemError>) -> Result<
    Option<Seq<u8>>,
    XmodemError,
> {
    match result {
        Ok(Some(frame)) => Ok(Some(frame@)),
        Ok(None) => Ok(None),
        Err(error) => Err(error),
    }
}

/// Whether reading a frame can lead line and clock from `before` to `after` and give `result`.
pub open spec fn frame_awaited<S: SerialIo, C: Clock>(
    before: (S, C),
    mode: ChecksumMode,
    timeout: Duration,
    result: Result<Option<Seq<u8>>, XmodemError>,
    after: (S, C),
) -> bool {
    exists|events: Seq<LineEvent>| #[trigger]
        timed_run(before, events, after) && frame_after(mode, timeout, events) == (
        FrameState::Done { result })
}

proof fn lemma_frame_push(
    mode: ChecksumMode,
    timeout: Duration,
    events: Seq<LineEvent>,
    event: LineEvent,
)
    ensures
        frame_after(mode, timeout, events.push(event)) == frame_step(
            mode,
            timeout,
            frame_after(mode, timeout, events),
            event,
        ),
{
    assert(events.push(event).drop_last() =~= events);
}

/// Reads a whole frame; `None` when no frame starts in time or one breaks off.
///
/// Bytes before the header (prompts, echoes, noise) are skipped. The pause before a frame
/// may be long; inside a frame the bytes must follow each other closely.
pub fn read_frame<S: SerialIo, C: Clock>(
    io: &mut S,
    clock: &mut C,
    mode: ChecksumMode,
    wait_timeout: Duration,
) -> (result: Result<Option<Vec<u8>>, XmodemError>)
    ensures
        frame_awaited(
            (*old(io), *old(clock)),
            mode,
            wait_timeout,
            frame_result(result),
            (*final(io), *final(clock)),
        ),
{
    let ghost first = (*io, *clock);
    let ghost mut events: Seq<LineEvent> = Seq::empty();
    let start: Instant = clock.read_now();
    proof {
        let event = LineEvent::Now { now: start };
        lemma_timed_push(first, events, first, event, (*io, *clock));
        lemma_frame_push(mode, wait_timeout, events, event);
        events = events.push(event);
    }
    let mut polls: u64 = 0;
    let mut frame: Vec<u8> = Vec::new();
    while polls < POLL_LIMIT && frame.len() == 0
        invariant
            first == (*old(io), *old(clock)),
            timed_run(first, events, (*io, *clock)),
            frame@.len() == 0 ==> frame_after(mode, wait_timeout, events) == frame_poll(
                start,
                polls as nat,
            ),
            frame@.len() > 0 ==> {
                &&& frame@.len() == 1
                &&& frame_after(mode, wait_timeout, events) == frame_inside(mode, frame@)
            },
        decreases POLL_LIMIT - polls, 1 - frame@.len(),
    {
        let cancelled: bool = io.is_cancelled();
        proof {
            let event = LineEvent::Cancelled { flag: cancelled };
            lemma_timed_push(
                first,
                events,
                (*io, *clock),
                event,
                (*io, *clock),
            );
            lemma_frame_push(mode, wait_timeout, events, event);
            events = events.push(event);
        }
        if cancelled {
            return Err(XmodemError::Cancelled);
        }
        let ghost before = (*io, *clock);
        let elapsed: Duration = clock.time_since(&start);
        proof {
            let event = LineEvent::Clock { since: start, elapsed };
            lemma_timed_push(first, events, before, event, (*io, *clock));
            lemma_frame_push(mode, wait_timeout, events, event);
            events = events.push(event);
        }
        let left: Duration = match time_left(wait_timeout, elapsed) {
            Some(left) => left,
            None => {
                return Ok(None);
            },
        };
        let slice: Duration = next_slice(left);
        let ghost before = (*io, *clock);
        let read = io.read_byte(slice);
        proof {
            let event = LineEvent::Read { timeout: slice, result: read };
            lemma_timed_push(first, events, before, event, (*io, *clock));
            lemma_frame_push(mode, wait_timeout, events, event);
            events = events.push(event);
        }
        match read {
            Err(error) => {
                return Err(error);
            },
            Ok(Some(byte)) => {
                if byte == SOH || byte == STX {
                    frame.push(byte);
                    assert(frame@ =~= seq![byte]);
                }
            },
            Ok(None) => {},
        }
        if frame.len() == 0 {
            polls = polls + 1;
        }
    }
    if frame.len() == 0 {
        return Ok(None);
    }
    let total_len: usize = expected_len(frame[0], mode);
    while frame.len() < total_len
        invariant
            first == (*old(io), *old(clock)),
            frame@.len() > 0,
            total_len == frame_len(frame@[0], mode),
            timed_run(first, events, (*io, *clock)),
            frame_after(mode, wait_timeout, events) == frame_inside(mode, frame@),
        decreases total_len - frame@.len(),
    {
        let cancelled: bool = io.is_cancelled();
        proof {
            let event = LineEvent::Cancelled { flag: cancelled };
            lemma_timed_push(
                first,
                events,
                (*io, *clock),
                event,
                (*io, *clock),
            );
            lemma_frame_push(mode, wait_timeout, events, event);
            events = events.push(event);
        }
        if cancelled {
            return Err(XmodemError::Cancelled);
        }
        let slice: Duration = Duration::from_millis(BYTE_MILLIS);
        let ghost before = (*io, *clock);
        let read = io.read_byte(slice);
        proof {
            let event = LineEvent::Read { timeout: slice, result: read };
            lemma_timed_push(first, events, before, event, (*io, *clock));
            lemma_frame_push(mode, wait_timeout, events, event);
            events = events.push(event);
        }
        match read {
            Err(error) => {
                return Err(error);
            },
            Ok(Some(byte)) => {
                frame.push(byte);
            },
            Ok(None) => {
                return Ok(None);
            },
        }
    }
    Ok(Some(frame))
}

/// Where [`read_frame_after_header`] stands.
pub enum RestState {
    /// About to read the next byte of this frame.
    Reading { frame: Seq<u8> },
    Done { result: Option<Seq<u8>> },
    Broken,
}

/// Going on until the frame has its full length.
pub open spec fn rest_inside(mode: ChecksumMode, frame: Seq<u8>) -> RestState {
    if frame.len() < frame_len(frame[0], mode) {
        RestState::Reading { frame }
    } else {
        RestState::Done { result: Some(frame) }
    }
}

/// What [`read_frame_after_header`] makes of one event.
pub open spec fn rest_step(mode: ChecksumMode, state: RestState, event: LineEvent) -> RestState {
    match (state, event) {
        (RestState::Reading { frame }, LineEvent::Read { timeout, result }) => if nanos(timeout)
            != millis_to_nanos(BYTE_MILLIS as int) {
            RestState::Broken
        } else {
            match result {
                Ok(Some(byte)) => rest_inside(mode, frame.push(byte)),
                _ => RestState::Done { result: None },
            }
        },
        _ => RestState::Broken,
    }
}

/// Where [`read_frame_after_header`] stands after these events.
pub open spec fn rest_after(mode: ChecksumMode, header: u8, events: Seq<LineEvent>) -> RestState
    decreases events.len(),
{
    if events.len() == 0 {
        rest_inside(mode, seq![header])
    } else {
        rest_step(mode, rest_after(mode, header, events.drop_last()), events.last())
    }
}

/// Whether reading the rest of a frame can lead line and clock from `before` to `after` and give
/// `result`.
pub open spec fn rest_awaited<S: SerialIo>(
    before: S,
    mode: ChecksumMode,
    header: u8,
    result: Option<Seq<u8>>,
    after: S,
) -> bool {
    exists|events: Seq<LineEvent>| #[trigger]
        line_run(before, events, after) && rest_after(mode, header, events) == (RestState::Done {
            result,
        })
}

/// The contents of what [`read_frame_after_header`] returns.
pub open spec fn rest_result(result: Option<Vec<u8>>) -> Option<Seq<u8>> {
    match result {
        Some(frame) => Some(frame@),
        None => None,
    }
}

proof fn lemma_rest_push(mode: ChecksumMode, header: u8, events: Seq<LineEvent>, event: LineEvent)
    ensures
        rest_after(mode, header, events.push(event)) == rest_step(
            mode,
            rest_after(mode, header, events),
            event,
        ),
{
    assert(events.push(event).drop_last() =~= events);
}

/// Reads the rest of a frame whose first byte was already read; `None` when it breaks off
/// or a read fails.
pub fn read_frame_after_header<S: SerialIo>(io: &mut S, mode: ChecksumMode, header: u8) -> (result:
    Option<Vec<u8>>)
    ensures
        rest_awaited(*old(io), mode, header, rest_result(result), *final(io)),
{
    let total_len: usize = expected_len(header, mode);
    let mut frame: Vec<u8> = Vec::with_capacity(total_len);
    frame.push(header);
    let ghost first = *io;
    let ghost mut events: Seq<LineEvent> = Seq::empty();
    assert(frame@ =~= seq![header]);
    while frame.len() < total_len
        invariant
            first == *old(io),
            frame@.len() > 0,
            total_len == frame_len(frame@[0], mode),
            line_run(first, events, *io),
            rest_after(mode, header, events) == rest_inside(mode, frame@),
        decreases total_len - frame@.len(),
    {
        let timeout: Duration = Duration::from_millis(BYTE_MILLIS);
        let ghost before = *io;
        let read = io.read_byte(timeout);
        proof {
            let event = LineEvent::Read { timeout, result: read };
            lemma_line_push(first, events, before, event, *io);
            lemma_rest_push(mode, header, events, event);
            events = events.push(event);
        }
        match read {
            Ok(Some(byte)) => {
                frame.push(byte);
            },
            _ => {
                return None;
            },
        }
    }
    Some(frame)
}

} // verus!
