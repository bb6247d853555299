//! What the waiting functions make of the bytes that arrive.

use super::line::{nanos, LineEvent};
use super::wait::{
    drain_after, frame_after, frame_len, handshake_after, is_answer, mode_asked_by, response_after,
    rest_after, DrainState, FrameState, HandshakeState, ResponseState, RestState,
};
use super::{ChecksumMode, XmodemError, SOH, STX};
use std::time::Duration;
use vstd::prelude::*;

verus! {

/// The bytes that a transcript read, in order.
pub open spec fn bytes_read(events: Seq<LineEvent>) -> Seq<u8>
    decreases events.len(),
{
    if events.len() == 0 {
        Seq::empty()
    } else {
        match events.last() {
            LineEvent::Read { result: Ok(Some(byte)), .. } => bytes_read(events.drop_last()).push(
                byte,
            ),
            _ => bytes_read(events.drop_last()),
        }
    }
}

/// Whether none of the bytes answers a packet.
pub open spec fn no_answer(bytes: Seq<u8>) -> bool {
    forall|i: int| 0 <= i < bytes.len() ==> !is_answer(#[trigger] bytes[i])
}

/// Whether none of the bytes asks for the first packet.
pub open spec fn no_request(bytes: Seq<u8>) -> bool {
    forall|i: int| 0 <= i < bytes.len() ==> mode_asked_by(#[trigger] bytes[i]) is None
}

/// Whether none of the bytes starts a frame.
pub open spec fn no_header(bytes: Seq<u8>) -> bool {
    forall|i: int| 0 <= i < bytes.len() ==> #[trigger] bytes[i] != SOH && bytes[i] != STX
}

proof fn lemma_response(timeout: Duration, events: Seq<LineEvent>)
    ensures
        match response_after(timeout, events) {
            ResponseState::Done { result } => result matches Ok(Some(byte)) ==> {
                &&& is_answer(byte)
                &&& bytes_read(events).len() > 0
                &&& bytes_read(events).last() == byte
                &&& no_answer(bytes_read(events).drop_last())
            },
            ResponseState::Broken => true,
            _ => no_answer(bytes_read(events)),
        },
    decreases events.len(),
{
    if events.len() > 0 {
        let shorter = events.drop_last();
        lemma_response(timeout, shorter);
        if let LineEvent::Read { result: Ok(Some(byte)), .. } = events.last() {
            assert(bytes_read(events).drop_last() =~= bytes_read(shorter));
        }
    }
}

/// An answer is the first byte read that is one; what came before it is skipped.
pub proof fn law_answer_is_first_answer_read(
    timeout: Duration,
    events: Seq<LineEvent>,
    byte: u8,
)
    requires
        response_after(timeout, events) == (ResponseState::Done { result: Ok(Some(byte)) }),
    ensures
        is_answer(byte),
        bytes_read(events).len() > 0,
        bytes_read(events).last() == byte,
        no_answer(bytes_read(events).drop_last()),
{
    lemma_response(timeout, events);
}

proof fn lemma_handshake(timeout: Duration, events: Seq<LineEvent>)
    ensures
        match handshake_after(timeout, events) {
            HandshakeState::Done { result } => result matches Ok(mode) ==> {
                &&& bytes_read(events).len() > 0
                &&& mode_asked_by(bytes_read(events).last()) == Some(mode)
                &&& no_request(bytes_read(events).drop_last())
            },
            HandshakeState::Broken => true,
            _ => no_request(bytes_read(events)),
        },
    decreases events.len(),
{
    if events.len() > 0 {
        let shorter = events.drop_last();
        lemma_handshake(timeout, shorter);
        if let LineEvent::Read { result: Ok(Some(byte)), .. } = events.last() {
            assert(bytes_read(events).drop_last() =~= bytes_read(shorter));
        }
    }
}

/// The check agreed on is the one that the first request read asks for; what came before
/// it is skipped.
pub proof fn law_check_is_first_one_asked_for(
    timeout: Duration,
    events: Seq<LineEvent>,
    mode: ChecksumMode,
)
    requires
        handshake_after(timeout, events) == (HandshakeState::Done { result: Ok(mode) }),
    ensures
        bytes_read(events).len() > 0,
        mode_asked_by(bytes_read(events).last()) == Some(mode),
        no_request(bytes_read(events).drop_last()),
{
    lemma_handshake(timeout, events);
}

/// Whether the bytes are a frame, or the beginning of one, after others that start none.
pub open spec fn ends_with(bytes: Seq<u8>, frame: Seq<u8>) -> bool {
    &&& frame.len() <= bytes.len()
    &&& frame == bytes.skip(bytes.len() - frame.len())
    &&& no_header(bytes.take(bytes.len() - frame.len()))
}

proof fn lemma_frame(mode: ChecksumMode, timeout: Duration, events: Seq<LineEvent>)
    ensures
        match frame_after(mode, timeout, events) {
            FrameState::Inside { frame } => frame.len() > 0 && ends_with(bytes_read(events), frame)
                && frame.len() < frame_len(frame[0], mode) && (frame[0] == SOH || frame[0] == STX),
            FrameState::Reading { frame } => frame.len() > 0 && ends_with(
                bytes_read(events),
                frame,
            ) && frame.len() < frame_len(frame[0], mode) && (frame[0] == SOH || frame[0] == STX),
            FrameState::Done { result } => result matches Ok(Some(frame)) ==> {
                &&& frame.len() > 0
                &&& frame.len() == frame_len(frame[0], mode)
                &&& frame[0] == SOH || frame[0] == STX
                &&& ends_with(bytes_read(events), frame)
            },
            FrameState::Broken => true,
            _ => no_header(bytes_read(events)),
        },
    decreases events.len(),
{
    if events.len() > 0 {
        let shorter = events.drop_last();
        let before = bytes_read(shorter);
        let after = bytes_read(events);
        lemma_frame(mode, timeout, shorter);
        if let LineEvent::Read { result: Ok(Some(byte)), .. } = events.last() {
            match frame_after(mode, timeout, shorter) {
                FrameState::Listening { .. } => {
                    assert(after.take(after.len() - 1) =~= before);
                    assert(after.skip(after.len() - 1) =~= seq![byte]);
                },
                FrameState::Reading { frame } => {
                    let longer = frame.push(byte);
                    assert(after.take(after.len() - longer.len()) =~= before.take(
                        before.len() - frame.len(),
                    ));
                    assert(after.skip(after.len() - longer.len()) =~= longer);
                },
                _ => {},
            }
        }
    }
}

/// A frame is made of the bytes read from the first that can start one; it has the length
/// that this byte and the check announce. What came before it is skipped.
pub proof fn law_frame_starts_at_first_header(
    mode: ChecksumMode,
    timeout: Duration,
    events: Seq<LineEvent>,
    frame: Seq<u8>,
)
    requires
        frame_after(mode, timeout, events) == (FrameState::Done { result: Ok(Some(frame)) }),
    ensures
        frame.len() > 0,
        frame[0] == SOH || frame[0] == STX,
        frame.len() == frame_len(frame[0], mode),
        ends_with(bytes_read(events), frame),
{
    lemma_frame(mode, timeout, events);
}

proof fn lemma_rest(mode: ChecksumMode, header: u8, events: Seq<LineEvent>)
    ensures
        match rest_after(mode, header, events) {
            RestState::Reading { frame } => frame == seq![header] + bytes_read(events)
                && frame.len() < frame_len(header, mode),
            RestState::Done { result } => result matches Some(frame) ==> {
                &&& frame == seq![header] + bytes_read(events)
                &&& frame.len() == frame_len(header, mode)
            },
            RestState::Broken => true,
        },
    decreases events.len(),
{
    if events.len() == 0 {
        assert(seq![header] =~= seq![header] + bytes_read(events));
    } else {
        let shorter = events.drop_last();
        lemma_rest(mode, header, shorter);
        if let LineEvent::Read { result: Ok(Some(byte)), .. } = events.last() {
            assert((seq![header] + bytes_read(shorter)).push(byte) =~= seq![header] + bytes_read(
                events,
            ));
        }
    }
}

/// A frame of which the first byte was known is that byte and all bytes read after it; it
/// has the length that this byte and the check announce.
pub proof fn law_frame_is_header_and_what_follows(
    mode: ChecksumMode,
    header: u8,
    events: Seq<LineEvent>,
    frame: Seq<u8>,
)
    requires
        rest_after(mode, header, events) == (RestState::Done { result: Some(frame) }),
    ensures
        frame == seq![header] + bytes_read(events),
        frame.len() == frame_len(header, mode),
{
    lemma_rest(mode, header, events);
}

/// Whether the event is a read that found nothing.
pub open spec fn found_nothing(event: LineEvent) -> bool {
    event matches LineEvent::Read { result: Ok(None), .. }
}

proof fn lemma_drain(events: Seq<LineEvent>)
    requires
        events.len() < u64::MAX,
    ensures
        match drain_after(events) {
            DrainState::Draining { empty, polls } => {
                &&& polls == events.len()
                &&& empty <= 1
                &&& empty == 1 ==> events.len() > 0 && found_nothing(events.last())
            },
            DrainState::Done => events.len() > 0 && (events.last() matches LineEvent::Read {
                result: Err(_),
                ..
            } || events.len() >= 2 && found_nothing(events.last()) && found_nothing(
                events[events.len() - 2],
            )),
            DrainState::Broken => true,
        },
    decreases events.len(),
{
    if events.len() > 0 {
        lemma_drain(events.drop_last());
    }
}

/// Draining goes on until two reads in a row find nothing, or one fails: a burst of
/// refusals is read to its end. The transcript must be shorter than the limit on waiting.
pub proof fn law_drained_line_is_silent(events: Seq<LineEvent>)
    requires
        drain_after(events) is Done,
        events.len() < u64::MAX,
    ensures
        events.len() > 0,
        (events.last() matches LineEvent::Read { result: Err(_), .. }) || (events.len() >= 2
            && found_nothing(events.last()) && found_nothing(events[events.len() - 2])),
{
    lemma_drain(events);
}

/// A wait that sees that the transfer was cancelled is over, and fails as cancelled. The waits
/// for an answer, for the handshake and for a frame all ask between one read and the next.
pub proof fn law_cancel_ends_the_wait(
    mode: ChecksumMode,
    timeout: Duration,
    events: Seq<LineEvent>,
)
    ensures
        ({
            let seen = events.push(LineEvent::Cancelled { flag: true });
            &&& response_after(timeout, events) is Unanswered ==> response_after(timeout, seen) == (
            ResponseState::Done { result: Err(XmodemError::Cancelled) })
            &&& handshake_after(timeout, events) is Polling ==> handshake_after(timeout, seen) == (
            HandshakeState::Done { result: Err(XmodemError::Cancelled) })
            &&& frame_after(mode, timeout, events) is Polling || frame_after(mode, timeout, events)
                is Inside ==> frame_after(mode, timeout, seen) == (FrameState::Done {
                result: Err(XmodemError::Cancelled),
            })
        }),
{
    assert(events.push(LineEvent::Cancelled { flag: true }).drop_last() =~= events);
}

// ---------------------------------------------------------------------------------------
// Waits, call by call
// ---------------------------------------------------------------------------------------

/// The shorter of the time left of a wait and 200 milliseconds, in nanoseconds.
pub open spec fn short_of(timeout: Duration, elapsed: Duration) -> int {
    if nanos(timeout) - nanos(elapsed) < 200_000_000 {
        nanos(timeout) - nanos(elapsed)
    } else {
        200_000_000
    }
}

/// Whether an event is a look at the time since `start`.
pub open spec fn is_look_at(event: LineEvent, start: LineEvent) -> bool {
    start is Now && event is Clock && event->since == start->now
}

/// Whether a wait for an answer that started with `start` may do `next` right after `last`.
pub open spec fn answer_may_follow(
    timeout: Duration,
    start: LineEvent,
    last: LineEvent,
    next: LineEvent,
) -> bool {
    match last {
        LineEvent::Now { .. } => is_look_at(next, start),
        LineEvent::Clock { elapsed, .. } => nanos(elapsed) < nanos(timeout) && (
        next matches LineEvent::Read { timeout: given, .. } && nanos(given) == short_of(
            timeout,
            elapsed,
        )),
        LineEvent::Read { result, .. } => next is Cancelled && (result matches Ok(byte) && byte
            != Some(0x06u8) && byte != Some(0x15u8) && byte != Some(0x18u8)),
        LineEvent::Cancelled { flag } => !flag && is_look_at(next, start),
        _ => false,
    }
}

spec fn response_inv(timeout: Duration, events: Seq<LineEvent>) -> bool {
    let begun = events.len() > 0 && events[0] is Now;
    let start = events[0]->now;
    match response_after(timeout, events) {
        ResponseState::Starting => events.len() == 0,
        ResponseState::Polling { start: at, polls } => begun && at == start && polls
            <= events.len(),
        ResponseState::Listening { start: at, polls, .. } => begun && at == start && polls
            <= events.len(),
        ResponseState::Unanswered { start: at, polls } => begun && at == start && polls
            <= events.len(),
        ResponseState::Done { .. } => begun,
        ResponseState::Broken => true,
    }
}

proof fn lemma_response_inv(timeout: Duration, events: Seq<LineEvent>)
    ensures
        response_inv(timeout, events),
    decreases events.len(),
{
    if events.len() > 0 {
        lemma_response_inv(timeout, events.drop_last());
    }
}

/// The wait for an answer, call by call: the clock is read once; then, in every round, the time
/// since then is looked at, a read is made for what is left of the time but at most 200
/// milliseconds, and if it gave none of the bytes 6, 0x15 and 24, it is asked whether the
/// transfer was cancelled.
pub proof fn law_rounds_of_wait_for_answer(timeout: Duration, events: Seq<LineEvent>, next: LineEvent)
    requires
        events.len() > 0,
        !(response_after(timeout, events.push(next)) is Broken),
    ensures
        events[0] is Now,
        answer_may_follow(timeout, events[0], events.last(), next),
{
    assert(events.push(next).drop_last() =~= events);
    lemma_response_inv(timeout, events);
    lemma_response_inv(timeout, events.drop_last());
}

/// How the wait for an answer ends: with the byte just read, which is 6, 0x15 or 24; with no
/// answer, when the clock just showed that the time is up; or with a failure of the line, or as
/// cancelled, when it just was. The transcript must be shorter than the limit on waiting.
pub proof fn law_end_of_wait_for_answer(
    timeout: Duration,
    events: Seq<LineEvent>,
    result: Result<Option<u8>, XmodemError>,
)
    requires
        response_after(timeout, events) == (ResponseState::Done { result }),
        events.len() < u64::MAX,
    ensures
        events.len() > 0,
        match result {
            Ok(Some(byte)) => (byte == 0x06 || byte == 0x15 || byte == 0x18) && (
            events.last() matches LineEvent::Read { result: read, .. } && read == result),
            Ok(None) => events.last() is Clock && nanos(events.last()->elapsed) >= nanos(timeout),
            Err(error) => (events.last() matches LineEvent::Read { result: read, .. } && read
                == result) || (events.last() matches LineEvent::Cancelled { flag } && flag && error
                == XmodemError::Cancelled),
        },
{
    lemma_response_inv(timeout, events.drop_last());
}

/// Whether a wait for the handshake that started with `start` may do `next` right after `last`.
pub open spec fn handshake_may_follow(
    timeout: Duration,
    start: LineEvent,
    last: LineEvent,
    next: LineEvent,
) -> bool {
    match last {
        LineEvent::Now { .. } => next is Cancelled,
        LineEvent::Cancelled { flag } => !flag && is_look_at(next, start),
        LineEvent::Clock { elapsed, .. } => nanos(elapsed) < nanos(timeout) && (
        next matches LineEvent::Read { timeout: given, .. } && nanos(given) == 200_000_000),
        LineEvent::Read { result, .. } => next is Cancelled && (result matches Ok(byte) && byte
            != Some(0x43u8) && byte != Some(0x15u8)),
        _ => false,
    }
}

spec fn handshake_inv(timeout: Duration, events: Seq<LineEvent>) -> bool {
    let begun = events.len() > 0 && events[0] is Now;
    let start = events[0]->now;
    match handshake_after(timeout, events) {
        HandshakeState::Starting => events.len() == 0,
        HandshakeState::Polling { start: at, polls } => begun && at == start && polls
            <= events.len(),
        HandshakeState::Timing { start: at, polls } => begun && at == start && polls
            <= events.len(),
        HandshakeState::Listening { start: at, polls } => begun && at == start && polls
            <= events.len(),
        HandshakeState::Done { .. } => begun,
        HandshakeState::Broken => true,
    }
}

proof fn lemma_handshake_inv(timeout: Duration, events: Seq<LineEvent>)
    ensures
        handshake_inv(timeout, events),
    decreases events.len(),
{
    if events.len() > 0 {
        lemma_handshake_inv(timeout, events.drop_last());
    }
}

/// The wait for the handshake, call by call: the clock is read once; then, in every round, it is
/// asked whether the transfer was cancelled, the time since the start is looked at, and a read
/// of 200 milliseconds is made. Bytes other than the letter C and 0x15 are passed over.
pub proof fn law_rounds_of_wait_for_handshake(
    timeout: Duration,
    events: Seq<LineEvent>,
    next: LineEvent,
)
    requires
        events.len() > 0,
        !(handshake_after(timeout, events.push(next)) is Broken),
    ensures
        events[0] is Now,
        handshake_may_follow(timeout, events[0], events.last(), next),
{
    assert(events.push(next).drop_last() =~= events);
    lemma_handshake_inv(timeout, events);
    lemma_handshake_inv(timeout, events.drop_last());
}

/// How the wait for the handshake ends: the letter C asks for CRC, 0x15 for sums; without
/// either, it fails when the clock just showed that the time is up, when the line failed, or
/// when it was cancelled. The transcript must be shorter than the limit on waiting.
pub proof fn law_end_of_wait_for_handshake(
    timeout: Duration,
    events: Seq<LineEvent>,
    result: Result<ChecksumMode, XmodemError>,
)
    requires
        handshake_after(timeout, events) == (HandshakeState::Done { result }),
        events.len() < u64::MAX,
    ensures
        events.len() > 0,
        match result {
            Ok(mode) => events.last() matches LineEvent::Read { result: Ok(Some(byte)), .. } && byte
                == match mode {
                ChecksumMode::Crc => 0x43u8,
                ChecksumMode::Checksum => 0x15u8,
            },
            Err(error) => match events.last() {
                LineEvent::Read { result: read, .. } => read == Err::<Option<u8>, XmodemError>(
                    error,
                ),
                LineEvent::Cancelled { flag } => flag && error == XmodemError::Cancelled,
                LineEvent::Clock { elapsed, .. } => nanos(elapsed) >= nanos(timeout) && error
                    == XmodemError::Timeout,
                _ => false,
            },
        },
{
    lemma_handshake_inv(timeout, events.drop_last());
}

/// The length of a packet that starts with this byte: 2 stands for 1024 bytes of data, 1 for 128.
pub open spec fn announced_len(header: u8, mode: ChecksumMode) -> int {
    3 + (if header == 0x02 {
        1024int
    } else {
        128int
    }) + match mode {
        ChecksumMode::Crc => 2int,
        ChecksumMode::Checksum => 1int,
    }
}

/// Whether a wait for a frame that started with `start` may do `next` right after `last`, when
/// the bytes in `frame` were read of it.
pub open spec fn frame_may_follow(
    timeout: Duration,
    start: LineEvent,
    frame: Seq<u8>,
    last: LineEvent,
    next: LineEvent,
) -> bool {
    match last {
        LineEvent::Now { .. } => next is Cancelled,
        LineEvent::Cancelled { flag } => !flag && if frame.len() == 0 {
            is_look_at(next, start)
        } else {
            next matches LineEvent::Read { timeout: given, .. } && nanos(given) == 500_000_000
        },
        LineEvent::Clock { elapsed, .. } => nanos(elapsed) < nanos(timeout) && (
        next matches LineEvent::Read { timeout: given, .. } && nanos(given) == short_of(
            timeout,
            elapsed,
        )),
        LineEvent::Read { result, .. } => next is Cancelled && result is Ok,
        _ => false,
    }
}

/// The bytes from the first 1 or 2 on.
pub open spec fn from_header(bytes: Seq<u8>) -> Seq<u8>
    decreases bytes.len(),
{
    if bytes.len() == 0 || bytes[0] == 0x01 || bytes[0] == 0x02 {
        bytes
    } else {
        from_header(bytes.skip(1))
    }
}

proof fn lemma_from_header_push(bytes: Seq<u8>, byte: u8)
    ensures
        from_header(bytes.push(byte)) == if from_header(bytes).len() > 0 || byte == 0x01 || byte
            == 0x02 {
            from_header(bytes).push(byte)
        } else {
            Seq::empty()
        },
    decreases bytes.len(),
{
    if bytes.len() == 0 {
        assert(bytes.push(byte).skip(1) =~= Seq::empty());
        assert(from_header(Seq::<u8>::empty()) == Seq::<u8>::empty());
    } else if bytes[0] != 0x01 && bytes[0] != 0x02 {
        lemma_from_header_push(bytes.skip(1), byte);
        assert(bytes.push(byte).skip(1) =~= bytes.skip(1).push(byte));
    }
}

spec fn frame_inv(mode: ChecksumMode, timeout: Duration, events: Seq<LineEvent>) -> bool {
    let begun = events.len() > 0 && events[0] is Now;
    let start = events[0]->now;
    let frame = from_header(bytes_read(events));
    match frame_after(mode, timeout, events) {
        FrameState::Starting => events.len() == 0,
        FrameState::Polling { start: at, polls } => begun && at == start && polls <= events.len()
            && frame.len() == 0,
        FrameState::Timing { start: at, polls } => begun && at == start && polls <= events.len()
            && frame.len() == 0,
        FrameState::Listening { start: at, polls, .. } => begun && at == start && polls
            <= events.len() && frame.len() == 0,
        FrameState::Inside { frame: so_far } => begun && so_far == frame && 0 < frame.len()
            < announced_len(frame[0], mode),
        FrameState::Reading { frame: so_far } => begun && so_far == frame && 0 < frame.len()
            < announced_len(frame[0], mode),
        FrameState::Done { result } => begun && (result matches Ok(Some(whole)) ==> whole == frame
            && frame.len() == announced_len(frame[0], mode)),
        FrameState::Broken => true,
    }
}

proof fn lemma_frame_inv(mode: ChecksumMode, timeout: Duration, events: Seq<LineEvent>)
    ensures
        frame_inv(mode, timeout, events),
    decreases events.len(),
{
    if events.len() > 0 {
        let shorter = events.drop_last();
        lemma_frame_inv(mode, timeout, shorter);
        if shorter.len() == 0 {
            assert(bytes_read(shorter) =~= Seq::empty());
            assert(from_header(bytes_read(shorter)).len() == 0);
        }
        if let LineEvent::Read { result: Ok(Some(byte)), .. } = events.last() {
            lemma_from_header_push(bytes_read(shorter), byte);
            if from_header(bytes_read(shorter)).len() == 0 {
                assert(from_header(bytes_read(shorter)).push(byte) =~= seq![byte]);
            }
        }
    }
}

/// The wait for a frame, call by call: in every round it is asked whether the transfer was
/// cancelled; while no byte 1 or 2 has come, the time since the start is looked at and a read is
/// made for what is left of it but at most 200 milliseconds; after that every byte is given 500
/// milliseconds.
pub proof fn law_rounds_of_wait_for_frame(
    mode: ChecksumMode,
    timeout: Duration,
    events: Seq<LineEvent>,
    next: LineEvent,
)
    requires
        events.len() > 0,
        !(frame_after(mode, timeout, events.push(next)) is Broken),
    ensures
        events[0] is Now,
        frame_may_follow(
            timeout,
            events[0],
            from_header(bytes_read(events)),
            events.last(),
            next,
        ),
{
    assert(events.push(next).drop_last() =~= events);
    lemma_frame_inv(mode, timeout, events);
    lemma_frame_inv(mode, timeout, events.drop_last());
}

/// How the wait for a frame ends: with all bytes from the first 1 or 2 on, as many as that byte
/// and the check announce; with nothing, when the clock just showed that the time is up before
/// the frame began, or when a byte inside it did not come; or with a failure of the line, or as
/// cancelled. The transcript must be shorter than the limit on waiting.
pub proof fn law_end_of_wait_for_frame(
    mode: ChecksumMode,
    timeout: Duration,
    events: Seq<LineEvent>,
    result: Result<Option<Seq<u8>>, XmodemError>,
)
    requires
        frame_after(mode, timeout, events) == (FrameState::Done { result }),
        events.len() < u64::MAX,
    ensures
        events.len() > 0,
        ({
            let frame = from_header(bytes_read(events));
            match result {
                Ok(Some(whole)) => whole == frame && frame.len() > 0 && frame.len()
                    == announced_len(frame[0], mode),
                Ok(None) => match events.last() {
                    LineEvent::Clock { elapsed, .. } => nanos(elapsed) >= nanos(timeout)
                        && frame.len() == 0,
                    LineEvent::Read { result: read, .. } => read == Ok::<Option<u8>, XmodemError>(
                        None,
                    ) && frame.len() > 0,
                    _ => false,
                },
                Err(error) => match events.last() {
                    LineEvent::Read { result: read, .. } => read == Err::<Option<u8>, XmodemError>(
                        error,
                    ),
                    LineEvent::Cancelled { flag } => flag && error == XmodemError::Cancelled,
                    _ => false,
                },
            }
        }),
{
    lemma_frame_inv(mode, timeout, events);
    lemma_frame_inv(mode, timeout, events.drop_last());
}

/// The rest of a frame, once its first byte is known: every byte is given 500 milliseconds. It
/// ends with as many bytes as the first one and the check announce, or with nothing when one did
/// not come.
pub proof fn law_rest_of_a_frame(
    mode: ChecksumMode,
    header: u8,
    events: Seq<LineEvent>,
)
    requires
        !(rest_after(mode, header, events) is Broken),
    ensures
        forall|i: int|
            0 <= i < events.len() ==> (#[trigger] events[i] matches LineEvent::Read { timeout, .. }
                && nanos(timeout) == 500_000_000),
        match rest_after(mode, header, events) {
            RestState::Done { result: Some(frame) } => frame == seq![header] + bytes_read(events)
                && frame.len() == announced_len(header, mode) && bytes_read(events).len()
                == events.len(),
            RestState::Done { result: None } => events.len() > 0 && !(
            events.last() matches LineEvent::Read { result: Ok(Some(_)), .. }),
            RestState::Reading { frame } => frame == seq![header] + bytes_read(events)
                && frame.len() < announced_len(header, mode) && bytes_read(events).len()
                == events.len(),
            RestState::Broken => false,
        },
    decreases events.len(),
{
    if events.len() == 0 {
        assert(seq![header] + bytes_read(events) =~= seq![header]);
    } else {
        let shorter = events.drop_last();
        law_rest_of_a_frame(mode, header, shorter);
        assert forall|i: int| 0 <= i < events.len() implies (#[trigger] events[
            i] matches LineEvent::Read { timeout, .. } && nanos(timeout) == 500_000_000) by {
            if i < shorter.len() {
                assert(shorter[i] == events[i]);
            }
        }
        if let LineEvent::Read { result: Ok(Some(byte)), .. } = events.last() {
            assert(seq![header] + bytes_read(events) =~= (seq![header] + bytes_read(shorter)).push(
                byte,
            ));
        }
    }
}

/// Draining makes reads of one millisecond and nothing else, and goes on after every byte.
pub proof fn law_reads_of_draining(events: Seq<LineEvent>, next: LineEvent)
    requires
        !(drain_after(events.push(next)) is Broken),
    ensures
        next matches LineEvent::Read { timeout, .. } && nanos(timeout) == 1_000_000,
        next matches LineEvent::Read { result: Ok(Some(_)), .. } && events.len() + 1 < u64::MAX
            ==> !(drain_after(events.push(next)) is Done),
{
    assert(events.push(next).drop_last() =~= events);
    lemma_drain_polls(events);
}

proof fn lemma_drain_polls(events: Seq<LineEvent>)
    ensures
        drain_after(events) matches DrainState::Draining { polls, .. } ==> polls <= events.len(),
    decreases events.len(),
{
    if events.len() > 0 {
        lemma_drain_polls(events.drop_last());
    }
}

} // verus!
