//! What a receive says to the sender, byte by byte, and what it makes of what it hears.

use super::line::{nanos, LineEvent};
use super::packet::joined;
use super::receive_laws::{
    blocks_of, failed_with, frame_of, in_sequence, law_received_is_what_was_taken, lemma_inv,
    lemma_refusals, refusals, taken, takes,
};
use super::receiver::{
    intact, receive_after, receive_step, received_data, ReceiveJob, ReceiveState,
};
use super::send_laws::is_write;
use super::sender::{cancel_bytes, packet_number};
use super::transfer::TransferEvent;
use super::wait::{frame_result, rest_result};
use super::wire_laws::{
    law_only_filling_is_stripped, law_only_packets_that_pass_are_good, passes,
};
use super::{ChecksumMode, Progress, XmodemError};
use std::time::Instant;
use vstd::prelude::*;

verus! {

/// A beginning of a transcript is one too.
proof fn lemma_prefix(job: ReceiveJob, events: Seq<TransferEvent>, len: int)
    requires
        !(receive_after(job, events) is Broken),
        0 <= len <= events.len(),
    ensures
        !(receive_after(job, events.take(len)) is Broken),
    decreases events.len(),
{
    if len == events.len() {
        assert(events.take(len) =~= events);
    } else {
        lemma_prefix(job, events.drop_last(), len);
        assert(events.drop_last().take(len) =~= events.take(len));
    }
}

/// One more event.
proof fn lemma_next(job: ReceiveJob, events: Seq<TransferEvent>, event: TransferEvent)
    ensures
        receive_after(job, events.push(event)) == receive_step(
            job,
            receive_after(job, events),
            event,
        ),
{
    assert(events.push(event).drop_last() =~= events);
}

/// An event in the middle.
proof fn lemma_at(job: ReceiveJob, events: Seq<TransferEvent>, i: int)
    requires
        !(receive_after(job, events) is Broken),
        0 <= i < events.len(),
    ensures
        receive_after(job, events.take(i + 1)) == receive_step(
            job,
            receive_after(job, events.take(i)),
            events[i],
        ),
        !(receive_after(job, events.take(i + 1)) is Broken),
        !(receive_after(job, events.take(i)) is Broken),
{
    assert(events.take(i + 1).drop_last() =~= events.take(i));
    lemma_prefix(job, events, i + 1);
    lemma_prefix(job, events, i);
}

// ---------------------------------------------------------------------------------------
// Asking for the first packet
// ---------------------------------------------------------------------------------------

/// The byte that asks for the first packet: the letter C for CRC, 0x15 for sums.
pub open spec fn asking_byte(mode: ChecksumMode) -> u8 {
    match mode {
        ChecksumMode::Crc => 0x43,
        ChecksumMode::Checksum => 0x15,
    }
}

/// When the first packet was last asked for: the reading of the clock right after a write.
pub open spec fn last_request(events: Seq<TransferEvent>) -> Option<Instant>
    decreases events.len(),
{
    if events.len() < 2 {
        None
    } else {
        match (events[events.len() - 2], events.last()) {
            (
                TransferEvent::Line(LineEvent::Write { .. }),
                TransferEvent::Line(LineEvent::Now { now }),
            ) => Some(now),
            _ => last_request(events.drop_last()),
        }
    }
}

/// Whether an event is a look at how long ago a reading of the clock was.
pub open spec fn is_look(event: TransferEvent) -> bool {
    event is Line && event->Line_0 is Clock
}

/// Whether an event asks if the transfer was cancelled.
pub open spec fn is_cancel_check(event: TransferEvent) -> bool {
    event is Line && event->Line_0 is Cancelled
}

/// Whether the clock was read at the start, and showed this.
pub open spec fn started_at(events: Seq<TransferEvent>, start: Instant) -> bool {
    events.len() >= 2 && events[1] == TransferEvent::Line(LineEvent::Now { now: start })
}

/// What a state knows of the last request.
spec fn request_inv(job: ReceiveJob, events: Seq<TransferEvent>) -> bool {
    let asked = last_request(events);
    let last = events.last();
    match receive_after(job, events) {
        ReceiveState::Start => asked is None && events.len() == 0,
        ReceiveState::Starting => asked is None && events.len() == 1 && last is Line && last->Line_0
            is Flush,
        ReceiveState::Announcing { start } => asked is None && started_at(events, start),
        ReceiveState::Polling { wait } => asked == wait.asked && !is_look(last) && started_at(
            events,
            wait.start,
        ),
        ReceiveState::Timing { wait } => asked == wait.asked && is_cancel_check(last)
            && started_at(events, wait.start),
        ReceiveState::Spacing { wait, asked: at } => asked == wait.asked && asked == Some(at)
            && is_look(last) && started_at(events, wait.start),
        ReceiveState::Asking { wait } => asked == wait.asked && is_look(last) && started_at(
            events,
            wait.start,
        ),
        ReceiveState::Noting { wait } => asked == wait.asked && last is Line && last->Line_0
            is Write && started_at(events, wait.start),
        ReceiveState::Seeking { wait } => asked == wait.asked && started_at(events, wait.start),
        ReceiveState::FirstRefusing { wait } => asked == wait.asked && started_at(
            events,
            wait.start,
        ),
        _ => true,
    }
}

proof fn lemma_request(job: ReceiveJob, events: Seq<TransferEvent>)
    ensures
        request_inv(job, events),
    decreases events.len(),
{
    if events.len() > 0 {
        let shorter = events.drop_last();
        lemma_request(job, shorter);
        if events.len() >= 2 {
            assert(events[events.len() - 2] == shorter.last());
        }
        if shorter.len() >= 2 {
            assert(shorter[1] == events[1]);
        }
    }
}

/// The first packet is asked for at once, and again whenever the last request was three seconds
/// ago. In every round the clock is looked at: first for the time since the start, and the wait
/// is over when that is too long; then, once a request was made, for the time since the last
/// one. What follows at once is a request, when there was none or the last one was at least
/// three seconds ago, and otherwise a wait for the packet. A request that was made is followed
/// by a new reading of the clock.
pub proof fn law_first_packet_is_asked_for_again(
    job: ReceiveJob,
    events: Seq<TransferEvent>,
    i: int,
)
    requires
        !(receive_after(job, events) is Broken),
        1 <= i,
        i + 1 < events.len(),
        is_look(events[i]),
    ensures
        ({
            let since = events[i]->Line_0->since;
            let elapsed = events[i]->Line_0->elapsed;
            let next = events[i + 1];
            let request = seq![asking_byte(job.mode)];
            if is_look(events[i - 1]) {
                &&& last_request(events.take(i)) == Some(since)
                &&& if nanos(elapsed) >= 3_000_000_000 {
                    is_write(next, request)
                } else {
                    next is Frame
                }
            } else {
                &&& is_cancel_check(events[i - 1])
                &&& started_at(events, since)
                &&& nanos(elapsed) < nanos(job.handshake_timeout)
                &&& match last_request(events.take(i)) {
                    None => is_write(next, request),
                    Some(asked) => is_look(next) && next->Line_0->since == asked,
                }
            }
        }),
        events[i + 1] is Line && events[i + 1]->Line_0 is Write && i + 2 < events.len()
            ==> events[i + 2] is Line && events[i + 2]->Line_0 is Now,
{
    lemma_at(job, events, i);
    lemma_at(job, events, i + 1);
    lemma_request(job, events.take(i));
    assert(events.take(i).last() == events[i - 1]);
    if i + 2 < events.len() {
        lemma_at(job, events, i + 2);
    }
}

/// What follows the question whether the transfer was cancelled, in every round: three bytes 24
/// if it was; before the first packet a look at the clock; after it a read, as long as was asked
/// for.
pub proof fn law_rounds_of_a_receive(job: ReceiveJob, events: Seq<TransferEvent>, i: int)
    requires
        !(receive_after(job, events) is Broken),
        0 <= i,
        i + 1 < events.len(),
        is_cancel_check(events[i]),
    ensures
        ({
            let next = events[i + 1];
            if events[i]->Line_0->flag {
                is_write(next, seq![0x18u8, 0x18u8, 0x18u8])
            } else if taken(job, events.take(i)).len() == 0 {
                is_look(next)
            } else {
                next matches TransferEvent::Line(LineEvent::Read { timeout, .. }) && timeout
                    == job.packet_timeout
            }
        }),
{
    lemma_at(job, events, i);
    lemma_at(job, events, i + 1);
    lemma_inv(job, events.take(i));
    assert(cancel_bytes() =~= seq![0x18u8, 0x18u8, 0x18u8]);
}

/// How a receive starts: pending input is dropped, the clock is read, the wait is announced.
pub proof fn law_start_of_a_receive(job: ReceiveJob, events: Seq<TransferEvent>)
    requires
        !(receive_after(job, events) is Broken),
        events.len() >= 4,
    ensures
        events[0] is Line && events[0]->Line_0 is Flush,
        events[1] is Line && events[1]->Line_0 is Now,
        events[2] == TransferEvent::Report(Progress::WaitingSender),
        is_cancel_check(events[3]),
{
    assert(events.take(0) =~= Seq::empty());
    assert(receive_after(job, events.take(0)) is Start);
    lemma_at(job, events, 0);
    lemma_at(job, events, 1);
    lemma_at(job, events, 2);
    lemma_at(job, events, 3);
}

/// The first packet is waited for in steps of 300 milliseconds, with the agreed check.
pub proof fn law_waits_for_the_first_packet(job: ReceiveJob, events: Seq<TransferEvent>, i: int)
    requires
        !(receive_after(job, events) is Broken),
        0 <= i < events.len(),
        events[i] is Frame,
    ensures
        events[i]->Frame_mode == job.mode,
        nanos(events[i]->Frame_timeout) == 300_000_000,
        taken(job, events.take(i)).len() == 0,
{
    lemma_at(job, events, i);
    lemma_inv(job, events.take(i));
}

// ---------------------------------------------------------------------------------------
// Answering
// ---------------------------------------------------------------------------------------

/// Whether a frame is a packet, of either size, that passes this check.
pub open spec fn is_good(frame: Seq<u8>, mode: ChecksumMode) -> bool {
    passes(frame, 128, mode) || passes(frame, 1024, mode)
}

/// Every frame is answered. The next packet in order that passes its check is taken and
/// answered by the byte 6; the one taken last, when it comes again, is answered by the byte 6
/// and not taken; any other frame is answered by 0x15 and not taken.
pub proof fn law_every_frame_is_answered(
    job: ReceiveJob,
    events: Seq<TransferEvent>,
    event: TransferEvent,
    next: TransferEvent,
)
    requires
        frame_of(event) is Some,
        !(receive_after(job, events.push(event).push(next)) is Broken),
    ensures
        ({
            let frame = frame_of(event)->0;
            let list = taken(job, events);
            let count = list.len();
            let longer = taken(job, events.push(event));
            if is_good(frame, job.mode) && frame[1] == (count + 1) % 256 {
                longer == list.push(frame) && is_write(next, seq![0x06u8])
            } else if is_good(frame, job.mode) && count > 0 && frame[1] == count % 256 {
                longer == list && is_write(next, seq![0x06u8])
            } else {
                longer == list && is_write(next, seq![0x15u8])
            }
        }),
{
    let frame = frame_of(event)->0;
    lemma_next(job, events, event);
    lemma_next(job, events.push(event), next);
    lemma_inv(job, events);
    law_only_packets_that_pass_are_good(frame, job.mode);
    assert(events.push(event).drop_last() =~= events);
    assert(events.push(event).last() == event);
    assert(takes(job, receive_after(job, events), frame) <==> is_good(frame, job.mode) && frame[1]
        == (taken(job, events).len() + 1) % 256);
}

/// What the first byte after a question about cancelling leads to, once a packet was taken:
/// silence is answered by 0x15, the byte 4 by the byte 6; after 24 another read shows whether
/// it is meant; 1 and 2 start a frame; any other byte is passed over.
pub proof fn law_first_byte_decides(
    job: ReceiveJob,
    events: Seq<TransferEvent>,
    event: TransferEvent,
    next: TransferEvent,
)
    requires
        events.len() > 0,
        is_cancel_check(events.last()),
        taken(job, events).len() > 0,
        !(receive_after(job, events.push(event).push(next)) is Broken),
        event is Line && event->Line_0 is Read,
    ensures
        event->Line_0->Read_result is Ok,
        match event->Line_0->Read_result->Ok_0 {
            None => is_write(next, seq![0x15u8]),
            Some(byte) => if byte == 0x04 {
                is_write(next, seq![0x06u8])
            } else if byte == 0x18 {
                next matches TransferEvent::Line(LineEvent::Read { timeout, .. }) && nanos(timeout)
                    == 200_000_000
            } else if byte == 0x01 || byte == 0x02 {
                next matches TransferEvent::FrameRest { mode, header, .. } && mode == job.mode
                    && header == byte
            } else {
                is_cancel_check(next)
            },
        },
{
    lemma_next(job, events, event);
    lemma_next(job, events.push(event), next);
    lemma_inv(job, events.drop_last());
    assert(taken(job, events) == taken(job, events.drop_last()));
}

/// A receive succeeds only at the byte 4, which it answers by the byte 6; it then reads once
/// more, for 200 milliseconds, and reports the end.
pub proof fn law_success_ends_with_byte_4(job: ReceiveJob, events: Seq<TransferEvent>)
    requires
        receive_after(job, events) matches ReceiveState::Done { result } && result is Ok,
    ensures
        events.len() >= 4,
        ({
            let len = events.len() as int;
            &&& events[len - 4] matches TransferEvent::Line(
                LineEvent::Read { timeout, result: Ok(Some(byte)) },
            ) && timeout == job.packet_timeout && byte == 0x04
            &&& is_write(events[len - 3], seq![0x06u8])
            &&& events[len - 2] matches TransferEvent::Line(LineEvent::Read { timeout, .. })
                && nanos(timeout) == 200_000_000
            &&& events[len - 1] is Report && events[len - 1]->Report_0 is Finished
        }),
{
    let len = events.len() as int;
    let e1 = events.drop_last();
    let e2 = e1.drop_last();
    let e3 = e2.drop_last();
    let e4 = e3.drop_last();
    assert(receive_after(job, e1) is Finishing);
    assert(receive_after(job, e2) is Lingering);
    assert(receive_after(job, e3) is Ending);
    assert(receive_after(job, e4) is Probing);
}

/// A receive writes one byte or three: what asks for the first packet, 6, 0x15, or three times
/// 24. It asks only before the first packet was taken.
pub proof fn law_what_a_receive_writes(job: ReceiveJob, events: Seq<TransferEvent>, i: int)
    requires
        !(receive_after(job, events) is Broken),
        0 <= i < events.len(),
        events[i] is Line && events[i]->Line_0 is Write,
    ensures
        is_write(events[i], seq![0x06u8]) || is_write(events[i], seq![0x15u8]) || is_write(
            events[i],
            seq![0x18u8, 0x18u8, 0x18u8],
        ) || is_write(events[i], seq![asking_byte(job.mode)]) && taken(job, events.take(i)).len()
            == 0,
{
    lemma_at(job, events, i);
    lemma_inv(job, events.take(i));
    assert(cancel_bytes() =~= seq![0x18u8, 0x18u8, 0x18u8]);
}

// ---------------------------------------------------------------------------------------
// The file
// ---------------------------------------------------------------------------------------

/// The data bytes of packets, one packet after the other: 1024 from each that starts with 2,
/// 128 from each other.
pub open spec fn data_of(list: Seq<Seq<u8>>) -> Seq<u8>
    decreases list.len(),
{
    if list.len() == 0 {
        Seq::empty()
    } else {
        data_of(list.drop_last()) + list.last().subrange(
            3,
            if list.last()[0] == 0x02 {
                1027
            } else {
                131
            },
        )
    }
}

proof fn lemma_data_of(mode: ChecksumMode, list: Seq<Seq<u8>>)
    requires
        in_sequence(mode, list),
    ensures
        joined(blocks_of(mode, list)) == data_of(list),
    decreases list.len(),
{
    let blocks = blocks_of(mode, list);
    if list.len() > 0 {
        let shorter = list.drop_last();
        assert forall|i: int| 0 <= i < shorter.len() implies {
            &&& intact(#[trigger] shorter[i], mode) is Some
            &&& (intact(shorter[i], mode)->0).0 == packet_number(i)
        } by {
            assert(shorter[i] == list[i]);
        }
        lemma_data_of(mode, shorter);
        assert(blocks.drop_last() =~= blocks_of(mode, shorter));
        assert(intact(list[list.len() - 1], mode) is Some);
        law_only_packets_that_pass_are_good(list.last(), mode);
    }
}

/// What a receive returns is the data of the packets that it took, one after the other, without
/// the bytes 0x1A at the end. The packets pass their check and are numbered 1, 2, 3 and so on,
/// with eight bits.
pub proof fn law_file_is_the_data_of_the_packets(
    job: ReceiveJob,
    events: Seq<TransferEvent>,
    data: Seq<u8>,
)
    requires
        receive_after(job, events) == (ReceiveState::Done { result: Ok(data) }),
    ensures
        ({
            let list = taken(job, events);
            let all = data_of(list);
            &&& list.len() > 0
            &&& forall|i: int|
                0 <= i < list.len() ==> is_good(#[trigger] list[i], job.mode) && list[i][1] == (i
                    + 1) % 256
            &&& data.is_prefix_of(all)
            &&& forall|i: int| data.len() <= i < all.len() ==> #[trigger] all[i] == 0x1A
            &&& data.len() > 0 ==> data.last() != 0x1A
        }),
{
    let list = taken(job, events);
    law_received_is_what_was_taken(job, events);
    lemma_data_of(job.mode, list);
    law_only_filling_is_stripped(data_of(list));
    assert forall|i: int| 0 <= i < list.len() implies is_good(#[trigger] list[i], job.mode)
        && list[i][1] == (i + 1) % 256 by {
        assert(intact(list[i], job.mode) is Some);
        law_only_packets_that_pass_are_good(list[i], job.mode);
    }
}

// ---------------------------------------------------------------------------------------
// Giving up
// ---------------------------------------------------------------------------------------

/// A receive is given up for too many attempts only after eleven refusals with no packet taken
/// in between, or when it has taken as many packets as it may; the sender is then told, with
/// three bytes 24.
pub proof fn law_receive_given_up(job: ReceiveJob, events: Seq<TransferEvent>, limit: u32)
    requires
        receive_after(job, events) == (ReceiveState::Done {
            result: Err(XmodemError::TooManyRetries(limit)),
        }),
    ensures
        events.len() > 0,
        failed_with(events.last(), XmodemError::TooManyRetries(limit)) || is_write(
            events.last(),
            seq![0x18u8, 0x18u8, 0x18u8],
        ) && (limit == 10 && refusals(job, events) == 11 || limit == job.max_packets && limit > 0
            && taken(job, events).len() % 0x1_0000_0000 == limit),
{
    let shorter = events.drop_last();
    assert(cancel_bytes() =~= seq![0x18u8, 0x18u8, 0x18u8]);
    lemma_inv(job, shorter);
    lemma_refusals(job, shorter);
    if receive_after(job, shorter) is Aborting {
        let before = shorter.drop_last();
        lemma_inv(job, before);
        lemma_refusals(job, before);
        assert(receive_after(job, shorter) == receive_step(
            job,
            receive_after(job, before),
            shorter.last(),
        ));
    }
}

/// After a refusal, once a packet was taken, a receive goes on with the next round as long as
/// there were at most ten since then, and otherwise tells the sender that it gives up.
pub proof fn law_ten_refusals_are_allowed(
    job: ReceiveJob,
    events: Seq<TransferEvent>,
    next: TransferEvent,
)
    requires
        events.len() > 0,
        is_write(events.last(), seq![0x15u8]),
        taken(job, events).len() > 0,
        !(receive_after(job, events.push(next)) is Broken),
    ensures
        if refusals(job, events) <= 10 {
            is_cancel_check(next)
        } else {
            is_write(next, seq![0x18u8, 0x18u8, 0x18u8])
        },
{
    let shorter = events.drop_last();
    lemma_next(job, events, next);
    lemma_inv(job, shorter);
    lemma_refusals(job, shorter);
    lemma_refusals(job, events);
    assert(taken(job, events) == taken(job, shorter));
    assert(cancel_bytes() =~= seq![0x18u8, 0x18u8, 0x18u8]);
    assert(seq![0x15u8][0] != seq![0x06u8][0]);
    assert(cancel_bytes().len() != seq![0x15u8].len());
}

/// Once as many packets were reported as are allowed, the sender is told that the transfer is
/// off, and the receive fails with that number; until then the next round follows.
pub proof fn law_limit_ends_a_receive(
    job: ReceiveJob,
    events: Seq<TransferEvent>,
    next: TransferEvent,
)
    requires
        events.len() > 0,
        events.last() is Report && events.last()->Report_0 is Received,
        !(receive_after(job, events.push(next)) is Broken),
    ensures
        if 0 < job.max_packets <= events.last()->Report_0->Received_packets {
            &&& is_write(next, seq![0x18u8, 0x18u8, 0x18u8])
            &&& receive_after(job, events.push(next)) == (ReceiveState::Done {
                result: Err(XmodemError::TooManyRetries(job.max_packets)),
            })
        } else {
            is_cancel_check(next)
        },
{
    let shorter = events.drop_last();
    lemma_next(job, events, next);
    lemma_refusals(job, shorter);
    assert(cancel_bytes() =~= seq![0x18u8, 0x18u8, 0x18u8]);
}

/// Three bytes 24, read one after the other at the start of a round, end a receive as cancelled
/// by the sender, and nothing is written.
pub proof fn law_three_bytes_24_end_a_receive(
    job: ReceiveJob,
    events: Seq<TransferEvent>,
    first: TransferEvent,
    second: TransferEvent,
    third: TransferEvent,
)
    requires
        events.len() > 0,
        is_cancel_check(events.last()),
        taken(job, events).len() > 0,
        is_byte_24(first),
        is_byte_24(second),
        is_byte_24(third),
        !(receive_after(job, events.push(first).push(second).push(third)) is Broken),
    ensures
        receive_after(job, events.push(first).push(second).push(third)) == (ReceiveState::Done {
            result: Err(XmodemError::RemoteCancel),
        }),
{
    lemma_next(job, events, first);
    lemma_next(job, events.push(first), second);
    lemma_next(job, events.push(first).push(second), third);
    lemma_inv(job, events.drop_last());
    assert(taken(job, events) == taken(job, events.drop_last()));
}

/// Whether an event is a read that gave the byte 24.
pub open spec fn is_byte_24(event: TransferEvent) -> bool {
    event matches TransferEvent::Line(LineEvent::Read { result: Ok(Some(byte)), .. }) && byte
        == 0x18
}

/// A failure of the line ends a receive at once, with that failure; but not while the sender is
/// told that the transfer is off, nor when the end was already answered.
pub proof fn law_failure_ends_a_receive(
    job: ReceiveJob,
    events: Seq<TransferEvent>,
    error: XmodemError,
)
    requires
        events.len() > 0,
        !(receive_after(job, events) is Broken),
        failed_with(events.last(), error),
        !is_write(events.last(), seq![0x18u8, 0x18u8, 0x18u8]),
    ensures
        receive_after(job, events) == (ReceiveState::Done { result: Err(error) }) || events.len()
            >= 2 && is_write(events[events.len() - 2], seq![0x06u8]),
{
    let shorter = events.drop_last();
    assert(cancel_bytes() =~= seq![0x18u8, 0x18u8, 0x18u8]);
    if receive_after(job, shorter) is Lingering {
        let before = shorter.drop_last();
        assert(receive_after(job, shorter) == receive_step(
            job,
            receive_after(job, before),
            shorter.last(),
        ));
        assert(shorter.last() == events[events.len() - 2]);
    }
}

/// What a state knows of how often the line was asked.
spec fn poll_inv(job: ReceiveJob, events: Seq<TransferEvent>) -> bool {
    match receive_after(job, events) {
        ReceiveState::Polling { wait } => wait.polls <= events.len(),
        ReceiveState::Timing { wait } => wait.polls <= events.len(),
        ReceiveState::Spacing { wait, .. } => wait.polls <= events.len(),
        ReceiveState::Asking { wait } => wait.polls <= events.len(),
        ReceiveState::Noting { wait } => wait.polls <= events.len(),
        ReceiveState::Seeking { wait } => wait.polls <= events.len(),
        ReceiveState::FirstRefusing { wait } => wait.polls <= events.len(),
        ReceiveState::Listening { polls, .. } => polls <= events.len(),
        ReceiveState::Probing { polls, .. } => polls <= events.len(),
        ReceiveState::Doubting { polls, reads, .. } => polls + reads <= events.len(),
        ReceiveState::Reading { polls, .. } => polls <= events.len(),
        ReceiveState::Refusing { polls, .. } => polls <= events.len(),
        ReceiveState::Handling { polls, inner } => polls <= events.len() && !(inner is Done),
        ReceiveState::Aborting { error } => error != XmodemError::Timeout,
        _ => true,
    }
}

proof fn lemma_polls(job: ReceiveJob, events: Seq<TransferEvent>)
    ensures
        poll_inv(job, events),
    decreases events.len(),
{
    if events.len() > 0 {
        lemma_polls(job, events.drop_last());
    }
}

/// A receive gives up for want of time only when the clock showed that the time for the first
/// packet was up, unless the line failed in this way. The transcript must be shorter than the
/// limit on waiting.
pub proof fn law_time_for_the_first_packet(job: ReceiveJob, events: Seq<TransferEvent>)
    requires
        receive_after(job, events) == (ReceiveState::Done { result: Err(XmodemError::Timeout) }),
        events.len() < u64::MAX,
    ensures
        events.len() > 0,
        failed_with(events.last(), XmodemError::Timeout) || is_look(events.last()) && nanos(
            events.last()->Line_0->elapsed,
        ) >= nanos(job.handshake_timeout),
{
    lemma_polls(job, events.drop_last());
}

/// The contents of what is returned are all of it.
pub proof fn law_contents_of_results(
    file: Result<Vec<u8>, XmodemError>,
    frame: Result<Option<Vec<u8>>, XmodemError>,
    rest: Option<Vec<u8>>,
)
    ensures
        received_data(file) is Ok <==> file is Ok,
        file is Ok ==> received_data(file)->Ok_0 == file->Ok_0@,
        file is Err ==> received_data(file)->Err_0 == file->Err_0,
        frame_result(frame) is Ok <==> frame is Ok,
        frame is Ok ==> (frame_result(frame)->Ok_0 is Some <==> frame->Ok_0 is Some),
        frame is Ok && frame->Ok_0 is Some ==> frame_result(frame)->Ok_0->0 == frame->Ok_0->0@,
        frame is Err ==> frame_result(frame)->Err_0 == frame->Err_0,
        rest_result(rest) is Some <==> rest is Some,
        rest is Some ==> rest_result(rest)->0 == rest->0@,
{
}

/// Whether an event is a read from the line.
pub open spec fn is_read_call(event: TransferEvent) -> bool {
    event is Line && event->Line_0 is Read
}

/// After a byte 24, reads of 200 milliseconds follow one another as long as each gives a byte
/// and there were not three bytes 24 in a row; when one gives nothing, the next round follows,
/// and nothing is written.
pub proof fn law_reads_after_byte_24(job: ReceiveJob, events: Seq<TransferEvent>, i: int)
    requires
        !(receive_after(job, events) is Broken),
        1 <= i,
        i + 1 < events.len(),
        is_read_call(events[i - 1]),
        is_read_call(events[i]),
    ensures
        nanos(events[i]->Line_0->Read_timeout) == 200_000_000,
        match events[i]->Line_0->Read_result {
            Ok(None) => is_cancel_check(events[i + 1]),
            Ok(Some(_)) => is_read_call(events[i + 1]) && nanos(
                events[i + 1]->Line_0->Read_timeout,
            ) == 200_000_000 || events.len() >= u64::MAX,
            Err(_) => false,
        },
{
    lemma_at(job, events, i - 1);
    lemma_at(job, events, i);
    lemma_at(job, events, i + 1);
    lemma_polls(job, events.take(i));
}

/// What follows when no frame came: before the first packet the next round, after it a refusal.
pub proof fn law_no_frame_came(job: ReceiveJob, events: Seq<TransferEvent>, i: int)
    requires
        !(receive_after(job, events) is Broken),
        0 <= i,
        i + 1 < events.len(),
    ensures
        events[i] matches TransferEvent::Frame { outcome: Ok(None), .. } ==> is_cancel_check(
            events[i + 1],
        ),
        events[i] matches TransferEvent::FrameRest { outcome: None, .. } ==> is_write(
            events[i + 1],
            seq![0x15u8],
        ),
{
    lemma_at(job, events, i);
    lemma_at(job, events, i + 1);
}

/// What follows an answer. After the byte 6 for a packet that was taken comes a report, of the
/// check for the first and of the packet for the others; after the byte 6 for a packet that came
/// again, the next round; after the byte 6 for the end, one more read. After 0x15 before the
/// first packet, the next round or a reading of the clock. After three bytes 24, nothing.
#[verifier::rlimit(40)]
pub proof fn law_what_follows_an_answer(job: ReceiveJob, events: Seq<TransferEvent>, i: int)
    requires
        !(receive_after(job, events) is Broken),
        1 <= i,
        i + 1 < events.len(),
        events[i] is Line && events[i]->Line_0 is Write,
    ensures
        events[i]->Line_0->Write_result is Ok,
        !is_write(events[i], seq![0x18u8, 0x18u8, 0x18u8]),
        is_write(events[i], seq![0x06u8]) ==> {
            let before = taken(job, events.take(i - 1));
            let now = taken(job, events.take(i));
            let next = events[i + 1];
            if is_read_call(events[i - 1]) {
                is_read_call(next)
            } else if now.len() == before.len() {
                is_cancel_check(next)
            } else if now.len() == 1 {
                next == TransferEvent::Report(Progress::HandshakeDone(job.mode))
            } else {
                next is Report && next->Report_0 is Received
            }
        },
        is_write(events[i], seq![0x15u8]) && taken(job, events.take(i)).len() == 0
            ==> is_cancel_check(events[i + 1]) || events[i + 1] is Line && events[i + 1]->Line_0
            is Now,
{
    lemma_at(job, events, i - 1);
    lemma_at(job, events, i);
    lemma_at(job, events, i + 1);
    lemma_inv(job, events.take(i - 1));
    lemma_inv(job, events.take(i));
    lemma_refusals(job, events.take(i));
    assert(events.take(i).drop_last() =~= events.take(i - 1));
    assert(events.take(i).last() == events[i - 1]);
    assert(cancel_bytes() =~= seq![0x18u8, 0x18u8, 0x18u8]);
    assert(seq![0x06u8][0] != seq![0x15u8][0]);
    assert(seq![0x06u8][0] != seq![0x43u8][0]);
    assert(seq![0x18u8, 0x18u8, 0x18u8].len() != seq![0x06u8].len());
    assert(seq![0x18u8, 0x18u8, 0x18u8].len() != seq![asking_byte(job.mode)].len());
    assert(seq![0x18u8, 0x18u8, 0x18u8].len() != seq![0x15u8].len());
}

} // verus!
