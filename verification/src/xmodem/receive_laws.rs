//! What holds of every run of [`receive`](super::receiver::receive), and of a send and a
//! receive together.

use super::line::{millis_to_nanos, nanos, LineEvent};
use super::checksum::differ_only_at;
use super::packet::{
    header_for, is_payload_len, joined, law_blocks_hold_the_data, law_damaged_packet_is_refused,
    law_packet_parses_back, law_split_then_strip, packet, stripped,
};
use super::receiver::{
    handle_start, handle_step, intact, receive_after, receive_first, receive_step, request_for,
    HandleState, Intake, ReceiveJob, ReceiveState, CANCEL_COUNT, FIRST_FRAME_MILLIS,
};
use super::send_laws::{
    agreed_mode, frames, law_smooth_send_succeeds, law_success_means_all_packets_in_order, smooth,
    without_repeats,
};
use super::sender::{cancel_bytes, packet_number, send_after, SendJob, SendState};
use super::transfer::{reported, written, TransferEvent};
use super::wait::mode_asked_by;
use super::{ChecksumMode, Progress, XmodemError, ACK, EOT, MAX_RETRIES, NAK, SUB};
use std::time::Duration;
use vstd::prelude::*;

verus! {

/// The frame that an event brought, if it brought one.
pub open spec fn frame_of(event: TransferEvent) -> Option<Seq<u8>> {
    match event {
        TransferEvent::Frame { outcome: Ok(Some(frame)), .. } => Some(frame),
        TransferEvent::FrameRest { outcome: Some(frame), .. } => Some(frame),
        _ => None,
    }
}

/// The frames of a transcript that pass their check, in the order in which they came.
pub open spec fn heard(mode: ChecksumMode, events: Seq<TransferEvent>) -> Seq<Seq<u8>>
    decreases events.len(),
{
    if events.len() == 0 {
        Seq::empty()
    } else {
        let before = heard(mode, events.drop_last());
        match frame_of(events.last()) {
            Some(frame) => if intact(frame, mode) is Some {
                before.push(frame)
            } else {
                before
            },
            None => before,
        }
    }
}

/// Whether [`receive`](super::receiver::receive) takes the block of a frame that it reads
/// in this state.
pub open spec fn takes(job: ReceiveJob, state: ReceiveState, frame: Seq<u8>) -> bool {
    match state {
        ReceiveState::Seeking { wait } => receive_first(job, wait, frame) is FirstAccepting,
        ReceiveState::Reading { intake, .. } => handle_start(
            job.mode,
            intake,
            frame,
        ) is Accepting,
        _ => false,
    }
}

/// The frames of a transcript whose blocks were taken.
pub open spec fn taken(job: ReceiveJob, events: Seq<TransferEvent>) -> Seq<Seq<u8>>
    decreases events.len(),
{
    if events.len() == 0 {
        Seq::empty()
    } else {
        let before = taken(job, events.drop_last());
        match frame_of(events.last()) {
            Some(frame) => if takes(job, receive_after(job, events.drop_last()), frame) {
                before.push(frame)
            } else {
                before
            },
            None => before,
        }
    }
}

/// The blocks of frames that pass their check.
pub open spec fn blocks_of(mode: ChecksumMode, list: Seq<Seq<u8>>) -> Seq<Seq<u8>> {
    Seq::new(list.len(), |i: int| (intact(list[i], mode)->0).1)
}

/// Whether frames are packets that pass their check, numbered from 1 on.
pub open spec fn in_sequence(mode: ChecksumMode, list: Seq<Seq<u8>>) -> bool {
    forall|i: int|
        0 <= i < list.len() ==> {
            &&& intact(#[trigger] list[i], mode) is Some
            &&& (intact(list[i], mode)->0).0 == packet_number(i)
        }
}

/// Whether an intake holds the blocks of these frames.
pub open spec fn holds(mode: ChecksumMode, intake: Intake, list: Seq<Seq<u8>>) -> bool {
    &&& list.len() > 0
    &&& intake.data == joined(blocks_of(mode, list))
    &&& intake.expected == packet_number(list.len() as int)
    &&& intake.packets == list.len() % 0x1_0000_0000
    &&& intake.retries <= MAX_RETRIES + 1
}

/// Whether a limit leaves room for more packets after so many.
pub open spec fn has_room(max_packets: u32, count: nat) -> bool {
    max_packets == 0 || count < max_packets
}

/// What holds of the intake of a frame that is being handled.
pub open spec fn handle_inv(job: ReceiveJob, inner: HandleState, list: Seq<Seq<u8>>) -> bool {
    match inner {
        HandleState::Accepting { intake } => holds(job.mode, intake, list) && list.len() > 1
            && has_room(job.max_packets, (list.len() - 1) as nat),
        HandleState::Reporting { intake } => holds(job.mode, intake, list) && list.len() > 1
            && has_room(job.max_packets, (list.len() - 1) as nat),
        HandleState::Capping { intake } => holds(job.mode, intake, list) && has_room(
            job.max_packets,
            (list.len() - 1) as nat,
        ),
        HandleState::Repeating { intake } => holds(job.mode, intake, list) && has_room(
            job.max_packets,
            list.len(),
        ) && intake.retries <= MAX_RETRIES,
        HandleState::Refusing { intake } => holds(job.mode, intake, list) && has_room(
            job.max_packets,
            list.len(),
        ) && intake.retries <= MAX_RETRIES,
        HandleState::Done { .. } => true,
        HandleState::Broken => true,
    }
}

/// What holds of a transcript that has led to a state.
pub open spec fn inv(job: ReceiveJob, events: Seq<TransferEvent>) -> bool {
    let list = taken(job, events);
    let fresh = list.len() == 0;
    &&& in_sequence(job.mode, list) || receive_after(job, events) is Broken
    &&& match receive_after(job, events) {
        ReceiveState::Start => fresh,
        ReceiveState::Starting => fresh,
        ReceiveState::Announcing { .. } => fresh,
        ReceiveState::Polling { .. } => fresh,
        ReceiveState::Timing { .. } => fresh,
        ReceiveState::Spacing { .. } => fresh,
        ReceiveState::Asking { .. } => fresh,
        ReceiveState::Noting { .. } => fresh,
        ReceiveState::Seeking { .. } => fresh,
        ReceiveState::FirstRefusing { .. } => fresh,
        ReceiveState::FirstAccepting { intake } => holds(job.mode, intake, list) && intake.retries
            == 0 && list.len() == 1,
        ReceiveState::Agreeing { intake } => holds(job.mode, intake, list) && intake.retries == 0
            && list.len() == 1,
        ReceiveState::FirstReporting { intake } => holds(job.mode, intake, list) && intake.retries
            == 0 && list.len() == 1,
        ReceiveState::Listening { intake, .. } => holds(job.mode, intake, list) && intake.retries
            <= MAX_RETRIES && has_room(job.max_packets, list.len()),
        ReceiveState::Probing { intake, .. } => holds(job.mode, intake, list) && intake.retries
            <= MAX_RETRIES && has_room(job.max_packets, list.len()),
        ReceiveState::Doubting { intake, .. } => holds(job.mode, intake, list) && intake.retries
            <= MAX_RETRIES && has_room(job.max_packets, list.len()),
        ReceiveState::Reading { intake, .. } => holds(job.mode, intake, list) && intake.retries
            <= MAX_RETRIES && has_room(job.max_packets, list.len()),
        ReceiveState::Refusing { intake, .. } => holds(job.mode, intake, list) && intake.retries
            <= MAX_RETRIES && has_room(job.max_packets, list.len()),
        ReceiveState::Handling { inner, .. } => handle_inv(job, inner, list),
        ReceiveState::Ending { intake } => holds(job.mode, intake, list) && has_room(
            job.max_packets,
            list.len(),
        ),
        ReceiveState::Lingering { intake } => holds(job.mode, intake, list) && has_room(
            job.max_packets,
            list.len(),
        ),
        ReceiveState::Finishing { intake } => holds(job.mode, intake, list) && has_room(
            job.max_packets,
            list.len(),
        ),
        ReceiveState::Done { result } => {
            &&& job.max_packets > 0 ==> list.len() <= job.max_packets
            &&& result matches Ok(data) ==> {
                &&& list.len() > 0
                &&& data == stripped(joined(blocks_of(job.mode, list)))
                &&& has_room(job.max_packets, list.len())
            }
        },
        ReceiveState::Aborting { .. } => job.max_packets > 0 ==> list.len() <= job.max_packets,
        ReceiveState::Broken => true,
    }
}

/// Taking one frame more.
proof fn lemma_take(mode: ChecksumMode, intake: Intake, list: Seq<Seq<u8>>, frame: Seq<u8>)
    requires
        in_sequence(mode, list),
        list.len() == 0 && intake == Intake::empty() || holds(mode, intake, list),
        intact(frame, mode) is Some,
        (intact(frame, mode)->0).0 == intake.expected,
    ensures
        in_sequence(mode, list.push(frame)),
        holds(mode, intake.accept((intact(frame, mode)->0).1), list.push(frame)),
{
    let payload = (intact(frame, mode)->0).1;
    let blocks = blocks_of(mode, list);
    let longer = blocks_of(mode, list.push(frame));
    assert(longer.drop_last() =~= blocks);
    assert(longer.last() == payload);
    if list.len() == 0 {
        assert(joined(blocks) =~= Seq::empty());
    }
    assert(joined(longer) =~= intake.data + payload);
    assert forall|i: int| 0 <= i < list.push(frame).len() implies {
        &&& intact(#[trigger] list.push(frame)[i], mode) is Some
        &&& (intact(list.push(frame)[i], mode)->0).0 == packet_number(i)
    } by {
        if i < list.len() {
            assert(list.push(frame)[i] == list[i]);
        }
    }
}

/// A step that brings a frame.
proof fn lemma_inv_frame(job: ReceiveJob, events: Seq<TransferEvent>, frame: Seq<u8>)
    requires
        events.len() > 0,
        inv(job, events.drop_last()),
        frame_of(events.last()) == Some(frame),
    ensures
        inv(job, events),
{
    let state = receive_after(job, events.drop_last());
    let list = taken(job, events.drop_last());
    if takes(job, state, frame) {
        match state {
            ReceiveState::Seeking { .. } => {
                lemma_take(job.mode, Intake::empty(), list, frame);
            },
            ReceiveState::Reading { intake, .. } => {
                lemma_take(job.mode, intake, list, frame);
            },
            _ => {},
        }
    }
}

/// A step of the handling of a frame.
proof fn lemma_inv_handling(job: ReceiveJob, events: Seq<TransferEvent>)
    requires
        events.len() > 0,
        inv(job, events.drop_last()),
        receive_after(job, events.drop_last()) is Handling,
        frame_of(events.last()) is None,
    ensures
        inv(job, events),
{
}

/// A step that brings no frame.
proof fn lemma_inv_other(job: ReceiveJob, events: Seq<TransferEvent>)
    requires
        events.len() > 0,
        inv(job, events.drop_last()),
        !(receive_after(job, events.drop_last()) is Handling),
        frame_of(events.last()) is None,
    ensures
        inv(job, events),
{
}

/// It holds of every transcript.
pub proof fn lemma_inv(job: ReceiveJob, events: Seq<TransferEvent>)
    ensures
        inv(job, events),
    decreases events.len(),
{
    if events.len() > 0 {
        lemma_inv(job, events.drop_last());
        match frame_of(events.last()) {
            Some(frame) => {
                lemma_inv_frame(job, events, frame);
            },
            None => {
                if receive_after(job, events.drop_last()) is Handling {
                    lemma_inv_handling(job, events);
                } else {
                    lemma_inv_other(job, events);
                }
            },
        }
    }
}

/// The frames whose blocks a receive takes all pass their check and are numbered without a
/// gap from 1 on. What it returns in the end is their blocks, one after the other, without
/// the filling at the end.
pub proof fn law_received_is_what_was_taken(job: ReceiveJob, events: Seq<TransferEvent>)
    requires
        receive_after(job, events) matches ReceiveState::Done { result } && result is Ok,
    ensures
        in_sequence(job.mode, taken(job, events)),
        taken(job, events).len() > 0,
        receive_after(job, events) == (ReceiveState::Done {
            result: Ok(stripped(joined(blocks_of(job.mode, taken(job, events))))),
        }),
{
    lemma_inv(job, events);
}

/// With a limit on the number of packets, a receive never takes more packets than the
/// limit, and one that succeeds has taken fewer.
pub proof fn law_limit_on_packets(job: ReceiveJob, events: Seq<TransferEvent>)
    requires
        job.max_packets > 0,
        receive_after(job, events) is Done,
    ensures
        taken(job, events).len() <= job.max_packets,
        receive_after(job, events)->result is Ok ==> taken(job, events).len() < job.max_packets,
{
    lemma_inv(job, events);
}

/// The report on the packet at `index`, when the blocks of these frames are taken.
pub open spec fn report_on(mode: ChecksumMode, list: Seq<Seq<u8>>, index: int) -> Progress {
    Progress::Received {
        packets: ((index + 1) % 0x1_0000_0000) as u32,
        bytes: joined(blocks_of(mode, list).take(index + 1)).len() as u64,
    }
}

/// What a receive reports up to the last of the packets it takes.
pub open spec fn packet_reports(mode: ChecksumMode, list: Seq<Seq<u8>>) -> Seq<Progress> {
    seq![Progress::WaitingSender, Progress::HandshakeDone(mode)] + Seq::new(
        list.len(),
        |i: int| report_on(mode, list, i),
    )
}

/// How many reports a state has behind it; `None` where the state does not tell.
spec fn reports_behind(state: ReceiveState, count: int) -> Option<int> {
    match state {
        ReceiveState::Start => Some(0),
        ReceiveState::Starting => Some(0),
        ReceiveState::Announcing { .. } => Some(0),
        ReceiveState::FirstReporting { .. } => Some(2),
        ReceiveState::Listening { .. } => Some(count + 2),
        ReceiveState::Probing { .. } => Some(count + 2),
        ReceiveState::Doubting { .. } => Some(count + 2),
        ReceiveState::Reading { .. } => Some(count + 2),
        ReceiveState::Refusing { .. } => Some(count + 2),
        ReceiveState::Ending { .. } => Some(count + 2),
        ReceiveState::Lingering { .. } => Some(count + 2),
        ReceiveState::Finishing { .. } => Some(count + 2),
        ReceiveState::Handling { inner, .. } => match inner {
            HandleState::Accepting { .. } => Some(count + 1),
            HandleState::Reporting { .. } => Some(count + 1),
            _ => Some(count + 2),
        },
        ReceiveState::Aborting { .. } => None,
        ReceiveState::Done { .. } => None,
        ReceiveState::Broken => None,
        _ => Some(1),
    }
}

/// What holds of the reports of a transcript.
spec fn reports_inv(job: ReceiveJob, events: Seq<TransferEvent>) -> bool {
    let list = taken(job, events);
    let told = reported(events);
    let all = packet_reports(job.mode, list);
    match receive_after(job, events) {
        ReceiveState::Broken => true,
        ReceiveState::Done { result: Ok(data) } => told == all.push(
            Progress::Finished {
                packets: (list.len() % 0x1_0000_0000) as u32,
                bytes: data.len() as u64,
            },
        ),
        state => {
            &&& told.len() <= all.len()
            &&& told == all.take(told.len() as int)
            &&& reports_behind(state, list.len() as int) matches Some(count) ==> told.len() == count
        },
    }
}

/// One frame more leaves the reports on the frames before as they are.
proof fn lemma_reports_grow(mode: ChecksumMode, list: Seq<Seq<u8>>, frame: Seq<u8>)
    ensures
        packet_reports(mode, list.push(frame)) == packet_reports(mode, list).push(
            report_on(mode, list.push(frame), list.len() as int),
        ),
        report_on(mode, list.push(frame), list.len() as int) == (Progress::Received {
            packets: ((list.len() + 1) % 0x1_0000_0000) as u32,
            bytes: joined(blocks_of(mode, list.push(frame))).len() as u64,
        }),
{
    let longer = list.push(frame);
    assert forall|i: int| 0 <= i < list.len() implies report_on(mode, longer, i) == report_on(
        mode,
        list,
        i,
    ) by {
        assert(blocks_of(mode, longer).take(i + 1) =~= blocks_of(mode, list).take(i + 1));
    }
    assert(packet_reports(mode, longer) =~= packet_reports(mode, list).push(
        report_on(mode, longer, list.len() as int),
    ));
    assert(blocks_of(mode, longer).take(list.len() as int + 1) =~= blocks_of(mode, longer));
}

/// The report on the last frame that was taken.
proof fn lemma_last_report(mode: ChecksumMode, intake: Intake, list: Seq<Seq<u8>>)
    requires
        holds(mode, intake, list),
    ensures
        packet_reports(mode, list).len() == list.len() + 2,
        packet_reports(mode, list).last() == intake.report(),
{
    assert(blocks_of(mode, list).take(list.len() as int) =~= blocks_of(mode, list));
}

proof fn lemma_reports(job: ReceiveJob, events: Seq<TransferEvent>)
    ensures
        reports_inv(job, events),
    decreases events.len(),
{
    if events.len() == 0 {
        assert(reported(events) =~= packet_reports(job.mode, taken(job, events)).take(0));
    } else {
        let shorter = events.drop_last();
        let event = events.last();
        let state = receive_after(job, shorter);
        let list = taken(job, shorter);
        lemma_reports(job, shorter);
        lemma_inv(job, shorter);
        let before = packet_reports(job.mode, list);
        if let Some(frame) = frame_of(event) {
            if takes(job, state, frame) {
                lemma_reports_grow(job.mode, list, frame);
                let told = reported(events).len() as int;
                assert(packet_reports(job.mode, list.push(frame)).take(told) =~= before.take(told));
            }
        }
        if let TransferEvent::Report(progress) = event {
            let told = reported(shorter).len() as int;
            match state {
                ReceiveState::FirstReporting { intake } => {
                    lemma_last_report(job.mode, intake, list);
                },
                ReceiveState::Handling { inner: HandleState::Reporting { intake }, .. } => {
                    lemma_last_report(job.mode, intake, list);
                },
                ReceiveState::Finishing { intake } => {
                    assert(before.take(told) =~= before);
                },
                _ => {},
            }
            if told < before.len() && progress == before[told] {
                assert(before.take(told).push(progress) =~= before.take(told + 1));
            }
        }
    }
}

/// A receive reports the wait, the check, and each packet that it takes, once and in order,
/// with the number of packets and of bytes so far. A success reports all of them and, last,
/// that it has finished; anything else reports a beginning of them, and so never that.
pub proof fn law_reports_come_in_order(job: ReceiveJob, events: Seq<TransferEvent>)
    requires
        !(receive_after(job, events) is Broken),
    ensures
        ({
            let all = packet_reports(job.mode, taken(job, events));
            let told = reported(events);
            match receive_after(job, events) {
                ReceiveState::Done { result: Ok(data) } => told == all.push(
                    Progress::Finished {
                        packets: (taken(job, events).len() % 0x1_0000_0000) as u32,
                        bytes: data.len() as u64,
                    },
                ),
                _ => told.len() <= all.len() && told == all.take(told.len() as int),
            }
        }),
{
    lemma_reports(job, events);
}

/// Only a receive that succeeds reports that it has finished.
pub proof fn law_finished_only_on_success(job: ReceiveJob, events: Seq<TransferEvent>)
    requires
        !(receive_after(job, events) is Broken),
        receive_after(job, events) matches ReceiveState::Done { result } ==> result is Err,
    ensures
        forall|i: int| 0 <= i < reported(events).len() ==> !(#[trigger] reported(events)[
            i] is Finished),
{
    lemma_reports(job, events);
    let all = packet_reports(job.mode, taken(job, events));
    assert forall|i: int| 0 <= i < reported(events).len() implies !(#[trigger] reported(events)[
        i] is Finished) by {
        assert(reported(events)[i] == all[i]);
    }
}

/// With a limit on the number of packets, no packet is ever reported that is over the limit.
pub proof fn law_limit_on_reports(job: ReceiveJob, events: Seq<TransferEvent>, index: int)
    requires
        job.max_packets > 0,
        !(receive_after(job, events) is Broken),
        0 <= index < reported(events).len(),
    ensures
        reported(events)[index] matches Progress::Received { packets, .. } ==> packets
            <= job.max_packets,
{
    lemma_reports(job, events);
    lemma_inv(job, events);
    let list = taken(job, events);
    let all = packet_reports(job.mode, list);
    assert(list.len() <= job.max_packets);
    if index < all.len() {
        assert(reported(events)[index] == all[index]);
    }
}

/// Whether an event is a read that gave a cancel byte.
pub open spec fn is_cancel_read(event: TransferEvent) -> bool {
    event matches TransferEvent::Line(LineEvent::Read { result: Ok(Some(byte)), .. }) && byte == 0x18
}

/// Whether an event failed with this error.
pub open spec fn failed_with(event: TransferEvent, error: XmodemError) -> bool {
    match event {
        TransferEvent::Line(LineEvent::Read { result, .. }) => result == Err::<
            Option<u8>,
            XmodemError,
        >(error),
        TransferEvent::Line(LineEvent::Write { result, .. }) => result == Err::<(), XmodemError>(
            error,
        ),
        TransferEvent::Line(LineEvent::Flush { result }) => result == Err::<(), XmodemError>(
            error,
        ),
        TransferEvent::Frame { outcome, .. } => outcome == Err::<Option<Seq<u8>>, XmodemError>(
            error,
        ),
        _ => false,
    }
}

/// What a state knows of the cancel bytes that were just read.
spec fn cancel_inv(job: ReceiveJob, events: Seq<TransferEvent>) -> bool {
    let len = events.len() as int;
    match receive_after(job, events) {
        ReceiveState::Doubting { cans, .. } => {
            &&& cans < CANCEL_COUNT
            &&& cans >= 1 ==> len >= 1 && is_cancel_read(events[len - 1])
            &&& cans >= 2 ==> len >= 2 && is_cancel_read(events[len - 2])
        },
        ReceiveState::Aborting { error } => error != XmodemError::RemoteCancel,
        ReceiveState::Handling { inner: HandleState::Done { .. }, .. } => false,
        ReceiveState::Done { result: Err(error) } => error == XmodemError::RemoteCancel ==> len >= 1
            && (failed_with(events[len - 1], error) || len >= 3 && is_cancel_read(events[len - 1])
            && is_cancel_read(events[len - 2]) && is_cancel_read(events[len - 3])),
        _ => true,
    }
}

proof fn lemma_cancel(job: ReceiveJob, events: Seq<TransferEvent>)
    ensures
        cancel_inv(job, events),
    decreases events.len(),
{
    if events.len() > 0 {
        lemma_cancel(job, events.drop_last());
    }
}

/// A receive is cancelled by the sender only by three cancel bytes in a row, read one after
/// the other, unless the line itself failed in this way.
pub proof fn law_three_cancel_bytes_in_a_row(job: ReceiveJob, events: Seq<TransferEvent>)
    requires
        receive_after(job, events) == (ReceiveState::Done {
            result: Err(XmodemError::RemoteCancel),
        }),
    ensures
        events.len() > 0,
        failed_with(events.last(), XmodemError::RemoteCancel) || events.len() >= 3 && (forall|
            i: int,
        |
            events.len() - 3 <= i < events.len() ==> is_cancel_read(#[trigger] events[i])),
{
    lemma_cancel(job, events);
}

/// How often a receive has refused since it last took a frame, once it has taken the first
/// one: for a frame that did not fit or broke off, and for silence.
pub open spec fn refusals(job: ReceiveJob, events: Seq<TransferEvent>) -> nat
    decreases events.len(),
{
    if events.len() == 0 {
        0
    } else {
        let shorter = events.drop_last();
        let state = receive_after(job, shorter);
        let before = refusals(job, shorter);
        match events.last() {
            TransferEvent::Line(LineEvent::Write { data, result: Ok(_) }) => if data == seq![
                0x15u8,
            ] && !(state is Asking) && !(state is FirstRefusing) {
                before + 1
            } else {
                before
            },
            event => match frame_of(event) {
                Some(frame) => if takes(job, state, frame) {
                    0
                } else {
                    before
                },
                None => before,
            },
        }
    }
}

/// What a state knows of the refusals that led to it.
pub open spec fn refusal_inv(job: ReceiveJob, events: Seq<TransferEvent>) -> bool {
    let count = refusals(job, events);
    match receive_after(job, events) {
        ReceiveState::Listening { intake, .. } => intake.retries == count && count <= MAX_RETRIES,
        ReceiveState::Probing { intake, .. } => intake.retries == count && count <= MAX_RETRIES,
        ReceiveState::Doubting { intake, .. } => intake.retries == count && count <= MAX_RETRIES,
        ReceiveState::Reading { intake, .. } => intake.retries == count && count <= MAX_RETRIES,
        ReceiveState::Refusing { intake, .. } => intake.retries == count && count <= MAX_RETRIES,
        ReceiveState::Handling { inner, .. } => match inner {
            HandleState::Accepting { intake } => intake.retries == 0 && count == 0,
            HandleState::Reporting { intake } => intake.retries == 0 && count == 0,
            HandleState::Capping { .. } => count == 0,
            HandleState::Repeating { intake } => intake.retries == count && count <= MAX_RETRIES,
            HandleState::Refusing { intake } => intake.retries == count && count <= MAX_RETRIES,
            _ => true,
        },
        ReceiveState::FirstAccepting { intake } => intake.retries == 0 && count == 0,
        ReceiveState::Agreeing { intake } => intake.retries == 0 && count == 0,
        ReceiveState::FirstReporting { intake } => intake.retries == 0 && count == 0,
        ReceiveState::Ending { .. } => count <= MAX_RETRIES,
        ReceiveState::Lingering { .. } => count <= MAX_RETRIES,
        ReceiveState::Finishing { .. } => count <= MAX_RETRIES,
        ReceiveState::Aborting { .. } => count <= MAX_RETRIES + 1,
        ReceiveState::Done { result } => count <= MAX_RETRIES + 1 && (result is Ok ==> count
            <= MAX_RETRIES),
        ReceiveState::Broken => true,
        _ => count == 0,
    }
}

/// It holds of every transcript.
pub proof fn lemma_refusals(job: ReceiveJob, events: Seq<TransferEvent>)
    ensures
        refusal_inv(job, events),
    decreases events.len(),
{
    if events.len() > 0 {
        lemma_refusals(job, events.drop_last());
        assert(seq![ACK][0] != seq![NAK][0]);
        assert(cancel_bytes().len() != seq![NAK].len());
    }
}

/// Whatever the line answers, a receive that has taken the first packet refuses at most
/// eleven times before it takes another one, and one that succeeds at most ten times.
pub proof fn law_refusals_are_bounded(job: ReceiveJob, events: Seq<TransferEvent>)
    requires
        !(receive_after(job, events) is Broken),
    ensures
        refusals(job, events) <= 11,
        receive_after(job, events) matches ReceiveState::Done { result } ==> result is Ok
            ==> refusals(job, events) <= 10,
{
    lemma_refusals(job, events);
}

/// A sender understands which check a receiver asks for.
pub proof fn law_request_is_understood(mode: ChecksumMode)
    ensures
        mode_asked_by(request_for(mode)) == Some(mode),
{
}

/// A packet of which any one byte was changed on the line is refused and changes nothing
/// but the count of failed attempts.
pub proof fn law_damaged_packet_is_not_taken(
    no: u8,
    payload: Seq<u8>,
    mode: ChecksumMode,
    damaged: Seq<u8>,
    at: int,
    intake: Intake,
)
    requires
        is_payload_len(payload.len()),
        differ_only_at(packet(no, payload, mode), damaged, at),
    ensures
        handle_start(mode, intake, damaged) == (HandleState::Refusing { intake }),
{
    law_damaged_packet_is_refused(no, payload, mode, damaged, at);
}

/// A packet that has just been taken and comes again is accepted again and changes
/// nothing.
pub proof fn law_repeated_packet_changes_nothing(
    no: u8,
    payload: Seq<u8>,
    mode: ChecksumMode,
    intake: Intake,
    max_packets: u32,
)
    requires
        is_payload_len(payload.len()),
        no == intake.expected,
    ensures
        handle_start(mode, intake, packet(no, payload, mode)) == (HandleState::Accepting {
            intake: intake.accept(payload),
        }),
        handle_start(mode, intake.accept(payload), packet(no, payload, mode)) == (
        HandleState::Repeating { intake: intake.accept(payload) }),
        handle_step(
            max_packets,
            HandleState::Repeating { intake: intake.accept(payload) },
            TransferEvent::Line(LineEvent::Write { data: seq![ACK], result: Ok(()) }),
        ) == (HandleState::Done { intake: intake.accept(payload), result: Ok(()) }),
{
    law_packet_parses_back(no, payload, mode);
}

/// A receive that is told between two packets that it was cancelled does nothing but tell
/// the sender so, with three cancel bytes, and fails as cancelled; whether the sender could
/// be told does not matter.
pub proof fn law_cancel_stops_receiving(
    job: ReceiveJob,
    events: Seq<TransferEvent>,
    event: TransferEvent,
)
    requires
        receive_after(job, events) is Polling || receive_after(job, events) is Listening,
    ensures
        ({
            let told = events.push(TransferEvent::Line(LineEvent::Cancelled { flag: true }));
            match event {
                TransferEvent::Line(LineEvent::Write { data, result }) if data
                    == cancel_bytes() => receive_after(job, told.push(event)) == (
                ReceiveState::Done { result: Err(XmodemError::Cancelled) }),
                _ => receive_after(job, told.push(event)) is Broken,
            }
        }),
{
    let flag = TransferEvent::Line(LineEvent::Cancelled { flag: true });
    let told = events.push(flag);
    assert(told.drop_last() =~= events);
    assert(told.push(event).drop_last() =~= told);
    assert(receive_after(job, told) == receive_step(job, receive_after(job, events), flag));
}

/// A receive whose wait for the first packet was cancelled fails as cancelled at once; the
/// other side is then told by whoever asked for that.
pub proof fn law_cancelled_wait_stops_receiving(
    job: ReceiveJob,
    events: Seq<TransferEvent>,
    timeout: Duration,
)
    requires
        receive_after(job, events) is Seeking,
        nanos(timeout) == millis_to_nanos(FIRST_FRAME_MILLIS as int),
    ensures
        receive_after(
            job,
            events.push(
                TransferEvent::Frame {
                    mode: job.mode,
                    timeout,
                    outcome: Err(XmodemError::Cancelled),
                },
            ),
        ) == (ReceiveState::Done { result: Err(XmodemError::Cancelled) }),
{
    let event = TransferEvent::Frame {
        mode: job.mode,
        timeout,
        outcome: Err(XmodemError::Cancelled),
    };
    assert(events.push(event).drop_last() =~= events);
}

// ---------------------------------------------------------------------------------------
// A send and a receive together
// ---------------------------------------------------------------------------------------

/// A packet of a send passes its check and gives back number and block.
pub proof fn lemma_frame(job: SendJob, mode: ChecksumMode, index: int)
    requires
        0 <= index < job.blocks().len(),
    ensures
        intact(job.frame(mode, index), mode) == Some((packet_number(index), job.blocks()[index])),
        job.frame(mode, index).len() > 3,
        job.frame(mode, index)[0] == header_for(job.block_size()),
{
    law_blocks_hold_the_data(job.data, job.block_size());
    law_packet_parses_back(packet_number(index), job.blocks()[index], mode);
}

/// When the intact frames that a receiver hears are those of a send, with repetitions, it
/// takes each of them once.
proof fn lemma_takes_what_was_sent(
    job: ReceiveJob,
    events: Seq<TransferEvent>,
    source: SendJob,
    count: int,
)
    requires
        0 <= count <= source.blocks().len(),
        without_repeats(heard(job.mode, events)) == frames(source, job.mode, count),
        !(receive_after(job, events) is Broken),
    ensures
        taken(job, events) == frames(source, job.mode, count),
    decreases events.len(),
{
    let mode = job.mode;
    if events.len() == 0 {
        assert(frames(source, mode, count).len() == 0);
        assert(taken(job, events) =~= frames(source, mode, count));
    } else {
        let shorter = events.drop_last();
        let event = events.last();
        let state = receive_after(job, shorter);
        let before = heard(mode, shorter);
        let after = heard(mode, events);
        lemma_inv(job, shorter);
        match frame_of(event) {
            Some(frame) if intact(frame, mode) is Some => {
                assert(after.drop_last() =~= before);
                assert(after.last() == frame);
                let kept = without_repeats(before);
                if kept.len() > 0 && kept.last() == frame {
                    lemma_takes_what_was_sent(job, shorter, source, count);
                    assert(frame == source.frame(mode, count - 1));
                    lemma_frame(source, mode, count - 1);
                    match state {
                        ReceiveState::Reading { intake, .. } => {
                            assert(intake.expected == packet_number(count));
                            assert(!takes(job, state, frame));
                        },
                        _ => {},
                    }
                } else {
                    assert(kept.push(frame) == frames(source, mode, count));
                    assert(count == kept.len() + 1);
                    assert(kept =~= frames(source, mode, count - 1)) by {
                        assert(kept =~= frames(source, mode, count).drop_last());
                    }
                    assert(frame == frames(source, mode, count).last());
                    lemma_takes_what_was_sent(job, shorter, source, count - 1);
                    lemma_frame(source, mode, count - 1);
                    assert(takes(job, state, frame));
                    assert(taken(job, events) =~= frames(source, mode, count));
                }
            },
            _ => {
                lemma_takes_what_was_sent(job, shorter, source, count);
            },
        }
    }
}

/// The file arrives: when a send and a receive both succeed, with the same check, and what
/// the receiver heard is what the sender wrote, then the receiver returns the data that was
/// sent, without the [`SUB`] bytes at its end.
///
/// What the line did in between does not matter: frames may have been lost, damaged and
/// repeated any number of times, as long as every packet came through in the end before the
/// next one was sent.
pub proof fn law_file_arrives(
    source: SendJob,
    sending: Seq<TransferEvent>,
    job: ReceiveJob,
    receiving: Seq<TransferEvent>,
    data: Seq<u8>,
)
    requires
        send_after(source, sending) == (SendState::Done { result: Ok(()) }),
        agreed_mode(sending) == Some(job.mode),
        receive_after(job, receiving) == (ReceiveState::Done { result: Ok(data) }),
        without_repeats(heard(job.mode, receiving)) == without_repeats(
            written(sending),
        ).drop_last(),
    ensures
        data == stripped(source.data),
        source.data.len() > 0 && source.data.last() != SUB ==> data == source.data,
{
    let mode = job.mode;
    let n = source.blocks().len() as int;
    law_success_means_all_packets_in_order(source, sending);
    assert(without_repeats(written(sending)).drop_last() =~= frames(source, mode, n));
    lemma_takes_what_was_sent(job, receiving, source, n);
    law_received_is_what_was_taken(job, receiving);
    lemma_blocks_of_frames(source, mode, n);
    assert(source.blocks().take(n) =~= source.blocks());
    law_split_then_strip(source.data, source.block_size());
}

/// The blocks of the first packets of a send.
pub proof fn lemma_blocks_of_frames(source: SendJob, mode: ChecksumMode, count: int)
    requires
        0 <= count <= source.blocks().len(),
    ensures
        blocks_of(mode, frames(source, mode, count)) == source.blocks().take(count),
{
    assert forall|i: int| 0 <= i < count implies blocks_of(mode, frames(source, mode, count))[i]
        == source.blocks()[i] by {
        lemma_frame(source, mode, i);
    }
    assert(blocks_of(mode, frames(source, mode, count)) =~= source.blocks().take(count));
}

/// Every frame that was taken was heard.
proof fn lemma_taken_was_heard(job: ReceiveJob, events: Seq<TransferEvent>, index: int) -> (at: int)
    requires
        0 <= index < taken(job, events).len(),
    ensures
        0 <= at < heard(job.mode, events).len(),
        heard(job.mode, events)[at] == taken(job, events)[index],
    decreases events.len(),
{
    let shorter = events.drop_last();
    if index < taken(job, shorter).len() {
        let at = lemma_taken_was_heard(job, shorter, index);
        assert(heard(job.mode, events)[at] == heard(job.mode, shorter)[at]);
        at
    } else {
        heard(job.mode, shorter).len() as int
    }
}

/// Whether every intact frame that a receiver heard is a packet of the given send.
pub open spec fn hears_only(
    source: SendJob,
    mode: ChecksumMode,
    receiving: Seq<TransferEvent>,
) -> bool {
    forall|i: int|
        0 <= i < heard(mode, receiving).len() ==> is_packet_of(
            source,
            mode,
            #[trigger] heard(mode, receiving)[i],
        )
}

/// Whether a frame is a packet of the given send.
pub open spec fn is_packet_of(source: SendJob, mode: ChecksumMode, frame: Seq<u8>) -> bool {
    exists|j: int| 0 <= j < source.blocks().len() && frame == #[trigger] source.frame(mode, j)
}

/// Even when not everything came through, a receiver that hears no other intact frames than
/// those of one send, in whatever order, returns a beginning of the file: the first blocks
/// of it, without [`SUB`] bytes at the end. This is said of files of at most 255 packets:
/// in longer ones two packets have the same number.
pub proof fn law_nothing_but_the_file(
    source: SendJob,
    job: ReceiveJob,
    receiving: Seq<TransferEvent>,
    data: Seq<u8>,
)
    requires
        source.blocks().len() <= 255,
        receive_after(job, receiving) == (ReceiveState::Done { result: Ok(data) }),
        hears_only(source, job.mode, receiving),
    ensures
        taken(job, receiving).len() <= source.blocks().len(),
        data == stripped(joined(source.blocks().take(taken(job, receiving).len() as int))),
{
    let mode = job.mode;
    let n = source.blocks().len() as int;
    let list = taken(job, receiving);
    let count = list.len() as int;
    law_received_is_what_was_taken(job, receiving);
    if count > n {
        let j = lemma_number_in_file(source, job, receiving, n);
    }
    assert forall|i: int| 0 <= i < count implies #[trigger] list[i] == source.frame(mode, i) by {
        let j = lemma_number_in_file(source, job, receiving, i);
        assert(i == j);
    }
    assert(list =~= frames(source, mode, count));
    lemma_blocks_of_frames(source, mode, count);
}

/// The packet of the send that was taken at `index`, and its number.
proof fn lemma_number_in_file(
    source: SendJob,
    job: ReceiveJob,
    receiving: Seq<TransferEvent>,
    index: int,
) -> (j: int)
    requires
        hears_only(source, job.mode, receiving),
        in_sequence(job.mode, taken(job, receiving)),
        0 <= index < taken(job, receiving).len(),
    ensures
        0 <= j < source.blocks().len(),
        taken(job, receiving)[index] == source.frame(job.mode, j),
        packet_number(j) == packet_number(index),
{
    let mode = job.mode;
    let frame = taken(job, receiving)[index];
    let at = lemma_taken_was_heard(job, receiving, index);
    assert(is_packet_of(source, mode, heard(mode, receiving)[at]));
    let j = choose|j: int| 0 <= j < source.blocks().len() && frame == #[trigger] source.frame(mode, j);
    lemma_frame(source, mode, j);
    j
}

/// Whether an event is the best that the line can offer to a receiver: nothing fails,
/// nobody cancels, the first packet comes before the time is up, and what comes is what is
/// next on the wire, `wire[count]` after `count` packets were taken.
pub open spec fn offers(
    job: ReceiveJob,
    wire: Seq<Seq<u8>>,
    state: ReceiveState,
    count: int,
    event: TransferEvent,
) -> bool {
    match event {
        TransferEvent::Line(LineEvent::Cancelled { flag }) => !flag,
        TransferEvent::Line(LineEvent::Write { result, .. }) => result is Ok,
        TransferEvent::Line(LineEvent::Flush { result }) => result is Ok,
        TransferEvent::Line(LineEvent::Clock { elapsed, .. }) => state is Timing ==> nanos(elapsed)
            < nanos(job.handshake_timeout),
        TransferEvent::Line(LineEvent::Read { result, .. }) => state is Probing ==> result == Ok::<
            Option<u8>,
            XmodemError,
        >(Some(wire[count][0])),
        TransferEvent::Frame { outcome, .. } => outcome matches Ok(frame) && (frame is Some ==> frame
            == Some(wire[0])),
        TransferEvent::FrameRest { outcome, .. } => outcome == Some(wire[count]),
        _ => true,
    }
}

/// Whether a transcript shows a line that delivers all of `wire` in order, and nothing
/// else.
pub open spec fn delivers(
    job: ReceiveJob,
    wire: Seq<Seq<u8>>,
    events: Seq<TransferEvent>,
) -> bool
    decreases events.len(),
{
    events.len() == 0 || {
        let shorter = events.drop_last();
        &&& delivers(job, wire, shorter)
        &&& offers(
            job,
            wire,
            receive_after(job, shorter),
            taken(job, shorter).len() as int,
            events.last(),
        )
    }
}

/// What holds of a receive on a line that delivers all of a file.
spec fn smooth_inv(source: SendJob, job: ReceiveJob, events: Seq<TransferEvent>) -> bool {
    let n = source.blocks().len();
    let list = taken(job, events);
    let all = source.blocks().len() == list.len();
    &&& list.len() <= n
    &&& list == frames(source, job.mode, list.len() as int)
    &&& match receive_after(job, events) {
        ReceiveState::Polling { wait } => wait.polls <= events.len(),
        ReceiveState::Timing { wait } => wait.polls <= events.len(),
        ReceiveState::Spacing { wait, .. } => wait.polls <= events.len(),
        ReceiveState::Asking { wait } => wait.polls <= events.len(),
        ReceiveState::Noting { wait } => wait.polls <= events.len(),
        ReceiveState::Seeking { wait } => wait.polls <= events.len(),
        ReceiveState::Listening { intake, polls } => intake.retries == 0 && polls <= events.len(),
        ReceiveState::Probing { intake, polls } => intake.retries == 0 && polls <= events.len(),
        ReceiveState::Reading { intake, polls, header } => intake.retries == 0 && polls
            <= events.len() && list.len() < n,
        ReceiveState::Handling { inner, polls } => polls <= events.len() && match inner {
            HandleState::Accepting { intake } => intake.retries == 0,
            HandleState::Reporting { intake } => intake.retries == 0,
            _ => false,
        },
        ReceiveState::Ending { .. } => all,
        ReceiveState::Lingering { .. } => all,
        ReceiveState::Finishing { .. } => all,
        ReceiveState::Done { result } => result is Ok && all,
        ReceiveState::FirstRefusing { .. } => false,
        ReceiveState::Doubting { .. } => false,
        ReceiveState::Refusing { .. } => false,
        ReceiveState::Aborting { .. } => false,
        _ => true,
    }
}

proof fn lemma_smooth(source: SendJob, job: ReceiveJob, events: Seq<TransferEvent>)
    requires
        source.blocks().len() > 0,
        has_room(job.max_packets, source.blocks().len()),
        delivers(
            job,
            frames(source, job.mode, source.blocks().len() as int).push(seq![EOT]),
            events,
        ),
        events.len() < u64::MAX,
        !(receive_after(job, events) is Broken),
    ensures
        smooth_inv(source, job, events),
    decreases events.len(),
{
    let mode = job.mode;
    let n = source.blocks().len() as int;
    let wire = frames(source, mode, n).push(seq![EOT]);
    if events.len() == 0 {
        assert(taken(job, events) =~= frames(source, mode, 0));
    } else {
        let shorter = events.drop_last();
        let event = events.last();
        let state = receive_after(job, shorter);
        let list = taken(job, shorter);
        let count = list.len() as int;
        lemma_smooth(source, job, shorter);
        lemma_inv(job, shorter);
        if count < n {
            assert(wire[count] == source.frame(mode, count));
            lemma_frame(source, mode, count);
            assert(frames(source, mode, count).push(source.frame(mode, count)) =~= frames(
                source,
                mode,
                count + 1,
            ));
        } else {
            assert(wire[count] == seq![EOT]);
        }
    }
}

/// On a line where nothing fails, nobody cancels and all that a sender has for one file
/// comes in order, a receive succeeds and returns the file, without [`SUB`] bytes at
/// its end. The file must not be empty, a limit on the number of packets must leave room
/// for it, and the transcript must be shorter than the limit on waiting.
pub proof fn law_smooth_receive_succeeds(
    source: SendJob,
    job: ReceiveJob,
    events: Seq<TransferEvent>,
)
    requires
        source.data.len() > 0,
        has_room(job.max_packets, source.blocks().len()),
        receive_after(job, events) is Done,
        delivers(
            job,
            frames(source, job.mode, source.blocks().len() as int).push(seq![EOT]),
            events,
        ),
        events.len() < u64::MAX,
    ensures
        receive_after(job, events) == (ReceiveState::Done { result: Ok(stripped(source.data)) }),
{
    let n = source.blocks().len() as int;
    law_blocks_hold_the_data(source.data, source.block_size());
    lemma_smooth(source, job, events);
    law_received_is_what_was_taken(job, events);
    lemma_blocks_of_frames(source, job.mode, n);
    assert(source.blocks().take(n) =~= source.blocks());
    law_split_then_strip(source.data, source.block_size());
}

/// A send and a receive on a line between them that loses nothing both succeed, and the
/// file arrives: what the sender writes is all that the receiver needs.
pub proof fn law_smooth_transfer(
    source: SendJob,
    sending: Seq<TransferEvent>,
    job: ReceiveJob,
    receiving: Seq<TransferEvent>,
)
    requires
        source.data.len() > 0,
        has_room(job.max_packets, source.blocks().len()),
        send_after(source, sending) is Done,
        forall|i: int| 0 <= i < sending.len() ==> smooth(job.mode, #[trigger] sending[i]),
        receive_after(job, receiving) is Done,
        delivers(job, written(sending), receiving),
        receiving.len() < u64::MAX,
    ensures
        send_after(source, sending) == (SendState::Done { result: Ok(()) }),
        receive_after(job, receiving) == (ReceiveState::Done { result: Ok(stripped(source.data)) }),
        source.data.last() != SUB ==> stripped(source.data) == source.data,
{
    law_smooth_send_succeeds(source, job.mode, sending);
    law_smooth_receive_succeeds(source, job, receiving);
}

} // verus!
