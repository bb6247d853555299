//! Receiving a file.

use super::line::{
    millis_to_nanos, nanos, time_left, Clock, LineEvent, SerialIo, SystemClock, POLL_LIMIT,
};
use super::packet::{check_field, frame_parts, parse_packet, strip_padding, stripped, verify_packet};
use super::sender::{cancel_bytes, write_byte, write_cancel};
use super::transfer::{
    exchange_run, exchange_step, lemma_callback_stays, lemma_exchange_is_transfer,
    lemma_exchange_push, lemma_transfer_concat, lemma_transfer_push, transfer_run, transfer_step,
    Callback, Reporter, TransferEvent,
};
use super::wait::{
    frame_result, read_frame, read_frame_after_header, rest_result, SLICE_MILLIS,
};
use super::{
    ChecksumMode, Progress, XmodemError, ACK, CAN, CRC_CHAR, EOT, MAX_RETRIES, NAK, SOH, STX,
};
use std::time::{Duration, Instant};
use vstd::prelude::*;

verus! {

/// How long to wait for the first packet before the clock and the cancel flag are looked
/// at again, in milliseconds.
pub const FIRST_FRAME_MILLIS: u64 = 300;

/// How long to wait before asking for the first packet again, in milliseconds.
pub const REQUEST_MILLIS: u64 = 3_000;

/// How many cancel bytes make the sender's wish to stop certain.
pub const CANCEL_COUNT: u32 = 3;

/// What [`receive`] is asked to do.
pub struct ReceiveJob {
    pub mode: ChecksumMode,
    pub handshake_timeout: Duration,
    pub packet_timeout: Duration,
    pub max_packets: u32,
}

/// What was received so far.
pub struct Intake {
    /// The blocks, one after the other.
    pub data: Seq<u8>,
    /// The number of the next packet.
    pub expected: u8,
    /// How many packets were accepted, with 32 bits.
    pub packets: u32,
    /// How many attempts failed since the last packet was accepted.
    pub retries: u32,
}

impl Intake {
    /// Nothing yet.
    pub open spec fn empty() -> Intake {
        Intake { data: Seq::empty(), expected: 1, packets: 0, retries: 0 }
    }

    /// One block more.
    pub open spec fn accept(self, payload: Seq<u8>) -> Intake {
        Intake {
            data: self.data + payload,
            expected: ((self.expected + 1) % 256) as u8,
            packets: ((self.packets + 1) % 0x1_0000_0000) as u32,
            retries: 0,
        }
    }

    /// One failed attempt more.
    pub open spec fn refuse(self) -> Intake {
        Intake { retries: (self.retries + 1) as u32, ..self }
    }

    /// The report on a packet, once it is accepted.
    pub open spec fn report(self) -> Progress {
        Progress::Received { packets: self.packets, bytes: self.data.len() as u64 }
    }

    /// The report at the end.
    pub open spec fn final_report(self) -> Progress {
        Progress::Finished { packets: self.packets, bytes: stripped(self.data).len() as u64 }
    }
}

/// Whether so many packets are as many as a limit allows; zero is no limit.
pub open spec fn limit_reached(max_packets: u32, packets: u32) -> bool {
    max_packets > 0 && packets >= max_packets
}

/// The number and the block of a frame that passes the agreed check.
pub open spec fn intact(frame: Seq<u8>, mode: ChecksumMode) -> Option<(u8, Seq<u8>)> {
    match frame_parts(frame) {
        Some((no, payload, check)) => if check == check_field(payload, mode) {
            Some((no, payload))
        } else {
            None
        },
        None => None,
    }
}

/// Takes a frame apart and checks it with the agreed check.
pub fn checked_packet(frame: &[u8], mode: ChecksumMode) -> (parts: Option<(u8, &[u8])>)
    ensures
        match parts {
            Some((no, payload)) => intact(frame@, mode) == Some((no, payload@)),
            None => intact(frame@, mode) is None,
        },
{
    match parse_packet(frame) {
        Some((no, payload, checksum)) => if verify_packet(payload, checksum, mode) {
            Some((no, payload))
        } else {
            None
        },
        None => None,
    }
}

/// The byte that asks the sender for the first packet, with the given check.
pub open spec fn request_for(mode: ChecksumMode) -> u8 {
    match mode {
        ChecksumMode::Crc => CRC_CHAR,
        ChecksumMode::Checksum => NAK,
    }
}

/// The byte that asks the sender for the first packet, with the given check.
pub fn handshake_request(mode: ChecksumMode) -> (byte: u8)
    ensures
        byte == request_for(mode),
{
    match mode {
        ChecksumMode::Crc => CRC_CHAR,
        ChecksumMode::Checksum => NAK,
    }
}

// ---------------------------------------------------------------------------------------
// One frame
// ---------------------------------------------------------------------------------------

/// Where [`handle_frame`] stands.
pub enum HandleState {
    /// Took the block; about to accept the packet.
    Accepting { intake: Intake },
    /// About to report the packet.
    Reporting { intake: Intake },
    /// Received as much as is allowed; about to tell the sender.
    Capping { intake: Intake },
    /// Has the packet already; about to accept it once more.
    Repeating { intake: Intake },
    /// About to refuse the frame.
    Refusing { intake: Intake },
    /// Returns, leaving this intake.
    Done { intake: Intake, result: Result<(), XmodemError> },
    Broken,
}

/// How the handling of a frame starts: the next packet is taken, the one before it is
/// known already, anything else is refused.
pub open spec fn handle_start(mode: ChecksumMode, intake: Intake, frame: Seq<u8>) -> HandleState {
    match intact(frame, mode) {
        Some((no, payload)) => if no == intake.expected {
            HandleState::Accepting { intake: intake.accept(payload) }
        } else if (no + 1) % 256 == intake.expected as int {
            HandleState::Repeating { intake }
        } else {
            HandleState::Refusing { intake }
        },
        None => HandleState::Refusing { intake },
    }
}

/// What [`handle_frame`] makes of one event.
pub open spec fn handle_step(
    max_packets: u32,
    state: HandleState,
    event: TransferEvent,
) -> HandleState {
    match (state, event) {
        (
            HandleState::Accepting { intake },
            TransferEvent::Line(LineEvent::Write { data, result }),
        ) => if data != seq![ACK] {
            HandleState::Broken
        } else {
            match result {
                Ok(_) => HandleState::Reporting { intake },
                Err(error) => HandleState::Done { intake, result: Err(error) },
            }
        },
        (HandleState::Reporting { intake }, TransferEvent::Report(progress)) => if progress
            != intake.report() {
            HandleState::Broken
        } else if limit_reached(max_packets, intake.packets) {
            HandleState::Capping { intake }
        } else {
            HandleState::Done { intake, result: Ok(()) }
        },
        (
            HandleState::Capping { intake },
            TransferEvent::Line(LineEvent::Write { data, result }),
        ) => if data != cancel_bytes() {
            HandleState::Broken
        } else {
            HandleState::Done { intake, result: Err(XmodemError::TooManyRetries(max_packets)) }
        },
        (
            HandleState::Repeating { intake },
            TransferEvent::Line(LineEvent::Write { data, result }),
        ) => if data != seq![ACK] {
            HandleState::Broken
        } else {
            HandleState::Done { intake, result }
        },
        (
            HandleState::Refusing { intake },
            TransferEvent::Line(LineEvent::Write { data, result }),
        ) => if data != seq![NAK] {
            HandleState::Broken
        } else {
            match result {
                Ok(_) => HandleState::Done { intake: intake.refuse(), result: Ok(()) },
                Err(error) => HandleState::Done { intake, result: Err(error) },
            }
        },
        _ => HandleState::Broken,
    }
}

/// Where [`handle_frame`] stands after these events, from the given start.
pub open spec fn handle_after(
    max_packets: u32,
    start: HandleState,
    events: Seq<TransferEvent>,
) -> HandleState
    decreases events.len(),
{
    if events.len() == 0 {
        start
    } else {
        handle_step(
            max_packets,
            handle_after(max_packets, start, events.drop_last()),
            events.last(),
        )
    }
}

/// Whether handling a frame can lead the line from `before` to `after`, the reporter from
/// `told` to `told_after`, the intake to `left`, and give `result`.
pub open spec fn handled<S: SerialIo, R: Reporter>(
    before: S,
    told: R,
    mode: ChecksumMode,
    max_packets: u32,
    intake: Intake,
    frame: Seq<u8>,
    left: Intake,
    result: Result<(), XmodemError>,
    after: S,
    told_after: R,
) -> bool {
    exists|events: Seq<TransferEvent>| #[trigger]
        exchange_run(before, told, events, after, told_after) && handle_after(
            max_packets,
            handle_start(mode, intake, frame),
            events,
        ) == (HandleState::Done { intake: left, result })
}

/// A transcript of the handling of a frame grows by one event.
proof fn handling<S: SerialIo, R: Reporter>(
    max_packets: u32,
    start: HandleState,
    first: S,
    told: R,
    events: Seq<TransferEvent>,
    before: S,
    told_before: R,
    event: TransferEvent,
    after: S,
    told_after: R,
) -> (next: Seq<TransferEvent>)
    requires
        exchange_run(first, told, events, before, told_before),
        exchange_step(before, told_before, event, after, told_after),
    ensures
        next == events.push(event),
        exchange_run(first, told, next, after, told_after),
        handle_after(max_packets, start, next) == handle_step(
            max_packets,
            handle_after(max_packets, start, events),
            event,
        ),
{
    lemma_exchange_push(first, told, events, before, told_before, event, after, told_after);
    assert(events.push(event).drop_last() =~= events);
    events.push(event)
}

/// Checks a frame, answers it, and takes its block if it is the next one.
///
/// A packet that was taken before comes again when its acceptance got lost on the line; it
/// is accepted once more and otherwise ignored.
pub fn handle_frame<S: SerialIo, R: Reporter>(
    io: &mut S,
    frame: &[u8],
    mode: ChecksumMode,
    out: &mut Vec<u8>,
    expected_no: &mut u8,
    packets: &mut u32,
    retries: &mut u32,
    max_packets: u32,
    reporter: &mut R,
) -> (result: Result<(), XmodemError>)
    requires
        old(reporter).accepts(),
        *old(retries) < u32::MAX,
    ensures
        handled(
            *old(io),
            *old(reporter),
            mode,
            max_packets,
            (Intake {
                data: old(out)@,
                expected: *old(expected_no),
                packets: *old(packets),
                retries: *old(retries),
            }),
            frame@,
            (Intake {
                data: final(out)@,
                expected: *final(expected_no),
                packets: *final(packets),
                retries: *final(retries),
            }),
            result,
            *final(io),
            *final(reporter),
        ),
        final(reporter).accepts(),
{
    let ghost first = *io;
    let ghost told = *reporter;
    let ghost intake = Intake {
        data: out@,
        expected: *expected_no,
        packets: *packets,
        retries: *retries,
    };
    let ghost start = handle_start(mode, intake, frame@);
    let ghost mut events: Seq<TransferEvent> = Seq::empty();
    match checked_packet(frame, mode) {
        Some((no, payload)) => {
            if no == *expected_no {
                out.extend_from_slice(payload);
                *packets = packets.wrapping_add(1);
                *expected_no = expected_no.wrapping_add(1);
                *retries = 0;
                let ghost taken = Intake {
                    data: out@,
                    expected: *expected_no,
                    packets: *packets,
                    retries: 0,
                };
                assert(taken == intake.accept(payload@)) by {
                    assert(taken.data =~= intake.accept(payload@).data);
                }
                let wrote = write_byte(io, ACK);
                proof {
                    let event = TransferEvent::Line(
                        LineEvent::Write { data: seq![ACK], result: wrote },
                    );
                    events = handling(
                        max_packets,
                        start,
                        first,
                        told,
                        events,
                        first,
                        *reporter,
                        event,
                        *io,
                        *reporter,
                    );
                }
                if let Err(error) = wrote {
                    return Err(error);
                }
                let progress = Progress::Received { packets: *packets, bytes: out.len() as u64 };
                let ghost told_before = *reporter;
                reporter.report(progress);
                proof {
                    let event = TransferEvent::Report(progress);
                    events = handling(
                        max_packets,
                        start,
                        first,
                        told,
                        events,
                        *io,
                        told_before,
                        event,
                        *io,
                        *reporter,
                    );
                }
                if max_packets > 0 && *packets >= max_packets {
                    let ghost before = *io;
                    let wrote = write_cancel(io);
                    proof {
                        let event = TransferEvent::Line(
                            LineEvent::Write { data: cancel_bytes(), result: wrote },
                        );
                        events = handling(
                            max_packets,
                            start,
                            first,
                            told,
                            events,
                            before,
                            *reporter,
                            event,
                            *io,
                            *reporter,
                        );
                    }
                    return Err(XmodemError::TooManyRetries(max_packets));
                }
                Ok(())
            } else if no == expected_no.wrapping_sub(1) {
                let wrote = write_byte(io, ACK);
                proof {
                    let event = TransferEvent::Line(
                        LineEvent::Write { data: seq![ACK], result: wrote },
                    );
                    events = handling(
                        max_packets,
                        start,
                        first,
                        told,
                        events,
                        first,
                        *reporter,
                        event,
                        *io,
                        *reporter,
                    );
                }
                wrote
            } else {
                let wrote = write_byte(io, NAK);
                proof {
                    let event = TransferEvent::Line(
                        LineEvent::Write { data: seq![NAK], result: wrote },
                    );
                    events = handling(
                        max_packets,
                        start,
                        first,
                        told,
                        events,
                        first,
                        *reporter,
                        event,
                        *io,
                        *reporter,
                    );
                }
                if let Err(error) = wrote {
                    return Err(error);
                }
                *retries = *retries + 1;
                Ok(())
            }
        },
        None => {
            let wrote = write_byte(io, NAK);
            proof {
                let event = TransferEvent::Line(LineEvent::Write { data: seq![NAK], result: wrote });
                events = handling(
                    max_packets,
                    start,
                    first,
                    told,
                    events,
                    first,
                    *reporter,
                    event,
                    *io,
                    *reporter,
                );
            }
            if let Err(error) = wrote {
                return Err(error);
            }
            *retries = *retries + 1;
            Ok(())
        },
    }
}

// ---------------------------------------------------------------------------------------
// The whole transfer
// ---------------------------------------------------------------------------------------

/// The wait for the first packet.
pub struct FirstWait {
    /// When it began.
    pub start: Instant,
    /// When the sender was last asked for the packet.
    pub asked: Option<Instant>,
    /// How often the line was asked for it.
    pub polls: nat,
}

impl FirstWait {
    /// The line was asked once more.
    pub open spec fn again(self) -> FirstWait {
        FirstWait { polls: self.polls + 1, ..self }
    }
}

/// Where [`receive`] stands.
pub enum ReceiveState {
    /// About to drop pending input.
    Start,
    /// About to read the clock.
    Starting,
    /// About to report that it waits for the sender.
    Announcing { start: Instant },
    /// Nothing received; about to ask whether the transfer was cancelled.
    Polling { wait: FirstWait },
    /// Nothing received; about to ask how long it has waited.
    Timing { wait: FirstWait },
    /// Asked for the first packet at the given time; about to ask how long ago that was.
    Spacing { wait: FirstWait, asked: Instant },
    /// About to ask for the first packet.
    Asking { wait: FirstWait },
    /// Has asked for the first packet; about to read the clock.
    Noting { wait: FirstWait },
    /// About to wait for the first packet.
    Seeking { wait: FirstWait },
    /// About to refuse a frame that is not the first packet.
    FirstRefusing { wait: FirstWait },
    /// About to accept the first packet.
    FirstAccepting { intake: Intake },
    /// About to report that the sender uses the check asked for.
    Agreeing { intake: Intake },
    /// About to report the first packet.
    FirstReporting { intake: Intake },
    /// About to ask whether the transfer was cancelled.
    Listening { intake: Intake, polls: nat },
    /// About to read the first byte of what comes next.
    Probing { intake: Intake, polls: nat },
    /// Read so many cancel bytes in a row; about to look for more.
    Doubting { intake: Intake, polls: nat, cans: nat, reads: nat },
    /// About to read the rest of a frame.
    Reading { intake: Intake, polls: nat, header: u8 },
    /// Busy with a frame.
    Handling { inner: HandleState, polls: nat },
    /// Nothing came, or a frame broke off; about to refuse.
    Refusing { intake: Intake, polls: nat },
    /// About to tell the sender that the transfer is off, and fail.
    Aborting { error: XmodemError },
    /// About to accept the end of the transfer.
    Ending { intake: Intake },
    /// About to read away one more byte, should the sender repeat itself.
    Lingering { intake: Intake },
    /// About to report the end.
    Finishing { intake: Intake },
    /// Returns this.
    Done { result: Result<Seq<u8>, XmodemError> },
    Broken,
}

/// Waiting for the first packet, unless the line was asked often enough.
pub open spec fn receive_poll(wait: FirstWait) -> ReceiveState {
    if wait.polls < POLL_LIMIT {
        ReceiveState::Polling { wait }
    } else {
        ReceiveState::Done { result: Err(XmodemError::Timeout) }
    }
}

/// The next round after the first packet, unless the line was asked often enough.
pub open spec fn receive_listen(intake: Intake, polls: nat) -> ReceiveState {
    if polls < POLL_LIMIT {
        ReceiveState::Listening { intake, polls }
    } else {
        ReceiveState::Done { result: Err(XmodemError::Timeout) }
    }
}

/// The next round after an answer was sent, unless too many attempts failed.
pub open spec fn receive_next(intake: Intake, polls: nat) -> ReceiveState {
    if intake.retries > MAX_RETRIES {
        ReceiveState::Aborting { error: XmodemError::TooManyRetries(MAX_RETRIES) }
    } else {
        receive_listen(intake, polls + 1)
    }
}

/// Looking for further cancel bytes; three in a row stop the transfer.
pub open spec fn receive_doubt(intake: Intake, polls: nat, cans: nat, reads: nat) -> ReceiveState {
    if cans >= CANCEL_COUNT {
        ReceiveState::Done { result: Err(XmodemError::RemoteCancel) }
    } else if reads < POLL_LIMIT {
        ReceiveState::Doubting { intake, polls, cans, reads }
    } else {
        receive_listen(intake, polls + 1)
    }
}

/// How the handling of a frame goes on.
pub open spec fn receive_handle(inner: HandleState, polls: nat) -> ReceiveState {
    match inner {
        HandleState::Done { intake, result } => match result {
            Ok(_) => receive_next(intake, polls),
            Err(error) => ReceiveState::Done { result: Err(error) },
        },
        HandleState::Broken => ReceiveState::Broken,
        _ => ReceiveState::Handling { inner, polls },
    }
}

/// What [`receive`] makes of the frame that it hoped to be the first packet.
pub open spec fn receive_first(job: ReceiveJob, wait: FirstWait, frame: Seq<u8>) -> ReceiveState {
    match intact(frame, job.mode) {
        Some((no, payload)) => if no == 1 {
            ReceiveState::FirstAccepting { intake: Intake::empty().accept(payload) }
        } else {
            ReceiveState::FirstRefusing { wait }
        },
        None => ReceiveState::FirstRefusing { wait },
    }
}

/// What [`receive`] makes of the first byte of what comes next.
pub open spec fn receive_probe(intake: Intake, polls: nat, byte: Option<u8>) -> ReceiveState {
    match byte {
        None => ReceiveState::Refusing { intake, polls },
        Some(byte) => if byte == EOT {
            ReceiveState::Ending { intake }
        } else if byte == CAN {
            receive_doubt(intake, polls, 1, 0)
        } else if byte == SOH || byte == STX {
            ReceiveState::Reading { intake, polls, header: byte }
        } else {
            receive_listen(intake, polls + 1)
        },
    }
}

/// What [`receive`] makes of one event.
pub open spec fn receive_step(
    job: ReceiveJob,
    state: ReceiveState,
    event: TransferEvent,
) -> ReceiveState {
    match (state, event) {
        (ReceiveState::Start, TransferEvent::Line(LineEvent::Flush { result })) => match result {
            Ok(_) => ReceiveState::Starting,
            Err(error) => ReceiveState::Done { result: Err(error) },
        },
        (ReceiveState::Starting, TransferEvent::Line(LineEvent::Now { now })) =>
            ReceiveState::Announcing { start: now },
        (
            ReceiveState::Announcing { start },
            TransferEvent::Report(Progress::WaitingSender),
        ) => receive_poll(FirstWait { start, asked: None, polls: 0 }),
        (
            ReceiveState::Polling { wait },
            TransferEvent::Line(LineEvent::Cancelled { flag }),
        ) => if flag {
            ReceiveState::Aborting { error: XmodemError::Cancelled }
        } else {
            ReceiveState::Timing { wait }
        },
        (
            ReceiveState::Timing { wait },
            TransferEvent::Line(LineEvent::Clock { since, elapsed }),
        ) => if since != wait.start {
            ReceiveState::Broken
        } else if nanos(elapsed) >= nanos(job.handshake_timeout) {
            ReceiveState::Done { result: Err(XmodemError::Timeout) }
        } else {
            match wait.asked {
                None => ReceiveState::Asking { wait },
                Some(asked) => ReceiveState::Spacing { wait, asked },
            }
        },
        (
            ReceiveState::Spacing { wait, asked },
            TransferEvent::Line(LineEvent::Clock { since, elapsed }),
        ) => if since != asked {
            ReceiveState::Broken
        } else if nanos(elapsed) >= millis_to_nanos(REQUEST_MILLIS as int) {
            ReceiveState::Asking { wait }
        } else {
            ReceiveState::Seeking { wait }
        },
        (
            ReceiveState::Asking { wait },
            TransferEvent::Line(LineEvent::Write { data, result }),
        ) => if data != seq![request_for(job.mode)] {
            ReceiveState::Broken
        } else {
            match result {
                Ok(_) => ReceiveState::Noting { wait },
                Err(error) => ReceiveState::Done { result: Err(error) },
            }
        },
        (ReceiveState::Noting { wait }, TransferEvent::Line(LineEvent::Now { now })) =>
            ReceiveState::Seeking { wait: FirstWait { asked: Some(now), ..wait } },
        (
            ReceiveState::Seeking { wait },
            TransferEvent::Frame { mode, timeout, outcome },
        ) => if mode != job.mode || nanos(timeout) != millis_to_nanos(FIRST_FRAME_MILLIS as int) {
            ReceiveState::Broken
        } else {
            match outcome {
                Err(error) => ReceiveState::Done { result: Err(error) },
                Ok(None) => receive_poll(wait.again()),
                Ok(Some(frame)) => receive_first(job, wait, frame),
            }
        },
        (
            ReceiveState::FirstRefusing { wait },
            TransferEvent::Line(LineEvent::Write { data, result }),
        ) => if data != seq![NAK] {
            ReceiveState::Broken
        } else {
            match result {
                Ok(_) => receive_poll(wait.again()),
                Err(error) => ReceiveState::Done { result: Err(error) },
            }
        },
        (
            ReceiveState::FirstAccepting { intake },
            TransferEvent::Line(LineEvent::Write { data, result }),
        ) => if data != seq![ACK] {
            ReceiveState::Broken
        } else {
            match result {
                Ok(_) => ReceiveState::Agreeing { intake },
                Err(error) => ReceiveState::Done { result: Err(error) },
            }
        },
        (ReceiveState::Agreeing { intake }, TransferEvent::Report(progress)) => if progress == (
        Progress::HandshakeDone(job.mode)) {
            ReceiveState::FirstReporting { intake }
        } else {
            ReceiveState::Broken
        },
        (ReceiveState::FirstReporting { intake }, TransferEvent::Report(progress)) => if progress
            != intake.report() {
            ReceiveState::Broken
        } else if limit_reached(job.max_packets, intake.packets) {
            ReceiveState::Aborting { error: XmodemError::TooManyRetries(job.max_packets) }
        } else {
            receive_listen(intake, 0)
        },
        (
            ReceiveState::Listening { intake, polls },
            TransferEvent::Line(LineEvent::Cancelled { flag }),
        ) => if flag {
            ReceiveState::Aborting { error: XmodemError::Cancelled }
        } else {
            ReceiveState::Probing { intake, polls }
        },
        (
            ReceiveState::Probing { intake, polls },
            TransferEvent::Line(LineEvent::Read { timeout, result }),
        ) => if timeout != job.packet_timeout {
            ReceiveState::Broken
        } else {
            match result {
                Err(error) => ReceiveState::Done { result: Err(error) },
                Ok(byte) => receive_probe(intake, polls, byte),
            }
        },
        (
            ReceiveState::Doubting { intake, polls, cans, reads },
            TransferEvent::Line(LineEvent::Read { timeout, result }),
        ) => if nanos(timeout) != millis_to_nanos(SLICE_MILLIS as int) {
            ReceiveState::Broken
        } else {
            match result {
                Err(error) => ReceiveState::Done { result: Err(error) },
                Ok(Some(byte)) => if byte == CAN {
                    receive_doubt(intake, polls, cans + 1, reads + 1)
                } else {
                    receive_doubt(intake, polls, 0, reads + 1)
                },
                Ok(None) => receive_listen(intake, polls + 1),
            }
        },
        (
            ReceiveState::Reading { intake, polls, header },
            TransferEvent::FrameRest { mode, header: given, outcome },
        ) => if mode != job.mode || given != header {
            ReceiveState::Broken
        } else {
            match outcome {
                None => ReceiveState::Refusing { intake, polls },
                Some(frame) => receive_handle(handle_start(job.mode, intake, frame), polls),
            }
        },
        (ReceiveState::Handling { inner, polls }, event) => receive_handle(
            handle_step(job.max_packets, inner, event),
            polls,
        ),
        (
            ReceiveState::Refusing { intake, polls },
            TransferEvent::Line(LineEvent::Write { data, result }),
        ) => if data != seq![NAK] {
            ReceiveState::Broken
        } else {
            match result {
                Ok(_) => receive_next(intake.refuse(), polls),
                Err(error) => ReceiveState::Done { result: Err(error) },
            }
        },
        (
            ReceiveState::Aborting { error },
            TransferEvent::Line(LineEvent::Write { data, result }),
        ) => if data == cancel_bytes() {
            ReceiveState::Done { result: Err(error) }
        } else {
            ReceiveState::Broken
        },
        (
            ReceiveState::Ending { intake },
            TransferEvent::Line(LineEvent::Write { data, result }),
        ) => if data != seq![ACK] {
            ReceiveState::Broken
        } else {
            match result {
                Ok(_) => ReceiveState::Lingering { intake },
                Err(error) => ReceiveState::Done { result: Err(error) },
            }
        },
        (
            ReceiveState::Lingering { intake },
            TransferEvent::Line(LineEvent::Read { timeout, result }),
        ) => if nanos(timeout) == millis_to_nanos(SLICE_MILLIS as int) {
            ReceiveState::Finishing { intake }
        } else {
            ReceiveState::Broken
        },
        (ReceiveState::Finishing { intake }, TransferEvent::Report(progress)) => if progress
            == intake.final_report() {
            ReceiveState::Done { result: Ok(stripped(intake.data)) }
        } else {
            ReceiveState::Broken
        },
        _ => ReceiveState::Broken,
    }
}

/// Where [`receive`] stands after these events.
pub open spec fn receive_after(job: ReceiveJob, events: Seq<TransferEvent>) -> ReceiveState
    decreases events.len(),
{
    if events.len() == 0 {
        ReceiveState::Start
    } else {
        receive_step(job, receive_after(job, events.drop_last()), events.last())
    }
}

/// The contents of what [`receive`] returns.
pub open spec fn received_data(result: Result<Vec<u8>, XmodemError>) -> Result<
    Seq<u8>,
    XmodemError,
> {
    match result {
        Ok(data) => Ok(data@),
        Err(error) => Err(error),
    }
}

/// Whether receiving can lead line and clock from `before` to `after` and the reporter from
/// `told` to `told_after`, and give `result`.
pub open spec fn received<S: SerialIo, C: Clock, R: Reporter>(
    before: (S, C),
    told: R,
    job: ReceiveJob,
    result: Result<Seq<u8>, XmodemError>,
    after: (S, C),
    told_after: R,
) -> bool {
    exists|events: Seq<TransferEvent>| #[trigger]
        transfer_run(before, told, events, after, told_after) && receive_after(job, events) == (
        ReceiveState::Done { result })
}

/// A transcript of a receive grows by one event.
proof fn grown<S: SerialIo, C: Clock, R: Reporter>(
    job: ReceiveJob,
    first: (S, C),
    told: R,
    events: Seq<TransferEvent>,
    before: (S, C),
    told_before: R,
    event: TransferEvent,
    after: (S, C),
    told_after: R,
) -> (next: Seq<TransferEvent>)
    requires
        transfer_run(first, told, events, before, told_before),
        transfer_step(before, told_before, event, after, told_after),
    ensures
        next == events.push(event),
        transfer_run(first, told, next, after, told_after),
        receive_after(job, next) == receive_step(job, receive_after(job, events), event),
{
    lemma_transfer_push(first, told, events, before, told_before, event, after, told_after);
    assert(events.push(event).drop_last() =~= events);
    events.push(event)
}

/// The handling of a frame, seen from the whole transfer.
proof fn lemma_handling(
    job: ReceiveJob,
    events: Seq<TransferEvent>,
    start: HandleState,
    polls: nat,
    tail: Seq<TransferEvent>,
)
    requires
        receive_after(job, events) == receive_handle(start, polls),
        !(start is Done),
        !(handle_after(job.max_packets, start, tail) is Broken),
    ensures
        receive_after(job, events + tail) == receive_handle(
            handle_after(job.max_packets, start, tail),
            polls,
        ),
        tail.len() > 0 ==> !(handle_after(job.max_packets, start, tail.drop_last()) is Done),
    decreases tail.len(),
{
    if tail.len() == 0 {
        assert(events + tail =~= events);
    } else {
        let shorter = tail.drop_last();
        let inner = handle_after(job.max_packets, start, shorter);
        lemma_handling(job, events, start, polls, shorter);
        assert((events + tail).drop_last() =~= events + shorter);
        assert((events + tail).last() == tail.last());
    }
}

/// Receives a file: asks for the first packet, takes packet after packet, each one
/// once, and drops the filling at the end. Reports go to a function.
///
/// - `mode`: the check to ask for
/// - `handshake_timeout`: how long to wait for the first packet
/// - `packet_timeout`: how long to wait for what follows
/// - `max_packets`: how many packets are too many; 0 for no limit
///
/// A plain function and the system's clock keep no trace of how often they were called: that
/// there are no more reports and looks at the clock than the transcript holds is said of
/// [`receive_with`], and not here.
pub fn receive<S: SerialIo, F: FnMut(Progress)>(
    io: &mut S,
    mode: ChecksumMode,
    handshake_timeout: Duration,
    packet_timeout: Duration,
    max_packets: u32,
    on_progress: F,
) -> (result: Result<Vec<u8>, XmodemError>)
    requires
        forall|p: Progress| call_requires(on_progress, (p,)),
    ensures
        received(
            (*old(io), SystemClock),
            (Callback { call: on_progress }),
            (ReceiveJob { mode, handshake_timeout, packet_timeout, max_packets }),
            received_data(result),
            (*final(io), SystemClock),
            (Callback { call: on_progress }),
        ),
{
    let mut reporter = Callback { call: on_progress };
    let ghost told = reporter;
    let mut clock = SystemClock;
    let ghost first = (*io, clock);
    let result = receive_with(
        io,
        &mut clock,
        mode,
        handshake_timeout,
        packet_timeout,
        max_packets,
        &mut reporter,
    );
    proof {
        let job = ReceiveJob { mode, handshake_timeout, packet_timeout, max_packets };
        let events = choose|events: Seq<TransferEvent>| #[trigger]
            transfer_run(first, told, events, (*io, clock), reporter) && receive_after(job, events)
                == (ReceiveState::Done { result: received_data(result) });
        lemma_callback_stays(first, told, events, (*io, clock), reporter);
    }
    result
}

/// Receives a file as [`receive`] does, by the given clock. Reports go to `reporter`.
pub fn receive_with<S: SerialIo, C: Clock, R: Reporter>(
    io: &mut S,
    clock: &mut C,
    mode: ChecksumMode,
    handshake_timeout: Duration,
    packet_timeout: Duration,
    max_packets: u32,
    reporter: &mut R,
) -> (result: Result<Vec<u8>, XmodemError>)
    requires
        old(reporter).accepts(),
    ensures
        received(
            (*old(io), *old(clock)),
            *old(reporter),
            (ReceiveJob { mode, handshake_timeout, packet_timeout, max_packets }),
            received_data(result),
            (*final(io), *final(clock)),
            *final(reporter),
        ),
{
    let ghost job = ReceiveJob { mode, handshake_timeout, packet_timeout, max_packets };
    let ghost told = *reporter;
    let ghost first = (*io, *clock);
    let ghost mut events: Seq<TransferEvent> = Seq::empty();

    let flushed = io.flush_input();
    proof {
        let event = TransferEvent::Line(LineEvent::Flush { result: flushed });
        events = grown(job, first, told, events, first, *reporter, event, (*io, *clock), *reporter);
    }
    if let Err(error) = flushed {
        return Err(error);
    }
    let mut out: Vec<u8> = Vec::new();
    let mut expected_no: u8 = 1;
    let mut packets: u32 = 0;
    let ghost before = (*io, *clock);
    let start: Instant = clock.read_now();
    proof {
        let event = TransferEvent::Line(LineEvent::Now { now: start });
        events = grown(
            job,
            first,
            told,
            events,
            before,
            *reporter,
            event,
            (*io, *clock),
            *reporter,
        );
    }
    let mut asked: Option<Instant> = None;
    let ghost told_before = *reporter;
    reporter.report(Progress::WaitingSender);
    proof {
        let event = TransferEvent::Report(Progress::WaitingSender);
        events = grown(
            job,
            first,
            told,
            events,
            (*io, *clock),
            told_before,
            event,
            (*io, *clock),
            *reporter,
        );
        assert(out@ =~= Intake::empty().data);
    }

    let mut polls: u64 = 0;
    let mut got_first: bool = false;
    while !got_first
        invariant
            first == (*old(io), *old(clock)),
            told == *old(reporter),
            reporter.accepts(),
            job == (ReceiveJob { mode, handshake_timeout, packet_timeout, max_packets }),
            transfer_run(first, told, events, (*io, *clock), *reporter),
            !got_first ==> {
                &&& out@ == Intake::empty().data
                &&& expected_no == 1
                &&& packets == 0
                &&& receive_after(job, events) == receive_poll(
                    FirstWait { start, asked, polls: polls as nat },
                )
            },
            got_first ==> receive_after(job, events) == receive_listen(
                (Intake { data: out@, expected: expected_no, packets, retries: 0 }),
                0,
            ),
        decreases
                POLL_LIMIT - polls,
                (if got_first {
                    0int
                } else {
                    1int
                }),
    {
        if polls == POLL_LIMIT {
            return Err(XmodemError::Timeout);
        }
        let cancelled: bool = io.is_cancelled();
        proof {
            let event = TransferEvent::Line(LineEvent::Cancelled { flag: cancelled });
            events = grown(
                job,
                first,
                told,
                events,
                (*io, *clock),
                *reporter,
                event,
                (*io, *clock),
                *reporter,
            );
        }
        if cancelled {
            let ghost before = (*io, *clock);
            let wrote = write_cancel(io);
            proof {
                let event = TransferEvent::Line(
                    LineEvent::Write { data: cancel_bytes(), result: wrote },
                );
                events = grown(
                    job,
                    first,
                    told,
                    events,
                    before,
                    *reporter,
                    event,
                    (*io, *clock),
                    *reporter,
                );
            }
            return Err(XmodemError::Cancelled);
        }
        let ghost before = (*io, *clock);
        let elapsed: Duration = clock.time_since(&start);
        proof {
            let event = TransferEvent::Line(LineEvent::Clock { since: start, elapsed });
            events = grown(
                job,
                first,
                told,
                events,
                before,
                *reporter,
                event,
                (*io, *clock),
                *reporter,
            );
        }
        if time_left(handshake_timeout, elapsed).is_none() {
            return Err(XmodemError::Timeout);
        }
        let mut due: bool = true;
        if let Some(last) = asked {
            let ghost before = (*io, *clock);
            let elapsed: Duration = clock.time_since(&last);
            proof {
                let event = TransferEvent::Line(LineEvent::Clock { since: last, elapsed });
                events = grown(
                    job,
                    first,
                    told,
                    events,
                    before,
                    *reporter,
                    event,
                    (*io, *clock),
                    *reporter,
                );
            }
            due = time_left(Duration::from_millis(REQUEST_MILLIS), elapsed).is_none();
        }
        if due {
            let ghost before = (*io, *clock);
            let wrote = write_byte(io, handshake_request(mode));
            proof {
                let event = TransferEvent::Line(
                    LineEvent::Write { data: seq![request_for(mode)], result: wrote },
                );
                events = grown(
                    job,
                    first,
                    told,
                    events,
                    before,
                    *reporter,
                    event,
                    (*io, *clock),
                    *reporter,
                );
            }
            if let Err(error) = wrote {
                return Err(error);
            }
            let ghost before = (*io, *clock);
            let now: Instant = clock.read_now();
            proof {
                let event = TransferEvent::Line(LineEvent::Now { now });
                events = grown(
                    job,
                    first,
                    told,
                    events,
                    before,
                    *reporter,
                    event,
                    (*io, *clock),
                    *reporter,
                );
            }
            asked = Some(now);
        }
        let wait: Duration = Duration::from_millis(FIRST_FRAME_MILLIS);
        let ghost before = (*io, *clock);
        let outcome = read_frame(io, clock, mode, wait);
        proof {
            let event = TransferEvent::Frame {
                mode,
                timeout: wait,
                outcome: frame_result(outcome),
            };
            events = grown(
                job,
                first,
                told,
                events,
                before,
                *reporter,
                event,
                (*io, *clock),
                *reporter,
            );
        }
        match outcome {
            Err(error) => {
                return Err(error);
            },
            Ok(None) => {
                polls = polls + 1;
            },
            Ok(Some(frame)) => {
                let mut taken: bool = false;
                match checked_packet(&frame, mode) {
                    Some((no, payload)) => {
                        if no == expected_no {
                            out.extend_from_slice(payload);
                            assert(out@ =~= Intake::empty().accept(payload@).data);
                            taken = true;
                        }
                    },
                    None => {},
                }
                if taken {
                    let ghost before = (*io, *clock);
                    let wrote = write_byte(io, ACK);
                    proof {
                        let event = TransferEvent::Line(
                            LineEvent::Write { data: seq![ACK], result: wrote },
                        );
                        events = grown(
                            job,
                            first,
                            told,
                            events,
                            before,
                            *reporter,
                            event,
                            (*io, *clock),
                            *reporter,
                        );
                    }
                    if let Err(error) = wrote {
                        return Err(error);
                    }
                    packets = 1;
                    expected_no = 2;
                    let ghost told_before = *reporter;
                    reporter.report(Progress::HandshakeDone(mode));
                    proof {
                        let event = TransferEvent::Report(Progress::HandshakeDone(mode));
                        events = grown(
                            job,
                            first,
                            told,
                            events,
                            (*io, *clock),
                            told_before,
                            event,
                            (*io, *clock),
                            *reporter,
                        );
                    }
                    let progress = Progress::Received { packets, bytes: out.len() as u64 };
                    let ghost told_before = *reporter;
                    reporter.report(progress);
                    proof {
                        let event = TransferEvent::Report(progress);
                        events = grown(
                            job,
                            first,
                            told,
                            events,
                            (*io, *clock),
                            told_before,
                            event,
                            (*io, *clock),
                            *reporter,
                        );
                    }
                    if max_packets > 0 && packets >= max_packets {
                        let ghost before = (*io, *clock);
                        let wrote = write_cancel(io);
                        proof {
                            let event = TransferEvent::Line(
                                LineEvent::Write { data: cancel_bytes(), result: wrote },
                            );
                            events = grown(
                                job,
                                first,
                                told,
                                events,
                                before,
                                *reporter,
                                event,
                                (*io, *clock),
                                *reporter,
                            );
                        }
                        return Err(XmodemError::TooManyRetries(max_packets));
                    }
                    got_first = true;
                } else {
                    let ghost before = (*io, *clock);
                    let wrote = write_byte(io, NAK);
                    proof {
                        let event = TransferEvent::Line(
                            LineEvent::Write { data: seq![NAK], result: wrote },
                        );
                        events = grown(
                            job,
                            first,
                            told,
                            events,
                            before,
                            *reporter,
                            event,
                            (*io, *clock),
                            *reporter,
                        );
                    }
                    if let Err(error) = wrote {
                        return Err(error);
                    }
                    polls = polls + 1;
                }
            },
        }
    }

    let mut retries: u32 = 0;
    let mut polls: u64 = 0;
    let mut ended: bool = false;
    while !ended
        invariant
            first == (*old(io), *old(clock)),
            told == *old(reporter),
            reporter.accepts(),
            job == (ReceiveJob { mode, handshake_timeout, packet_timeout, max_packets }),
            retries <= MAX_RETRIES,
            transfer_run(first, told, events, (*io, *clock), *reporter),
            ({
                let intake = Intake { data: out@, expected: expected_no, packets, retries };
                receive_after(job, events) == (if ended {
                    ReceiveState::Finishing { intake }
                } else {
                    receive_listen(intake, polls as nat)
                })
            }),
        decreases
                POLL_LIMIT - polls,
                (if ended {
                    0int
                } else {
                    1int
                }),
    {
        if polls == POLL_LIMIT {
            return Err(XmodemError::Timeout);
        }
        let ghost intake = Intake { data: out@, expected: expected_no, packets, retries };
        let cancelled: bool = io.is_cancelled();
        proof {
            let event = TransferEvent::Line(LineEvent::Cancelled { flag: cancelled });
            events = grown(
                job,
                first,
                told,
                events,
                (*io, *clock),
                *reporter,
                event,
                (*io, *clock),
                *reporter,
            );
        }
        if cancelled {
            let ghost before = (*io, *clock);
            let wrote = write_cancel(io);
            proof {
                let event = TransferEvent::Line(
                    LineEvent::Write { data: cancel_bytes(), result: wrote },
                );
                events = grown(
                    job,
                    first,
                    told,
                    events,
                    before,
                    *reporter,
                    event,
                    (*io, *clock),
                    *reporter,
                );
            }
            return Err(XmodemError::Cancelled);
        }
        let ghost before = (*io, *clock);
        let read = io.read_byte(packet_timeout);
        proof {
            let event = TransferEvent::Line(
                LineEvent::Read { timeout: packet_timeout, result: read },
            );
            events = grown(
                job,
                first,
                told,
                events,
                before,
                *reporter,
                event,
                (*io, *clock),
                *reporter,
            );
        }
        let byte: Option<u8> = match read {
            Ok(byte) => byte,
            Err(error) => {
                return Err(error);
            },
        };
        let mut refuse: bool = false;
        let mut answered: bool = false;
        match byte {
            Some(EOT) => {
                let ghost before = (*io, *clock);
                let wrote = write_byte(io, ACK);
                proof {
                    let event = TransferEvent::Line(
                        LineEvent::Write { data: seq![ACK], result: wrote },
                    );
                    events = grown(
                        job,
                        first,
                        told,
                        events,
                        before,
                        *reporter,
                        event,
                        (*io, *clock),
                        *reporter,
                    );
                }
                if let Err(error) = wrote {
                    return Err(error);
                }
                let linger: Duration = Duration::from_millis(SLICE_MILLIS);
                let ghost before = (*io, *clock);
                let read = io.read_byte(linger);
                proof {
                    let event = TransferEvent::Line(
                        LineEvent::Read { timeout: linger, result: read },
                    );
                    events = grown(
                        job,
                        first,
                        told,
                        events,
                        before,
                        *reporter,
                        event,
                        (*io, *clock),
                        *reporter,
                    );
                }
                ended = true;
            },
            Some(CAN) => {
                let mut cans: u32 = 1;
                let mut reads: u64 = 0;
                let mut silent: bool = false;
                while cans < CANCEL_COUNT && !silent && reads < POLL_LIMIT
                    invariant
                        first == (*old(io), *old(clock)),
                        told == *old(reporter),
                        job == (ReceiveJob {
                            mode,
                            handshake_timeout,
                            packet_timeout,
                            max_packets,
                        }),
                        cans <= CANCEL_COUNT,
                        polls < POLL_LIMIT,
                        transfer_run(first, told, events, (*io, *clock), *reporter),
                        receive_after(job, events) == (if silent {
                            receive_listen(intake, (polls + 1) as nat)
                        } else {
                            receive_doubt(intake, polls as nat, cans as nat, reads as nat)
                        }),
                        silent ==> cans < CANCEL_COUNT,
                    decreases
                            POLL_LIMIT - reads,
                            (if silent {
                                0int
                            } else {
                                1int
                            }),
                {
                    let slice: Duration = Duration::from_millis(SLICE_MILLIS);
                    let ghost before = (*io, *clock);
                    let read = io.read_byte(slice);
                    proof {
                        let event = TransferEvent::Line(
                            LineEvent::Read { timeout: slice, result: read },
                        );
                        events = grown(
                            job,
                            first,
                            told,
                            events,
                            before,
                            *reporter,
                            event,
                            (*io, *clock),
                            *reporter,
                        );
                    }
                    match read {
                        Err(error) => {
                            return Err(error);
                        },
                        Ok(Some(CAN)) => {
                            cans = cans + 1;
                            reads = reads + 1;
                        },
                        Ok(Some(_)) => {
                            cans = 0;
                            reads = reads + 1;
                        },
                        Ok(None) => {
                            silent = true;
                        },
                    }
                }
                if cans >= CANCEL_COUNT {
                    return Err(XmodemError::RemoteCancel);
                }
            },
            Some(header) => {
                if header == SOH || header == STX {
                    let ghost before = (*io, *clock);
                    let rest = read_frame_after_header(io, mode, header);
                    proof {
                        let event = TransferEvent::FrameRest {
                            mode,
                            header,
                            outcome: rest_result(rest),
                        };
                        events = grown(
                            job,
                            first,
                            told,
                            events,
                            before,
                            *reporter,
                            event,
                            (*io, *clock),
                            *reporter,
                        );
                    }
                    match rest {
                        Some(frame) => {
                            let ghost before = (*io, *clock);
                            let ghost told_before = *reporter;
                            let result = handle_frame(
                                io,
                                &frame,
                                mode,
                                &mut out,
                                &mut expected_no,
                                &mut packets,
                                &mut retries,
                                max_packets,
                                reporter,
                            );
                            proof {
                                let left = Intake {
                                    data: out@,
                                    expected: expected_no,
                                    packets,
                                    retries,
                                };
                                let begin = handle_start(mode, intake, frame@);
                                let tail = choose|tail: Seq<TransferEvent>| #[trigger]
                                    exchange_run(before.0, told_before, tail, *io, *reporter)
                                        && handle_after(max_packets, begin, tail) == (
                                    HandleState::Done { intake: left, result });
                                lemma_handling(job, events, begin, polls as nat, tail);
                                lemma_exchange_is_transfer(
                                    before.0,
                                    told_before,
                                    tail,
                                    *io,
                                    *reporter,
                                    *clock,
                                );
                                lemma_transfer_concat(
                                    first,
                                    told,
                                    events,
                                    before,
                                    told_before,
                                    tail,
                                    (*io, *clock),
                                    *reporter,
                                );
                                events = events + tail;
                            }
                            if let Err(error) = result {
                                return Err(error);
                            }
                            answered = true;
                        },
                        None => {
                            refuse = true;
                        },
                    }
                }
            },
            None => {
                refuse = true;
            },
        }
        if refuse {
            let ghost before = (*io, *clock);
            let wrote = write_byte(io, NAK);
            proof {
                let event = TransferEvent::Line(LineEvent::Write { data: seq![NAK], result: wrote });
                events = grown(
                    job,
                    first,
                    told,
                    events,
                    before,
                    *reporter,
                    event,
                    (*io, *clock),
                    *reporter,
                );
            }
            if let Err(error) = wrote {
                return Err(error);
            }
            retries = retries + 1;
            answered = true;
        }
        if answered && retries > MAX_RETRIES {
            let ghost before = (*io, *clock);
            let wrote = write_cancel(io);
            proof {
                let event = TransferEvent::Line(
                    LineEvent::Write { data: cancel_bytes(), result: wrote },
                );
                events = grown(
                    job,
                    first,
                    told,
                    events,
                    before,
                    *reporter,
                    event,
                    (*io, *clock),
                    *reporter,
                );
            }
            return Err(XmodemError::TooManyRetries(MAX_RETRIES));
        }
        if !ended {
            polls = polls + 1;
        }
    }

    strip_padding(&mut out);
    let progress = Progress::Finished { packets, bytes: out.len() as u64 };
    let ghost told_before = *reporter;
    reporter.report(progress);
    proof {
        let event = TransferEvent::Report(progress);
        events = grown(
            job,
            first,
            told,
            events,
            (*io, *clock),
            told_before,
            event,
            (*io, *clock),
            *reporter,
        );
    }
    Ok(out)
}

} // verus!
