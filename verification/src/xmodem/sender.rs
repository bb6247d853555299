//! Sending a file.

use super::line::{Clock, LineEvent, SerialIo, SystemClock};
use super::packet::{build_packet, contents, packet, payloads, split_into_payloads};
use super::transfer::{
    lemma_callback_stays, lemma_transfer_push, transfer_run, transfer_step, Callback, Reporter,
    TransferEvent,
};
use super::wait::{drain_pending, wait_handshake, wait_response};
use super::{
    ChecksumMode, Progress, XmodemError, ACK, CAN, EOT, MAX_RETRIES, PAYLOAD_1024, PAYLOAD_128,
};
use std::time::Duration;
use vstd::prelude::*;

verus! {

/// What an answer to a packet, or to the end of the transfer, calls for.
#[derive(Debug, Clone, Copy, PartialEq, Eq, Structural)]
pub enum Verdict {
    /// The receiver has it.
    Accepted,
    /// The receiver cancelled the transfer.
    Cancelled,
    /// Send it again; this is the given retry.
    Again(u32),
    /// The retries are used up.
    Exhausted,
}

/// What the answer to the given attempt calls for. No answer in time counts as a refusal.
pub open spec fn verdict_on(answer: Option<u8>, attempt: u32) -> Verdict {
    if answer == Some(ACK) {
        Verdict::Accepted
    } else if answer == Some(CAN) {
        Verdict::Cancelled
    } else if attempt < MAX_RETRIES {
        Verdict::Again((attempt + 1) as u32)
    } else {
        Verdict::Exhausted
    }
}

/// Decides what the answer to the given attempt calls for.
pub fn judge_answer(answer: Option<u8>, attempt: u32) -> (verdict: Verdict)
    ensures
        verdict == verdict_on(answer, attempt),
{
    match answer {
        Some(ACK) => Verdict::Accepted,
        Some(CAN) => Verdict::Cancelled,
        _ => if attempt < MAX_RETRIES {
            Verdict::Again(attempt + 1)
        } else {
            Verdict::Exhausted
        },
    }
}

/// The number that the block at `index` is sent under: from 1 on, with eight bits.
pub open spec fn packet_number(index: int) -> u8 {
    ((index + 1) % 256) as u8
}

/// Computes the number that the block at `index` is sent under.
pub fn number_of(index: usize) -> (no: u8)
    requires
        index < usize::MAX,
    ensures
        no == packet_number(index as int),
{
    let next: usize = index + 1;
    assert((next & 0xFF) as u8 == (next % 256) as u8) by (bit_vector);
    (next & 0xFF) as u8
}

/// What [`send`] is asked to do.
pub struct SendJob {
    pub data: Seq<u8>,
    pub handshake_timeout: Duration,
    pub packet_timeout: Duration,
    pub use_1k: bool,
}

impl SendJob {
    /// The number of data bytes in a packet.
    pub open spec fn block_size(self) -> nat {
        if self.use_1k {
            PAYLOAD_1024 as nat
        } else {
            PAYLOAD_128 as nat
        }
    }

    /// The blocks to send.
    pub open spec fn blocks(self) -> Seq<Seq<u8>> {
        payloads(self.data, self.block_size())
    }

    /// The packet for the block at `index`.
    pub open spec fn frame(self, mode: ChecksumMode, index: int) -> Seq<u8> {
        packet(packet_number(index), self.blocks()[index], mode)
    }

    /// The report on the block at `index`, once it is accepted.
    pub open spec fn packet_report(self, index: int) -> Progress {
        Progress::Packet {
            sent: (index + 1) as u32,
            total: self.blocks().len() as u32,
            bytes: saturated((index + 1) * self.block_size()),
            total_bytes: self.data.len() as u64,
        }
    }

    /// The report at the end.
    pub open spec fn final_report(self) -> Progress {
        Progress::Finished {
            packets: self.blocks().len() as u32,
            bytes: self.data.len() as u64,
        }
    }
}

/// The nearest 64-bit number.
pub open spec fn saturated(n: int) -> u64 {
    if n <= u64::MAX {
        n as u64
    } else {
        u64::MAX
    }
}

/// Where [`send`] stands.
pub enum SendState {
    /// About to drop pending input.
    Start,
    /// About to report that it waits for the handshake.
    Announcing,
    /// About to wait for the handshake.
    Handshaking,
    /// About to report which check was agreed.
    Agreeing { mode: ChecksumMode },
    /// About to ask whether the transfer was cancelled, before the block at `index`.
    AtBlock { mode: ChecksumMode, index: int },
    /// About to ask whether the transfer was cancelled, before an attempt.
    AtAttempt { mode: ChecksumMode, index: int, attempt: u32 },
    /// About to report a retry.
    Retrying { mode: ChecksumMode, index: int, attempt: u32 },
    /// About to write the packet.
    Writing { mode: ChecksumMode, index: int, attempt: u32 },
    /// About to wait for the answer.
    Waiting { mode: ChecksumMode, index: int, attempt: u32 },
    /// About to read away what has arrived, before the given attempt.
    Draining { mode: ChecksumMode, index: int, attempt: u32 },
    /// About to report that the block was accepted.
    Accepted { mode: ChecksumMode, index: int },
    /// About to tell the receiver that the transfer is off, and fail.
    Aborting { error: XmodemError },
    /// About to write the end of the transfer.
    Ending { attempt: u32 },
    /// About to wait for the answer to the end of the transfer.
    EndWaiting { attempt: u32 },
    /// About to report the end.
    Finishing,
    /// Returns this.
    Done { result: Result<(), XmodemError> },
    Broken,
}

/// The next block, or the end when there is none.
pub open spec fn at_block(job: SendJob, mode: ChecksumMode, index: int) -> SendState {
    if index < job.blocks().len() {
        SendState::AtBlock { mode, index }
    } else {
        SendState::Ending { attempt: 0 }
    }
}

/// What [`send`] makes of one event.
pub open spec fn send_step(job: SendJob, state: SendState, event: TransferEvent) -> SendState {
    match (state, event) {
        (SendState::Start, TransferEvent::Line(LineEvent::Flush { result })) => match result {
            Ok(_) => SendState::Announcing,
            Err(error) => SendState::Done { result: Err(error) },
        },
        (SendState::Announcing, TransferEvent::Report(Progress::WaitingHandshake)) =>
            SendState::Handshaking,
        (SendState::Handshaking, TransferEvent::Handshake { timeout, outcome }) => if timeout
            != job.handshake_timeout {
            SendState::Broken
        } else {
            match outcome {
                Ok(mode) => SendState::Agreeing { mode },
                Err(error) => SendState::Done { result: Err(error) },
            }
        },
        (SendState::Agreeing { mode }, TransferEvent::Report(progress)) => if progress == (
        Progress::HandshakeDone(mode)) {
            at_block(job, mode, 0)
        } else {
            SendState::Broken
        },
        (
            SendState::AtBlock { mode, index },
            TransferEvent::Line(LineEvent::Cancelled { flag }),
        ) => if flag {
            SendState::Aborting { error: XmodemError::Cancelled }
        } else {
            SendState::AtAttempt { mode, index, attempt: 0 }
        },
        (
            SendState::AtAttempt { mode, index, attempt },
            TransferEvent::Line(LineEvent::Cancelled { flag }),
        ) => if flag {
            SendState::Aborting { error: XmodemError::Cancelled }
        } else if attempt > 0 {
            SendState::Retrying { mode, index, attempt }
        } else {
            SendState::Writing { mode, index, attempt }
        },
        (SendState::Retrying { mode, index, attempt }, TransferEvent::Report(progress)) => if progress
            == (Progress::Retry { packet: packet_number(index) as u32, attempt }) {
            SendState::Writing { mode, index, attempt }
        } else {
            SendState::Broken
        },
        (
            SendState::Writing { mode, index, attempt },
            TransferEvent::Line(LineEvent::Write { data, result }),
        ) => if data != job.frame(mode, index) {
            SendState::Broken
        } else {
            match result {
                Ok(_) => SendState::Waiting { mode, index, attempt },
                Err(error) => SendState::Done { result: Err(error) },
            }
        },
        (
            SendState::Waiting { mode, index, attempt },
            TransferEvent::Answer { timeout, outcome },
        ) => if timeout != job.packet_timeout {
            SendState::Broken
        } else {
            match outcome {
                Err(error) => SendState::Done { result: Err(error) },
                Ok(answer) => match verdict_on(answer, attempt) {
                    Verdict::Accepted => SendState::Accepted { mode, index },
                    Verdict::Cancelled => SendState::Done {
                        result: Err(XmodemError::RemoteCancel),
                    },
                    Verdict::Again(attempt) => SendState::Draining { mode, index, attempt },
                    Verdict::Exhausted => SendState::Aborting {
                        error: XmodemError::TooManyRetries(MAX_RETRIES),
                    },
                },
            }
        },
        (SendState::Draining { mode, index, attempt }, TransferEvent::Drain) =>
            SendState::AtAttempt { mode, index, attempt },
        (SendState::Accepted { mode, index }, TransferEvent::Report(progress)) => if progress
            == job.packet_report(index) {
            at_block(job, mode, index + 1)
        } else {
            SendState::Broken
        },
        (
            SendState::Aborting { error },
            TransferEvent::Line(LineEvent::Write { data, result }),
        ) => if data == cancel_bytes() {
            SendState::Done { result: Err(error) }
        } else {
            SendState::Broken
        },
        (
            SendState::Ending { attempt },
            TransferEvent::Line(LineEvent::Write { data, result }),
        ) => if data != seq![EOT] {
            SendState::Broken
        } else {
            match result {
                Ok(_) => SendState::EndWaiting { attempt },
                Err(error) => SendState::Done { result: Err(error) },
            }
        },
        (SendState::EndWaiting { attempt }, TransferEvent::Answer { timeout, outcome }) => if timeout
            != job.packet_timeout {
            SendState::Broken
        } else {
            match outcome {
                Err(error) => SendState::Done { result: Err(error) },
                Ok(answer) => match verdict_on(answer, attempt) {
                    Verdict::Accepted => SendState::Finishing,
                    Verdict::Cancelled => SendState::Done {
                        result: Err(XmodemError::RemoteCancel),
                    },
                    Verdict::Again(attempt) => SendState::Ending { attempt },
                    Verdict::Exhausted => SendState::Done {
                        result: Err(XmodemError::TooManyRetries(MAX_RETRIES)),
                    },
                },
            }
        },
        (SendState::Finishing, TransferEvent::Report(progress)) => if progress
            == job.final_report() {
            SendState::Done { result: Ok(()) }
        } else {
            SendState::Broken
        },
        _ => SendState::Broken,
    }
}

/// What tells the other side that the transfer is off.
pub open spec fn cancel_bytes() -> Seq<u8> {
    seq![CAN, CAN, CAN]
}

/// Where [`send`] stands after these events.
pub open spec fn send_after(job: SendJob, events: Seq<TransferEvent>) -> SendState
    decreases events.len(),
{
    if events.len() == 0 {
        SendState::Start
    } else {
        send_step(job, send_after(job, events.drop_last()), events.last())
    }
}

proof fn lemma_send_push(job: SendJob, events: Seq<TransferEvent>, event: TransferEvent)
    ensures
        send_after(job, events.push(event)) == send_step(job, send_after(job, events), event),
{
    assert(events.push(event).drop_last() =~= events);
}

/// A transcript of a send grows by one event.
proof fn grown<S: SerialIo, C: Clock, R: Reporter>(
    job: SendJob,
    first: (S, C),
    told: R,
    events: Seq<TransferEvent>,
    before: (S, C),
    told_before: R,
    event: TransferEvent,
    after: (S, C),
    told_after: R,
) -> (next: Seq<TransferEvent>)
    requires
        transfer_run(first, told, events, before, told_before),
        transfer_step(before, told_before, event, after, told_after),
    ensures
        next == events.push(event),
        transfer_run(first, told, next, after, told_after),
        send_after(job, next) == send_step(job, send_after(job, events), event),
{
    lemma_transfer_push(first, told, events, before, told_before, event, after, told_after);
    lemma_send_push(job, events, event);
    events.push(event)
}

/// Tells the other side that the transfer is off; whether that succeeds does not matter.
pub(crate) fn write_cancel<S: SerialIo>(io: &mut S) -> (result: Result<(), XmodemError>)
    ensures
        old(io).writes(cancel_bytes(), result, final(io)),
{
    let bytes: [u8; 3] = [CAN, CAN, CAN];
    assert(bytes@ =~= cancel_bytes());
    io.write_all(&bytes)
}

/// Writes a single byte.
pub(crate) fn write_byte<S: SerialIo>(io: &mut S, byte: u8) -> (result: Result<(), XmodemError>)
    ensures
        old(io).writes(seq![byte], result, final(io)),
{
    let bytes: [u8; 1] = [byte];
    assert(bytes@ =~= seq![byte]);
    io.write_all(&bytes)
}

/// Whether sending can lead line and clock from `before` to `after` and the reporter from
/// `told` to `told_after`, and give `result`.
pub open spec fn sent<S: SerialIo, C: Clock, R: Reporter>(
    before: (S, C),
    told: R,
    job: SendJob,
    result: Result<(), XmodemError>,
    after: (S, C),
    told_after: R,
) -> bool {
    exists|events: Seq<TransferEvent>| #[trigger]
        transfer_run(before, told, events, after, told_after) && send_after(job, events) == (
        SendState::Done { result })
}

/// Sends `data`: waits for the receiver to ask for it, sends packet after packet, each one
/// again until it is accepted, and ends the transfer. Reports go to a function.
///
/// - `handshake_timeout`: how long to wait for the receiver to ask
/// - `packet_timeout`: how long to wait for the answer to a packet
/// - `use_1k`: whether packets hold 1024 bytes instead of 128
///
/// A plain function and the system's clock keep no trace of how often they were called: that
/// there are no more reports and looks at the clock than the transcript holds is said of
/// [`send_with`], and not here.
pub fn send<S: SerialIo, F: FnMut(Progress)>(
    io: &mut S,
    data: &[u8],
    handshake_timeout: Duration,
    packet_timeout: Duration,
    use_1k: bool,
    on_progress: F,
) -> (result: Result<(), XmodemError>)
    requires
        forall|p: Progress| call_requires(on_progress, (p,)),
    ensures
        sent(
            (*old(io), SystemClock),
            (Callback { call: on_progress }),
            (SendJob { data: data@, handshake_timeout, packet_timeout, use_1k }),
            result,
            (*final(io), SystemClock),
            (Callback { call: on_progress }),
        ),
{
    let mut reporter = Callback { call: on_progress };
    let ghost told = reporter;
    let mut clock = SystemClock;
    let ghost first = (*io, clock);
    let result = send_with(
        io,
        &mut clock,
        data,
        handshake_timeout,
        packet_timeout,
        use_1k,
        &mut reporter,
    );
    proof {
        let job = SendJob { data: data@, handshake_timeout, packet_timeout, use_1k };
        let events = choose|events: Seq<TransferEvent>| #[trigger]
            transfer_run(first, told, events, (*io, clock), reporter) && send_after(job, events)
                == (SendState::Done { result });
        lemma_callback_stays(first, told, events, (*io, clock), reporter);
    }
    result
}

/// Sends `data` as [`send`] does, by the given clock. Reports go to `reporter`.
pub fn send_with<S: SerialIo, C: Clock, R: Reporter>(
    io: &mut S,
    clock: &mut C,
    data: &[u8],
    handshake_timeout: Duration,
    packet_timeout: Duration,
    use_1k: bool,
    reporter: &mut R,
) -> (result: Result<(), XmodemError>)
    requires
        old(reporter).accepts(),
    ensures
        sent(
            (*old(io), *old(clock)),
            *old(reporter),
            (SendJob { data: data@, handshake_timeout, packet_timeout, use_1k }),
            result,
            (*final(io), *final(clock)),
            *final(reporter),
        ),
{
    let ghost job = SendJob { data: data@, handshake_timeout, packet_timeout, use_1k };
    let ghost told = *reporter;
    let ghost first = (*io, *clock);
    let ghost mut events: Seq<TransferEvent> = Seq::empty();
    let block_size: usize = if use_1k {
        PAYLOAD_1024
    } else {
        PAYLOAD_128
    };

    let flushed = io.flush_input();
    proof {
        let event = TransferEvent::Line(LineEvent::Flush { result: flushed });
        events = grown(job, first, told, events, first, *reporter, event, (*io, *clock), *reporter);
    }
    if let Err(error) = flushed {
        return Err(error);
    }
    let ghost before = (*io, *clock);
    let handshake = wait_handshake(io, clock, handshake_timeout, reporter);
    proof {
        let told_mid = choose|told_mid: R| #[trigger]
            told.reports(Progress::WaitingHandshake, &told_mid) && match handshake {
                Ok(mode) => told_mid.reports(Progress::HandshakeDone(mode), reporter),
                Err(_) => *reporter == told_mid,
            };
        let announce = TransferEvent::Report(Progress::WaitingHandshake);
        events = grown(job, first, told, events, before, told, announce, before, told_mid);
        let event = TransferEvent::Handshake { timeout: handshake_timeout, outcome: handshake };
        events = grown(job, first, told, events, before, told_mid, event, (*io, *clock), told_mid);
        if let Ok(mode) = handshake {
            let event = TransferEvent::Report(Progress::HandshakeDone(mode));
            events = grown(
                job,
                first,
                told,
                events,
                (*io, *clock),
                told_mid,
                event,
                (*io, *clock),
                *reporter,
            );
        }
    }
    let mode: ChecksumMode = match handshake {
        Ok(mode) => mode,
        Err(error) => {
            return Err(error);
        },
    };

    let blocks: Vec<Vec<u8>> = split_into_payloads(data, block_size);
    let total: u32 = blocks.len() as u32;
    let mut sent_bytes: u64 = 0;
    let mut index: usize = 0;
    assert(blocks@.len() == contents(blocks@).len());
    while index < blocks.len()
        invariant
            first == (*old(io), *old(clock)),
            told == *old(reporter),
            reporter.accepts(),
            job == (SendJob { data: data@, handshake_timeout, packet_timeout, use_1k }),
            block_size == job.block_size(),
            contents(blocks@) == job.blocks(),
            blocks@.len() == job.blocks().len(),
            total == job.blocks().len() as u32,
            index <= blocks@.len(),
            sent_bytes == saturated(index * job.block_size()),
            transfer_run(first, told, events, (*io, *clock), *reporter),
            send_after(job, events) == at_block(job, mode, index as int),
        decreases blocks@.len() - index,
    {
        let cancelled: bool = io.is_cancelled();
        proof {
            let event = TransferEvent::Line(LineEvent::Cancelled { flag: cancelled });
            events = grown(
                job,
                first,
                told,
                events,
                (*io, *clock),
                *reporter,
                event,
                (*io, *clock),
                *reporter,
            );
        }
        if cancelled {
            let ghost before = (*io, *clock);
            let result = write_cancel(io);
            proof {
                let event = TransferEvent::Line(LineEvent::Write { data: cancel_bytes(), result });
                events = grown(
                    job,
                    first,
                    told,
                    events,
                    before,
                    *reporter,
                    event,
                    (*io, *clock),
                    *reporter,
                );
            }
            return Err(XmodemError::Cancelled);
        }
        proof {
            super::packet::law_blocks_hold_the_data(data@, block_size as nat);
            assert(contents(blocks@)[index as int] == blocks@[index as int]@);
        }
        let packet_no: u8 = number_of(index);
        let frame: Vec<u8> = build_packet(packet_no, &blocks[index], mode);
        let mut attempt: u32 = 0;
        let mut accepted: bool = false;
        while !accepted
            invariant
                first == (*old(io), *old(clock)),
                told == *old(reporter),
                reporter.accepts(),
                job == (SendJob { data: data@, handshake_timeout, packet_timeout, use_1k }),
                packet_no == packet_number(index as int),
                frame@ == job.frame(mode, index as int),
                attempt <= MAX_RETRIES,
                transfer_run(first, told, events, (*io, *clock), *reporter),
                send_after(job, events) == (if accepted {
                    SendState::Accepted { mode, index: index as int }
                } else {
                    SendState::AtAttempt { mode, index: index as int, attempt }
                }),
            decreases
                    MAX_RETRIES - attempt,
                    (if accepted {
                        0int
                    } else {
                        1int
                    }),
        {
            let cancelled: bool = io.is_cancelled();
            proof {
                let event = TransferEvent::Line(LineEvent::Cancelled { flag: cancelled });
                events = grown(
                    job,
                    first,
                    told,
                    events,
                    (*io, *clock),
                    *reporter,
                    event,
                    (*io, *clock),
                    *reporter,
                );
            }
            if cancelled {
                let ghost before = (*io, *clock);
                let result = write_cancel(io);
                proof {
                    let event = TransferEvent::Line(
                        LineEvent::Write { data: cancel_bytes(), result },
                    );
                    events = grown(
                        job,
                        first,
                        told,
                        events,
                        before,
                        *reporter,
                        event,
                        (*io, *clock),
                        *reporter,
                    );
                }
                return Err(XmodemError::Cancelled);
            }
            if attempt > 0 {
                let ghost told_before = *reporter;
                reporter.report(Progress::Retry { packet: packet_no as u32, attempt });
                proof {
                    let event = TransferEvent::Report(
                        Progress::Retry { packet: packet_no as u32, attempt },
                    );
                    events = grown(
                        job,
                        first,
                        told,
                        events,
                        (*io, *clock),
                        told_before,
                        event,
                        (*io, *clock),
                        *reporter,
                    );
                }
            }
            let ghost before = (*io, *clock);
            let wrote = io.write_all(&frame);
            proof {
                let event = TransferEvent::Line(LineEvent::Write { data: frame@, result: wrote });
                events = grown(
                    job,
                    first,
                    told,
                    events,
                    before,
                    *reporter,
                    event,
                    (*io, *clock),
                    *reporter,
                );
            }
            if let Err(error) = wrote {
                return Err(error);
            }
            let ghost before = (*io, *clock);
            let outcome = wait_response(io, clock, packet_timeout);
            proof {
                let event = TransferEvent::Answer { timeout: packet_timeout, outcome };
                events = grown(
                    job,
                    first,
                    told,
                    events,
                    before,
                    *reporter,
                    event,
                    (*io, *clock),
                    *reporter,
                );
            }
            let answer: Option<u8> = match outcome {
                Ok(answer) => answer,
                Err(error) => {
                    return Err(error);
                },
            };
            match judge_answer(answer, attempt) {
                Verdict::Accepted => {
                    accepted = true;
                },
                Verdict::Cancelled => {
                    return Err(XmodemError::RemoteCancel);
                },
                Verdict::Again(next) => {
                    attempt = next;
                    let ghost before = (*io, *clock);
                    drain_pending(io);
                    proof {
                        let event = TransferEvent::Drain;
                        events = grown(
                            job,
                            first,
                            told,
                            events,
                            before,
                            *reporter,
                            event,
                            (*io, *clock),
                            *reporter,
                        );
                    }
                },
                Verdict::Exhausted => {
                    let ghost before = (*io, *clock);
                    let result = write_cancel(io);
                    proof {
                        let event = TransferEvent::Line(
                            LineEvent::Write { data: cancel_bytes(), result },
                        );
                        events = grown(
                            job,
                            first,
                            told,
                            events,
                            before,
                            *reporter,
                            event,
                            (*io, *clock),
                            *reporter,
                        );
                    }
                    return Err(XmodemError::TooManyRetries(MAX_RETRIES));
                },
            }
        }
        sent_bytes = sent_bytes.saturating_add(blocks[index].len() as u64);
        let progress = Progress::Packet {
            sent: (index + 1) as u32,
            total,
            bytes: sent_bytes,
            total_bytes: data.len() as u64,
        };
        assert(sent_bytes == saturated((index + 1) * job.block_size())) by (nonlinear_arith)
            requires
                sent_bytes == saturated(saturated(index * job.block_size()) + job.block_size()),
        ;
        let ghost told_before = *reporter;
        reporter.report(progress);
        proof {
            let event = TransferEvent::Report(progress);
            events = grown(
                job,
                first,
                told,
                events,
                (*io, *clock),
                told_before,
                event,
                (*io, *clock),
                *reporter,
            );
        }
        index = index + 1;
    }

    let mut attempt: u32 = 0;
    let mut accepted: bool = false;
    while !accepted
        invariant
            first == (*old(io), *old(clock)),
            told == *old(reporter),
            reporter.accepts(),
            job == (SendJob { data: data@, handshake_timeout, packet_timeout, use_1k }),
            attempt <= MAX_RETRIES,
            transfer_run(first, told, events, (*io, *clock), *reporter),
            send_after(job, events) == (if accepted {
                SendState::Finishing
            } else {
                SendState::Ending { attempt }
            }),
        decreases
                MAX_RETRIES - attempt,
                (if accepted {
                    0int
                } else {
                    1int
                }),
    {
        let ghost before = (*io, *clock);
        let wrote = write_byte(io, EOT);
        proof {
            let event = TransferEvent::Line(LineEvent::Write { data: seq![EOT], result: wrote });
            events = grown(
                job,
                first,
                told,
                events,
                before,
                *reporter,
                event,
                (*io, *clock),
                *reporter,
            );
        }
        if let Err(error) = wrote {
            return Err(error);
        }
        let ghost before = (*io, *clock);
        let outcome = wait_response(io, clock, packet_timeout);
        proof {
            let event = TransferEvent::Answer { timeout: packet_timeout, outcome };
            events = grown(
                job,
                first,
                told,
                events,
                before,
                *reporter,
                event,
                (*io, *clock),
                *reporter,
            );
        }
        let answer: Option<u8> = match outcome {
            Ok(answer) => answer,
            Err(error) => {
                return Err(error);
            },
        };
        match judge_answer(answer, attempt) {
            Verdict::Accepted => {
                accepted = true;
            },
            Verdict::Cancelled => {
                return Err(XmodemError::RemoteCancel);
            },
            Verdict::Again(next) => {
                attempt = next;
            },
            Verdict::Exhausted => {
                return Err(XmodemError::TooManyRetries(MAX_RETRIES));
            },
        }
    }

    let progress = Progress::Finished { packets: total, bytes: data.len() as u64 };
    let ghost told_before = *reporter;
    reporter.report(progress);
    proof {
        let event = TransferEvent::Report(progress);
        events = grown(
            job,
            first,
            told,
            events,
            (*io, *clock),
            told_before,
            event,
            (*io, *clock),
            *reporter,
        );
    }
    Ok(())
}

} // verus!
