//! What holds of every run of [`send`](super::sender::send), whatever the line answers.

use super::line::LineEvent;
use super::packet::payloads;
use super::sender::{cancel_bytes, packet_number, send_after, send_step, SendJob, SendState};
use super::transfer::{reported, written, TransferEvent};
use super::wire_laws::{blocks_needed, law_blocks_byte_by_byte, law_packet_layout, passes};
use super::{ChecksumMode, Progress, XmodemError, ACK, CAN, EOT, MAX_RETRIES};
use vstd::prelude::*;

verus! {

/// The check that the handshake of a transcript agreed on.
pub open spec fn agreed_mode(events: Seq<TransferEvent>) -> Option<ChecksumMode>
    decreases events.len(),
{
    if events.len() == 0 {
        None
    } else {
        match events.last() {
            TransferEvent::Handshake { outcome: Ok(mode), .. } => Some(mode),
            _ => agreed_mode(events.drop_last()),
        }
    }
}

/// How many answers of a transcript were acknowledgements.
pub open spec fn acknowledgements(events: Seq<TransferEvent>) -> nat
    decreases events.len(),
{
    if events.len() == 0 {
        0
    } else {
        acknowledgements(events.drop_last()) + match events.last() {
            TransferEvent::Answer { outcome: Ok(Some(byte)), .. } => if byte == ACK {
                1nat
            } else {
                0nat
            },
            _ => 0nat,
        }
    }
}

/// `list` with repetitions of the element just before left out.
pub open spec fn without_repeats(list: Seq<Seq<u8>>) -> Seq<Seq<u8>>
    decreases list.len(),
{
    if list.len() == 0 {
        Seq::empty()
    } else {
        let kept = without_repeats(list.drop_last());
        if kept.len() > 0 && kept.last() == list.last() {
            kept
        } else {
            kept.push(list.last())
        }
    }
}

/// The reports other than retries.
pub open spec fn milestones(reports: Seq<Progress>) -> Seq<Progress>
    decreases reports.len(),
{
    if reports.len() == 0 {
        Seq::empty()
    } else {
        match reports.last() {
            Progress::Retry { .. } => milestones(reports.drop_last()),
            progress => milestones(reports.drop_last()).push(progress),
        }
    }
}

/// The first `count` packets of a job.
pub open spec fn frames(job: SendJob, mode: ChecksumMode, count: int) -> Seq<Seq<u8>> {
    Seq::new(count as nat, |i: int| job.frame(mode, i))
}

/// The reports up to the one on the last of `count` packets.
pub open spec fn packet_reports(job: SendJob, mode: ChecksumMode, count: int) -> Seq<Progress> {
    seq![Progress::WaitingHandshake, Progress::HandshakeDone(mode)] + Seq::new(
        count as nat,
        |i: int| job.packet_report(i),
    )
}

/// How far a send has come: the check agreed on, the number of packets written, the number
/// accepted, the number reported, whether the end was written, and the retry it is at.
spec fn tally(
    job: SendJob,
    events: Seq<TransferEvent>,
    mode: ChecksumMode,
    wrote: int,
    accepted: int,
    told: int,
    attempt: u32,
) -> bool {
    let n = job.blocks().len();
    &&& agreed_mode(events) == Some(mode)
    &&& 0 <= told <= accepted <= wrote
    &&& told <= n
    &&& wrote <= n + 1
    &&& attempt <= MAX_RETRIES
    &&& without_repeats(written(events)) == if wrote <= n {
        frames(job, mode, wrote)
    } else {
        frames(job, mode, n as int).push(seq![EOT])
    }
    &&& acknowledgements(events) == accepted
    &&& milestones(reported(events)) == packet_reports(job, mode, told)
}

/// What holds of a transcript that has led to a state.
spec fn inv(job: SendJob, events: Seq<TransferEvent>) -> bool {
    let n = job.blocks().len() as int;
    let fresh = written(events).len() == 0 && acknowledgements(events) == 0;
    match send_after(job, events) {
        SendState::Start => fresh && reported(events).len() == 0,
        SendState::Announcing => fresh && reported(events).len() == 0,
        SendState::Handshaking => fresh && milestones(reported(events)) == seq![
            Progress::WaitingHandshake,
        ],
        SendState::Agreeing { mode } => fresh && milestones(reported(events)) == seq![
            Progress::WaitingHandshake,
        ] && agreed_mode(events) == Some(mode),
        SendState::AtBlock { mode, index } => index < n && tally(
            job,
            events,
            mode,
            index,
            index,
            index,
            0,
        ),
        SendState::AtAttempt { mode, index, attempt } => index < n && tally(
            job,
            events,
            mode,
            if attempt > 0 {
                index + 1
            } else {
                index
            },
            index,
            index,
            attempt,
        ),
        SendState::Retrying { mode, index, attempt } => index < n && attempt > 0 && tally(
            job,
            events,
            mode,
            index + 1,
            index,
            index,
            attempt,
        ),
        SendState::Writing { mode, index, attempt } => index < n && tally(
            job,
            events,
            mode,
            if attempt > 0 {
                index + 1
            } else {
                index
            },
            index,
            index,
            attempt,
        ),
        SendState::Waiting { mode, index, attempt } => index < n && tally(
            job,
            events,
            mode,
            index + 1,
            index,
            index,
            attempt,
        ),
        SendState::Draining { mode, index, attempt } => index < n && attempt > 0 && tally(
            job,
            events,
            mode,
            index + 1,
            index,
            index,
            attempt,
        ),
        SendState::Accepted { mode, index } => index < n && tally(
            job,
            events,
            mode,
            index + 1,
            index + 1,
            index,
            0,
        ),
        SendState::Ending { attempt } => agreed_mode(events) is Some && tally(
            job,
            events,
            agreed_mode(events)->0,
            if attempt > 0 {
                n + 1
            } else {
                n
            },
            n,
            n,
            attempt,
        ),
        SendState::EndWaiting { attempt } => agreed_mode(events) is Some && tally(
            job,
            events,
            agreed_mode(events)->0,
            n + 1,
            n,
            n,
            attempt,
        ),
        SendState::Finishing => agreed_mode(events) is Some && tally(
            job,
            events,
            agreed_mode(events)->0,
            n + 1,
            n + 1,
            n,
            0,
        ),
        SendState::Done { result } => result is Ok ==> {
            &&& agreed_mode(events) is Some
            &&& without_repeats(written(events)) == frames(job, agreed_mode(events)->0, n).push(
                seq![EOT],
            )
            &&& acknowledgements(events) == n + 1
            &&& milestones(reported(events)) == packet_reports(
                job,
                agreed_mode(events)->0,
                n,
            ).push(job.final_report())
        },
        SendState::Aborting { .. } => true,
        SendState::Broken => true,
    }
}

proof fn lemma_push(events: Seq<TransferEvent>, event: TransferEvent)
    ensures
        events.push(event).drop_last() == events,
        events.push(event).last() == event,
{
    assert(events.push(event).drop_last() =~= events);
}

proof fn lemma_repeats_push(list: Seq<Seq<u8>>, item: Seq<u8>)
    ensures
        without_repeats(list.push(item)) == ({
            let kept = without_repeats(list);
            if kept.len() > 0 && kept.last() == item {
                kept
            } else {
                kept.push(item)
            }
        }),
{
    assert(list.push(item).drop_last() =~= list);
}

proof fn lemma_milestones_push(reports: Seq<Progress>, progress: Progress)
    ensures
        milestones(reports.push(progress)) == (if progress is Retry {
            milestones(reports)
        } else {
            milestones(reports).push(progress)
        }),
{
    assert(reports.push(progress).drop_last() =~= reports);
}

/// Two packets in a row have different numbers.
proof fn lemma_frames_differ(job: SendJob, mode: ChecksumMode, index: int)
    requires
        0 <= index,
        index + 1 < job.blocks().len(),
    ensures
        job.frame(mode, index) != job.frame(mode, index + 1),
{
    assert(job.frame(mode, index)[1] == packet_number(index));
    assert(job.frame(mode, index + 1)[1] == packet_number(index + 1));
}

proof fn lemma_frame_is_not_eot(job: SendJob, mode: ChecksumMode, index: int)
    ensures
        job.frame(mode, index) != seq![EOT],
{
    assert(job.frame(mode, index).len() >= 3);
}

/// Writing the packet at `index`, for the first time or again.
proof fn lemma_write_frame(job: SendJob, mode: ChecksumMode, index: int, list: Seq<Seq<u8>>)
    requires
        0 <= index < job.blocks().len(),
        without_repeats(list) == frames(job, mode, index) || without_repeats(list) == frames(
            job,
            mode,
            index + 1,
        ),
    ensures
        without_repeats(list.push(job.frame(mode, index))) == frames(job, mode, index + 1),
{
    lemma_repeats_push(list, job.frame(mode, index));
    assert(frames(job, mode, index).push(job.frame(mode, index)) =~= frames(job, mode, index + 1));
    assert(frames(job, mode, index + 1).last() == job.frame(mode, index));
    if index > 0 {
        assert(frames(job, mode, index).last() == job.frame(mode, index - 1));
        lemma_frames_differ(job, mode, index - 1);
    }
    if without_repeats(list) == frames(job, mode, index) {
        assert(without_repeats(list).len() == index);
    }
}

proof fn lemma_write_end(job: SendJob, mode: ChecksumMode, list: Seq<Seq<u8>>)
    requires
        without_repeats(list) == frames(job, mode, job.blocks().len() as int)
            || without_repeats(list) == frames(job, mode, job.blocks().len() as int).push(
            seq![EOT],
        ),
    ensures
        without_repeats(list.push(seq![EOT])) == frames(job, mode, job.blocks().len() as int).push(
            seq![EOT],
        ),
{
    let n = job.blocks().len() as int;
    lemma_repeats_push(list, seq![EOT]);
    if n > 0 {
        assert(frames(job, mode, n).last() == job.frame(mode, n - 1));
        lemma_frame_is_not_eot(job, mode, n - 1);
    }
}

proof fn lemma_inv_step(job: SendJob, events: Seq<TransferEvent>, event: TransferEvent)
    requires
        inv(job, events),
    ensures
        inv(job, events.push(event)),
{
    let next = events.push(event);
    lemma_push(events, event);
    let n = job.blocks().len() as int;
    let state = send_after(job, events);
    assert(send_after(job, next) == send_step(job, state, event));
    match event {
        TransferEvent::Report(progress) => {
            lemma_milestones_push(reported(events), progress);
            match state {
                SendState::Announcing => {
                    assert(milestones(reported(events)) =~= Seq::empty());
                    if progress is WaitingHandshake {
                        assert(milestones(reported(next)) =~= seq![Progress::WaitingHandshake]);
                    }
                },
                SendState::Agreeing { mode } => {
                    if progress == Progress::HandshakeDone(mode) {
                        assert(packet_reports(job, mode, 0) =~= milestones(reported(next)));
                        assert(frames(job, mode, 0) =~= Seq::empty());
                        assert(without_repeats(written(next)) =~= frames(job, mode, 0));
                    }
                },
                SendState::Accepted { mode, index } => {
                    assert(packet_reports(job, mode, index).push(job.packet_report(index))
                        =~= packet_reports(job, mode, index + 1));
                },
                _ => {},
            }
        },
        TransferEvent::Line(LineEvent::Write { data, result }) => {
            match state {
                SendState::Writing { mode, index, attempt } => {
                    if data == job.frame(mode, index) && result is Ok {
                        lemma_write_frame(job, mode, index, written(events));
                    }
                },
                SendState::Ending { attempt } => {
                    if data == seq![EOT] && result is Ok {
                        lemma_write_end(job, agreed_mode(events)->0, written(events));
                    }
                },
                _ => {},
            }
        },
        _ => {},
    }
}

proof fn lemma_inv(job: SendJob, events: Seq<TransferEvent>)
    ensures
        inv(job, events),
    decreases events.len(),
{
    if events.len() > 0 {
        let shorter = events.drop_last();
        lemma_inv(job, shorter);
        lemma_inv_step(job, shorter, events.last());
        assert(shorter.push(events.last()) =~= events);
    }
}

/// A send that succeeds has written its packets in order, each one once or several times in
/// a row, and then the end of the transfer; nothing else.
pub proof fn law_success_means_all_packets_in_order(job: SendJob, events: Seq<TransferEvent>)
    requires
        send_after(job, events) == (SendState::Done { result: Ok(()) }),
    ensures
        agreed_mode(events) is Some,
        without_repeats(written(events)) == frames(
            job,
            agreed_mode(events)->0,
            job.blocks().len() as int,
        ).push(seq![EOT]),
{
    lemma_inv(job, events);
}

/// A send that succeeds has seen every packet and the end of the transfer acknowledged.
pub proof fn law_success_means_all_acknowledged(job: SendJob, events: Seq<TransferEvent>)
    requires
        send_after(job, events) == (SendState::Done { result: Ok(()) }),
    ensures
        acknowledgements(events) == job.blocks().len() + 1,
{
    lemma_inv(job, events);
}

/// The reports of a send that succeeds, apart from retries: the wait, the agreed check, each
/// packet once and in order, the end.
pub proof fn law_success_reports(job: SendJob, events: Seq<TransferEvent>)
    requires
        send_after(job, events) == (SendState::Done { result: Ok(()) }),
    ensures
        agreed_mode(events) is Some,
        milestones(reported(events)) == packet_reports(
            job,
            agreed_mode(events)->0,
            job.blocks().len() as int,
        ).push(job.final_report()),
{
    lemma_inv(job, events);
}

/// All that a send reports in the end, apart from retries.
pub open spec fn all_reports(job: SendJob, mode: ChecksumMode) -> Seq<Progress> {
    packet_reports(job, mode, job.blocks().len() as int).push(job.final_report())
}

/// Whether the reports of a transcript are the first `count` that a send makes.
spec fn reported_so_far(job: SendJob, events: Seq<TransferEvent>, count: int) -> bool {
    let mode = match agreed_mode(events) {
        Some(mode) => mode,
        None => ChecksumMode::Crc,
    };
    &&& 0 <= count <= job.blocks().len() + 2
    &&& milestones(reported(events)) == all_reports(job, mode).take(count)
}

/// The reports in every state but that of success.
proof fn lemma_reports(job: SendJob, events: Seq<TransferEvent>) -> (count: int)
    requires
        !(send_after(job, events) is Broken),
        send_after(job, events) != (SendState::Done { result: Ok(()) }),
    ensures
        reported_so_far(job, events, count),
    decreases events.len(),
{
    lemma_inv(job, events);
    let n = job.blocks().len() as int;
    let mode = match agreed_mode(events) {
        Some(mode) => mode,
        None => ChecksumMode::Crc,
    };
    let all = all_reports(job, mode);
    assert forall|k: int| 0 <= k <= n implies #[trigger] packet_reports(job, mode, k) == all.take(
        k + 2,
    ) by {
        assert(packet_reports(job, mode, k) =~= all.take(k + 2));
    }
    assert(all.take(1) =~= seq![Progress::WaitingHandshake]);
    assert(all.take(0) =~= Seq::empty());
    match send_after(job, events) {
        SendState::Start => {
            assert(milestones(reported(events)) =~= all.take(0));
            0
        },
        SendState::Announcing => {
            assert(milestones(reported(events)) =~= all.take(0));
            0
        },
        SendState::Handshaking => 1,
        SendState::Agreeing { .. } => 1,
        SendState::AtBlock { index, .. } => index + 2,
        SendState::AtAttempt { index, .. } => index + 2,
        SendState::Retrying { index, .. } => index + 2,
        SendState::Writing { index, .. } => index + 2,
        SendState::Waiting { index, .. } => index + 2,
        SendState::Draining { index, .. } => index + 2,
        SendState::Accepted { index, .. } => index + 2,
        SendState::Ending { .. } => n + 2,
        SendState::EndWaiting { .. } => n + 2,
        SendState::Finishing => n + 2,
        _ => lemma_reports(job, events.drop_last()),
    }
}

/// What a send reports, apart from retries, comes in the order in which a success reports it,
/// and stops short of the report that it has finished, unless it succeeds.
pub proof fn law_reports_come_in_order(job: SendJob, events: Seq<TransferEvent>)
    requires
        !(send_after(job, events) is Broken),
    ensures
        exists|mode: ChecksumMode| #[trigger]
            all_reports(job, mode).take(milestones(reported(events)).len() as int) == milestones(
                reported(events),
            ) && milestones(reported(events)).len() <= all_reports(job, mode).len(),
        milestones(reported(events)).len() == job.blocks().len() + 3 <==> send_after(job, events)
            == (SendState::Done { result: Ok(()) }),
{
    let n = job.blocks().len() as int;
    if send_after(job, events) == (SendState::Done { result: Ok(()) }) {
        law_success_reports(job, events);
        let mode = agreed_mode(events)->0;
        assert(all_reports(job, mode).take(n + 3) =~= all_reports(job, mode));
    } else {
        let count = lemma_reports(job, events);
        let mode = match agreed_mode(events) {
            Some(mode) => mode,
            None => ChecksumMode::Crc,
        };
        assert(all_reports(job, mode).take(count).len() == count);
    }
}

/// Only a send that succeeds reports that it has finished.
pub proof fn law_finished_only_on_success(job: SendJob, events: Seq<TransferEvent>)
    requires
        !(send_after(job, events) is Broken),
        send_after(job, events) != (SendState::Done { result: Ok(()) }),
    ensures
        forall|i: int| 0 <= i < reported(events).len() ==> !(#[trigger] reported(events)[
            i] is Finished),
{
    let count = lemma_reports(job, events);
    assert forall|i: int| 0 <= i < reported(events).len() implies !(#[trigger] reported(events)[
        i] is Finished) by {
        if reported(events)[i] is Finished {
            let k = lemma_milestone(reported(events), i);
            let mode = match agreed_mode(events) {
                Some(mode) => mode,
                None => ChecksumMode::Crc,
            };
            assert(milestones(reported(events))[k] == all_reports(job, mode)[k]);
        }
    }
}

/// A report that is no retry is kept among the milestones.
proof fn lemma_milestone(reports: Seq<Progress>, index: int) -> (at: int)
    requires
        0 <= index < reports.len(),
        !(reports[index] is Retry),
    ensures
        0 <= at < milestones(reports).len(),
        milestones(reports)[at] == reports[index],
    decreases reports.len(),
{
    if index == reports.len() - 1 {
        milestones(reports).len() - 1
    } else {
        lemma_milestone(reports.drop_last(), index)
    }
}

/// How often the last element of `list` stands at its end, one after the other.
pub open spec fn run_at_end(list: Seq<Seq<u8>>) -> nat
    decreases list.len(),
{
    if list.len() == 0 {
        0
    } else if list.len() >= 2 && list[list.len() - 2] == list.last() {
        run_at_end(list.drop_last()) + 1
    } else {
        1
    }
}

proof fn lemma_run_push(list: Seq<Seq<u8>>, item: Seq<u8>)
    ensures
        run_at_end(list.push(item)) == (if list.len() > 0 && list.last() == item {
            run_at_end(list) + 1
        } else {
            1
        }),
{
    assert(list.push(item).drop_last() =~= list);
}

proof fn lemma_repeats_last(list: Seq<Seq<u8>>)
    ensures
        without_repeats(list).len() == 0 <==> list.len() == 0,
        list.len() > 0 ==> without_repeats(list).last() == list.last(),
    decreases list.len(),
{
    if list.len() > 0 {
        lemma_repeats_last(list.drop_last());
    }
}

/// How often the last write was made, by the state that it led to.
spec fn run_inv(job: SendJob, events: Seq<TransferEvent>) -> bool {
    let run = run_at_end(written(events));
    match send_after(job, events) {
        SendState::AtAttempt { attempt, .. } => if attempt > 0 {
            run == attempt
        } else {
            run <= MAX_RETRIES + 1
        },
        SendState::Retrying { attempt, .. } => run == attempt,
        SendState::Writing { attempt, .. } => if attempt > 0 {
            run == attempt
        } else {
            run <= MAX_RETRIES + 1
        },
        SendState::Waiting { attempt, .. } => run == attempt + 1,
        SendState::Draining { attempt, .. } => run == attempt,
        SendState::Ending { attempt } => if attempt > 0 {
            run == attempt
        } else {
            run <= MAX_RETRIES + 1
        },
        SendState::EndWaiting { attempt } => run == attempt + 1,
        SendState::Broken => true,
        _ => run <= MAX_RETRIES + 1,
    }
}

proof fn lemma_run_step(job: SendJob, events: Seq<TransferEvent>, event: TransferEvent)
    requires
        inv(job, events),
        run_inv(job, events),
    ensures
        run_inv(job, events.push(event)),
{
    let next = events.push(event);
    lemma_push(events, event);
    let state = send_after(job, events);
    let n = job.blocks().len() as int;
    assert(send_after(job, next) == send_step(job, state, event));
    if let TransferEvent::Line(LineEvent::Write { data, result }) = event {
        let list = written(events);
        lemma_run_push(list, data);
        lemma_repeats_last(list);
        match state {
            SendState::Writing { mode, index, attempt } => {
                if attempt > 0 {
                    assert(frames(job, mode, index + 1).last() == job.frame(mode, index));
                } else if index > 0 {
                    assert(frames(job, mode, index).last() == job.frame(mode, index - 1));
                    lemma_frames_differ(job, mode, index - 1);
                } else {
                    assert(frames(job, mode, index).len() == 0);
                }
            },
            SendState::Ending { attempt } => {
                if attempt == 0 && n > 0 {
                    let mode = agreed_mode(events)->0;
                    assert(frames(job, mode, n).last() == job.frame(mode, n - 1));
                    lemma_frame_is_not_eot(job, mode, n - 1);
                } else if attempt == 0 {
                    assert(frames(job, agreed_mode(events)->0, n).len() == 0);
                }
            },
            SendState::Aborting { error } => {
                lemma_abort(job, events);
            },
            _ => {},
        }
    }
}

/// What was written last when a send is given up: a packet.
proof fn lemma_abort(job: SendJob, events: Seq<TransferEvent>)
    requires
        send_after(job, events) is Aborting,
    ensures
        written(events).len() > 0 ==> written(events).last() != cancel_bytes(),
{
    let shorter = events.drop_last();
    let event = events.last();
    let n = job.blocks().len() as int;
    lemma_inv(job, shorter);
    lemma_repeats_last(written(shorter));
    assert(written(events) == written(shorter));
    match send_after(job, shorter) {
        SendState::AtBlock { mode, index } => {
            if index > 0 {
                assert(frames(job, mode, index).last() == job.frame(mode, index - 1));
                lemma_frame_is_long(job, mode, index - 1);
            } else {
                assert(frames(job, mode, index).len() == 0);
            }
        },
        SendState::AtAttempt { mode, index, attempt } => {
            if attempt > 0 {
                assert(frames(job, mode, index + 1).last() == job.frame(mode, index));
                lemma_frame_is_long(job, mode, index);
            } else if index > 0 {
                assert(frames(job, mode, index).last() == job.frame(mode, index - 1));
                lemma_frame_is_long(job, mode, index - 1);
            } else {
                assert(frames(job, mode, index).len() == 0);
            }
        },
        SendState::Waiting { mode, index, attempt } => {
            assert(frames(job, mode, index + 1).last() == job.frame(mode, index));
            lemma_frame_is_long(job, mode, index);
        },
        _ => {},
    }
}

proof fn lemma_frame_is_long(job: SendJob, mode: ChecksumMode, index: int)
    ensures
        job.frame(mode, index) != cancel_bytes(),
{
    assert(job.frame(mode, index)[0] != CAN);
    assert(cancel_bytes()[0] == CAN);
}

proof fn lemma_run(job: SendJob, events: Seq<TransferEvent>)
    ensures
        run_inv(job, events),
    decreases events.len(),
{
    if events.len() > 0 {
        let shorter = events.drop_last();
        lemma_run(job, shorter);
        lemma_inv(job, shorter);
        lemma_run_step(job, shorter, events.last());
        assert(shorter.push(events.last()) =~= events);
    }
}

/// Whatever the line answers, nothing is written more than once and ten times again in a
/// row, at any time of a send.
pub proof fn law_retries_are_bounded(job: SendJob, events: Seq<TransferEvent>)
    requires
        !(send_after(job, events) is Broken),
    ensures
        run_at_end(written(events)) <= 11,
{
    lemma_run(job, events);
    lemma_inv(job, events);
}

/// A send that is told between two packets, or between two attempts, that it was cancelled
/// does nothing but tell the receiver so, with three cancel bytes, and fails as cancelled;
/// whether the receiver could be told does not matter.
pub proof fn law_cancel_stops_sending(
    job: SendJob,
    events: Seq<TransferEvent>,
    event: TransferEvent,
)
    requires
        send_after(job, events) is AtBlock || send_after(job, events) is AtAttempt,
    ensures
        ({
            let told = events.push(TransferEvent::Line(LineEvent::Cancelled { flag: true }));
            match event {
                TransferEvent::Line(LineEvent::Write { data, result }) if data
                    == cancel_bytes() => send_after(job, told.push(event)) == (SendState::Done {
                    result: Err(XmodemError::Cancelled),
                }),
                _ => send_after(job, told.push(event)) is Broken,
            }
        }),
{
    let flag = TransferEvent::Line(LineEvent::Cancelled { flag: true });
    let told = events.push(flag);
    lemma_push(events, flag);
    lemma_push(told, event);
    assert(send_after(job, told) == send_step(job, send_after(job, events), flag));
}

/// A send whose wait was cancelled fails as cancelled at once; the other side is then told by
/// whoever asked for that.
pub proof fn law_cancelled_wait_stops_sending(
    job: SendJob,
    events: Seq<TransferEvent>,
    event: TransferEvent,
)
    requires
        match event {
            TransferEvent::Handshake { timeout, outcome } => timeout == job.handshake_timeout
                && outcome == Err::<ChecksumMode, XmodemError>(XmodemError::Cancelled)
                && send_after(job, events) is Handshaking,
            TransferEvent::Answer { timeout, outcome } => timeout == job.packet_timeout && outcome
                == Err::<Option<u8>, XmodemError>(XmodemError::Cancelled) && (send_after(
                job,
                events,
            ) is Waiting || send_after(job, events) is EndWaiting),
            _ => false,
        },
    ensures
        send_after(job, events.push(event)) == (SendState::Done {
            result: Err(XmodemError::Cancelled),
        }),
{
    lemma_push(events, event);
}

/// Whether an event is the best that the line can offer to a sender: nothing fails, nobody
/// cancels, the receiver asks for the given check and accepts what it is sent.
pub open spec fn smooth(mode: ChecksumMode, event: TransferEvent) -> bool {
    match event {
        TransferEvent::Line(LineEvent::Cancelled { flag }) => !flag,
        TransferEvent::Line(LineEvent::Write { result, .. }) => result is Ok,
        TransferEvent::Line(LineEvent::Flush { result }) => result is Ok,
        TransferEvent::Handshake { outcome, .. } => outcome == Ok::<ChecksumMode, XmodemError>(mode),
        TransferEvent::Answer { outcome, .. } => outcome == Ok::<Option<u8>, XmodemError>(
            Some(ACK),
        ),
        _ => true,
    }
}

/// What holds of a send on a smooth line.
spec fn smooth_inv(job: SendJob, agreed: ChecksumMode, events: Seq<TransferEvent>) -> bool {
    let n = job.blocks().len() as int;
    let list = written(events);
    match send_after(job, events) {
        SendState::Start => list.len() == 0,
        SendState::Announcing => list.len() == 0,
        SendState::Handshaking => list.len() == 0,
        SendState::Agreeing { mode } => mode == agreed && list.len() == 0,
        SendState::AtBlock { mode, index } => mode == agreed && 0 <= index < n && list == frames(
            job,
            agreed,
            index,
        ),
        SendState::AtAttempt { mode, index, attempt } => mode == agreed && 0 <= index < n && attempt
            == 0 && list == frames(job, agreed, index),
        SendState::Writing { mode, index, attempt } => mode == agreed && 0 <= index < n && attempt
            == 0 && list == frames(job, agreed, index),
        SendState::Waiting { mode, index, attempt } => mode == agreed && 0 <= index < n && attempt
            == 0 && list == frames(job, agreed, index + 1),
        SendState::Accepted { mode, index } => mode == agreed && 0 <= index < n && list == frames(
            job,
            agreed,
            index + 1,
        ),
        SendState::Ending { attempt } => attempt == 0 && list == frames(job, agreed, n),
        SendState::EndWaiting { attempt } => attempt == 0 && list == frames(job, agreed, n).push(
            seq![EOT],
        ),
        SendState::Finishing => list == frames(job, agreed, n).push(seq![EOT]),
        SendState::Done { result } => result is Ok && list == frames(job, agreed, n).push(
            seq![EOT],
        ),
        SendState::Broken => true,
        _ => false,
    }
}

proof fn lemma_smooth(job: SendJob, mode: ChecksumMode, events: Seq<TransferEvent>)
    requires
        forall|i: int| 0 <= i < events.len() ==> smooth(mode, #[trigger] events[i]),
    ensures
        smooth_inv(job, mode, events),
    decreases events.len(),
{
    if events.len() > 0 {
        let shorter = events.drop_last();
        let event = events.last();
        assert forall|i: int| 0 <= i < shorter.len() implies smooth(mode, #[trigger] shorter[i]) by {
            assert(shorter[i] == events[i]);
        }
        lemma_smooth(job, mode, shorter);
        assert(smooth(mode, events[events.len() - 1]));
        assert(frames(job, mode, 0) =~= Seq::empty());
        if written(shorter).len() == 0 {
            assert(written(shorter) =~= Seq::empty());
        }
        match send_after(job, shorter) {
            SendState::Writing { index, .. } => {
                assert(frames(job, mode, index).push(job.frame(mode, index)) =~= frames(
                    job,
                    mode,
                    index + 1,
                ));
            },
            _ => {},
        }
    }
}

/// On a line where nothing fails, nobody cancels and everything is accepted, a send
/// succeeds, and what it writes is every packet once and the end of the transfer.
pub proof fn law_smooth_send_succeeds(
    job: SendJob,
    mode: ChecksumMode,
    events: Seq<TransferEvent>,
)
    requires
        send_after(job, events) is Done,
        forall|i: int| 0 <= i < events.len() ==> smooth(mode, #[trigger] events[i]),
    ensures
        send_after(job, events) == (SendState::Done { result: Ok(()) }),
        written(events) == frames(job, mode, job.blocks().len() as int).push(seq![EOT]),
{
    lemma_smooth(job, mode, events);
}

// ---------------------------------------------------------------------------------------
// A send, byte by byte
// ---------------------------------------------------------------------------------------

/// Whether a frame is the packet at `index` of a file sent in blocks of `size` bytes: it passes
/// its check, its number is the index plus one with eight bits, and each of its data bytes is
/// the byte of the file at its place, or 0x1A where the file is over.
pub open spec fn carries(
    frame: Seq<u8>,
    data: Seq<u8>,
    size: nat,
    index: int,
    mode: ChecksumMode,
) -> bool {
    &&& passes(frame, size, mode)
    &&& frame[1] == (index + 1) % 256
    &&& forall|j: int|
        0 <= j < size ==> #[trigger] frame[3 + j] == if index * size + j < data.len() {
            data[index * size + j]
        } else {
            0x1Au8
        }
}

/// The number of data bytes in each packet: 1024 where large packets are wanted, 128 where not.
pub open spec fn packet_size(use_1k: bool) -> nat {
    if use_1k {
        1024
    } else {
        128
    }
}

proof fn lemma_frame_carries(job: SendJob, mode: ChecksumMode, index: int)
    requires
        0 <= index < job.blocks().len(),
    ensures
        carries(job.frame(mode, index), job.data, packet_size(job.use_1k), index, mode),
        job.blocks().len() == blocks_needed(job.data.len(), packet_size(job.use_1k)),
{
    let size = packet_size(job.use_1k);
    let block = job.blocks()[index];
    let frame = job.frame(mode, index);
    law_blocks_byte_by_byte(job.data, size);
    law_packet_layout(packet_number(index), block, mode);
    assert forall|j: int| 0 <= j < size implies #[trigger] frame[3 + j] == if index * size + j
        < job.data.len() {
        job.data[index * size + j]
    } else {
        0x1Au8
    } by {
        assert(frame.subrange(3, 3 + size as int)[j] == block[j]);
        assert(payloads(job.data, size)[index][j] == block[j]);
    }
}

/// How many of the answers were the byte 6.
pub open spec fn sixes(events: Seq<TransferEvent>) -> nat
    decreases events.len(),
{
    if events.len() == 0 {
        0
    } else {
        sixes(events.drop_last()) + if events.last() matches TransferEvent::Answer {
            outcome: Ok(Some(byte)),
            ..
        } && byte == 0x06 {
            1nat
        } else {
            0nat
        }
    }
}

proof fn lemma_sixes(events: Seq<TransferEvent>)
    ensures
        sixes(events) == acknowledgements(events),
    decreases events.len(),
{
    if events.len() > 0 {
        lemma_sixes(events.drop_last());
    }
}

/// What a send that succeeds puts on the line: as many packets of 1024 or 128 bytes as the file
/// takes, in order, each one once or several times in a row, and then the byte 4. Each packet,
/// and the end, was answered by the byte 6 once.
pub proof fn law_success_on_the_wire(job: SendJob, events: Seq<TransferEvent>)
    requires
        send_after(job, events) == (SendState::Done { result: Ok(()) }),
    ensures
        agreed_mode(events) is Some,
        ({
            let size = packet_size(job.use_1k);
            let count = blocks_needed(job.data.len(), size);
            let list = without_repeats(written(events));
            &&& list.len() == count + 1
            &&& forall|i: int|
                0 <= i < count ==> carries(
                    #[trigger] list[i],
                    job.data,
                    size,
                    i,
                    agreed_mode(events)->0,
                )
            &&& list[count] == seq![0x04u8]
            &&& sixes(events) == count + 1
        }),
{
    let size = packet_size(job.use_1k);
    let count = blocks_needed(job.data.len(), size);
    let list = without_repeats(written(events));
    law_success_means_all_packets_in_order(job, events);
    law_success_means_all_acknowledged(job, events);
    lemma_sixes(events);
    law_blocks_byte_by_byte(job.data, size);
    assert forall|i: int| 0 <= i < count implies carries(
        #[trigger] list[i],
        job.data,
        size,
        i,
        agreed_mode(events)->0,
    ) by {
        lemma_frame_carries(job, agreed_mode(events)->0, i);
    }
}

/// Large packets start with 2 and have 1024 bytes of data, small ones start with 1 and have
/// 128; what is asked for decides, in every packet of every send that succeeds, and how many
/// there are.
pub proof fn law_size_of_packets(job: SendJob, events: Seq<TransferEvent>, index: int)
    requires
        send_after(job, events) == (SendState::Done { result: Ok(()) }),
        0 <= index < without_repeats(written(events)).len() - 1,
    ensures
        ({
            let list = without_repeats(written(events));
            let check = if agreed_mode(events) == Some(ChecksumMode::Crc) {
                2int
            } else {
                1int
            };
            if job.use_1k {
                &&& list[index][0] == 0x02
                &&& list[index].len() == 3 + 1024 + check
                &&& list.len() - 1 == (job.data.len() + 1023) / 1024
            } else {
                &&& list[index][0] == 0x01
                &&& list[index].len() == 3 + 128 + check
                &&& list.len() - 1 == (job.data.len() + 127) / 128
            }
        }),
{
    law_success_on_the_wire(job, events);
}

/// A beginning of a transcript is one too.
proof fn lemma_prefix(job: SendJob, events: Seq<TransferEvent>, len: int)
    requires
        !(send_after(job, events) is Broken),
        0 <= len <= events.len(),
    ensures
        !(send_after(job, events.take(len)) is Broken),
    decreases events.len(),
{
    if len == events.len() {
        assert(events.take(len) =~= events);
    } else {
        lemma_prefix(job, events.drop_last(), len);
        assert(events.drop_last().take(len) =~= events.take(len));
    }
}

/// Two events in a row.
proof fn lemma_two(job: SendJob, events: Seq<TransferEvent>, i: int)
    requires
        !(send_after(job, events) is Broken),
        0 <= i,
        i + 1 < events.len(),
    ensures
        ({
            let state = send_step(job, send_after(job, events.take(i)), events[i]);
            &&& send_after(job, events.take(i + 1)) == state
            &&& !(send_step(job, state, events[i + 1]) is Broken)
        }),
{
    assert(events.take(i + 1).drop_last() =~= events.take(i));
    assert(events.take(i + 2).drop_last() =~= events.take(i + 1));
    lemma_prefix(job, events, i + 2);
}

/// The first event.
proof fn lemma_first_event(job: SendJob, events: Seq<TransferEvent>)
    requires
        !(send_after(job, events) is Broken),
        events.len() > 0,
    ensures
        events[0] is Line && events[0]->Line_0 is Flush,
{
    lemma_prefix(job, events, 1);
    assert(events.take(1).drop_last() =~= Seq::empty());
    assert(send_after(job, Seq::empty()) is Start);
    assert(send_after(job, events.take(1)) == send_step(job, SendState::Start, events[0]));
}

/// Whether an event writes exactly these bytes.
pub open spec fn is_write(event: TransferEvent, bytes: Seq<u8>) -> bool {
    event matches TransferEvent::Line(LineEvent::Write { data, .. }) && data == bytes
}

/// Whether a send may do `next` right after `last`.
pub open spec fn may_follow(job: SendJob, last: TransferEvent, next: TransferEvent) -> bool {
    match last {
        TransferEvent::Line(LineEvent::Flush { result }) => result is Ok && next
            == TransferEvent::Report(Progress::WaitingHandshake),
        TransferEvent::Report(Progress::WaitingHandshake) => next matches TransferEvent::Handshake {
            timeout,
            ..
        } && timeout == job.handshake_timeout,
        TransferEvent::Handshake { outcome: Ok(mode), .. } => next == TransferEvent::Report(
            Progress::HandshakeDone(mode),
        ),
        TransferEvent::Report(Progress::HandshakeDone(_)) => next is Line && next->Line_0
            is Cancelled || is_write(next, seq![0x04u8]),
        TransferEvent::Report(Progress::Packet { .. }) => next is Line && next->Line_0 is Cancelled
            || is_write(next, seq![0x04u8]),
        TransferEvent::Line(LineEvent::Cancelled { flag }) => if flag {
            is_write(next, seq![0x18u8, 0x18u8, 0x18u8])
        } else {
            match next {
                TransferEvent::Line(LineEvent::Cancelled { .. }) => true,
                TransferEvent::Line(LineEvent::Write { .. }) => true,
                TransferEvent::Report(Progress::Retry { .. }) => true,
                _ => false,
            }
        },
        TransferEvent::Report(Progress::Retry { packet, .. }) => next matches TransferEvent::Line(
            LineEvent::Write { data, .. },
        ) && data.len() > 3 && data[1] == packet,
        TransferEvent::Line(LineEvent::Write { result, .. }) => result is Ok && (
        next matches TransferEvent::Answer { timeout, .. } && timeout == job.packet_timeout),
        TransferEvent::Answer { outcome: Ok(Some(byte)), .. } => if byte == 0x06 {
            next is Report && (next->Report_0 is Packet || next->Report_0 is Finished)
        } else {
            byte != 0x18 && (next is Drain || is_write(next, seq![0x04u8]) || is_write(
                next,
                seq![0x18u8, 0x18u8, 0x18u8],
            ))
        },
        TransferEvent::Answer { outcome: Ok(None), .. } => next is Drain || is_write(
            next,
            seq![0x04u8],
        ) || is_write(next, seq![0x18u8, 0x18u8, 0x18u8]),
        TransferEvent::Drain => next is Line && next->Line_0 is Cancelled,
        _ => false,
    }
}

/// What may follow, by the state that an event came from.
proof fn lemma_may_follow(
    job: SendJob,
    before: SendState,
    last: TransferEvent,
    next: TransferEvent,
)
    requires
        !(send_step(job, send_step(job, before, last), next) is Broken),
        send_step(job, before, last) matches SendState::Writing { mode, index, .. }
            ==> job.frame(mode, index).len() > 3 && job.frame(mode, index)[1] == packet_number(
            index,
        ),
    ensures
        may_follow(job, last, next),
{
    assert(cancel_bytes() =~= seq![0x18u8, 0x18u8, 0x18u8]);
}

/// The conversation of a send: pending input is dropped first; the receiver is waited for as
/// long as was asked for; every packet and the end are followed by a wait for the answer, as
/// long as was asked for; the byte 6 moves on, the byte 24 ends, and anything else reads away
/// what is pending before the same is sent again; and a cancel is followed by three bytes 24.
pub proof fn law_conversation_of_a_send(job: SendJob, events: Seq<TransferEvent>, i: int)
    requires
        !(send_after(job, events) is Broken),
        0 <= i,
        i + 1 < events.len(),
    ensures
        may_follow(job, events[i], events[i + 1]),
        events[0] is Line && events[0]->Line_0 is Flush,
{
    lemma_two(job, events, i);
    lemma_first_event(job, events);
    if let SendState::Writing { mode, index, attempt } = send_after(job, events.take(i + 1)) {
        lemma_inv(job, events.take(i + 1));
        lemma_frame_carries(job, mode, index);
    }
    lemma_may_follow(job, send_after(job, events.take(i)), events[i], events[i + 1]);
}

/// A retry is reported before it is made, with its number: how often the same was written just
/// before.
pub proof fn law_number_of_a_retry(job: SendJob, events: Seq<TransferEvent>, i: int)
    requires
        !(send_after(job, events) is Broken),
        0 <= i < events.len(),
        events[i] is Report && events[i]->Report_0 is Retry,
    ensures
        1 <= events[i]->Report_0->attempt <= 10,
        events[i]->Report_0->attempt == run_at_end(written(events.take(i))),
{
    assert(events.take(i + 1).drop_last() =~= events.take(i));
    lemma_prefix(job, events, i + 1);
    lemma_inv(job, events.take(i));
    lemma_run(job, events.take(i));
}

/// A send writes packets of its file, with the agreed check, the byte 4, and three bytes 24;
/// nothing else, however it ends.
pub proof fn law_nothing_else_is_written(job: SendJob, events: Seq<TransferEvent>, i: int)
    requires
        !(send_after(job, events) is Broken),
        0 <= i < events.len(),
        events[i] is Line && events[i]->Line_0 is Write,
    ensures
        ({
            let data = events[i]->Line_0->data;
            ||| data == seq![0x04u8]
            ||| data == seq![0x18u8, 0x18u8, 0x18u8]
            ||| exists|mode: ChecksumMode, index: int| #[trigger]
                carries(data, job.data, packet_size(job.use_1k), index, mode) && agreed_mode(
                    events.take(i),
                ) == Some(mode) && 0 <= index < blocks_needed(
                    job.data.len(),
                    packet_size(job.use_1k),
                )
        }),
{
    assert(events.take(i + 1).drop_last() =~= events.take(i));
    lemma_prefix(job, events, i + 1);
    lemma_inv(job, events.take(i));
    assert(cancel_bytes() =~= seq![0x18u8, 0x18u8, 0x18u8]);
    if let SendState::Writing { mode, index, attempt } = send_after(job, events.take(i)) {
        lemma_frame_carries(job, mode, index);
    }
}

/// Whether the outcome of a wait, or of a write, was this error.
pub open spec fn wait_failed(event: TransferEvent, error: XmodemError) -> bool {
    match event {
        TransferEvent::Line(LineEvent::Write { result, .. }) => result == Err::<(), XmodemError>(
            error,
        ),
        TransferEvent::Line(LineEvent::Flush { result }) => result == Err::<(), XmodemError>(
            error,
        ),
        TransferEvent::Handshake { outcome, .. } => outcome == Err::<ChecksumMode, XmodemError>(
            error,
        ),
        TransferEvent::Answer { outcome, .. } => outcome == Err::<Option<u8>, XmodemError>(error),
        _ => false,
    }
}

/// Whether an event is an answer that calls for another try: none in time, or a byte other than
/// 6 and 24.
pub open spec fn is_refusal(event: TransferEvent) -> bool {
    event matches TransferEvent::Answer { outcome: Ok(answer), .. } && answer != Some(0x06u8)
        && answer != Some(0x18u8)
}

/// A send is given up for too many retries only when the same was written eleven times in a row
/// and refused; for a packet the receiver is then told, with three bytes 24.
pub proof fn law_given_up_after_ten_retries(job: SendJob, events: Seq<TransferEvent>, limit: u32)
    requires
        send_after(job, events) == (SendState::Done {
            result: Err(XmodemError::TooManyRetries(limit)),
        }),
    ensures
        events.len() > 0,
        ({
            let shorter = events.drop_last();
            ||| wait_failed(events.last(), XmodemError::TooManyRetries(limit))
            ||| limit == 10 && is_refusal(events.last()) && run_at_end(written(events)) == 11
                && written(events).last() == seq![0x04u8]
            ||| limit == 10 && is_write(events.last(), seq![0x18u8, 0x18u8, 0x18u8])
                && shorter.len() > 0 && is_refusal(shorter.last()) && run_at_end(written(shorter))
                == 11
        }),
{
    let shorter = events.drop_last();
    assert(cancel_bytes() =~= seq![0x18u8, 0x18u8, 0x18u8]);
    lemma_inv(job, shorter);
    lemma_run(job, shorter);
    match send_after(job, shorter) {
        SendState::EndWaiting { attempt } => {
            lemma_repeats_last(written(shorter));
        },
        SendState::Aborting { error } => {
            let before = shorter.drop_last();
            lemma_inv(job, before);
            lemma_run(job, before);
        },
        _ => {},
    }
}

/// As long as the same was written no more than ten times in a row, a refusal does not end a
/// send: a packet is sent again after pending input was read away, and so is the end.
pub proof fn law_ten_retries_are_made(
    job: SendJob,
    events: Seq<TransferEvent>,
    next: TransferEvent,
)
    requires
        events.len() > 0,
        is_refusal(events.last()),
        run_at_end(written(events)) <= 10,
        !(send_after(job, events) is Broken),
    ensures
        !(send_after(job, events) is Done),
        !(send_after(job, events.push(next)) is Broken) ==> next is Drain || is_write(
            next,
            seq![0x04u8],
        ),
{
    let shorter = events.drop_last();
    lemma_push(events, next);
    lemma_run(job, shorter);
    lemma_inv(job, shorter);
}

/// A receiver that answers with the byte 24 ends the send at once, as cancelled by it; and
/// nothing else ends it in this way, unless the line fails so.
pub proof fn law_byte_24_ends_a_send(job: SendJob, events: Seq<TransferEvent>)
    requires
        events.len() > 0,
        !(send_after(job, events) is Broken),
    ensures
        (events.last() matches TransferEvent::Answer { outcome: Ok(Some(byte)), .. } && byte
            == 0x18) ==> send_after(job, events) == (SendState::Done {
            result: Err(XmodemError::RemoteCancel),
        }),
        send_after(job, events) == (SendState::Done { result: Err(XmodemError::RemoteCancel) }) ==> (
        events.last() matches TransferEvent::Answer { outcome: Ok(Some(byte)), .. } && byte == 0x18)
            || wait_failed(events.last(), XmodemError::RemoteCancel),
{
    let shorter = events.drop_last();
    if send_after(job, shorter) is Aborting {
        let before = shorter.drop_last();
        assert(send_after(job, shorter) == send_step(job, send_after(job, before), shorter.last()));
    }
}

/// A failure of the line, or of a wait on it, ends a send at once, with that failure; but not
/// while the receiver is told that the transfer is off.
pub proof fn law_failure_ends_a_send(job: SendJob, events: Seq<TransferEvent>, error: XmodemError)
    requires
        events.len() > 0,
        !(send_after(job, events) is Broken),
        wait_failed(events.last(), error),
        !is_write(events.last(), seq![0x18u8, 0x18u8, 0x18u8]),
    ensures
        send_after(job, events) == (SendState::Done { result: Err(error) }),
{
    assert(cancel_bytes() =~= seq![0x18u8, 0x18u8, 0x18u8]);
}

/// A send fails for want of time only when the wait for the handshake did, and as cancelled only
/// when it was, unless the line failed in this way.
pub proof fn law_reasons_for_failure(job: SendJob, events: Seq<TransferEvent>, error: XmodemError)
    requires
        send_after(job, events) == (SendState::Done { result: Err(error) }),
    ensures
        events.len() > 0,
        ({
            let last = events.last();
            ||| wait_failed(last, error)
            ||| error == XmodemError::RemoteCancel && (last matches TransferEvent::Answer {
                outcome: Ok(Some(byte)),
                ..
            } && byte == 0x18)
            ||| error == XmodemError::TooManyRetries(10)
            ||| error == XmodemError::Cancelled && events.len() >= 2 && (
            events[events.len() - 2] matches TransferEvent::Line(LineEvent::Cancelled { flag })
                && flag)
        }),
{
    let shorter = events.drop_last();
    if send_after(job, shorter) is Aborting {
        let before = shorter.drop_last();
        assert(send_after(job, shorter) == send_step(job, send_after(job, before), shorter.last()));
        assert(shorter.last() == events[events.len() - 2]);
    }
}

/// The numbers in the reports of a send that succeeds: each packet is reported with its place
/// among all packets and with the bytes sent so far, filling included; and the end with the
/// number of packets and the size of the file.
pub proof fn law_numbers_in_the_reports(job: SendJob, events: Seq<TransferEvent>)
    requires
        send_after(job, events) == (SendState::Done { result: Ok(()) }),
        job.data.len() + 1024 <= u64::MAX,
        blocks_needed(job.data.len(), packet_size(job.use_1k)) <= u32::MAX,
    ensures
        ({
            let size = packet_size(job.use_1k);
            let count = blocks_needed(job.data.len(), size);
            let told = milestones(reported(events));
            &&& told.len() == count + 3
            &&& told[0] is WaitingHandshake
            &&& told[1] == Progress::HandshakeDone(agreed_mode(events)->0)
            &&& forall|i: int|
                0 <= i < count ==> (#[trigger] told[2 + i] matches Progress::Packet {
                    sent,
                    total,
                    bytes,
                    total_bytes,
                } && sent == i + 1 && total == count && bytes == (i + 1) * size && total_bytes
                    == job.data.len())
            &&& told[2 + count] matches Progress::Finished { packets, bytes } && packets == count
                && bytes == job.data.len()
        }),
{
    let size = packet_size(job.use_1k);
    let count = blocks_needed(job.data.len(), size);
    let told = milestones(reported(events));
    law_success_reports(job, events);
    law_blocks_byte_by_byte(job.data, size);
    assert forall|i: int| 0 <= i < count implies (#[trigger] told[2 + i] matches Progress::Packet {
        sent,
        total,
        bytes,
        total_bytes,
    } && sent == i + 1 && total == count && bytes == (i + 1) * size && total_bytes
        == job.data.len()) by {
        assert(told[2 + i] == job.packet_report(i));
        assert((i + 1) * size <= job.data.len() + size) by (nonlinear_arith)
            requires
                i + 1 <= (job.data.len() + size - 1) / size as int,
                size > 0,
        ;
    }
}

} // verus!
