//! Transcripts of whole transfers.
//!
//! A transfer is told in larger steps than single calls on the line: waiting for an answer
//! or reading a frame is one event, tied to the calls on the line that it was made of.

use super::line::{
    is_call, line_run, line_step, timed_run, timed_step, Clock, LineEvent, SerialIo,
};
use super::wait::{
    drain_after, drained, frame_after, frame_awaited, handshake_after, handshake_awaited,
    response_after, response_awaited, rest_after, rest_awaited, FrameState, HandshakeState,
    ResponseState, RestState,
};
use super::{ChecksumMode, Progress, XmodemError};
use std::time::Duration;
use vstd::prelude::*;

verus! {

/// One step of a transfer, with its outcome.
pub enum TransferEvent {
    /// A single call on the line, or a look at the clock.
    Line(LineEvent),
    /// A progress report.
    Report(Progress),
    /// The sender waited for the handshake.
    Handshake { timeout: Duration, outcome: Result<ChecksumMode, XmodemError> },
    /// The sender waited for an answer.
    Answer { timeout: Duration, outcome: Result<Option<u8>, XmodemError> },
    /// The sender read away what had arrived.
    Drain,
    /// The receiver waited for a frame.
    Frame {
        mode: ChecksumMode,
        timeout: Duration,
        outcome: Result<Option<Seq<u8>>, XmodemError>,
    },
    /// The receiver read a frame of which it had the first byte.
    FrameRest { mode: ChecksumMode, header: u8, outcome: Option<Seq<u8>> },
}

/// Someone who is told of the progress of a transfer.
///
/// Nothing is promised about what a reporter does with a report. A relation tells how it may
/// look afterwards; it ties the reports in a transcript, in number and order, to those that
/// were really made.
pub trait Reporter {
    /// Whether it can be told of something.
    open spec fn accepts(&self) -> bool {
        true
    }

    /// Whether a report may leave `after`.
    open spec fn reports(&self, progress: Progress, after: &Self) -> bool {
        true
    }

    /// Takes a report.
    fn report(&mut self, progress: Progress)
        requires
            old(self).accepts(),
        ensures
            old(self).reports(progress, final(self)),
            final(self).accepts(),
    ;
}

/// A function that is called with every report.
pub struct Callback<F> {
    pub call: F,
}

impl<F: FnMut(Progress)> Reporter for Callback<F> {
    open spec fn accepts(&self) -> bool {
        forall|progress: Progress| call_requires(self.call, (progress,))
    }

    open spec fn reports(&self, progress: Progress, after: &Self) -> bool {
        call_ensures(self.call, (progress,), ()) && after == self
    }

    fn report(&mut self, progress: Progress) {
        (self.call)(progress)
    }
}

/// Whether `event` can happen on a line and a clock `before`, with `told` as the reporter, and
/// leave them as `after` and `told_after`.
pub open spec fn transfer_step<S: SerialIo, C: Clock, R: Reporter>(
    before: (S, C),
    told: R,
    event: TransferEvent,
    after: (S, C),
    told_after: R,
) -> bool {
    match event {
        TransferEvent::Report(progress) => told.reports(progress, &told_after) && after == before,
        TransferEvent::Line(event) => timed_step(before, event, after) && told_after == told,
        TransferEvent::Handshake { timeout, outcome } => handshake_awaited(
            before,
            timeout,
            outcome,
            after,
        ) && told_after == told,
        TransferEvent::Answer { timeout, outcome } => response_awaited(
            before,
            timeout,
            outcome,
            after,
        ) && told_after == told,
        TransferEvent::Drain => drained(before.0, after.0) && after.1 == before.1 && told_after
            == told,
        TransferEvent::Frame { mode, timeout, outcome } => frame_awaited(
            before,
            mode,
            timeout,
            outcome,
            after,
        ) && told_after == told,
        TransferEvent::FrameRest { mode, header, outcome } => rest_awaited(
            before.0,
            mode,
            header,
            outcome,
            after.0,
        ) && after.1 == before.1 && told_after == told,
    }
}

/// Whether the events, in this order, lead line and clock from `before` to `after` and the
/// reporter from `told` to `told_after`.
pub open spec fn transfer_run<S: SerialIo, C: Clock, R: Reporter>(
    before: (S, C),
    told: R,
    events: Seq<TransferEvent>,
    after: (S, C),
    told_after: R,
) -> bool
    decreases events.len(),
{
    if events.len() == 0 {
        before == after && told == told_after
    } else {
        exists|mid: (S, C), told_mid: R|
            transfer_run(before, told, events.drop_last(), mid, told_mid)
                && #[trigger] transfer_step(mid, told_mid, events.last(), after, told_after)
    }
}

/// A transcript grows by one event.
pub proof fn lemma_transfer_push<S: SerialIo, C: Clock, R: Reporter>(
    before: (S, C),
    told: R,
    events: Seq<TransferEvent>,
    mid: (S, C),
    told_mid: R,
    event: TransferEvent,
    after: (S, C),
    told_after: R,
)
    requires
        transfer_run(before, told, events, mid, told_mid),
        transfer_step(mid, told_mid, event, after, told_after),
    ensures
        transfer_run(before, told, events.push(event), after, told_after),
{
    assert(events.push(event).drop_last() =~= events);
    assert(transfer_step(mid, told_mid, events.push(event).last(), after, told_after));
}

/// Two transcripts, one after the other.
pub proof fn lemma_transfer_concat<S: SerialIo, C: Clock, R: Reporter>(
    before: (S, C),
    told: R,
    head: Seq<TransferEvent>,
    mid: (S, C),
    told_mid: R,
    tail: Seq<TransferEvent>,
    after: (S, C),
    told_after: R,
)
    requires
        transfer_run(before, told, head, mid, told_mid),
        transfer_run(mid, told_mid, tail, after, told_after),
    ensures
        transfer_run(before, told, head + tail, after, told_after),
    decreases tail.len(),
{
    if tail.len() == 0 {
        assert(head + tail =~= head);
    } else {
        let (last, told_last) = choose|last: (S, C), told_last: R|
            transfer_run(mid, told_mid, tail.drop_last(), last, told_last)
                && #[trigger] transfer_step(last, told_last, tail.last(), after, told_after);
        lemma_transfer_concat(
            before,
            told,
            head,
            mid,
            told_mid,
            tail.drop_last(),
            last,
            told_last,
        );
        lemma_transfer_push(
            before,
            told,
            head + tail.drop_last(),
            last,
            told_last,
            tail.last(),
            after,
            told_after,
        );
        assert((head + tail.drop_last()).push(tail.last()) =~= head + tail);
    }
}

/// A function that is called with reports stays as it is.
pub proof fn lemma_callback_stays<S: SerialIo, C: Clock, F: FnMut(Progress)>(
    before: (S, C),
    told: Callback<F>,
    events: Seq<TransferEvent>,
    after: (S, C),
    told_after: Callback<F>,
)
    requires
        transfer_run(before, told, events, after, told_after),
    ensures
        told_after == told,
    decreases events.len(),
{
    if events.len() > 0 {
        let (mid, told_mid) = choose|mid: (S, C), told_mid: Callback<F>|
            transfer_run(before, told, events.drop_last(), mid, told_mid)
                && #[trigger] transfer_step(mid, told_mid, events.last(), after, told_after);
        lemma_callback_stays(before, told, events.drop_last(), mid, told_mid);
    }
}

/// Whether `event` is a call on the line or a report, and can lead the line from `before` to
/// `after` and the reporter from `told` to `told_after`.
pub open spec fn exchange_step<S: SerialIo, R: Reporter>(
    before: S,
    told: R,
    event: TransferEvent,
    after: S,
    told_after: R,
) -> bool {
    match event {
        TransferEvent::Report(progress) => told.reports(progress, &told_after) && after == before,
        TransferEvent::Line(event) => line_step(before, event, after) && told_after == told,
        _ => false,
    }
}

/// Whether the events, all of them calls on the line or reports, lead in this order from
/// `before` and `told` to `after` and `told_after`.
pub open spec fn exchange_run<S: SerialIo, R: Reporter>(
    before: S,
    told: R,
    events: Seq<TransferEvent>,
    after: S,
    told_after: R,
) -> bool
    decreases events.len(),
{
    if events.len() == 0 {
        before == after && told == told_after
    } else {
        exists|mid: S, told_mid: R|
            exchange_run(before, told, events.drop_last(), mid, told_mid)
                && #[trigger] exchange_step(mid, told_mid, events.last(), after, told_after)
    }
}

/// A transcript grows by one event.
pub proof fn lemma_exchange_push<S: SerialIo, R: Reporter>(
    before: S,
    told: R,
    events: Seq<TransferEvent>,
    mid: S,
    told_mid: R,
    event: TransferEvent,
    after: S,
    told_after: R,
)
    requires
        exchange_run(before, told, events, mid, told_mid),
        exchange_step(mid, told_mid, event, after, told_after),
    ensures
        exchange_run(before, told, events.push(event), after, told_after),
{
    assert(events.push(event).drop_last() =~= events);
    assert(exchange_step(mid, told_mid, events.push(event).last(), after, told_after));
}

/// Whatever the clock, calls and reports are part of a transfer that does not look at it.
pub proof fn lemma_exchange_is_transfer<S: SerialIo, C: Clock, R: Reporter>(
    before: S,
    told: R,
    events: Seq<TransferEvent>,
    after: S,
    told_after: R,
    clock: C,
)
    requires
        exchange_run(before, told, events, after, told_after),
    ensures
        transfer_run((before, clock), told, events, (after, clock), told_after),
    decreases events.len(),
{
    if events.len() > 0 {
        let (mid, told_mid) = choose|mid: S, told_mid: R|
            exchange_run(before, told, events.drop_last(), mid, told_mid)
                && #[trigger] exchange_step(mid, told_mid, events.last(), after, told_after);
        lemma_exchange_is_transfer(before, told, events.drop_last(), mid, told_mid, clock);
        assert(transfer_step(
            (mid, clock),
            told_mid,
            events.last(),
            (after, clock),
            told_after,
        ));
    }
}

/// What a transcript wrote on the line, write by write, leaving out writes that failed.
pub open spec fn written(events: Seq<TransferEvent>) -> Seq<Seq<u8>>
    decreases events.len(),
{
    if events.len() == 0 {
        Seq::empty()
    } else {
        match events.last() {
            TransferEvent::Line(LineEvent::Write { data, result: Ok(_) }) => written(
                events.drop_last(),
            ).push(data),
            _ => written(events.drop_last()),
        }
    }
}

/// What a transcript reported.
pub open spec fn reported(events: Seq<TransferEvent>) -> Seq<Progress>
    decreases events.len(),
{
    if events.len() == 0 {
        Seq::empty()
    } else {
        match events.last() {
            TransferEvent::Report(progress) => reported(events.drop_last()).push(progress),
            _ => reported(events.drop_last()),
        }
    }
}

/// Whether an event of a transfer happened between these: a call on the line or the clock, a
/// report to the reporter, or a wait that is made of calls on the line and the clock and came to
/// this.
pub open spec fn happened<S: SerialIo, C: Clock, R: Reporter>(
    before: (S, C),
    told: R,
    event: TransferEvent,
    after: (S, C),
    told_after: R,
) -> bool {
    match event {
        TransferEvent::Line(call) => is_call(before, call, after) && told_after == told,
        TransferEvent::Report(progress) => told.reports(progress, &told_after) && after == before,
        TransferEvent::Handshake { timeout, outcome } => told_after == told && exists|
            calls: Seq<LineEvent>,
        | #[trigger]
            timed_run(before, calls, after) && handshake_after(timeout, calls) == (
            HandshakeState::Done { result: outcome }),
        TransferEvent::Answer { timeout, outcome } => told_after == told && exists|
            calls: Seq<LineEvent>,
        | #[trigger]
            timed_run(before, calls, after) && response_after(timeout, calls) == (
            ResponseState::Done { result: outcome }),
        TransferEvent::Frame { mode, timeout, outcome } => told_after == told && exists|
            calls: Seq<LineEvent>,
        | #[trigger]
            timed_run(before, calls, after) && frame_after(mode, timeout, calls) == (
            FrameState::Done { result: outcome }),
        TransferEvent::FrameRest { mode, header, outcome } => told_after == told && after.1
            == before.1 && exists|calls: Seq<LineEvent>| #[trigger]
            line_run(before.0, calls, after.0) && rest_after(mode, header, calls) == (
            RestState::Done { result: outcome }),
        TransferEvent::Drain => told_after == told && after.1 == before.1 && exists|
            calls: Seq<LineEvent>,
        | #[trigger]
            line_run(before.0, calls, after.0) && drain_after(calls) is Done,
    }
}

/// A transcript of a transfer holds what really happened, each event on what the one before it
/// left: if there is an event, the last one happened, and what came before it is a transcript
/// too.
pub proof fn law_transfer_is_made_of_calls<S: SerialIo, C: Clock, R: Reporter>(
    before: (S, C),
    told: R,
    events: Seq<TransferEvent>,
    after: (S, C),
    told_after: R,
)
    requires
        transfer_run(before, told, events, after, told_after),
    ensures
        events.len() == 0 ==> before == after && told == told_after,
        events.len() > 0 ==> exists|mid: (S, C), told_mid: R|
            #![trigger happened(mid, told_mid, events.last(), after, told_after)]
            transfer_run(before, told, events.drop_last(), mid, told_mid) && happened(
                mid,
                told_mid,
                events.last(),
                after,
                told_after,
            ),
{
    if events.len() > 0 {
        let (mid, told_mid) = choose|mid: (S, C), told_mid: R|
            transfer_run(before, told, events.drop_last(), mid, told_mid)
                && #[trigger] transfer_step(mid, told_mid, events.last(), after, told_after);
        assert(happened(mid, told_mid, events.last(), after, told_after));
    }
}

} // verus!
