//! What [`send_with`](super::sender::send_with) and
//! [`receive_with`](super::receiver::receive_with) come to on lines whose answers are known,
//! and what reporters and lines that keep a log find in it.

use super::line::{
    line_run, line_step, millis_to_nanos, nanos, timed_run, timed_step, Clock, LineEvent, SerialIo,
};
use super::packet::{
    header_for, law_blocks_hold_the_data, law_packet_parses_back, law_split_then_strip, stripped,
};
use super::receive_laws::{
    has_room, inv, law_received_is_what_was_taken, law_reports_come_in_order,
    lemma_blocks_of_frames, lemma_frame, lemma_inv, packet_reports, taken,
};
use super::receiver::{
    intact, receive_after, receive_step, received, request_for, HandleState, ReceiveJob,
    ReceiveState, FIRST_FRAME_MILLIS, REQUEST_MILLIS,
};
use super::send_laws::{
    agreed_mode, all_reports, frames, law_success_means_all_packets_in_order, law_success_reports,
    milestones, without_repeats,
};
use super::sender::{packet_number, send_after, send_step, sent, SendJob, SendState};
use super::transfer::{reported, transfer_run, transfer_step, written, Reporter, TransferEvent};
use super::wait::{
    drain_after, frame_after, frame_len, handshake_after, is_answer, response_after, rest_after,
    DrainState, FrameState, HandshakeState, ResponseState, RestState,
};
use super::{ChecksumMode, Progress, XmodemError, ACK, EOT, MAX_RETRIES, NAK, SOH, STX};
use std::time::{Duration, Instant};
use vstd::prelude::*;

verus! {

/// Whether `log` tells of a reporter which reports it was given, in order.
pub open spec fn keeps_reports<R: Reporter>(log: spec_fn(R) -> Seq<Progress>) -> bool {
    forall|told: R, progress: Progress, told_after: R| #[trigger]
        told.reports(progress, &told_after) ==> log(told_after) == log(told).push(progress)
}

/// A reporter that keeps a log finds in it exactly the reports of the transcript.
pub proof fn law_log_holds_the_reports<S: SerialIo, C: Clock, R: Reporter>(
    before: (S, C),
    told: R,
    events: Seq<TransferEvent>,
    after: (S, C),
    told_after: R,
    log: spec_fn(R) -> Seq<Progress>,
)
    requires
        transfer_run(before, told, events, after, told_after),
        keeps_reports(log),
    ensures
        log(told_after) == log(told) + reported(events),
    decreases events.len(),
{
    if events.len() == 0 {
        assert(log(told) + reported(events) =~= log(told));
    } else {
        let shorter = events.drop_last();
        let (mid, told_mid) = choose|mid: (S, C), told_mid: R|
            transfer_run(before, told, shorter, mid, told_mid) && #[trigger] transfer_step(
                mid,
                told_mid,
                events.last(),
                after,
                told_after,
            );
        law_log_holds_the_reports(before, told, shorter, mid, told_mid, log);
        assert(log(told_after) =~= log(told) + reported(events));
    }
}

// ---------------------------------------------------------------------------------------
// A receiver and an honest sender
// ---------------------------------------------------------------------------------------

/// An honest sender of a file, on a line that may damage what it sends.
pub struct HonestSender {
    pub source: SendJob,
    pub mode: ChecksumMode,
    /// What becomes of each transmission of a packet, counted from zero: `None` where it
    /// arrives as it was sent.
    pub damage: spec_fn(int) -> Option<Seq<u8>>,
    /// How many transmissions are damaged before the first packet arrives.
    pub lead: int,
}

/// Where an honest sender stands.
pub struct SenderState {
    /// Whether it was asked for the first packet.
    pub asked: bool,
    /// The packet that it sends; the end of the transfer comes after the last one.
    pub index: int,
    /// How often it has sent something.
    pub turn: int,
    /// What it has sent and the receiver has not read.
    pub left: Seq<u8>,
}

impl HonestSender {
    /// The number of packets.
    pub open spec fn count(self) -> int {
        self.source.blocks().len() as int
    }

    /// Before anything has happened.
    pub open spec fn fresh(self) -> SenderState {
        SenderState { asked: false, index: 0, turn: 0, left: Seq::empty() }
    }

    /// What arrives when something is sent: the packet, or what has become of it; the end of
    /// the transfer; and nothing after that.
    pub open spec fn item(self, turn: int, index: int) -> Seq<u8> {
        if index < self.count() {
            match (self.damage)(turn) {
                Some(bytes) => bytes,
                None => self.source.frame(self.mode, index),
            }
        } else if index == self.count() {
            seq![EOT]
        } else {
            Seq::empty()
        }
    }

    /// It sends the packet at `index`.
    pub open spec fn sends(self, state: SenderState, index: int) -> SenderState {
        SenderState {
            asked: true,
            index,
            turn: state.turn + 1,
            left: state.left + self.item(state.turn, index),
        }
    }

    /// What it does when the receiver writes: asked for the first packet, it sends that;
    /// after that it sends the next packet when one is accepted, and the same again when it
    /// is refused.
    pub open spec fn hears(self, state: SenderState, data: Seq<u8>) -> SenderState {
        if !state.asked {
            if data == seq![request_for(self.mode)] {
                self.sends(state, 0)
            } else {
                state
            }
        } else if data == seq![ACK] {
            self.sends(state, state.index + 1)
        } else if data == seq![NAK] {
            self.sends(state, state.index)
        } else {
            state
        }
    }

    /// How many of the first transmissions were damaged.
    pub open spec fn damaged(self, turns: int) -> nat
        decreases turns,
    {
        if turns <= 0 {
            0
        } else {
            self.damaged(turns - 1) + if (self.damage)(turns - 1) is Some {
                1nat
            } else {
                0nat
            }
        }
    }

    /// How many transmissions before this one were damaged, one after the other. What is not
    /// damaged is accepted, so this is since the last packet was accepted.
    pub open spec fn streak(self, turns: int) -> nat
        decreases turns,
    {
        if turns <= 0 {
            0
        } else if (self.damage)(turns - 1) is Some {
            self.streak(turns - 1) + 1
        } else {
            0
        }
    }

    /// The file is not empty; damaged packets keep their first byte and their length, and
    /// fail their check. Once the first packet was accepted, at most ten transmissions in a
    /// row are damaged, for every packet; before that, as many as the wait allows.
    pub open spec fn is_fair(self) -> bool {
        &&& self.source.data.len() > 0
        &&& self.lead + 11 * self.count() + 100 < u64::MAX
        &&& self.lead >= 0
        &&& forall|turn: int| 0 <= turn < self.lead ==> #[trigger] (self.damage)(turn) is Some
        &&& (self.damage)(self.lead) is None
        &&& forall|turn: int|
            #[trigger] (self.damage)(turn) matches Some(bytes) ==> {
                &&& bytes.len() == frame_len(header_for(self.source.block_size()), self.mode)
                &&& bytes[0] == header_for(self.source.block_size())
                &&& intact(bytes, self.mode) is None
            }
        &&& forall|turn: int| turn > self.lead ==> #[trigger] self.streak(turn) <= 10
    }
}

/// Whether a line with this sender at its other end, seen through `peer`, answers at once:
/// a read gives the next byte that is there, nothing fails and nobody cancels.
pub open spec fn leads_to_sender<S: SerialIo>(
    peer: spec_fn(S) -> SenderState,
    sender: HonestSender,
) -> bool {
    &&& forall|line: S, timeout: Duration, result: Result<Option<u8>, XmodemError>, after: S|
        #[trigger]
        line.reads(timeout, result, &after) ==> {
            let left = peer(line).left;
            if left.len() > 0 {
                &&& result == Ok::<Option<u8>, XmodemError>(Some(left[0]))
                &&& peer(after) == (SenderState { left: left.skip(1), ..peer(line) })
            } else {
                &&& result == Ok::<Option<u8>, XmodemError>(None)
                &&& peer(after) == peer(line)
            }
        }
    &&& forall|line: S, data: Seq<u8>, result: Result<(), XmodemError>, after: S| #[trigger]
        line.writes(data, result, &after) ==> result is Ok && peer(after) == sender.hears(
            peer(line),
            data,
        )
    &&& forall|line: S, result: Result<(), XmodemError>, after: S| #[trigger]
        line.flushes(result, &after) ==> result is Ok && peer(after) == peer(line)
    &&& forall|line: S, flag: bool| #[trigger] line.tells_cancelled(flag) ==> !flag
}

/// Whether a clock of this kind never shows that `limit` nanoseconds have passed.
pub open spec fn clock_stays_below<C: Clock>(limit: int) -> bool {
    forall|clock: C, since: Instant, elapsed: Duration, after: C| #[trigger]
        clock.measures(since, elapsed, &after) ==> nanos(elapsed) < limit
}

/// Reading a frame that is there; only the clock can end the wait for it.
proof fn lemma_frame_is_read<S: SerialIo, C: Clock>(
    peer: spec_fn(S) -> SenderState,
    sender: HonestSender,
    before: (S, C),
    mode: ChecksumMode,
    timeout: Duration,
    events: Seq<LineEvent>,
    after: (S, C),
)
    requires
        leads_to_sender(peer, sender),
        timed_run(before, events, after),
        peer(before.0).left.len() > 1,
        peer(before.0).left[0] == SOH || peer(before.0).left[0] == STX,
        peer(before.0).left.len() == frame_len(peer(before.0).left[0], mode),
    ensures
        ({
            let item = peer(before.0).left;
            match frame_after(mode, timeout, events) {
                FrameState::Starting => peer(after.0) == peer(before.0),
                FrameState::Polling { polls, .. } => polls == 0 && peer(after.0) == peer(before.0),
                FrameState::Timing { polls, .. } => polls == 0 && peer(after.0) == peer(before.0),
                FrameState::Listening { polls, .. } => polls == 0 && peer(after.0) == peer(before.0),
                FrameState::Inside { frame } => 0 < frame.len() < item.len() && frame
                    == item.take(frame.len() as int) && peer(after.0) == (SenderState {
                    left: item.skip(frame.len() as int),
                    ..peer(before.0)
                }),
                FrameState::Reading { frame } => 0 < frame.len() < item.len() && frame
                    == item.take(frame.len() as int) && peer(after.0) == (SenderState {
                    left: item.skip(frame.len() as int),
                    ..peer(before.0)
                }),
                FrameState::Done { result: Ok(None) } => !clock_stays_below::<C>(
                    nanos(timeout) as int,
                ),
                FrameState::Done { result } => result == Ok::<Option<Seq<u8>>, XmodemError>(
                    Some(item),
                ) && peer(after.0) == (SenderState { left: Seq::empty(), ..peer(before.0) }),
                FrameState::Broken => true,
            }
        }),
    decreases events.len(),
{
    if events.len() > 0 {
        let item = peer(before.0).left;
        let shorter = events.drop_last();
        let mid = choose|mid: (S, C)|
            timed_run(before, shorter, mid) && #[trigger] timed_step(mid, events.last(), after);
        lemma_frame_is_read(peer, sender, before, mode, timeout, shorter, mid);
        match frame_after(mode, timeout, shorter) {
            FrameState::Listening { .. } => {
                assert(seq![item[0]] =~= item.take(1));
            },
            FrameState::Reading { frame } => {
                let at = frame.len() as int;
                assert(item.take(at).push(item[at]) =~= item.take(at + 1));
                assert(item.skip(at).skip(1) =~= item.skip(at + 1));
                assert(item.take(item.len() as int) =~= item);
                assert(item.skip(item.len() as int) =~= Seq::empty());
            },
            _ => {},
        }
    }
}

/// Reading the rest of a frame that is there.
proof fn lemma_rest_is_read<S: SerialIo>(
    peer: spec_fn(S) -> SenderState,
    sender: HonestSender,
    before: S,
    mode: ChecksumMode,
    item: Seq<u8>,
    events: Seq<LineEvent>,
    after: S,
)
    requires
        leads_to_sender(peer, sender),
        line_run(before, events, after),
        item.len() > 1,
        item.len() == frame_len(item[0], mode),
        peer(before).left == item.skip(1),
    ensures
        match rest_after(mode, item[0], events) {
            RestState::Reading { frame } => 0 < frame.len() < item.len() && frame == item.take(
                frame.len() as int,
            ) && peer(after) == (SenderState {
                left: item.skip(frame.len() as int),
                ..peer(before)
            }),
            RestState::Done { result } => result == Some(item) && peer(after) == (SenderState {
                left: Seq::empty(),
                ..peer(before)
            }),
            RestState::Broken => true,
        },
    decreases events.len(),
{
    assert(seq![item[0]] =~= item.take(1));
    if events.len() > 0 {
        let shorter = events.drop_last();
        let mid = choose|mid: S|
            line_run(before, shorter, mid) && #[trigger] line_step(mid, events.last(), after);
        lemma_rest_is_read(peer, sender, before, mode, item, shorter, mid);
        match rest_after(mode, item[0], shorter) {
            RestState::Reading { frame } => {
                let at = frame.len() as int;
                assert(item.take(at).push(item[at]) =~= item.take(at + 1));
                assert(item.skip(at).skip(1) =~= item.skip(at + 1));
                assert(item.take(item.len() as int) =~= item);
                assert(item.skip(item.len() as int) =~= Seq::empty());
            },
            _ => {},
        }
    }
}

/// How many of the first transmissions were damaged when `count` packets were taken of them.
spec fn is_on_course(sender: HonestSender, turns: int, count: int) -> bool {
    &&& turns == count + sender.damaged(turns)
    &&& if count == 0 {
        0 <= turns <= sender.lead
    } else {
        &&& turns > sender.lead
        &&& sender.damaged(turns) <= sender.lead + 10 * (count - 1) + sender.streak(turns)
    }
}

/// Whether what the sender sent last is there in full, after `count` packets were taken.
spec fn is_pending(sender: HonestSender, state: SenderState, count: int) -> bool {
    &&& state.asked
    &&& state.index == count
    &&& state.turn > 0
    &&& is_on_course(sender, state.turn - 1, count)
    &&& state.left == sender.item(state.turn - 1, count)
}

/// Whether all that the sender sent was read, after `count` packets were taken.
spec fn is_read(sender: HonestSender, state: SenderState, count: int) -> bool {
    &&& state.asked
    &&& state.turn > 0
    &&& is_on_course(sender, state.turn, count)
    &&& state.left == Seq::<u8>::empty()
}

/// Where the receiver and the sender stand together.
spec fn joint(
    sender: HonestSender,
    job: ReceiveJob,
    events: Seq<TransferEvent>,
    state: SenderState,
) -> bool {
    let n = sender.count();
    let list = taken(job, events);
    let count = list.len() as int;
    let pending = is_pending(sender, state, count);
    let read = is_read(sender, state, count);
    &&& count <= n
    &&& list == frames(sender.source, job.mode, count)
    &&& match receive_after(job, events) {
        ReceiveState::Start => state == sender.fresh(),
        ReceiveState::Starting => state == sender.fresh(),
        ReceiveState::Announcing { .. } => state == sender.fresh(),
        ReceiveState::Polling { wait } => if wait.asked is None {
            state == sender.fresh() && wait.polls == 0
        } else {
            pending && wait.polls < state.turn
        },
        ReceiveState::Timing { wait } => if wait.asked is None {
            state == sender.fresh() && wait.polls == 0
        } else {
            pending && wait.polls < state.turn
        },
        ReceiveState::Spacing { wait, .. } => pending && wait.polls < state.turn,
        ReceiveState::Asking { wait } => state == sender.fresh() && wait.polls == 0,
        ReceiveState::Noting { wait } => pending && wait.polls < state.turn,
        ReceiveState::Seeking { wait } => pending && wait.polls < state.turn && wait.asked is Some,
        ReceiveState::FirstRefusing { wait } => read && state.index == 0 && wait.polls < state.turn
            && wait.asked is Some,
        ReceiveState::FirstAccepting { .. } => read && state.index == 0,
        ReceiveState::Agreeing { .. } => pending,
        ReceiveState::FirstReporting { .. } => pending,
        ReceiveState::Listening { intake, polls } => pending && polls < state.turn && intake.retries
            <= sender.streak(state.turn - 1),
        ReceiveState::Probing { intake, polls } => pending && polls < state.turn && intake.retries
            <= sender.streak(state.turn - 1),
        ReceiveState::Reading { intake, polls, header } => {
            let item = sender.item(state.turn - 1, count);
            &&& count < n
            &&& is_pending(sender, SenderState { left: item, ..state }, count)
            &&& state.left == item.skip(1)
            &&& header == item[0]
            &&& polls < state.turn
            &&& intake.retries <= sender.streak(state.turn - 1)
        },
        ReceiveState::Handling { inner, polls } => match inner {
            HandleState::Accepting { intake } => read && state.index == count - 1 && polls
                < state.turn,
            HandleState::Reporting { intake } => pending && polls + 1 < state.turn,
            HandleState::Refusing { intake } => read && state.index == count && polls < state.turn
                && intake.retries < sender.streak(state.turn),
            _ => false,
        },
        ReceiveState::Ending { .. } => count == n && state.asked && state.index == n && state.turn
            - 1 == n + sender.damaged(state.turn - 1),
        ReceiveState::Lingering { .. } => count == n && state.turn - 2 == n + sender.damaged(
            state.turn - 2,
        ),
        ReceiveState::Finishing { .. } => count == n && state.turn - 2 == n + sender.damaged(
            state.turn - 2,
        ),
        ReceiveState::Done { result } => result is Ok && count == n && state.turn - 2 == n
            + sender.damaged(state.turn - 2),
        ReceiveState::Broken => true,
        _ => false,
    }
}

/// What an honest sender sends while packets are left.
proof fn lemma_item(sender: HonestSender, turn: int, index: int)
    requires
        sender.is_fair(),
        0 <= index < sender.count(),
        turn >= 0,
    ensures
        ({
            let item = sender.item(turn, index);
            &&& item.len() > 1
            &&& item[0] == SOH || item[0] == STX
            &&& item.len() == frame_len(item[0], sender.mode)
            &&& match (sender.damage)(turn) {
                Some(_) => {
                    &&& intact(item, sender.mode) is None
                    &&& sender.damaged(turn + 1) == sender.damaged(turn) + 1
                    &&& sender.streak(turn + 1) == sender.streak(turn) + 1
                    &&& turn != sender.lead
                },
                None => {
                    &&& item == sender.source.frame(sender.mode, index)
                    &&& intact(item, sender.mode) == Some(
                        (packet_number(index), sender.source.blocks()[index]),
                    )
                    &&& sender.damaged(turn + 1) == sender.damaged(turn)
                    &&& sender.streak(turn + 1) == 0
                    &&& turn >= sender.lead
                },
            }
        }),
{
    lemma_frame(sender.source, sender.mode, index);
    law_blocks_hold_the_data(sender.source.data, sender.source.block_size());
    law_packet_parses_back(
        packet_number(index),
        sender.source.blocks()[index],
        sender.mode,
    );
}

/// Whether the line leads to this sender, and the sender lets the receiver do its work.
pub open spec fn are_connected<S: SerialIo>(
    peer: spec_fn(S) -> SenderState,
    sender: HonestSender,
    job: ReceiveJob,
) -> bool {
    &&& leads_to_sender(peer, sender)
    &&& sender.is_fair()
    &&& sender.mode == job.mode
    &&& has_room(job.max_packets, sender.source.blocks().len())
}

/// Whether a clock of this kind never ends a wait of this receive.
pub open spec fn clock_is_quick<C: Clock>(job: ReceiveJob) -> bool {
    &&& clock_stays_below::<C>(millis_to_nanos(FIRST_FRAME_MILLIS as int))
    &&& clock_stays_below::<C>(nanos(job.handshake_timeout) as int)
}

/// Whether an event of a receive shows no wait that ran out: the time for the first packet was
/// not up, the first packet did not have to be asked for again, and a frame that was waited
/// for came.
pub open spec fn is_in_time(job: ReceiveJob, state: ReceiveState, event: TransferEvent) -> bool {
    match event {
        TransferEvent::Line(LineEvent::Clock { elapsed, .. }) => if state is Spacing {
            nanos(elapsed) < millis_to_nanos(REQUEST_MILLIS as int)
        } else {
            nanos(elapsed) < nanos(job.handshake_timeout)
        },
        TransferEvent::Frame { outcome: Ok(None), .. } => false,
        _ => true,
    }
}

/// Whether no wait of these events ran out.
pub open spec fn all_in_time(job: ReceiveJob, events: Seq<TransferEvent>) -> bool
    decreases events.len(),
{
    events.len() > 0 ==> {
        &&& all_in_time(job, events.drop_last())
        &&& is_in_time(job, receive_after(job, events.drop_last()), events.last())
    }
}

/// Whether a receive may have come to this because a wait ran out.
pub open spec fn received_late<S: SerialIo, C: Clock, R: Reporter>(
    before: (S, C),
    told: R,
    job: ReceiveJob,
    result: Result<Seq<u8>, XmodemError>,
    after: (S, C),
    told_after: R,
) -> bool {
    exists|events: Seq<TransferEvent>| #[trigger]
        transfer_run(before, told, events, after, told_after) && receive_after(job, events) == (
        ReceiveState::Done { result }) && !all_in_time(job, events)
}

/// What a sender of which everything was read sends is what is there.
proof fn lemma_sends(sender: HonestSender, state: SenderState)
    requires
        sender.is_fair(),
    ensures
        forall|index: int|
            state.left == Seq::<u8>::empty() ==> #[trigger] sender.sends(state, index).left
                == sender.item(state.turn, index),
        sender.damaged(0) == 0,
        state.turn > sender.lead ==> sender.streak(state.turn) <= MAX_RETRIES,
        state.turn - 1 > sender.lead ==> sender.streak(state.turn - 1) <= MAX_RETRIES,
        seq![ACK] != seq![NAK],
{
    assert forall|index: int| state.left == Seq::<u8>::empty() implies #[trigger] sender.sends(
        state,
        index,
    ).left == sender.item(state.turn, index) by {
        assert(state.left + sender.item(state.turn, index) =~= sender.item(state.turn, index));
    }
    assert(seq![ACK][0] != seq![NAK][0]);
}

/// Whether the first packet has not come and is not being read.
spec fn is_before_first(state: ReceiveState) -> bool {
    match state {
        ReceiveState::Start => true,
        ReceiveState::Starting => true,
        ReceiveState::Announcing { .. } => true,
        ReceiveState::Polling { .. } => true,
        ReceiveState::Timing { .. } => true,
        ReceiveState::Spacing { .. } => true,
        ReceiveState::Asking { .. } => true,
        ReceiveState::Noting { .. } => true,
        ReceiveState::FirstRefusing { .. } => true,
        _ => false,
    }
}

/// Steps before the first packet.
proof fn lemma_step_before<S: SerialIo, C: Clock, R: Reporter>(
    peer: spec_fn(S) -> SenderState,
    sender: HonestSender,
    job: ReceiveJob,
    events: Seq<TransferEvent>,
    event: TransferEvent,
    mid: (S, C),
    told_mid: R,
    after: (S, C),
    told_after: R,
)
    requires
        are_connected(peer, sender, job),
        transfer_step(mid, told_mid, event, after, told_after),
        joint(sender, job, events, peer(mid.0)),
        inv(job, events),
        !(receive_after(job, events.push(event)) is Broken),
        clock_is_quick::<C>(job) || is_in_time(job, receive_after(job, events), event),
        is_before_first(receive_after(job, events)),
    ensures
        joint(sender, job, events.push(event), peer(after.0)),
{
    let next = events.push(event);
    let state = receive_after(job, events);
    let there = peer(mid.0);
    assert(next.drop_last() =~= events);
    assert(receive_after(job, next) == receive_step(job, state, event));
    lemma_sends(sender, there);
}

/// Steps that bring a frame.
proof fn lemma_step_frame<S: SerialIo, C: Clock, R: Reporter>(
    peer: spec_fn(S) -> SenderState,
    sender: HonestSender,
    job: ReceiveJob,
    events: Seq<TransferEvent>,
    event: TransferEvent,
    mid: (S, C),
    told_mid: R,
    after: (S, C),
    told_after: R,
)
    requires
        are_connected(peer, sender, job),
        transfer_step(mid, told_mid, event, after, told_after),
        joint(sender, job, events, peer(mid.0)),
        inv(job, events),
        !(receive_after(job, events.push(event)) is Broken),
        clock_is_quick::<C>(job) || is_in_time(job, receive_after(job, events), event),
        receive_after(job, events) is Seeking || receive_after(job, events) is Reading,
    ensures
        joint(sender, job, events.push(event), peer(after.0)),
{
    let next = events.push(event);
    let state = receive_after(job, events);
    let there = peer(mid.0);
    assert(next.drop_last() =~= events);
    assert(receive_after(job, next) == receive_step(job, state, event));
    lemma_sends(sender, there);
    let count = taken(job, events).len() as int;
    lemma_item(sender, there.turn - 1, count);
    assert(frames(sender.source, job.mode, count).push(sender.source.frame(job.mode, count))
        =~= frames(sender.source, job.mode, count + 1));
    match event {
        TransferEvent::Frame { mode, timeout, outcome } => {
            let inner = choose|inner: Seq<LineEvent>| #[trigger]
                timed_run(mid, inner, after) && frame_after(mode, timeout, inner) == (
                FrameState::Done { result: outcome });
            lemma_frame_is_read(peer, sender, mid, mode, timeout, inner, after);
        },
        TransferEvent::FrameRest { mode, header, outcome } => {
            let item = sender.item(there.turn - 1, count);
            let inner = choose|inner: Seq<LineEvent>| #[trigger]
                line_run(mid.0, inner, after.0) && rest_after(mode, header, inner) == (
                RestState::Done { result: outcome });
            lemma_rest_is_read(peer, sender, mid.0, mode, item, inner, after.0);
        },
        _ => {},
    }
}

/// Steps of the handling of a frame.
proof fn lemma_step_handling<S: SerialIo, C: Clock, R: Reporter>(
    peer: spec_fn(S) -> SenderState,
    sender: HonestSender,
    job: ReceiveJob,
    events: Seq<TransferEvent>,
    event: TransferEvent,
    mid: (S, C),
    told_mid: R,
    after: (S, C),
    told_after: R,
)
    requires
        are_connected(peer, sender, job),
        transfer_step(mid, told_mid, event, after, told_after),
        joint(sender, job, events, peer(mid.0)),
        inv(job, events),
        !(receive_after(job, events.push(event)) is Broken),
        receive_after(job, events) is Handling,
    ensures
        joint(sender, job, events.push(event), peer(after.0)),
{
    let next = events.push(event);
    let state = receive_after(job, events);
    let there = peer(mid.0);
    assert(next.drop_last() =~= events);
    assert(receive_after(job, next) == receive_step(job, state, event));
    lemma_sends(sender, there);
}

/// The other steps after the first packet.
proof fn lemma_step_after<S: SerialIo, C: Clock, R: Reporter>(
    peer: spec_fn(S) -> SenderState,
    sender: HonestSender,
    job: ReceiveJob,
    events: Seq<TransferEvent>,
    event: TransferEvent,
    mid: (S, C),
    told_mid: R,
    after: (S, C),
    told_after: R,
)
    requires
        are_connected(peer, sender, job),
        transfer_step(mid, told_mid, event, after, told_after),
        joint(sender, job, events, peer(mid.0)),
        inv(job, events),
        !(receive_after(job, events.push(event)) is Broken),
        !is_before_first(receive_after(job, events)),
        !(receive_after(job, events) is Seeking),
        !(receive_after(job, events) is Reading),
        !(receive_after(job, events) is Handling),
    ensures
        joint(sender, job, events.push(event), peer(after.0)),
{
    let next = events.push(event);
    let state = receive_after(job, events);
    let there = peer(mid.0);
    assert(next.drop_last() =~= events);
    assert(receive_after(job, next) == receive_step(job, state, event));
    lemma_sends(sender, there);
    let count = taken(job, events).len() as int;
    if 0 <= count < sender.count() && there.turn > 0 {
        lemma_item(sender, there.turn - 1, count);
    }
}

/// A receive with an honest sender at the other end of the line.
proof fn lemma_joint<S: SerialIo, C: Clock, R: Reporter>(
    peer: spec_fn(S) -> SenderState,
    sender: HonestSender,
    job: ReceiveJob,
    before: (S, C),
    told: R,
    events: Seq<TransferEvent>,
    after: (S, C),
    told_after: R,
)
    requires
        are_connected(peer, sender, job),
        peer(before.0) == sender.fresh(),
        transfer_run(before, told, events, after, told_after),
        !(receive_after(job, events) is Broken),
        clock_is_quick::<C>(job) || all_in_time(job, events),
    ensures
        joint(sender, job, events, peer(after.0)),
    decreases events.len(),
{
    if events.len() == 0 {
        assert(taken(job, events) =~= frames(sender.source, job.mode, 0));
    } else {
        let shorter = events.drop_last();
        let event = events.last();
        let (mid, told_mid) = choose|mid: (S, C), told_mid: R|
            transfer_run(before, told, shorter, mid, told_mid) && #[trigger] transfer_step(
                mid,
                told_mid,
                event,
                after,
                told_after,
            );
        assert(shorter.push(event) =~= events);
        lemma_joint(peer, sender, job, before, told, shorter, mid, told_mid);
        lemma_inv(job, shorter);
        let state = receive_after(job, shorter);
        if state is Seeking || state is Reading {
            lemma_step_frame(
                peer,
                sender,
                job,
                shorter,
                event,
                mid,
                told_mid,
                after,
                told_after,
            );
        } else if state is Handling {
            lemma_step_handling(
                peer,
                sender,
                job,
                shorter,
                event,
                mid,
                told_mid,
                after,
                told_after,
            );
        } else if is_before_first(state) {
            lemma_step_before(
                peer,
                sender,
                job,
                shorter,
                event,
                mid,
                told_mid,
                after,
                told_after,
            );
        } else {
            lemma_step_after(
                peer,
                sender,
                job,
                shorter,
                event,
                mid,
                told_mid,
                after,
                told_after,
            );
        }
    }
}

/// Whether the file of a sender was received: the result is the file without the filling at
/// its end, and each packet was sent once, and once more for each time it was damaged.
pub open spec fn file_arrived(
    sender: HonestSender,
    result: Result<Seq<u8>, XmodemError>,
    state: SenderState,
) -> bool {
    &&& result == Ok::<Seq<u8>, XmodemError>(stripped(sender.source.data))
    &&& state.turn - 2 == sender.count() + sender.damaged(state.turn - 2)
}

/// The file is received from an honest sender: when the line leads to one, which sends every
/// packet again until it is accepted and moves on when it is, then a receive returns the file,
/// although up to ten transmissions of each packet were damaged on the way; unless a wait ran
/// out, which a quick clock rules out.
pub proof fn law_honest_sender_is_received<S: SerialIo, C: Clock, R: Reporter>(
    peer: spec_fn(S) -> SenderState,
    sender: HonestSender,
    job: ReceiveJob,
    before: (S, C),
    told: R,
    result: Result<Seq<u8>, XmodemError>,
    after: (S, C),
    told_after: R,
)
    requires
        are_connected(peer, sender, job),
        peer(before.0) == sender.fresh(),
        received(before, told, job, result, after, told_after),
    ensures
        file_arrived(sender, result, peer(after.0)) || received_late(
            before,
            told,
            job,
            result,
            after,
            told_after,
        ),
        clock_is_quick::<C>(job) ==> file_arrived(sender, result, peer(after.0)),
{
    let events = choose|events: Seq<TransferEvent>| #[trigger]
        transfer_run(before, told, events, after, told_after) && receive_after(job, events) == (
        ReceiveState::Done { result });
    if clock_is_quick::<C>(job) || all_in_time(job, events) {
        lemma_honest_transcript(peer, sender, job, before, told, events, after, told_after);
    }
}

/// What is reported of the receipt of a whole file: the wait, the check, every packet once,
/// and the end.
pub open spec fn file_reports(sender: HonestSender) -> Seq<Progress> {
    packet_reports(sender.mode, frames(sender.source, sender.mode, sender.count())).push(
        Progress::Finished {
            packets: (sender.count() % 0x1_0000_0000) as u32,
            bytes: stripped(sender.source.data).len() as u64,
        },
    )
}

/// A reporter that keeps a log is told of the receipt of the file from an honest sender,
/// unless a wait ran out.
pub proof fn law_honest_sender_is_reported<S: SerialIo, C: Clock, R: Reporter>(
    peer: spec_fn(S) -> SenderState,
    sender: HonestSender,
    job: ReceiveJob,
    before: (S, C),
    told: R,
    result: Result<Seq<u8>, XmodemError>,
    after: (S, C),
    told_after: R,
    log: spec_fn(R) -> Seq<Progress>,
)
    requires
        are_connected(peer, sender, job),
        peer(before.0) == sender.fresh(),
        received(before, told, job, result, after, told_after),
        keeps_reports(log),
    ensures
        log(told_after) == log(told) + file_reports(sender) || received_late(
            before,
            told,
            job,
            result,
            after,
            told_after,
        ),
        clock_is_quick::<C>(job) ==> log(told_after) == log(told) + file_reports(sender),
{
    let events = choose|events: Seq<TransferEvent>| #[trigger]
        transfer_run(before, told, events, after, told_after) && receive_after(job, events) == (
        ReceiveState::Done { result });
    if clock_is_quick::<C>(job) || all_in_time(job, events) {
        lemma_honest_transcript(peer, sender, job, before, told, events, after, told_after);
        law_reports_come_in_order(job, events);
        law_log_holds_the_reports(before, told, events, after, told_after, log);
    }
}

/// The transcript of a receive from an honest sender.
proof fn lemma_honest_transcript<S: SerialIo, C: Clock, R: Reporter>(
    peer: spec_fn(S) -> SenderState,
    sender: HonestSender,
    job: ReceiveJob,
    before: (S, C),
    told: R,
    events: Seq<TransferEvent>,
    after: (S, C),
    told_after: R,
)
    requires
        are_connected(peer, sender, job),
        peer(before.0) == sender.fresh(),
        transfer_run(before, told, events, after, told_after),
        receive_after(job, events) is Done,
        clock_is_quick::<C>(job) || all_in_time(job, events),
    ensures
        receive_after(job, events) == (ReceiveState::Done {
            result: Ok(stripped(sender.source.data)),
        }),
        taken(job, events) == frames(sender.source, job.mode, sender.count()),
        peer(after.0).turn - 2 == sender.count() + sender.damaged(peer(after.0).turn - 2),
{
    let n = sender.count();
    lemma_joint(peer, sender, job, before, told, events, after, told_after);
    law_received_is_what_was_taken(job, events);
    lemma_blocks_of_frames(sender.source, job.mode, n);
    assert(sender.source.blocks().take(n) =~= sender.source.blocks());
    law_split_then_strip(sender.source.data, sender.source.block_size());
}

// ---------------------------------------------------------------------------------------
// A sender and a willing receiver
// ---------------------------------------------------------------------------------------

/// A receiver that asks for a file and takes it, after refusing some packets.
pub struct WillingReceiver {
    /// The check that it asks for.
    pub mode: ChecksumMode,
    /// How often it refuses what it is sent, one refusal after the other, for each packet it
    /// is sent, counted from zero; it accepts where that is zero.
    pub bursts: spec_fn(int) -> nat,
}

/// Where a willing receiver stands.
pub struct ReceiverState {
    /// What it has written and the sender has not read.
    pub queue: Seq<u8>,
    /// What it was sent.
    pub got: Seq<Seq<u8>>,
}

impl WillingReceiver {
    /// It has asked for the file.
    pub open spec fn fresh(self) -> ReceiverState {
        ReceiverState { queue: seq![request_for(self.mode)], got: Seq::empty() }
    }

    /// What it answers; the end of the transfer is accepted.
    pub open spec fn answer(self, turn: int, data: Seq<u8>) -> Seq<u8> {
        if data == seq![EOT] || (self.bursts)(turn) == 0 {
            seq![ACK]
        } else {
            Seq::new((self.bursts)(turn), |i: int| NAK)
        }
    }

    /// It is sent something.
    pub open spec fn hears(self, state: ReceiverState, data: Seq<u8>) -> ReceiverState {
        ReceiverState {
            queue: state.queue + self.answer(state.got.len() as int, data),
            got: state.got.push(data),
        }
    }

    /// How many of the first packets it is sent are refused.
    pub open spec fn refused(self, turns: int) -> nat
        decreases turns,
    {
        if turns <= 0 {
            0
        } else {
            self.refused(turns - 1) + if (self.bursts)(turns - 1) > 0 {
                1nat
            } else {
                0nat
            }
        }
    }

    /// How many packets before this one it refused, one after the other: since it last
    /// accepted one.
    pub open spec fn streak(self, turns: int) -> nat
        decreases turns,
    {
        if turns <= 0 {
            0
        } else if (self.bursts)(turns - 1) > 0 {
            self.streak(turns - 1) + 1
        } else {
            0
        }
    }

    /// It refuses each packet at most ten times, and never in too long a burst to be heard
    /// out.
    pub open spec fn is_fair(self) -> bool {
        &&& forall|turn: int| #[trigger] self.streak(turn) <= 10
        &&& forall|turn: int| #[trigger] (self.bursts)(turn) + 100 < u64::MAX
    }
}

/// Whether a line with this receiver at its other end, seen through `peer`, answers at once:
/// a read gives the next byte that is there, nothing fails and nobody cancels.
pub open spec fn leads_to_receiver<S: SerialIo>(
    peer: spec_fn(S) -> ReceiverState,
    receiver: WillingReceiver,
) -> bool {
    &&& forall|line: S, timeout: Duration, result: Result<Option<u8>, XmodemError>, after: S|
        #[trigger]
        line.reads(timeout, result, &after) ==> {
            let queue = peer(line).queue;
            if queue.len() > 0 {
                &&& result == Ok::<Option<u8>, XmodemError>(Some(queue[0]))
                &&& peer(after) == (ReceiverState { queue: queue.skip(1), ..peer(line) })
            } else {
                &&& result == Ok::<Option<u8>, XmodemError>(None)
                &&& peer(after) == peer(line)
            }
        }
    &&& forall|line: S, data: Seq<u8>, result: Result<(), XmodemError>, after: S| #[trigger]
        line.writes(data, result, &after) ==> result is Ok && peer(after) == receiver.hears(
            peer(line),
            data,
        )
    &&& forall|line: S, result: Result<(), XmodemError>, after: S| #[trigger]
        line.flushes(result, &after) ==> result is Ok && peer(after) == peer(line)
    &&& forall|line: S, flag: bool| #[trigger] line.tells_cancelled(flag) ==> !flag
}

/// Waiting for a request that is there; only the clock can end the wait for it.
proof fn lemma_request_is_read<S: SerialIo, C: Clock>(
    peer: spec_fn(S) -> ReceiverState,
    receiver: WillingReceiver,
    before: (S, C),
    timeout: Duration,
    events: Seq<LineEvent>,
    after: (S, C),
)
    requires
        leads_to_receiver(peer, receiver),
        timed_run(before, events, after),
        peer(before.0) == receiver.fresh(),
    ensures
        match handshake_after(timeout, events) {
            HandshakeState::Starting => peer(after.0) == peer(before.0),
            HandshakeState::Polling { polls, .. } => polls == 0 && peer(after.0) == peer(before.0),
            HandshakeState::Timing { polls, .. } => polls == 0 && peer(after.0) == peer(before.0),
            HandshakeState::Listening { polls, .. } => polls == 0 && peer(after.0) == peer(before.0),
            HandshakeState::Done { result: Err(error) } => error == XmodemError::Timeout
                && !clock_stays_below::<C>(nanos(timeout) as int),
            HandshakeState::Done { result } => result == Ok::<ChecksumMode, XmodemError>(
                receiver.mode,
            ) && peer(after.0) == (ReceiverState { queue: Seq::empty(), got: Seq::empty() }),
            HandshakeState::Broken => true,
        },
    decreases events.len(),
{
    if events.len() > 0 {
        let shorter = events.drop_last();
        let mid = choose|mid: (S, C)|
            timed_run(before, shorter, mid) && #[trigger] timed_step(mid, events.last(), after);
        lemma_request_is_read(peer, receiver, before, timeout, shorter, mid);
        assert(peer(before.0).queue.skip(1) =~= Seq::empty());
    }
}

/// Waiting for an answer that is there; only the clock can end the wait for it.
proof fn lemma_answer_is_read<S: SerialIo, C: Clock>(
    peer: spec_fn(S) -> ReceiverState,
    receiver: WillingReceiver,
    before: (S, C),
    timeout: Duration,
    events: Seq<LineEvent>,
    after: (S, C),
)
    requires
        leads_to_receiver(peer, receiver),
        timed_run(before, events, after),
        peer(before.0).queue.len() > 0,
        is_answer(peer(before.0).queue[0]),
    ensures
        match response_after(timeout, events) {
            ResponseState::Starting => peer(after.0) == peer(before.0),
            ResponseState::Polling { polls, .. } => polls == 0 && peer(after.0) == peer(before.0),
            ResponseState::Listening { polls, .. } => polls == 0 && peer(after.0) == peer(before.0),
            ResponseState::Done { result: Ok(None) } => !clock_stays_below::<C>(
                nanos(timeout) as int,
            ),
            ResponseState::Done { result } => result == Ok::<Option<u8>, XmodemError>(
                Some(peer(before.0).queue[0]),
            ) && peer(after.0) == (ReceiverState {
                queue: peer(before.0).queue.skip(1),
                ..peer(before.0)
            }),
            ResponseState::Broken => true,
            _ => false,
        },
    decreases events.len(),
{
    if events.len() > 0 {
        let shorter = events.drop_last();
        let mid = choose|mid: (S, C)|
            timed_run(before, shorter, mid) && #[trigger] timed_step(mid, events.last(), after);
        lemma_answer_is_read(peer, receiver, before, timeout, shorter, mid);
    }
}

/// Draining a line.
proof fn lemma_queue_is_drained<S: SerialIo>(
    peer: spec_fn(S) -> ReceiverState,
    receiver: WillingReceiver,
    before: S,
    events: Seq<LineEvent>,
    after: S,
)
    requires
        leads_to_receiver(peer, receiver),
        line_run(before, events, after),
        peer(before).queue.len() + 10 < u64::MAX,
    ensures
        match drain_after(events) {
            DrainState::Draining { empty, polls } => {
                &&& peer(after).got == peer(before).got
                &&& polls + peer(after).queue.len() == peer(before).queue.len() + empty
                &&& empty < 2
                &&& empty > 0 ==> peer(after).queue.len() == 0
            },
            DrainState::Done => peer(after) == (ReceiverState {
                queue: Seq::empty(),
                ..peer(before)
            }),
            DrainState::Broken => true,
        },
    decreases events.len(),
{
    if events.len() > 0 {
        let shorter = events.drop_last();
        let mid = choose|mid: S|
            line_run(before, shorter, mid) && #[trigger] line_step(mid, events.last(), after);
        lemma_queue_is_drained(peer, receiver, before, shorter, mid);
        if peer(mid).queue.len() == 0 {
            assert(peer(mid).queue =~= Seq::empty());
        }
    }
}

/// How many of the reports are retries.
pub open spec fn retries(reports: Seq<Progress>) -> int {
    reports.len() - milestones(reports).len()
}

/// Where the sender and the receiver stand together.
spec fn send_joint(
    receiver: WillingReceiver,
    job: SendJob,
    events: Seq<TransferEvent>,
    state: ReceiverState,
) -> bool {
    let turn = state.got.len() as int;
    let n = job.blocks().len() as int;
    let refused = receiver.refused(turn) as int;
    let refused_before = receiver.refused(turn - 1) as int;
    let told = retries(reported(events));
    let quiet = state.queue == Seq::<u8>::empty();
    &&& state.got == written(events)
    &&& match send_after(job, events) {
        SendState::Start => state == receiver.fresh() && told == 0,
        SendState::Announcing => state == receiver.fresh() && told == 0,
        SendState::Handshaking => state == receiver.fresh() && told == 0,
        SendState::Agreeing { mode } => quiet && turn == 0 && told == 0 && mode == receiver.mode,
        SendState::AtBlock { index, .. } => {
            &&& 0 <= index < n
            &&& quiet
            &&& turn == index + refused
            &&& told == refused
        },
        SendState::AtAttempt { index, attempt, .. } => {
            &&& 0 <= index < n
            &&& quiet
            &&& turn == index + refused
            &&& attempt <= receiver.streak(turn)
            &&& told == if attempt > 0 {
                refused - 1
            } else {
                refused
            }
        },
        SendState::Retrying { index, attempt, .. } => {
            &&& 0 <= index < n
            &&& quiet
            &&& turn == index + refused
            &&& attempt <= receiver.streak(turn)
            &&& told == refused - 1
        },
        SendState::Writing { index, attempt, .. } => {
            &&& 0 <= index < n
            &&& quiet
            &&& turn == index + refused
            &&& attempt <= receiver.streak(turn)
            &&& told == refused
        },
        SendState::Waiting { mode, index, attempt } => {
            &&& 0 <= index < n
            &&& turn > 0
            &&& turn - 1 == index + refused_before
            &&& attempt <= receiver.streak(turn - 1)
            &&& told == refused_before
            &&& state.queue == receiver.answer(turn - 1, job.frame(mode, index))
        },
        SendState::Draining { index, attempt, .. } => {
            &&& 0 <= index < n
            &&& turn == index + refused
            &&& attempt <= receiver.streak(turn)
            &&& told == refused - 1
            &&& state.queue.len() + 10 < u64::MAX
        },
        SendState::Accepted { index, .. } => {
            &&& 0 <= index < n
            &&& quiet
            &&& turn == index + 1 + refused
            &&& told == refused
        },
        SendState::Ending { attempt } => {
            &&& quiet
            &&& attempt == 0
            &&& turn == n + refused
            &&& told == refused
        },
        SendState::EndWaiting { attempt } => {
            &&& turn > 0
            &&& turn - 1 == n + refused_before
            &&& told == refused_before
            &&& state.queue == seq![ACK]
        },
        SendState::Finishing => turn - 1 == n + refused_before && told == refused_before,
        SendState::Done { result } => {
            &&& result is Ok
            &&& turn - 1 == n + refused_before
            &&& told == refused_before
        },
        SendState::Broken => true,
        _ => false,
    }
}

/// Whether the line leads to this receiver, and the receiver lets the sender do its work.
pub open spec fn are_connected_to_send<S: SerialIo>(
    peer: spec_fn(S) -> ReceiverState,
    receiver: WillingReceiver,
) -> bool {
    &&& leads_to_receiver(peer, receiver)
    &&& receiver.is_fair()
}

/// Whether an event of a send shows no wait that ran out: the handshake and the answer that
/// were waited for came.
pub open spec fn is_answered(event: TransferEvent) -> bool {
    match event {
        TransferEvent::Handshake { outcome: Err(error), .. } => error != XmodemError::Timeout,
        TransferEvent::Answer { outcome: Ok(None), .. } => false,
        _ => true,
    }
}

/// Whether no wait of these events ran out.
pub open spec fn all_answered(events: Seq<TransferEvent>) -> bool
    decreases events.len(),
{
    events.len() > 0 ==> all_answered(events.drop_last()) && is_answered(events.last())
}

/// Whether a send may have come to this because a wait ran out.
pub open spec fn sent_late<S: SerialIo, C: Clock, R: Reporter>(
    before: (S, C),
    told: R,
    job: SendJob,
    result: Result<(), XmodemError>,
    after: (S, C),
    told_after: R,
) -> bool {
    exists|events: Seq<TransferEvent>| #[trigger]
        transfer_run(before, told, events, after, told_after) && send_after(job, events) == (
        SendState::Done { result }) && !all_answered(events)
}

/// Whether a clock of this kind never ends a wait of this send.
pub open spec fn clock_lets_send<C: Clock>(job: SendJob) -> bool {
    &&& clock_stays_below::<C>(nanos(job.handshake_timeout) as int)
    &&& clock_stays_below::<C>(nanos(job.packet_timeout) as int)
}

/// One step of a send with a willing receiver.
proof fn lemma_send_joint_step<S: SerialIo, C: Clock, R: Reporter>(
    peer: spec_fn(S) -> ReceiverState,
    receiver: WillingReceiver,
    job: SendJob,
    events: Seq<TransferEvent>,
    event: TransferEvent,
    mid: (S, C),
    told_mid: R,
    after: (S, C),
    told_after: R,
)
    requires
        are_connected_to_send(peer, receiver),
        transfer_step(mid, told_mid, event, after, told_after),
        send_joint(receiver, job, events, peer(mid.0)),
        !(send_after(job, events.push(event)) is Broken),
        clock_lets_send::<C>(job) || is_answered(event),
    ensures
        send_joint(receiver, job, events.push(event), peer(after.0)),
{
    let next = events.push(event);
    let state = send_after(job, events);
    let there = peer(mid.0);
    let turn = there.got.len() as int;
    assert(next.drop_last() =~= events);
    assert(send_after(job, next) == send_step(job, state, event));
    assert(receiver.refused(0) == 0);
    assert(receiver.streak(turn) <= 10);
    assert(receiver.streak(turn - 1) <= MAX_RETRIES);
    match event {
        TransferEvent::Report(progress) => {
            assert(reported(events).push(progress).drop_last() =~= reported(events));
        },
        TransferEvent::Line(LineEvent::Write { data, result }) => {
            if there.queue == Seq::<u8>::empty() {
                assert(there.queue + receiver.answer(turn, data) =~= receiver.answer(turn, data));
            }
        },
        TransferEvent::Handshake { timeout, outcome } => {
            let inner = choose|inner: Seq<LineEvent>| #[trigger]
                timed_run(mid, inner, after) && handshake_after(timeout, inner) == (
                HandshakeState::Done { result: outcome });
            lemma_request_is_read(peer, receiver, mid, timeout, inner, after);
        },
        TransferEvent::Answer { timeout, outcome } => {
            let inner = choose|inner: Seq<LineEvent>| #[trigger]
                timed_run(mid, inner, after) && response_after(timeout, inner) == (
                ResponseState::Done { result: outcome });
            if let SendState::Waiting { mode, index, attempt } = state {
                assert((receiver.bursts)(turn - 1) + 100 < u64::MAX);
                lemma_frame_is_no_end(job, mode, index);
            }
            lemma_answer_is_read(peer, receiver, mid, timeout, inner, after);
            if there.queue.len() == 1 {
                assert(there.queue.skip(1) =~= Seq::empty());
            }
        },
        TransferEvent::Drain => {
            let inner = choose|inner: Seq<LineEvent>| #[trigger]
                line_run(mid.0, inner, after.0) && drain_after(inner) is Done;
            lemma_queue_is_drained(peer, receiver, mid.0, inner, after.0);
        },
        _ => {},
    }
}

/// A packet is longer than the end of a transfer.
proof fn lemma_frame_is_no_end(job: SendJob, mode: ChecksumMode, index: int)
    ensures
        job.frame(mode, index) != seq![EOT],
{
    assert(job.frame(mode, index).len() >= 3);
}

/// A send with a willing receiver at the other end of the line.
proof fn lemma_send_joint<S: SerialIo, C: Clock, R: Reporter>(
    peer: spec_fn(S) -> ReceiverState,
    receiver: WillingReceiver,
    job: SendJob,
    before: (S, C),
    told: R,
    events: Seq<TransferEvent>,
    after: (S, C),
    told_after: R,
)
    requires
        are_connected_to_send(peer, receiver),
        peer(before.0) == receiver.fresh(),
        transfer_run(before, told, events, after, told_after),
        !(send_after(job, events) is Broken),
        clock_lets_send::<C>(job) || all_answered(events),
    ensures
        send_joint(receiver, job, events, peer(after.0)),
    decreases events.len(),
{
    if events.len() > 0 {
        let shorter = events.drop_last();
        let event = events.last();
        let (mid, told_mid) = choose|mid: (S, C), told_mid: R|
            transfer_run(before, told, shorter, mid, told_mid) && #[trigger] transfer_step(
                mid,
                told_mid,
                event,
                after,
                told_after,
            );
        assert(shorter.push(event) =~= events);
        lemma_send_joint(peer, receiver, job, before, told, shorter, mid, told_mid);
        lemma_send_joint_step(
            peer,
            receiver,
            job,
            shorter,
            event,
            mid,
            told_mid,
            after,
            told_after,
        );
    }
}

/// Whether a receiver was sent the file: the send succeeded, and the receiver was sent every
/// packet in order, once and once more for each time it refused it, however long the burst,
/// and then the end.
pub open spec fn file_delivered(
    receiver: WillingReceiver,
    job: SendJob,
    result: Result<(), XmodemError>,
    state: ReceiverState,
) -> bool {
    let n = job.blocks().len() as int;
    &&& result == Ok::<(), XmodemError>(())
    &&& without_repeats(state.got) == frames(job, receiver.mode, n).push(seq![EOT])
    &&& state.got.len() - 1 == n + receiver.refused(state.got.len() - 1)
}

/// A willing receiver gets the file: when the line leads to one, then a send delivers the file,
/// although each packet was refused up to ten times, each time in a burst of refusals; unless a
/// wait ran out, which a quick clock rules out.
pub proof fn law_willing_receiver_is_served<S: SerialIo, C: Clock, R: Reporter>(
    peer: spec_fn(S) -> ReceiverState,
    receiver: WillingReceiver,
    job: SendJob,
    before: (S, C),
    told: R,
    result: Result<(), XmodemError>,
    after: (S, C),
    told_after: R,
)
    requires
        are_connected_to_send(peer, receiver),
        peer(before.0) == receiver.fresh(),
        sent(before, told, job, result, after, told_after),
    ensures
        file_delivered(receiver, job, result, peer(after.0)) || sent_late(
            before,
            told,
            job,
            result,
            after,
            told_after,
        ),
        clock_lets_send::<C>(job) ==> file_delivered(receiver, job, result, peer(after.0)),
{
    let events = choose|events: Seq<TransferEvent>| #[trigger]
        transfer_run(before, told, events, after, told_after) && send_after(job, events) == (
        SendState::Done { result });
    if clock_lets_send::<C>(job) || all_answered(events) {
        lemma_send_joint(peer, receiver, job, before, told, events, after, told_after);
        lemma_agreed(peer, receiver, job, before, told, events, after, told_after);
        law_success_means_all_packets_in_order(job, events);
    }
}

/// Whether these are the reports of a whole file delivered: the wait, the check, every packet
/// once and the end, and a retry for each time that a packet was refused.
pub open spec fn tell_of_delivery(
    receiver: WillingReceiver,
    job: SendJob,
    state: ReceiverState,
    reports: Seq<Progress>,
) -> bool {
    &&& milestones(reports) == all_reports(job, receiver.mode)
    &&& retries(reports) == receiver.refused(state.got.len() - 1)
}

/// A reporter that keeps a log is told of the delivery of the file to a willing receiver,
/// unless a wait ran out.
pub proof fn law_willing_receiver_is_reported<S: SerialIo, C: Clock, R: Reporter>(
    peer: spec_fn(S) -> ReceiverState,
    receiver: WillingReceiver,
    job: SendJob,
    before: (S, C),
    told: R,
    result: Result<(), XmodemError>,
    after: (S, C),
    told_after: R,
    log: spec_fn(R) -> Seq<Progress>,
)
    requires
        are_connected_to_send(peer, receiver),
        peer(before.0) == receiver.fresh(),
        sent(before, told, job, result, after, told_after),
        keeps_reports(log),
    ensures
        log(told).is_prefix_of(log(told_after)),
        ({
            let reports = log(told_after).skip(log(told).len() as int);
            let state = peer(after.0);
            &&& tell_of_delivery(receiver, job, state, reports) || sent_late(
                before,
                told,
                job,
                result,
                after,
                told_after,
            )
            &&& clock_lets_send::<C>(job) ==> tell_of_delivery(receiver, job, state, reports)
        }),
{
    let events = choose|events: Seq<TransferEvent>| #[trigger]
        transfer_run(before, told, events, after, told_after) && send_after(job, events) == (
        SendState::Done { result });
    law_log_holds_the_reports(before, told, events, after, told_after, log);
    assert(log(told_after).skip(log(told).len() as int) =~= reported(events));
    if clock_lets_send::<C>(job) || all_answered(events) {
        lemma_send_joint(peer, receiver, job, before, told, events, after, told_after);
        lemma_agreed(peer, receiver, job, before, told, events, after, told_after);
        law_success_reports(job, events);
    }
}

/// The check that is agreed on is the one that the receiver asks for.
proof fn lemma_agreed<S: SerialIo, C: Clock, R: Reporter>(
    peer: spec_fn(S) -> ReceiverState,
    receiver: WillingReceiver,
    job: SendJob,
    before: (S, C),
    told: R,
    events: Seq<TransferEvent>,
    after: (S, C),
    told_after: R,
)
    requires
        are_connected_to_send(peer, receiver),
        peer(before.0) == receiver.fresh(),
        transfer_run(before, told, events, after, told_after),
        !(send_after(job, events) is Broken),
        clock_lets_send::<C>(job) || all_answered(events),
    ensures
        agreed_mode(events) matches Some(mode) ==> mode == receiver.mode,
    decreases events.len(),
{
    if events.len() > 0 {
        let shorter = events.drop_last();
        let event = events.last();
        let (mid, told_mid) = choose|mid: (S, C), told_mid: R|
            transfer_run(before, told, shorter, mid, told_mid) && #[trigger] transfer_step(
                mid,
                told_mid,
                event,
                after,
                told_after,
            );
        lemma_agreed(peer, receiver, job, before, told, shorter, mid, told_mid);
        lemma_send_joint(peer, receiver, job, before, told, shorter, mid, told_mid);
        if let TransferEvent::Handshake { timeout, outcome } = event {
            let inner = choose|inner: Seq<LineEvent>| #[trigger]
                timed_run(mid, inner, after) && handshake_after(timeout, inner) == (
                HandshakeState::Done { result: outcome });
            lemma_request_is_read(peer, receiver, mid, timeout, inner, after);
        }
    }
}

} // verus!
