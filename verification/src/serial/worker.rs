//! What the thread that owns an open port does.
//!
//! The thread performs one task after the other and hands in the outcome of each; the
//! functions here say what to announce and which task is next. Between two reads it takes
//! all the commands that are waiting.

use crate::xmodem::sender::cancel_bytes;
use crate::xmodem::{ChecksumMode, Progress, XmodemError, CAN};
use std::time::Duration;
use vstd::prelude::*;
use vstd::string::to_string_from_display_ensures;

verus! {

/// What the owner of a port announces.
#[derive(Debug)]
pub enum SerialEvent {
    /// Bytes arrived while no transfer was running.
    Data(Vec<u8>),
    /// A transfer reports.
    XmodemProgress(Progress),
    /// A transfer is over.
    XmodemDone(Result<(), String>),
    /// A file was received.
    XmodemReceived(Vec<u8>),
    /// The port is closed.
    Closed,
    /// Something failed.
    Error(String),
}

/// Whether two events say the same.
pub open spec fn same_event(a: SerialEvent, b: SerialEvent) -> bool {
    match (a, b) {
        (SerialEvent::Data(x), SerialEvent::Data(y)) => x@ == y@,
        (SerialEvent::XmodemProgress(x), SerialEvent::XmodemProgress(y)) => x == y,
        (SerialEvent::XmodemDone(Ok(_)), SerialEvent::XmodemDone(Ok(_))) => true,
        (SerialEvent::XmodemDone(Err(x)), SerialEvent::XmodemDone(Err(y))) => x@ == y@,
        (SerialEvent::XmodemReceived(x), SerialEvent::XmodemReceived(y)) => x@ == y@,
        (SerialEvent::Closed, SerialEvent::Closed) => true,
        (SerialEvent::Error(x), SerialEvent::Error(y)) => x@ == y@,
        _ => false,
    }
}

impl Clone for SerialEvent {
    fn clone(&self) -> (copy: Self)
        ensures
            same_event(*self, copy),
    {
        match self {
            SerialEvent::Data(data) => {
                let copy: Vec<u8> = data.clone();
                assert(copy@ =~= data@);
                SerialEvent::Data(copy)
            },
            SerialEvent::XmodemProgress(progress) => SerialEvent::XmodemProgress(*progress),
            SerialEvent::XmodemDone(result) => SerialEvent::XmodemDone(
                match result {
                    Ok(_) => Ok(()),
                    Err(text) => Err(text.clone()),
                },
            ),
            SerialEvent::XmodemReceived(data) => {
                let copy: Vec<u8> = data.clone();
                assert(copy@ =~= data@);
                SerialEvent::XmodemReceived(copy)
            },
            SerialEvent::Closed => SerialEvent::Closed,
            SerialEvent::Error(text) => SerialEvent::Error(text.clone()),
        }
    }
}

/// What the owner of a port can be told to do.
pub enum SerialCommand {
    /// Write these bytes.
    Write(Vec<u8>),
    /// Send a file.
    Xmodem { data: Vec<u8>, use_1k: bool, handshake_timeout: Duration, packet_timeout: Duration },
    /// Receive a file.
    XmodemRecv {
        mode: ChecksumMode,
        handshake_timeout: Duration,
        packet_timeout: Duration,
        max_packets: u32,
    },
    /// Tell the other side that the transfer is off.
    CancelXmodem,
    /// Close the port.
    Shutdown,
}

/// What a read from the port came to.
pub enum ReadOutcome {
    /// These bytes; possibly none.
    Bytes(Vec<u8>),
    /// The time was up.
    TimedOut,
    /// It failed.
    Failed(std::io::Error),
}

/// What a task came to.
pub enum WorkerInput {
    /// A command was waiting.
    Command(SerialCommand),
    /// No command is waiting.
    Idle,
    /// Nobody can send commands any more.
    Orphaned,
    /// [`WorkerTask::Write`] is over.
    Written(Result<(), std::io::Error>),
    /// [`WorkerTask::WriteQuietly`] is over, whatever it came to.
    WrittenQuietly,
    /// [`WorkerTask::ReadPort`] is over.
    Read(ReadOutcome),
    /// [`WorkerTask::Send`] is over.
    Sent(Result<(), XmodemError>),
    /// [`WorkerTask::Receive`] is over.
    Received(Result<Vec<u8>, XmodemError>),
}

/// What to do next.
pub enum WorkerTask {
    /// See whether a command is waiting.
    PollCommand,
    /// Write these bytes.
    Write(Vec<u8>),
    /// Write these bytes; whether that succeeds does not matter.
    WriteQuietly(Vec<u8>),
    /// Send a file.
    Send { data: Vec<u8>, use_1k: bool, handshake_timeout: Duration, packet_timeout: Duration },
    /// Receive a file.
    Receive {
        mode: ChecksumMode,
        handshake_timeout: Duration,
        packet_timeout: Duration,
        max_packets: u32,
    },
    /// Read what has arrived.
    ReadPort,
    /// End.
    Stop,
}

/// What to announce, in this order, and what to do next.
pub struct WorkerReply {
    pub events: Vec<SerialEvent>,
    pub task: WorkerTask,
}

/// Whether an event is an error message made of `introduction` and the system's words for
/// `error`.
pub open spec fn tells(event: SerialEvent, introduction: Seq<char>, error: std::io::Error) -> bool {
    event matches SerialEvent::Error(text) && exists|words: String| #[trigger]
        to_string_from_display_ensures(&error, words) && text@ == introduction + words@
}

/// Whether an event says that a transfer failed with this error.
pub open spec fn tells_failure(event: SerialEvent, error: XmodemError) -> bool {
    event matches SerialEvent::XmodemDone(Err(text)) && error.says(text@)
}

/// Whether these are the events at the end of a send.
pub open spec fn ends_send(result: Result<(), XmodemError>, events: Seq<SerialEvent>) -> bool {
    &&& events.len() == 1
    &&& match result {
        Ok(_) => events[0] == SerialEvent::XmodemDone(Ok(())),
        Err(error) => tells_failure(events[0], error),
    }
}

/// Whether these are the events at the end of a receive.
pub open spec fn ends_receive(result: Result<Vec<u8>, XmodemError>, events: Seq<SerialEvent>) -> bool {
    match result {
        Ok(data) => events == seq![
            SerialEvent::XmodemReceived(data),
            SerialEvent::XmodemDone(Ok(())),
        ],
        Err(XmodemError::Cancelled) => events.len() == 1 && (
        events[0] matches SerialEvent::XmodemDone(Err(text)) && text@ == "接收被取消"@),
        Err(error) => events.len() == 1 && tells_failure(events[0], error),
    }
}

/// Whether `reply` is what follows the outcome of a task.
pub open spec fn follows(input: WorkerInput, reply: WorkerReply) -> bool {
    let events = reply.events@;
    let task = reply.task;
    match input {
        WorkerInput::Command(command) => match command {
            SerialCommand::Write(data) => events.len() == 0 && task == WorkerTask::Write(data),
            SerialCommand::Xmodem { data, use_1k, handshake_timeout, packet_timeout } =>
                events.len() == 0 && task == (WorkerTask::Send {
                data,
                use_1k,
                handshake_timeout,
                packet_timeout,
            }),
            SerialCommand::XmodemRecv { mode, handshake_timeout, packet_timeout, max_packets } =>
                events.len() == 0 && task == (WorkerTask::Receive {
                mode,
                handshake_timeout,
                packet_timeout,
                max_packets,
            }),
            SerialCommand::CancelXmodem => events.len() == 0 && (
            task matches WorkerTask::WriteQuietly(bytes) && bytes@ == cancel_bytes()),
            SerialCommand::Shutdown => events == seq![SerialEvent::Closed] && task
                == WorkerTask::Stop,
        },
        WorkerInput::Idle => events.len() == 0 && task == WorkerTask::ReadPort,
        WorkerInput::Orphaned => events == seq![SerialEvent::Closed] && task == WorkerTask::Stop,
        WorkerInput::Written(Ok(_)) => events.len() == 0 && task == WorkerTask::PollCommand,
        WorkerInput::Written(Err(error)) => events.len() == 1 && tells(
            events[0],
            "写入失败: "@,
            error,
        ) && task == WorkerTask::PollCommand,
        WorkerInput::WrittenQuietly => events.len() == 0 && task == WorkerTask::PollCommand,
        WorkerInput::Read(ReadOutcome::Bytes(data)) => task == WorkerTask::PollCommand && (
        if data@.len() == 0 {
            events.len() == 0
        } else {
            events == seq![SerialEvent::Data(data)]
        }),
        WorkerInput::Read(ReadOutcome::TimedOut) => events.len() == 0 && task
            == WorkerTask::PollCommand,
        WorkerInput::Read(ReadOutcome::Failed(error)) => events.len() == 2 && tells(
            events[0],
            "读取失败: "@,
            error,
        ) && events[1] == SerialEvent::Closed && task == WorkerTask::Stop,
        WorkerInput::Sent(result) => ends_send(result, events) && task == WorkerTask::PollCommand,
        WorkerInput::Received(result) => ends_receive(result, events) && task
            == WorkerTask::PollCommand,
    }
}

/// An error message made of an introduction and other words.
pub fn error_event(introduction: &str, words: &str) -> (event: SerialEvent)
    ensures
        event matches SerialEvent::Error(text) && text@ == introduction@ + words@,
{
    let mut text: String = introduction.to_owned();
    text.append(words);
    SerialEvent::Error(text)
}

/// What to announce at the end of a send.
pub fn sent_events(result: Result<(), XmodemError>) -> (events: Vec<SerialEvent>)
    ensures
        ends_send(result, events@),
{
    let done: Result<(), String> = match result {
        Ok(_) => Ok(()),
        Err(error) => Err(error.message()),
    };
    vec![SerialEvent::XmodemDone(done)]
}

/// What to announce at the end of a receive.
pub fn received_events(result: Result<Vec<u8>, XmodemError>) -> (events: Vec<SerialEvent>)
    ensures
        ends_receive(result, events@),
{
    match result {
        Ok(data) => vec![SerialEvent::XmodemReceived(data), SerialEvent::XmodemDone(Ok(()))],
        Err(XmodemError::Cancelled) => vec![SerialEvent::XmodemDone(Err("接收被取消".to_owned()))],
        Err(error) => vec![SerialEvent::XmodemDone(Err(error.message()))],
    }
}

/// Decides what follows the outcome of a task. The first task is
/// [`WorkerTask::PollCommand`].
pub fn worker_step(input: WorkerInput) -> (reply: WorkerReply)
    ensures
        follows(input, reply),
{
    let mut events: Vec<SerialEvent> = Vec::new();
    let task: WorkerTask = match input {
        WorkerInput::Command(command) => match command {
            SerialCommand::Write(data) => WorkerTask::Write(data),
            SerialCommand::Xmodem { data, use_1k, handshake_timeout, packet_timeout } =>
                WorkerTask::Send { data, use_1k, handshake_timeout, packet_timeout },
            SerialCommand::XmodemRecv { mode, handshake_timeout, packet_timeout, max_packets } =>
                WorkerTask::Receive { mode, handshake_timeout, packet_timeout, max_packets },
            SerialCommand::CancelXmodem => {
                let bytes: Vec<u8> = vec![CAN, CAN, CAN];
                assert(bytes@ =~= cancel_bytes());
                WorkerTask::WriteQuietly(bytes)
            },
            SerialCommand::Shutdown => {
                events.push(SerialEvent::Closed);
                WorkerTask::Stop
            },
        },
        WorkerInput::Idle => WorkerTask::ReadPort,
        WorkerInput::Orphaned => {
            events.push(SerialEvent::Closed);
            WorkerTask::Stop
        },
        WorkerInput::Written(Ok(_)) => WorkerTask::PollCommand,
        WorkerInput::Written(Err(error)) => {
            let words: String = error.to_string();
            events.push(error_event("写入失败: ", words.as_str()));
            WorkerTask::PollCommand
        },
        WorkerInput::WrittenQuietly => WorkerTask::PollCommand,
        WorkerInput::Read(ReadOutcome::Bytes(data)) => {
            if data.len() > 0 {
                events.push(SerialEvent::Data(data));
            }
            WorkerTask::PollCommand
        },
        WorkerInput::Read(ReadOutcome::TimedOut) => WorkerTask::PollCommand,
        WorkerInput::Read(ReadOutcome::Failed(error)) => {
            let words: String = error.to_string();
            events.push(error_event("读取失败: ", words.as_str()));
            events.push(SerialEvent::Closed);
            WorkerTask::Stop
        },
        WorkerInput::Sent(result) => {
            events = sent_events(result);
            WorkerTask::PollCommand
        },
        WorkerInput::Received(result) => {
            events = received_events(result);
            WorkerTask::PollCommand
        },
    };
    WorkerReply { events, task }
}

/// What a transfer makes of a read of at most one byte.
pub open spec fn read_gives(outcome: ReadOutcome) -> Result<Option<u8>, XmodemError> {
    match outcome {
        ReadOutcome::Bytes(data) => if data@.len() == 0 {
            Ok(None)
        } else {
            Ok(Some(data@[0]))
        },
        ReadOutcome::TimedOut => Ok(None),
        ReadOutcome::Failed(error) => Err(XmodemError::Io(error)),
    }
}

/// What a transfer makes of a read of at most one byte.
pub fn read_result(outcome: ReadOutcome) -> (result: Result<Option<u8>, XmodemError>)
    ensures
        result == read_gives(outcome),
{
    match outcome {
        ReadOutcome::Bytes(data) => if data.len() == 0 {
            Ok(None)
        } else {
            Ok(Some(data[0]))
        },
        ReadOutcome::TimedOut => Ok(None),
        ReadOutcome::Failed(error) => Err(XmodemError::Io(error)),
    }
}

/// The last thing that is announced before the end, and only there, is that the port is
/// closed.
pub proof fn law_end_is_announced(input: WorkerInput, reply: WorkerReply)
    requires
        follows(input, reply),
    ensures
        reply.task is Stop <==> reply.events@.len() > 0 && reply.events@.last() is Closed,
        forall|i: int|
            0 <= i < reply.events@.len() - 1 ==> !(#[trigger] reply.events@[i] is Closed),
{
}

/// The port is read only when no command is waiting, and whatever else is done, waiting
/// commands come next.
pub proof fn law_commands_come_first(input: WorkerInput, reply: WorkerReply)
    requires
        follows(input, reply),
    ensures
        reply.task is ReadPort <==> input is Idle,
        !(input is Command) && !(input is Idle) && !(reply.task is Stop)
            ==> reply.task is PollCommand,
{
}

// ---------------------------------------------------------------------------------------
// Nothing is lost
// ---------------------------------------------------------------------------------------

/// The bytes that events announce as having arrived, one after the other.
pub open spec fn data_in(events: Seq<SerialEvent>) -> Seq<u8>
    decreases events.len(),
{
    if events.len() == 0 {
        Seq::empty()
    } else {
        data_in(events.drop_last()) + match events.last() {
            SerialEvent::Data(data) => data@,
            _ => Seq::empty(),
        }
    }
}

/// The bytes that an input brings from the port.
pub open spec fn bytes_from_port(input: WorkerInput) -> Seq<u8> {
    match input {
        WorkerInput::Read(ReadOutcome::Bytes(data)) => data@,
        _ => Seq::empty(),
    }
}

/// No byte that is read is lost, and none is made up: what is announced as having arrived is
/// exactly what the port gave, whatever its length, and nothing for any other input.
pub proof fn law_what_arrives_is_announced(input: WorkerInput, reply: WorkerReply)
    requires
        follows(input, reply),
    ensures
        data_in(reply.events@) == bytes_from_port(input),
        input is Read && input->Read_0 is Bytes ==> reply.task is PollCommand,
{
    let events = reply.events@;
    reveal_with_fuel(data_in, 3);
    assert(data_in(events) =~= bytes_from_port(input));
}

/// The bytes that a task has written to the port.
pub open spec fn bytes_to_port(task: WorkerTask) -> Seq<u8> {
    match task {
        WorkerTask::Write(data) => data@,
        WorkerTask::WriteQuietly(data) => data@,
        _ => Seq::empty(),
    }
}

/// What is to be written is written as it is, whatever its length; three bytes 24 are written
/// when a transfer is cancelled; and nothing else is written.
pub proof fn law_what_is_typed_is_written(input: WorkerInput, reply: WorkerReply)
    requires
        follows(input, reply),
    ensures
        bytes_to_port(reply.task) == match input {
            WorkerInput::Command(SerialCommand::Write(data)) => data@,
            WorkerInput::Command(SerialCommand::CancelXmodem) => seq![0x18u8, 0x18u8, 0x18u8],
            _ => Seq::<u8>::empty(),
        },
        reply.task is Write <==> input is Command && input->Command_0 is Write,
{
    assert(cancel_bytes() =~= seq![0x18u8, 0x18u8, 0x18u8]);
}

/// A transfer is started as it was asked for: with the same file, or the same check and limit,
/// the same size of packets and the same times; and only when it was asked for.
pub proof fn law_transfer_is_as_asked(input: WorkerInput, reply: WorkerReply)
    requires
        follows(input, reply),
    ensures
        reply.task is Send <==> input is Command && input->Command_0 is Xmodem,
        reply.task is Receive <==> input is Command && input->Command_0 is XmodemRecv,
        match (input, reply.task) {
            (
                WorkerInput::Command(
                    SerialCommand::Xmodem { data, use_1k, handshake_timeout, packet_timeout },
                ),
                WorkerTask::Send { data: d, use_1k: k, handshake_timeout: h, packet_timeout: p },
            ) => d@ == data@ && k == use_1k && h == handshake_timeout && p == packet_timeout,
            (
                WorkerInput::Command(
                    SerialCommand::XmodemRecv {
                        mode,
                        handshake_timeout,
                        packet_timeout,
                        max_packets,
                    },
                ),
                WorkerTask::Receive {
                    mode: m,
                    handshake_timeout: h,
                    packet_timeout: p,
                    max_packets: n,
                },
            ) => m == mode && h == handshake_timeout && p == packet_timeout && n == max_packets,
            _ => true,
        },
{
}

/// The end of a transfer is announced once, as success exactly when it was one. A file that was
/// received is announced first, as it is; nothing else is announced.
pub proof fn law_outcome_is_announced(input: WorkerInput, reply: WorkerReply)
    requires
        follows(input, reply),
    ensures
        ({
            let events = reply.events@;
            match input {
                WorkerInput::Sent(result) => {
                    &&& events.len() == 1
                    &&& events[0] is XmodemDone
                    &&& events[0]->XmodemDone_0 is Ok <==> result is Ok
                },
                WorkerInput::Received(Ok(file)) => {
                    &&& events.len() == 2
                    &&& events[0] matches SerialEvent::XmodemReceived(data) && data@ == file@
                    &&& events[1] == SerialEvent::XmodemDone(Ok(()))
                },
                WorkerInput::Received(Err(_)) => {
                    &&& events.len() == 1
                    &&& events[0] is XmodemDone
                    &&& events[0]->XmodemDone_0 is Err
                },
                _ => forall|i: int|
                    0 <= i < events.len() ==> !(#[trigger] events[i] is XmodemDone) && !(
                    events[i] is XmodemReceived),
            }
        }),
{
}

/// Only failures are announced as errors: a write or a read that failed, each with its own
/// introduction and the system's words. A failed read ends the thread, a failed write does not.
pub proof fn law_failures_are_announced(input: WorkerInput, reply: WorkerReply)
    requires
        follows(input, reply),
    ensures
        ({
            let events = reply.events@;
            match input {
                WorkerInput::Written(Err(error)) => {
                    &&& events.len() == 1
                    &&& tells(events[0], "写入失败: "@, error)
                    &&& reply.task is PollCommand
                },
                WorkerInput::Read(ReadOutcome::Failed(error)) => {
                    &&& events.len() == 2
                    &&& tells(events[0], "读取失败: "@, error)
                    &&& reply.task is Stop
                },
                _ => forall|i: int| 0 <= i < events.len() ==> !(#[trigger] events[i] is Error),
            }
        }),
{
}

/// The thread ends when it is told to, when nobody can tell it anything any more, and when a
/// read failed; otherwise it goes on.
pub proof fn law_when_the_thread_ends(input: WorkerInput, reply: WorkerReply)
    requires
        follows(input, reply),
    ensures
        reply.task is Stop <==> {
            ||| input is Orphaned
            ||| input is Command && input->Command_0 is Shutdown
            ||| input is Read && input->Read_0 is Failed
        },
{
}

/// A transfer gets the first byte of what a read gave, nothing when it gave nothing or the time
/// was up, and the failure when it failed.
pub proof fn law_byte_for_a_transfer(outcome: ReadOutcome)
    ensures
        match outcome {
            ReadOutcome::Bytes(data) => read_gives(outcome) matches Ok(byte) && match byte {
                Some(b) => data@.len() > 0 && b == data@.first(),
                None => data@ == Seq::<u8>::empty(),
            },
            ReadOutcome::TimedOut => read_gives(outcome) == Ok::<Option<u8>, XmodemError>(None),
            ReadOutcome::Failed(error) => read_gives(outcome) matches Err(XmodemError::Io(e)) && e
                == error,
        },
{
    if let ReadOutcome::Bytes(data) = outcome {
        if data@.len() == 0 {
            assert(data@ =~= Seq::<u8>::empty());
        }
    }
}

/// A copy of an event says the same: the same bytes, the same report, the same outcome, the same
/// words.
pub proof fn law_copy_says_the_same(a: SerialEvent, b: SerialEvent)
    requires
        same_event(a, b),
    ensures
        match a {
            SerialEvent::Data(data) => b is Data && b->Data_0@ == data@,
            SerialEvent::XmodemProgress(p) => b == SerialEvent::XmodemProgress(p),
            SerialEvent::XmodemDone(Ok(_)) => b is XmodemDone && b->XmodemDone_0 is Ok,
            SerialEvent::XmodemDone(Err(words)) => b is XmodemDone && b->XmodemDone_0 is Err
                && b->XmodemDone_0->Err_0@ == words@,
            SerialEvent::XmodemReceived(data) => b is XmodemReceived && b->XmodemReceived_0@
                == data@,
            SerialEvent::Closed => b is Closed,
            SerialEvent::Error(words) => b is Error && b->Error_0@ == words@,
        },
{
}

/// A failed transfer is announced in the words for its failure; a receive that was cancelled
/// has words of its own.
pub proof fn law_words_for_a_failed_transfer(input: WorkerInput, reply: WorkerReply)
    requires
        follows(input, reply),
    ensures
        match input {
            WorkerInput::Sent(Err(error)) => error.says(reply.events@[0]->XmodemDone_0->Err_0@),
            WorkerInput::Received(Err(XmodemError::Cancelled)) => reply.events@[0]->XmodemDone_0->Err_0@
                == "接收被取消"@,
            WorkerInput::Received(Err(error)) => error.says(reply.events@[0]->XmodemDone_0->Err_0@),
            _ => true,
        },
{
}

} // verus!
