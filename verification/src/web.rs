//! What the program does for the web page.
//!
//! The connection to the page and the port are in other hands. The functions here say, for
//! each message of the page, what is to be done with the port and what is to be answered,
//! and for each event at the port, what the page is told.

use crate::protocol::base64::{b64_decode, b64_encode, decoded, encoded, law_decode_inverts_encode};
use crate::protocol::messages::{ClientMessage, ServerMessage, ServerView};
use crate::serial::config::SerialConfig;
use crate::serial::ports::PortInfo;
use crate::serial::session::{carried_out, SessionRequest};
use crate::serial::worker::{follows, SerialEvent, WorkerInput, WorkerReply, WorkerTask};
use crate::text::{decimal, decimal_text};
use crate::xmodem::sender::cancel_bytes;
use crate::xmodem::Progress;
use vstd::prelude::*;

verus! {

// ---------------------------------------------------------------------------------------
// From the port to the page
// ---------------------------------------------------------------------------------------

/// What the page is told of a report, if anything. It shows the progress of sending; the
/// reports that only a receive makes are not for it.
pub open spec fn progress_view(p: Progress) -> Option<ServerView> {
    match p {
        Progress::WaitingSender => None,
        Progress::Received { .. } => None,
        Progress::WaitingHandshake => Some(ServerView::Progress {
            stage: "waiting_handshake"@,
            sent: 0,
            total: 0,
            bytes: 0,
            total_bytes: 0,
            message: "等待接收方发起握手..."@,
        }),
        Progress::HandshakeDone(mode) => Some(ServerView::Progress {
            stage: "handshake_done"@,
            sent: 0,
            total: 0,
            bytes: 0,
            total_bytes: 0,
            message: "握手完成，校验方式: "@ + mode.name(),
        }),
        Progress::Packet { sent, total, bytes, total_bytes } => Some(ServerView::Progress {
            stage: "packet"@,
            sent,
            total,
            bytes,
            total_bytes,
            message: "已发送 "@ + decimal(sent as nat) + "/"@ + decimal(total as nat) + " 包"@,
        }),
        Progress::Retry { packet, attempt } => Some(ServerView::Progress {
            stage: "retry"@,
            sent: packet,
            total: 0,
            bytes: 0,
            total_bytes: 0,
            message: "第 "@ + decimal(packet as nat) + " 包重传（第 "@ + decimal(attempt as nat)
                + " 次）"@,
        }),
        Progress::Finished { packets, bytes } => Some(ServerView::Progress {
            stage: "finished"@,
            sent: packets,
            total: packets,
            bytes,
            total_bytes: bytes,
            message: "传输完成，共 "@ + decimal(packets as nat) + " 包 / "@ + decimal(bytes as nat)
                + " 字节"@,
        }),
    }
}

/// Whether the page is told of a report.
pub fn is_shown(p: &Progress) -> (shown: bool)
    ensures
        shown == (progress_view(*p) is Some),
{
    match p {
        Progress::WaitingSender => false,
        Progress::Received { .. } => false,
        _ => true,
    }
}

/// Turns a report into a message.
pub fn progress_to_message(p: Progress) -> (message: ServerMessage)
    requires
        progress_view(p) is Some,
    ensures
        progress_view(p) == Some(message@),
{
    match p {
        Progress::HandshakeDone(mode) => {
            let mut message: String = "握手完成，校验方式: ".to_owned();
            message.append(mode.as_str());
            ServerMessage::Progress {
                stage: "handshake_done".to_owned(),
                sent: 0,
                total: 0,
                bytes: 0,
                total_bytes: 0,
                message,
            }
        },
        Progress::Packet { sent, total, bytes, total_bytes } => {
            let mut message: String = "已发送 ".to_owned();
            message.append(decimal_text(sent as u64).as_str());
            message.append("/");
            message.append(decimal_text(total as u64).as_str());
            message.append(" 包");
            ServerMessage::Progress {
                stage: "packet".to_owned(),
                sent,
                total,
                bytes,
                total_bytes,
                message,
            }
        },
        Progress::Retry { packet, attempt } => {
            let mut message: String = "第 ".to_owned();
            message.append(decimal_text(packet as u64).as_str());
            message.append(" 包重传（第 ");
            message.append(decimal_text(attempt as u64).as_str());
            message.append(" 次）");
            ServerMessage::Progress {
                stage: "retry".to_owned(),
                sent: packet,
                total: 0,
                bytes: 0,
                total_bytes: 0,
                message,
            }
        },
        Progress::Finished { packets, bytes } => {
            let mut message: String = "传输完成，共 ".to_owned();
            message.append(decimal_text(packets as u64).as_str());
            message.append(" 包 / ");
            message.append(decimal_text(bytes).as_str());
            message.append(" 字节");
            ServerMessage::Progress {
                stage: "finished".to_owned(),
                sent: packets,
                total: packets,
                bytes,
                total_bytes: bytes,
                message,
            }
        },
        _ => ServerMessage::Progress {
            stage: "waiting_handshake".to_owned(),
            sent: 0,
            total: 0,
            bytes: 0,
            total_bytes: 0,
            message: "等待接收方发起握手...".to_owned(),
        },
    }
}

/// What the page is told when the port is closed.
pub open spec fn closed_view() -> ServerView {
    ServerView::Status { open: false, port: None, message: "串口已关闭"@ }
}

/// Says that the port is closed.
pub fn closed_message() -> (message: ServerMessage)
    ensures
        message@ == closed_view(),
{
    ServerMessage::Status { open: false, port: None, message: "串口已关闭".to_owned() }
}

/// What the page is told of an event at the port.
pub open spec fn event_view(event: SerialEvent) -> Option<ServerView> {
    match event {
        SerialEvent::Data(data) => if data@.len() == 0 {
            None
        } else {
            Some(ServerView::Output { data: encoded(data@) })
        },
        SerialEvent::XmodemProgress(p) => progress_view(p),
        SerialEvent::XmodemDone(Ok(_)) => Some(
            ServerView::XmodemDone { success: true, message: "传输完成"@, bytes: 0 },
        ),
        SerialEvent::XmodemDone(Err(message)) => Some(
            ServerView::XmodemDone { success: false, message: message@, bytes: 0 },
        ),
        SerialEvent::XmodemReceived(_) => None,
        SerialEvent::Error(message) => Some(ServerView::Error { message: message@ }),
        SerialEvent::Closed => Some(closed_view()),
    }
}

/// Turns an event at the port into a message, if the page is told of it.
pub fn event_to_message(event: SerialEvent) -> (message: Option<ServerMessage>)
    ensures
        match message {
            Some(message) => event_view(event) == Some(message@),
            None => event_view(event) is None,
        },
{
    match event {
        SerialEvent::Data(data) => if data.len() == 0 {
            None
        } else {
            Some(ServerMessage::Output { data: b64_encode(&data) })
        },
        SerialEvent::XmodemProgress(p) => if is_shown(&p) {
            Some(progress_to_message(p))
        } else {
            None
        },
        SerialEvent::XmodemDone(Ok(_)) => Some(
            ServerMessage::XmodemDone { success: true, message: "传输完成".to_owned(), bytes: 0 },
        ),
        SerialEvent::XmodemDone(Err(message)) => Some(
            ServerMessage::XmodemDone { success: false, message, bytes: 0 },
        ),
        SerialEvent::XmodemReceived(_) => None,
        SerialEvent::Error(message) => Some(ServerMessage::Error { message }),
        SerialEvent::Closed => Some(closed_message()),
    }
}

/// Whether an event at the port is the last.
pub fn is_last(event: &SerialEvent) -> (last: bool)
    ensures
        last == (*event is Closed),
{
    match event {
        SerialEvent::Closed => true,
        _ => false,
    }
}

// ---------------------------------------------------------------------------------------
// From the page to the port
// ---------------------------------------------------------------------------------------

/// Something to be done for the page.
pub enum SocketAction {
    /// Tell the page.
    Reply(ServerMessage),
    /// List the ports; the answer is [`ports_message`].
    ListPorts,
    /// Cancel the transfer at the open port and let go of it, if one is open.
    ReleasePort,
    /// Open this port; the answer is [`open_message`].
    OpenPort(SerialConfig),
    /// Close the open port and wait for that, if one is open.
    ClosePort,
    /// Write these bytes to the open port; a failure is answered by [`error_message`].
    WritePort(Vec<u8>),
    /// Send a file over the open port; a failure to start is answered by [`error_message`].
    StartSend {
        /// Its name, for display only.
        filename: String,
        data: Vec<u8>,
        use_1k: bool,
        handshake_timeout_ms: u64,
        packet_timeout_ms: u64,
    },
    /// Cancel the transfer at the open port.
    CancelTransfer,
}

/// The contents of a [`SocketAction`].
pub enum ActionView {
    Reply(ServerView),
    ListPorts,
    ReleasePort,
    OpenPort(SerialConfig),
    ClosePort,
    WritePort(Seq<u8>),
    StartSend {
        filename: Seq<char>,
        data: Seq<u8>,
        use_1k: bool,
        handshake_timeout_ms: u64,
        packet_timeout_ms: u64,
    },
    CancelTransfer,
}

impl View for SocketAction {
    type V = ActionView;

    open spec fn view(&self) -> ActionView {
        match self {
            SocketAction::Reply(message) => ActionView::Reply(message@),
            SocketAction::ListPorts => ActionView::ListPorts,
            SocketAction::ReleasePort => ActionView::ReleasePort,
            SocketAction::OpenPort(config) => ActionView::OpenPort(*config),
            SocketAction::ClosePort => ActionView::ClosePort,
            SocketAction::WritePort(data) => ActionView::WritePort(data@),
            SocketAction::StartSend {
                filename,
                data,
                use_1k,
                handshake_timeout_ms,
                packet_timeout_ms,
            } => ActionView::StartSend {
                filename: filename@,
                data: data@,
                use_1k: *use_1k,
                handshake_timeout_ms: *handshake_timeout_ms,
                packet_timeout_ms: *packet_timeout_ms,
            },
            SocketAction::CancelTransfer => ActionView::CancelTransfer,
        }
    }
}

/// The contents of a list of actions.
pub open spec fn action_views(actions: Seq<SocketAction>) -> Seq<ActionView> {
    Seq::new(actions.len(), |i: int| actions[i]@)
}

/// A refusal: the page is told why, and nothing else is done.
pub open spec fn refused(why: Seq<char>) -> Seq<ActionView> {
    seq![ActionView::Reply(ServerView::Error { message: why })]
}

/// What is to be done, in this order, when the page sends a message while a port is open or
/// not.
pub open spec fn answer(message: ClientMessage, is_open: bool) -> Seq<ActionView> {
    match message {
        ClientMessage::Ping => seq![ActionView::Reply(ServerView::Pong)],
        ClientMessage::ListPorts => seq![ActionView::ListPorts],
        ClientMessage::Open { config } => seq![
            ActionView::ReleasePort,
            ActionView::OpenPort(config),
        ],
        ClientMessage::Close => seq![ActionView::ClosePort, ActionView::Reply(closed_view())],
        ClientMessage::Input { data } => match decoded(data@) {
            Err(why) => refused(why),
            Ok(bytes) => if is_open {
                seq![ActionView::WritePort(bytes)]
            } else {
                refused("串口未打开"@)
            },
        },
        ClientMessage::XmodemSend {
            filename,
            data,
            use_1k,
            handshake_timeout_ms,
            packet_timeout_ms,
        } => match decoded(data@) {
            Err(why) => refused(why),
            Ok(bytes) => if is_open {
                seq![
                    ActionView::StartSend {
                        filename: filename@,
                        data: bytes,
                        use_1k,
                        handshake_timeout_ms,
                        packet_timeout_ms,
                    },
                ]
            } else {
                refused("请先打开串口"@)
            },
        },
        ClientMessage::XmodemCancel => if is_open {
            seq![ActionView::CancelTransfer]
        } else {
            Seq::empty()
        },
    }
}

/// Says that something failed.
pub fn error_message(why: &str) -> (message: ServerMessage)
    ensures
        message@ == (ServerView::Error { message: why@ }),
{
    ServerMessage::Error { message: why.to_owned() }
}

/// Refuses what the page asked for.
fn refuse(why: String) -> (actions: Vec<SocketAction>)
    ensures
        action_views(actions@) == refused(why@),
{
    let actions: Vec<SocketAction> = vec![
        SocketAction::Reply(ServerMessage::Error { message: why }),
    ];
    assert(action_views(actions@) =~= refused(why@));
    actions
}

/// Decides what is to be done when the page sends a message.
pub fn on_message(message: ClientMessage, is_open: bool) -> (actions: Vec<SocketAction>)
    ensures
        action_views(actions@) == answer(message, is_open),
{
    let actions: Vec<SocketAction> = match message {
        ClientMessage::Ping => vec![SocketAction::Reply(ServerMessage::Pong)],
        ClientMessage::ListPorts => vec![SocketAction::ListPorts],
        ClientMessage::Open { config } => vec![
            SocketAction::ReleasePort,
            SocketAction::OpenPort(config),
        ],
        ClientMessage::Close => vec![
            SocketAction::ClosePort,
            SocketAction::Reply(closed_message()),
        ],
        ClientMessage::Input { data } => match b64_decode(data.as_str()) {
            Err(why) => refuse(why),
            Ok(bytes) => if is_open {
                vec![SocketAction::WritePort(bytes)]
            } else {
                refuse("串口未打开".to_owned())
            },
        },
        ClientMessage::XmodemSend {
            filename,
            data,
            use_1k,
            handshake_timeout_ms,
            packet_timeout_ms,
        } => match b64_decode(data.as_str()) {
            Err(why) => refuse(why),
            Ok(bytes) => if is_open {
                vec![
                    SocketAction::StartSend {
                        filename,
                        data: bytes,
                        use_1k,
                        handshake_timeout_ms,
                        packet_timeout_ms,
                    },
                ]
            } else {
                refuse("请先打开串口".to_owned())
            },
        },
        ClientMessage::XmodemCancel => if is_open {
            vec![SocketAction::CancelTransfer]
        } else {
            Vec::new()
        },
    };
    assert(action_views(actions@) =~= answer(message, is_open));
    actions
}

/// Answers a message that could not be understood, for the given reason.
pub fn bad_message(why: &str) -> (message: ServerMessage)
    ensures
        message@ == (ServerView::Error { message: "消息格式错误: "@ + why@ }),
{
    let mut text: String = "消息格式错误: ".to_owned();
    text.append(why);
    ServerMessage::Error { message: text }
}

/// Answers the wish for a list of ports.
pub fn ports_message(ports: Vec<PortInfo>) -> (message: ServerMessage)
    ensures
        message@ == (ServerView::Ports { ports: Seq::new(ports@.len(), |i: int| ports@[i]@) }),
{
    ServerMessage::Ports { ports }
}

/// What the attempt to open a port came to.
pub enum OpenOutcome {
    /// The port of this name is open.
    Opened(String),
    /// It could not be opened, for this reason.
    Failed(String),
    /// The attempt could not be made, for this reason.
    NotTried(String),
}

/// What the page is told of the attempt to open a port.
pub open spec fn open_view(outcome: OpenOutcome) -> ServerView {
    match outcome {
        OpenOutcome::Opened(port) => ServerView::Status {
            open: true,
            port: Some(port@),
            message: "已打开 "@ + port@,
        },
        OpenOutcome::Failed(why) => ServerView::Error { message: why@ },
        OpenOutcome::NotTried(why) => ServerView::Error { message: "任务调度失败: "@ + why@ },
    }
}

/// Answers the wish to open a port.
pub fn open_message(outcome: OpenOutcome) -> (message: ServerMessage)
    ensures
        message@ == open_view(outcome),
{
    match outcome {
        OpenOutcome::Opened(port) => {
            let mut text: String = "已打开 ".to_owned();
            text.append(port.as_str());
            ServerMessage::Status { open: true, port: Some(port), message: text }
        },
        OpenOutcome::Failed(why) => ServerMessage::Error { message: why },
        OpenOutcome::NotTried(why) => {
            let mut text: String = "任务调度失败: ".to_owned();
            text.append(why.as_str());
            ServerMessage::Error { message: text }
        },
    }
}

/// Whether an action needs an open port.
pub open spec fn needs_port(action: ActionView) -> bool {
    action is WritePort || action is StartSend || action is CancelTransfer
}

/// While no port is open, nothing is ever done that needs one.
pub proof fn law_no_port_no_action(message: ClientMessage)
    ensures
        forall|i: int|
            0 <= i < answer(message, false).len() ==> !needs_port(
                #[trigger] answer(message, false)[i],
            ),
{
}

/// What is typed reaches the port as it is: when the page encodes bytes and a port is open,
/// exactly these bytes are written.
pub proof fn law_input_reaches_the_port(message: ClientMessage, bytes: Seq<u8>)
    requires
        message matches ClientMessage::Input { data } && data@ == encoded(bytes),
    ensures
        answer(message, true) == seq![ActionView::WritePort(bytes)],
{
    law_decode_inverts_encode(bytes);
}

/// What arrives at the port reaches the page as it is: decoding what the page is told gives
/// the bytes back.
pub proof fn law_output_reaches_the_page(event: SerialEvent)
    requires
        event matches SerialEvent::Data(data) && data@.len() > 0,
    ensures
        event_view(event) matches Some(ServerView::Output { data: text }) && decoded(text) == Ok::<
            Seq<u8>,
            Seq<char>,
        >(event->Data_0@),
{
    law_decode_inverts_encode(event->Data_0@);
}

/// Cancelling stops a transfer and has the other side told. When the page cancels while a port
/// is open, that is all that is done. Carried out, it raises the flag that a running transfer
/// looks at and queues a command. When the transfer is over, whatever it came to, commands are
/// looked at next; and this command has exactly the cancel bytes written.
pub proof fn law_cancel_is_told(transfer: WorkerInput, ended: WorkerReply, told: WorkerReply)
    requires
        transfer is Sent || transfer is Received,
        follows(transfer, ended),
        follows(WorkerInput::Command(carried_out(SessionRequest::Cancel).command), told),
    ensures
        answer(ClientMessage::XmodemCancel, true) == seq![ActionView::CancelTransfer],
        carried_out(SessionRequest::Cancel).cancel_flag == Some(true),
        ended.task == WorkerTask::PollCommand,
        told.events@.len() == 0,
        told.task matches WorkerTask::WriteQuietly(bytes) && bytes@ == cancel_bytes(),
{
}

// ---------------------------------------------------------------------------------------
// Nothing gets lost on the way
// ---------------------------------------------------------------------------------------

/// What happens at the port reaches the page: an error in its own words, the end of a transfer
/// as the success or the failure that it was, and the closing of the port. The page is told
/// nothing of no bytes, and of a received file only that the transfer is over.
pub proof fn law_events_reach_the_page(event: SerialEvent)
    ensures
        match event {
            SerialEvent::Error(words) => event_view(event) matches Some(ServerView::Error {
                message,
            }) && message == words@,
            SerialEvent::XmodemDone(result) => event_view(event) matches Some(
                ServerView::XmodemDone { success, message, bytes },
            ) && (success <==> result is Ok) && message == (match result {
                Ok(_) => "传输完成"@,
                Err(words) => words@,
            }) && bytes == 0,
            SerialEvent::Closed => event_view(event) matches Some(ServerView::Status {
                open,
                port,
                message,
            }) && !open && port is None && message == "串口已关闭"@,
            SerialEvent::Data(data) => event_view(event) is Some <==> data@.len() > 0,
            SerialEvent::XmodemReceived(_) => event_view(event) is None,
            SerialEvent::XmodemProgress(p) => event_view(event) is Some <==> !(p is WaitingSender)
                && !(p is Received),
        },
{
}

/// The numbers of a report reach the page as they are, and stand in the text for a person too.
pub proof fn law_numbers_reach_the_page(p: Progress)
    ensures
        match p {
            Progress::WaitingHandshake => shows(p, "waiting_handshake"@, 0, 0, 0, 0)
                && shown_text(p) == "等待接收方发起握手..."@,
            Progress::HandshakeDone(mode) => shows(p, "handshake_done"@, 0, 0, 0, 0) && shown_text(p)
                == "握手完成，校验方式: "@ + mode.name(),
            Progress::Packet { sent, total, bytes, total_bytes } => shows(
                p,
                "packet"@,
                sent,
                total,
                bytes,
                total_bytes,
            ) && shown_text(p) == "已发送 "@ + decimal(sent as nat) + "/"@ + decimal(total as nat)
                + " 包"@,
            Progress::Retry { packet, attempt } => shows(p, "retry"@, packet, 0, 0, 0)
                && shown_text(p) == "第 "@ + decimal(packet as nat) + " 包重传（第 "@ + decimal(
                attempt as nat,
            ) + " 次）"@,
            Progress::Finished { packets, bytes } => shows(
                p,
                "finished"@,
                packets,
                packets,
                bytes,
                bytes,
            ) && shown_text(p) == "传输完成，共 "@ + decimal(packets as nat) + " 包 / "@ + decimal(
                bytes as nat,
            ) + " 字节"@,
            Progress::WaitingSender => progress_view(p) is None,
            Progress::Received { .. } => progress_view(p) is None,
        },
{
}

/// Whether the page is shown this stage and these numbers of a report.
pub open spec fn shows(
    p: Progress,
    stage: Seq<char>,
    sent: u32,
    total: u32,
    bytes: u64,
    total_bytes: u64,
) -> bool {
    progress_view(p) matches Some(
        ServerView::Progress { stage: s, sent: n, total: t, bytes: b, total_bytes: tb, .. },
    ) && s == stage && n == sent && t == total && b == bytes && tb == total_bytes
}

/// The text for a person that the page is shown of a report.
pub open spec fn shown_text(p: Progress) -> Seq<char> {
    progress_view(p)->0->Progress_message
}

/// What the page asks for is what is done, with all that goes with it: the port is opened as it
/// was configured, after the one that was open is let go; a file is sent as it was encoded, with
/// its name, size of packets and times; what cannot be decoded, and what needs a port that is
/// not open, is refused, and nothing else is done.
pub proof fn law_page_is_obeyed(message: ClientMessage, is_open: bool)
    ensures
        match message {
            ClientMessage::Ping => answer(message, is_open) == seq![
                ActionView::Reply(ServerView::Pong),
            ],
            ClientMessage::ListPorts => answer(message, is_open) == seq![ActionView::ListPorts],
            ClientMessage::Open { config } => answer(message, is_open).len() == 2 && answer(
                message,
                is_open,
            )[0] is ReleasePort && answer(message, is_open)[1] == ActionView::OpenPort(config),
            ClientMessage::Close => answer(message, is_open).len() == 2 && answer(
                message,
                is_open,
            )[0] is ClosePort && (answer(message, is_open)[1] matches ActionView::Reply(
                ServerView::Status { open, port, message: words },
            ) && !open && port is None && words == "串口已关闭"@),
            ClientMessage::Input { data } => if decoded(data@) is Ok && is_open {
                answer(message, is_open) == seq![ActionView::WritePort(decoded(data@)->Ok_0)]
            } else {
                is_refused(answer(message, is_open), data@, "串口未打开"@)
            },
            ClientMessage::XmodemSend {
                filename,
                data,
                use_1k,
                handshake_timeout_ms,
                packet_timeout_ms,
            } => if decoded(data@) is Ok && is_open {
                answer(message, is_open) == seq![
                    ActionView::StartSend {
                        filename: filename@,
                        data: decoded(data@)->Ok_0,
                        use_1k,
                        handshake_timeout_ms,
                        packet_timeout_ms,
                    },
                ]
            } else {
                is_refused(answer(message, is_open), data@, "请先打开串口"@)
            },
            ClientMessage::XmodemCancel => answer(message, is_open).len() == if is_open {
                1nat
            } else {
                0nat
            },
        },
{
}

/// Whether the page is told, and nothing else is done: why its data cannot be decoded, or these
/// words.
pub open spec fn is_refused(
    actions: Seq<ActionView>,
    data: Seq<char>,
    words: Seq<char>,
) -> bool {
    actions == seq![
        ActionView::Reply(
            ServerView::Error {
                message: match decoded(data) {
                    Err(why) => why,
                    Ok(_) => words,
                },
            },
        ),
    ]
}

/// A file that the page encodes is sent byte by byte as it is.
pub proof fn law_file_reaches_the_port(message: ClientMessage, bytes: Seq<u8>)
    requires
        message matches ClientMessage::XmodemSend { data, .. } && data@ == encoded(bytes),
    ensures
        answer(message, true).len() == 1,
        answer(message, true)[0] matches ActionView::StartSend { data, .. } && data == bytes,
{
    law_decode_inverts_encode(bytes);
}

/// The page learns whether the port is open: under its name if it is, and why not if it is not.
pub proof fn law_opening_is_told(outcome: OpenOutcome)
    ensures
        match outcome {
            OpenOutcome::Opened(name) => open_view(outcome) matches ServerView::Status {
                open,
                port,
                message,
            } && open && port == Some(name@) && message == "已打开 "@ + name@,
            OpenOutcome::Failed(why) => open_view(outcome) == (ServerView::Error { message: why@ }),
            OpenOutcome::NotTried(why) => open_view(outcome) == (ServerView::Error {
                message: "任务调度失败: "@ + why@,
            }),
        },
{
}

/// The contents of an action are all of it.
pub proof fn law_contents_of_actions(actions: Seq<SocketAction>, i: int)
    requires
        0 <= i < actions.len(),
    ensures
        action_views(actions).len() == actions.len(),
        match actions[i] {
            SocketAction::Reply(message) => action_views(actions)[i] == ActionView::Reply(message@),
            SocketAction::ListPorts => action_views(actions)[i] is ListPorts,
            SocketAction::ReleasePort => action_views(actions)[i] is ReleasePort,
            SocketAction::OpenPort(config) => action_views(actions)[i] == ActionView::OpenPort(
                config,
            ),
            SocketAction::ClosePort => action_views(actions)[i] is ClosePort,
            SocketAction::WritePort(data) => action_views(actions)[i] == ActionView::WritePort(
                data@,
            ),
            SocketAction::StartSend {
                filename,
                data,
                use_1k,
                handshake_timeout_ms,
                packet_timeout_ms,
            } => action_views(actions)[i] == (ActionView::StartSend {
                filename: filename@,
                data: data@,
                use_1k,
                handshake_timeout_ms,
                packet_timeout_ms,
            }),
            SocketAction::CancelTransfer => action_views(actions)[i] is CancelTransfer,
        },
{
}

} // verus!
