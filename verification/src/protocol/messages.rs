//! The messages between the web page and the program.

use crate::serial::config::SerialConfig;
use crate::serial::ports::{PortInfo, PortView};
use vstd::prelude::*;

verus! {

/// What the web page asks for.
#[derive(Debug, Clone)]
pub enum ClientMessage {
    /// List the ports.
    ListPorts,
    /// Open a port.
    Open { config: SerialConfig },
    /// Close the port.
    Close,
    /// Write what was typed, in base64.
    Input { data: String },
    /// Send a file.
    XmodemSend {
        /// Its name, for display only.
        filename: String,
        /// Its contents, in base64.
        data: String,
        /// Whether packets hold 1024 bytes.
        use_1k: bool,
        /// How long to wait for the receiver to ask, in milliseconds.
        handshake_timeout_ms: u64,
        /// How long to wait for an answer to a packet, in milliseconds.
        packet_timeout_ms: u64,
    },
    /// Cancel the transfer.
    XmodemCancel,
    /// See whether the program is there.
    Ping,
}

/// How long to wait for the receiver to ask where nothing is said, in milliseconds.
pub fn default_handshake_timeout() -> (millis: u64)
    ensures
        millis == 60_000,
{
    60_000
}

/// How long to wait for an answer to a packet where nothing is said, in milliseconds.
pub fn default_packet_timeout() -> (millis: u64)
    ensures
        millis == 3_000,
{
    3_000
}

/// What the program tells the web page.
#[derive(Debug, Clone)]
pub enum ServerMessage {
    /// The ports.
    Ports { ports: Vec<PortInfo> },
    /// A port was opened or closed.
    Status { open: bool, port: Option<String>, message: String },
    /// What arrived at the port, in base64.
    Output { data: String },
    /// A transfer reports.
    Progress {
        /// `waiting_handshake`, `handshake_done`, `packet`, `retry` or `finished`.
        stage: String,
        sent: u32,
        total: u32,
        bytes: u64,
        total_bytes: u64,
        message: String,
    },
    /// A transfer is over.
    XmodemDone { success: bool, message: String, bytes: u64 },
    /// Something failed.
    Error { message: String },
    /// The program is there.
    Pong,
}

/// The contents of a [`ServerMessage`].
pub enum ServerView {
    Ports { ports: Seq<PortView> },
    Status { open: bool, port: Option<Seq<char>>, message: Seq<char> },
    Output { data: Seq<char> },
    Progress {
        stage: Seq<char>,
        sent: u32,
        total: u32,
        bytes: u64,
        total_bytes: u64,
        message: Seq<char>,
    },
    XmodemDone { success: bool, message: Seq<char>, bytes: u64 },
    Error { message: Seq<char> },
    Pong,
}

impl View for ServerMessage {
    type V = ServerView;

    open spec fn view(&self) -> ServerView {
        match self {
            ServerMessage::Ports { ports } => ServerView::Ports {
                ports: Seq::new(ports@.len(), |i: int| ports@[i]@),
            },
            ServerMessage::Status { open, port, message } => ServerView::Status {
                open: *open,
                port: match port {
                    Some(port) => Some(port@),
                    None => None,
                },
                message: message@,
            },
            ServerMessage::Output { data } => ServerView::Output { data: data@ },
            ServerMessage::Progress { stage, sent, total, bytes, total_bytes, message } =>
                ServerView::Progress {
                stage: stage@,
                sent: *sent,
                total: *total,
                bytes: *bytes,
                total_bytes: *total_bytes,
                message: message@,
            },
            ServerMessage::XmodemDone { success, message, bytes } => ServerView::XmodemDone {
                success: *success,
                message: message@,
                bytes: *bytes,
            },
            ServerMessage::Error { message } => ServerView::Error { message: message@ },
            ServerMessage::Pong => ServerView::Pong,
        }
    }
}

/// The contents of a message are all of it: what differs in any part differs in its contents.
pub proof fn law_contents_of_a_message(message: ServerMessage)
    ensures
        match message {
            ServerMessage::Ports { ports } => message@ matches ServerView::Ports { ports: p }
                && p.len() == ports@.len() && forall|i: int|
                0 <= i < p.len() ==> #[trigger] p[i] == (PortView {
                    name: ports@[i].name@,
                    port_type: ports@[i].port_type@,
                    label: ports@[i].label@,
                    detail: ports@[i].detail@,
                }),
            ServerMessage::Status { open, port, message: text } => message@ == (
            ServerView::Status {
                open,
                port: if port is Some {
                    Some(port->0@)
                } else {
                    None
                },
                message: text@,
            }),
            ServerMessage::Output { data } => message@ == (ServerView::Output { data: data@ }),
            ServerMessage::Progress { stage, sent, total, bytes, total_bytes, message: text } =>
                message@ == (ServerView::Progress {
                stage: stage@,
                sent,
                total,
                bytes,
                total_bytes,
                message: text@,
            }),
            ServerMessage::XmodemDone { success, message: text, bytes } => message@ == (
            ServerView::XmodemDone { success, message: text@, bytes }),
            ServerMessage::Error { message: text } => message@ == (ServerView::Error {
                message: text@,
            }),
            ServerMessage::Pong => message@ is Pong,
        },
{
}

} // verus!
