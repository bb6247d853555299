//! What a client of an open port asks of the thread that owns it.

use super::worker::SerialCommand;
use crate::xmodem::ChecksumMode;
use std::time::Duration;
use vstd::prelude::*;

verus! {

/// What a client asks for.
pub enum SessionRequest {
    /// Write these bytes.
    Write(Vec<u8>),
    /// Cancel the running transfer.
    Cancel,
    /// Send a file.
    Send { data: Vec<u8>, use_1k: bool, handshake_timeout: Duration, packet_timeout: Duration },
    /// Receive a file.
    Receive {
        mode: ChecksumMode,
        handshake_timeout: Duration,
        packet_timeout: Duration,
        max_packets: u32,
    },
    /// Close the port.
    Close,
}

/// How a request is carried out: first the flag that cancels a running transfer gets a
/// value, if one is given; then the command goes out.
pub struct SessionOrder {
    pub cancel_flag: Option<bool>,
    pub command: SerialCommand,
}

/// How a request is carried out. A transfer starts with the flag down; a request to cancel
/// raises it, so that a running transfer sees it, and has the other side told.
pub open spec fn carried_out(request: SessionRequest) -> SessionOrder {
    match request {
        SessionRequest::Write(data) => SessionOrder {
            cancel_flag: None,
            command: SerialCommand::Write(data),
        },
        SessionRequest::Cancel => SessionOrder {
            cancel_flag: Some(true),
            command: SerialCommand::CancelXmodem,
        },
        SessionRequest::Send { data, use_1k, handshake_timeout, packet_timeout } => SessionOrder {
            cancel_flag: Some(false),
            command: SerialCommand::Xmodem { data, use_1k, handshake_timeout, packet_timeout },
        },
        SessionRequest::Receive { mode, handshake_timeout, packet_timeout, max_packets } =>
            SessionOrder {
            cancel_flag: Some(false),
            command: SerialCommand::XmodemRecv {
                mode,
                handshake_timeout,
                packet_timeout,
                max_packets,
            },
        },
        SessionRequest::Close => SessionOrder {
            cancel_flag: None,
            command: SerialCommand::Shutdown,
        },
    }
}

/// Decides how a request is carried out.
pub fn order_for(request: SessionRequest) -> (order: SessionOrder)
    ensures
        order == carried_out(request),
{
    match request {
        SessionRequest::Write(data) => SessionOrder {
            cancel_flag: None,
            command: SerialCommand::Write(data),
        },
        SessionRequest::Cancel => SessionOrder {
            cancel_flag: Some(true),
            command: SerialCommand::CancelXmodem,
        },
        SessionRequest::Send { data, use_1k, handshake_timeout, packet_timeout } => SessionOrder {
            cancel_flag: Some(false),
            command: SerialCommand::Xmodem { data, use_1k, handshake_timeout, packet_timeout },
        },
        SessionRequest::Receive { mode, handshake_timeout, packet_timeout, max_packets } =>
            SessionOrder {
            cancel_flag: Some(false),
            command: SerialCommand::XmodemRecv {
                mode,
                handshake_timeout,
                packet_timeout,
                max_packets,
            },
        },
        SessionRequest::Close => SessionOrder {
            cancel_flag: None,
            command: SerialCommand::Shutdown,
        },
    }
}

/// Says that a port could not be opened.
pub fn open_failed(port: &str, why: &str) -> (text: String)
    ensures
        text@ == "打开串口 "@ + port@ + " 失败: "@ + why@,
{
    let mut text: String = "打开串口 ".to_owned();
    text.append(port);
    text.append(" 失败: ");
    text.append(why);
    text
}

/// Says that the thread for a port could not be started.
pub fn start_failed(why: &str) -> (text: String)
    ensures
        text@ == "启动串口线程失败: "@ + why@,
{
    let mut text: String = "启动串口线程失败: ".to_owned();
    text.append(why);
    text
}

/// Says that the port is closed.
pub fn port_closed() -> (text: String)
    ensures
        text@ == "串口已关闭"@,
{
    "串口已关闭".to_owned()
}

/// What a client asks for is what goes out: the same bytes, the same file, the same check,
/// limit, size of packets and times.
pub proof fn law_request_goes_out_as_it_is(request: SessionRequest)
    ensures
        match (request, carried_out(request).command) {
            (SessionRequest::Write(data), SerialCommand::Write(d)) => d@ == data@,
            (SessionRequest::Cancel, SerialCommand::CancelXmodem) => true,
            (
                SessionRequest::Send { data, use_1k, handshake_timeout, packet_timeout },
                SerialCommand::Xmodem { data: d, use_1k: k, handshake_timeout: h, packet_timeout: p },
            ) => d@ == data@ && k == use_1k && h == handshake_timeout && p == packet_timeout,
            (
                SessionRequest::Receive { mode, handshake_timeout, packet_timeout, max_packets },
                SerialCommand::XmodemRecv {
                    mode: m,
                    handshake_timeout: h,
                    packet_timeout: p,
                    max_packets: n,
                },
            ) => m == mode && h == handshake_timeout && p == packet_timeout && n == max_packets,
            (SessionRequest::Close, SerialCommand::Shutdown) => true,
            _ => false,
        },
{
}

/// A transfer starts with the flag down, whatever was cancelled before it; only a request to
/// cancel raises it; nothing else touches it.
pub proof fn law_flag_of_a_request(request: SessionRequest)
    ensures
        carried_out(request).cancel_flag == Some(true) <==> request is Cancel,
        carried_out(request).cancel_flag == Some(false) <==> request is Send || request is Receive,
{
}

} // verus!
