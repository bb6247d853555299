//! The XMODEM protocol: packets of 128 or 1024 bytes, an 8-bit sum or CRC-16 as check
//! field, one packet in flight at a time.

use crate::text::{decimal, decimal_text};
use vstd::prelude::*;
use vstd::string::to_string_from_display_ensures;

pub mod checksum;
pub mod line;
pub mod packet;
pub mod peer_laws;
pub mod receive_laws;
pub mod receiver;
pub mod reply_laws;
pub mod send_laws;
pub mod sender;
pub mod transfer;
pub mod wait;
pub mod wait_laws;
pub mod wire_laws;

pub use checksum::{checksum8, crc16_xmodem};
pub use line::SerialIo;
pub use packet::{build_packet, parse_packet, split_into_payloads, verify_frame, verify_packet};
pub use receiver::receive;
pub use sender::send;
pub use transfer::Reporter;

verus! {

/// Starts a packet with 128 bytes of data.
pub const SOH: u8 = 0x01;

/// Starts a packet with 1024 bytes of data.
pub const STX: u8 = 0x02;

/// Ends the transfer.
pub const EOT: u8 = 0x04;

/// Accepts a packet.
pub const ACK: u8 = 0x06;

/// Refuses a packet; before the first packet, asks for 8-bit sums.
pub const NAK: u8 = 0x15;

/// Cancels the transfer.
pub const CAN: u8 = 0x18;

/// Fills the last packet up to its size.
pub const SUB: u8 = 0x1A;

/// Before the first packet, asks for CRC-16 (the letter `C`).
pub const CRC_CHAR: u8 = 0x43;

/// Number of data bytes in a packet that starts with [`SOH`].
pub const PAYLOAD_128: usize = 128;

/// Number of data bytes in a packet that starts with [`STX`].
pub const PAYLOAD_1024: usize = 1024;

/// How often one packet is sent again before the transfer fails.
pub const MAX_RETRIES: u32 = 10;

/// The error type of the operating system's I/O functions.
#[verifier::external_type_specification]
#[verifier::external_body]
pub struct ExIoError(std::io::Error);

/// Why a transfer failed.
#[derive(Debug)]
pub enum XmodemError {
    /// Cancelled on this side.
    Cancelled,
    /// The other side did not answer in time.
    Timeout,
    /// The given number of retries was used up.
    TooManyRetries(u32),
    /// Cancelled by the other side.
    RemoteCancel,
    /// The serial line failed.
    Io(std::io::Error),
}

impl From<std::io::Error> for XmodemError {
    fn from(error: std::io::Error) -> (result: Self) {
        XmodemError::Io(error)
    }
}

impl vstd::std_specs::convert::FromSpecImpl<std::io::Error> for XmodemError {
    open spec fn obeys_from_spec() -> bool {
        true
    }

    open spec fn from_spec(error: std::io::Error) -> Self {
        XmodemError::Io(error)
    }
}

impl XmodemError {
    /// Whether `text` tells a person what went wrong. A failure of the line is told in the
    /// operating system's words.
    pub open spec fn says(&self, text: Seq<char>) -> bool {
        match self {
            XmodemError::Cancelled => text == "传输被取消"@,
            XmodemError::Timeout => text == "接收方无响应（超时）"@,
            XmodemError::TooManyRetries(limit) => text == "重试次数超过上限("@ + decimal(
                *limit as nat,
            ) + ")"@,
            XmodemError::RemoteCancel => text == "接收方发送了 CAN，传输被中止"@,
            XmodemError::Io(error) => exists|words: String| #[trigger]
                to_string_from_display_ensures(error, words) && text == "IO 错误: "@ + words@,
        }
    }

    /// Tells a person what went wrong.
    pub fn message(&self) -> (text: String)
        ensures
            self.says(text@),
    {
        match self {
            XmodemError::Cancelled => "传输被取消".to_owned(),
            XmodemError::Timeout => "接收方无响应（超时）".to_owned(),
            XmodemError::TooManyRetries(limit) => {
                let mut text: String = "重试次数超过上限(".to_owned();
                text.append(decimal_text(*limit as u64).as_str());
                text.append(")");
                text
            },
            XmodemError::RemoteCancel => "接收方发送了 CAN，传输被中止".to_owned(),
            XmodemError::Io(error) => {
                let words: String = error.to_string();
                let mut text: String = "IO 错误: ".to_owned();
                text.append(words.as_str());
                text
            },
        }
    }
}

/// Which check field packets carry.
#[derive(Debug, Clone, Copy, PartialEq, Eq, Structural)]
pub enum ChecksumMode {
    /// The 8-bit sum of the data.
    Checksum,
    /// CRC-16/XMODEM of the data.
    Crc,
}

impl ChecksumMode {
    /// The lower-case name of the mode.
    pub fn as_str(&self) -> (name: &'static str)
        ensures
            name@ == self.name(),
    {
        match self {
            ChecksumMode::Checksum => "checksum",
            ChecksumMode::Crc => "crc",
        }
    }

    /// The lower-case name of the mode.
    pub open spec fn name(&self) -> Seq<char> {
        match self {
            ChecksumMode::Checksum => "checksum"@,
            ChecksumMode::Crc => "crc"@,
        }
    }
}

/// What a transfer reports while it runs.
#[derive(Debug, Clone, Copy)]
pub enum Progress {
    /// Sending: waiting for the receiver to ask for the first packet.
    WaitingHandshake,
    /// The check field is agreed.
    HandshakeDone(ChecksumMode),
    /// Sending: a packet was accepted.
    Packet { sent: u32, total: u32, bytes: u64, total_bytes: u64 },
    /// Sending: a packet goes out once more.
    Retry { packet: u32, attempt: u32 },
    /// The transfer is complete.
    Finished { packets: u32, bytes: u64 },
    /// Receiving: waiting for the sender's first packet.
    WaitingSender,
    /// Receiving: a packet was accepted.
    Received { packets: u32, bytes: u64 },
}

/// What a person is told of a failure. The number of retries stands in the text, in decimal, and
/// the system's words for a failure of the line are kept as they are.
pub proof fn law_words_for_a_failure(error: XmodemError, text: Seq<char>)
    requires
        error.says(text),
    ensures
        match error {
            XmodemError::Cancelled => text == "传输被取消"@,
            XmodemError::Timeout => text == "接收方无响应（超时）"@,
            XmodemError::TooManyRetries(limit) => text == "重试次数超过上限("@ + decimal(limit as nat)
                + ")"@,
            XmodemError::RemoteCancel => text == "接收方发送了 CAN，传输被中止"@,
            XmodemError::Io(io) => exists|words: String| #[trigger]
                to_string_from_display_ensures(&io, words) && text == "IO 错误: "@ + words@,
        },
{
}

/// The two kinds of check go by different names.
pub proof fn law_names_of_checks(mode: ChecksumMode)
    ensures
        mode.name() == "crc"@ <==> mode == ChecksumMode::Crc,
        mode.name() == "checksum"@ <==> mode == ChecksumMode::Checksum,
{
    reveal_strlit("crc");
    reveal_strlit("checksum");
    assert("crc"@[1] != "checksum"@[1]);
}

/// A failure of the operating system's I/O is kept as it is.
pub proof fn law_io_failure_is_kept(error: std::io::Error)
    ensures
        <XmodemError as vstd::std_specs::convert::FromSpec<std::io::Error>>::from_spec(error)
            == XmodemError::Io(error),
{
}

} // verus!
