//! What the web page and the program say to each other.

pub mod base64;
pub mod messages;

pub use base64::{b64_decode, b64_encode};
pub use messages::{
    default_handshake_timeout, default_packet_timeout, ClientMessage, ServerMessage,
};
