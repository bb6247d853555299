//! The serial port: its settings, how a port is presented, and what the thread that owns
//! an open port does.

pub mod config;
pub mod ports;
pub mod session;
pub mod worker;

pub use config::SerialConfig;
pub use ports::{describe_port, PortInfo};
pub use worker::{SerialCommand, SerialEvent};
