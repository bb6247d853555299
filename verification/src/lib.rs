//! XMODEM file transfer over a serial line.

pub mod cli;
pub mod protocol;
pub mod serial;
pub mod text;
pub mod web;
pub mod xmodem;
