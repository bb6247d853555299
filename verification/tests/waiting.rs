use std::collections::VecDeque;
use std::time::{Duration, Instant};
use xmodem_transfer::xmodem::line::{time_left, Clock, SystemClock};
use xmodem_transfer::xmodem::transfer::Callback;
use xmodem_transfer::xmodem::wait::{
    drain_pending, read_frame, read_frame_after_header, requested_mode, wait_handshake,
    wait_response,
};
use xmodem_transfer::xmodem::{
    build_packet, ChecksumMode, Progress, SerialIo, XmodemError, ACK, CAN, CRC_CHAR, NAK,
    PAYLOAD_1024, PAYLOAD_128, SOH, STX,
};

struct Noisy {
    input: VecDeque<u8>,
}

impl SerialIo for Noisy {
    fn read_byte(&mut self, _t: Duration) -> Result<Option<u8>, XmodemError> {
        Ok(self.input.pop_front())
    }
    fn write_all(&mut self, _d: &[u8]) -> Result<(), XmodemError> {
        Ok(())
    }
    fn flush_input(&mut self) -> Result<(), XmodemError> {
        Ok(())
    }
    fn is_cancelled(&self) -> bool {
        false
    }
}

struct Silent;

impl SerialIo for Silent {
    fn read_byte(&mut self, _t: Duration) -> Result<Option<u8>, XmodemError> {
        Ok(None)
    }
    fn write_all(&mut self, _d: &[u8]) -> Result<(), XmodemError> {
        Ok(())
    }
    fn flush_input(&mut self) -> Result<(), XmodemError> {
        Ok(())
    }
    fn is_cancelled(&self) -> bool {
        false
    }
}

#[test]
fn test_wait_response_skips_noise() {
    // Noise, such as a device's prompt, comes before the answer.
    let mut io = Noisy {
        input: VecDeque::from(vec![b'~', b' ', b'#', b'\r', ACK]),
    };
    assert_eq!(
        wait_response(&mut io, &mut SystemClock, Duration::from_millis(100)).unwrap(),
        Some(ACK)
    );
}

#[test]
fn test_wait_response_timeout_returns_none() {
    let mut io = Silent;
    assert_eq!(
        wait_response(&mut io, &mut SystemClock, Duration::from_millis(20)).unwrap(),
        None
    );
}

fn line(bytes: &[u8]) -> Noisy {
    Noisy {
        input: bytes.iter().copied().collect(),
    }
}

#[test]
fn first_answer_counts() {
    let mut io = line(&[SOH, NAK, ACK, CAN]);
    let wait = Duration::from_millis(100);
    assert_eq!(wait_response(&mut io, &mut SystemClock, wait).unwrap(), Some(NAK));
    assert_eq!(wait_response(&mut io, &mut SystemClock, wait).unwrap(), Some(ACK));
    assert_eq!(wait_response(&mut io, &mut SystemClock, wait).unwrap(), Some(CAN));
}

#[test]
fn first_request_tells_the_check() {
    assert_eq!(requested_mode(CRC_CHAR), Some(ChecksumMode::Crc));
    assert_eq!(requested_mode(NAK), Some(ChecksumMode::Checksum));
    assert_eq!(requested_mode(ACK), None);

    let mut io = line(&[b'$', ACK, NAK, CRC_CHAR]);
    let mut reports = Vec::new();
    let mut log = Callback { call: |p| reports.push(p) };
    let mode = wait_handshake(&mut io, &mut SystemClock, Duration::from_millis(100), &mut log);
    assert_eq!(mode.unwrap(), ChecksumMode::Checksum);
    assert_eq!(io.input, [CRC_CHAR]);
    assert!(matches!(
        reports[..],
        [Progress::WaitingHandshake, Progress::HandshakeDone(ChecksumMode::Checksum)]
    ));
}

#[test]
fn draining_empties_the_line() {
    let mut io = line(&[NAK, NAK, ACK, 0]);
    drain_pending(&mut io);
    assert!(io.input.is_empty());
}

#[test]
fn frame_starts_at_the_first_header() {
    let frame = build_packet(4, &[SOH; PAYLOAD_128], ChecksumMode::Crc);
    let mut bytes = b"> \x04".to_vec();
    bytes.extend(&frame);
    bytes.push(9);
    let mut io = line(&bytes);
    let wait = Duration::from_millis(100);
    let got = read_frame(&mut io, &mut SystemClock, ChecksumMode::Crc, wait).unwrap();
    assert_eq!(got, Some(frame));
    assert_eq!(io.input, [9]);
}

#[test]
fn frame_that_breaks_off_is_none() {
    let frame = build_packet(4, &[7; PAYLOAD_128], ChecksumMode::Checksum);
    let mut io = line(&frame[..frame.len() - 1]);
    let wait = Duration::from_millis(100);
    let got = read_frame(&mut io, &mut SystemClock, ChecksumMode::Checksum, wait).unwrap();
    assert_eq!(got, None);
    let mut io = line(&frame[1..frame.len() - 1]);
    assert_eq!(read_frame_after_header(&mut io, ChecksumMode::Checksum, SOH), None);
}

#[test]
fn header_and_what_follows_make_a_frame() {
    let frame = build_packet(4, &[7; PAYLOAD_1024], ChecksumMode::Checksum);
    let mut io = line(&frame[1..]);
    let got = read_frame_after_header(&mut io, ChecksumMode::Checksum, STX);
    assert_eq!(got, Some(frame));
    assert!(io.input.is_empty());
}

#[test]
fn time_left_of_a_wait() {
    let ms = Duration::from_millis;
    assert_eq!(time_left(ms(5), ms(2)), Some(ms(3)));
    assert_eq!(time_left(ms(5), ms(5)), None);
    assert_eq!(time_left(ms(5), ms(6)), None);
    assert_eq!(time_left(ms(0), ms(0)), None);
    let start = SystemClock.read_now();
    assert!(SystemClock.time_since(&start) < Duration::from_secs(10));
}

#[test]
fn wait_is_not_cut_short() {
    let start = SystemClock.read_now();
    let wait = Duration::from_millis(30);
    assert_eq!(wait_response(&mut Silent, &mut SystemClock, wait).unwrap(), None);
    assert!(SystemClock.time_since(&start) >= wait);
}

/// A clock that moves on by ten milliseconds with every look.
struct Ticking {
    looks: u32,
}

impl Clock for Ticking {
    fn read_now(&mut self) -> Instant {
        Instant::now()
    }
    fn time_since(&mut self, _since: &Instant) -> Duration {
        self.looks += 1;
        Duration::from_millis(10) * self.looks
    }
}

/// A line that gives noise and keeps the time that each read was given.
struct Timed {
    reads: Vec<u64>,
    byte: u8,
}

impl SerialIo for Timed {
    fn read_byte(&mut self, t: Duration) -> Result<Option<u8>, XmodemError> {
        self.reads.push(t.as_millis() as u64);
        Ok(Some(self.byte))
    }
    fn write_all(&mut self, _d: &[u8]) -> Result<(), XmodemError> {
        Ok(())
    }
    fn flush_input(&mut self) -> Result<(), XmodemError> {
        Ok(())
    }
    fn is_cancelled(&self) -> bool {
        false
    }
}

#[test]
fn every_round_of_a_wait_looks_at_the_clock() {
    let mut io = Timed { reads: Vec::new(), byte: b'x' };
    let mut clock = Ticking { looks: 0 };
    let wait = Duration::from_millis(250);
    assert_eq!(wait_response(&mut io, &mut clock, wait).unwrap(), None);
    assert_eq!(clock.looks, 25);
    assert_eq!(io.reads.len(), 24);
    assert_eq!(io.reads[..6], [200, 200, 200, 200, 200, 190]);
    assert_eq!(io.reads[23], 10);

    let mut io = Timed { reads: Vec::new(), byte: b'x' };
    let mut clock = Ticking { looks: 0 };
    let mut log = Callback { call: |_: Progress| {} };
    let result = wait_handshake(&mut io, &mut clock, Duration::from_millis(50), &mut log);
    assert!(matches!(result, Err(XmodemError::Timeout)));
    assert_eq!(clock.looks, 5);
    assert_eq!(io.reads, [200; 4]);

    let mut io = Timed { reads: Vec::new(), byte: b'x' };
    let mut clock = Ticking { looks: 0 };
    let wait = Duration::from_millis(50);
    let got = read_frame(&mut io, &mut clock, ChecksumMode::Crc, wait).unwrap();
    assert_eq!(got, None);
    assert_eq!(clock.looks, 5);
    assert_eq!(io.reads, [40, 30, 20, 10]);
}

/// A line that is cancelled.
struct Stopped;

impl SerialIo for Stopped {
    fn read_byte(&mut self, _t: Duration) -> Result<Option<u8>, XmodemError> {
        Ok(None)
    }
    fn write_all(&mut self, _d: &[u8]) -> Result<(), XmodemError> {
        Ok(())
    }
    fn flush_input(&mut self) -> Result<(), XmodemError> {
        Ok(())
    }
    fn is_cancelled(&self) -> bool {
        true
    }
}

#[test]
fn cancelled_waits_end() {
    let wait = Duration::from_secs(60);
    let mut log = Callback { call: |_: Progress| {} };
    assert!(matches!(
        wait_response(&mut Stopped, &mut SystemClock, wait),
        Err(XmodemError::Cancelled)
    ));
    assert!(matches!(
        wait_handshake(&mut Stopped, &mut SystemClock, wait, &mut log),
        Err(XmodemError::Cancelled)
    ));
    assert!(matches!(
        read_frame(&mut Stopped, &mut SystemClock, ChecksumMode::Crc, wait),
        Err(XmodemError::Cancelled)
    ));
}
