use std::collections::VecDeque;
use std::time::Duration;
use xmodem_transfer::xmodem::line::SystemClock;
use xmodem_transfer::xmodem::sender::send_with;
use xmodem_transfer::xmodem::{
    build_packet, send, split_into_payloads, ChecksumMode, Progress, Reporter, SerialIo,
    XmodemError, ACK, CAN, CRC_CHAR, EOT, MAX_RETRIES, NAK, PAYLOAD_128, SOH, STX,
};

/// A receiver that asks for CRC-16 and accepts every packet.
struct FakeReceiver {
    input: VecDeque<u8>,
    output: Vec<u8>,
    cancel: bool,
}

impl FakeReceiver {
    fn new() -> Self {
        Self {
            input: VecDeque::from(vec![CRC_CHAR]),
            output: Vec::new(),
            cancel: false,
        }
    }
}

impl SerialIo for FakeReceiver {
    fn read_byte(&mut self, _timeout: Duration) -> Result<Option<u8>, XmodemError> {
        Ok(self.input.pop_front())
    }
    fn write_all(&mut self, data: &[u8]) -> Result<(), XmodemError> {
        self.output.extend_from_slice(data);
        let is_data_frame = data.len() > 1 && (data[0] == SOH || data[0] == STX);
        if is_data_frame || data == [EOT] {
            self.input.push_back(ACK);
        }
        Ok(())
    }
    fn flush_input(&mut self) -> Result<(), XmodemError> {
        Ok(())
    }
    fn is_cancelled(&self) -> bool {
        self.cancel
    }
}

#[test]
fn test_send_success_path() {
    let mut rx = FakeReceiver::new();
    let data = vec![0x42u8; 300]; // three packets of 128 bytes
    let mut events = Vec::new();
    send(
        &mut rx,
        &data,
        Duration::from_millis(100),
        Duration::from_millis(50),
        false,
        |p| events.push(p),
    )
    .unwrap();

    assert!(matches!(events[0], Progress::WaitingHandshake));
    assert!(matches!(events[1], Progress::HandshakeDone(ChecksumMode::Crc)));
    let finished = events.iter().any(|e| matches!(e, Progress::Finished { packets: 3, .. }));
    assert!(finished, "应产生 Finished 事件且包数为 3");
    assert_eq!(*rx.output.last().unwrap(), EOT);
}

#[test]
fn test_send_cancelled() {
    let mut rx = FakeReceiver::new();
    rx.cancel = true;
    let err = send(
        &mut rx,
        &[0u8; 10],
        Duration::from_millis(100),
        Duration::from_millis(50),
        false,
        |_| {},
    )
    .unwrap_err();
    assert!(matches!(err, XmodemError::Cancelled));
}

struct Silent;

impl SerialIo for Silent {
    fn read_byte(&mut self, _t: Duration) -> Result<Option<u8>, XmodemError> {
        Ok(None)
    }
    fn write_all(&mut self, _d: &[u8]) -> Result<(), XmodemError> {
        Ok(())
    }
    fn flush_input(&mut self) -> Result<(), XmodemError> {
        Ok(())
    }
    fn is_cancelled(&self) -> bool {
        false
    }
}

#[test]
fn test_send_handshake_timeout() {
    let err = send(
        &mut Silent,
        &[0u8; 10],
        Duration::from_millis(10),
        Duration::from_millis(10),
        false,
        |_| {},
    )
    .unwrap_err();
    assert!(matches!(err, XmodemError::Timeout));
}

/// A receiver that refuses the first packet several times over and accepts the rest.
struct NakBurstReceiver {
    input: VecDeque<u8>,
    packets_seen: u32,
    flushes: u32,
}

impl NakBurstReceiver {
    fn new() -> Self {
        Self {
            input: VecDeque::new(),
            packets_seen: 0,
            flushes: 0,
        }
    }
}

impl SerialIo for NakBurstReceiver {
    fn read_byte(&mut self, _timeout: Duration) -> Result<Option<u8>, XmodemError> {
        Ok(self.input.pop_front())
    }
    fn write_all(&mut self, data: &[u8]) -> Result<(), XmodemError> {
        if data.len() > 1 && (data[0] == SOH || data[0] == STX) {
            self.packets_seen += 1;
            if self.packets_seen == 1 {
                self.input.push_back(NAK);
                self.input.push_back(NAK);
                self.input.push_back(NAK);
            } else {
                self.input.push_back(ACK);
            }
        } else if data == [EOT] {
            self.input.push_back(ACK);
        }
        Ok(())
    }
    fn flush_input(&mut self) -> Result<(), XmodemError> {
        self.flushes += 1;
        self.input.clear();
        // A receiver goes on asking after its first request was dropped.
        self.input.push_back(CRC_CHAR);
        Ok(())
    }
    fn is_cancelled(&self) -> bool {
        false
    }
}

#[test]
fn test_nak_burst_does_not_desync() {
    let mut rx = NakBurstReceiver::new();
    let data = vec![0x5Au8; 200]; // two packets of 128 bytes
    let mut retries = 0;
    send(
        &mut rx,
        &data,
        Duration::from_millis(100),
        Duration::from_millis(50),
        false,
        |p| {
            if matches!(p, Progress::Retry { .. }) {
                retries += 1;
            }
        },
    )
    .unwrap();

    // Three refusals of one packet cause one retry.
    assert_eq!(retries, 1, "连发 NAK 应只触发一次重传，实际 {retries}");
    // Pending input is dropped before the handshake only, not before a retry.
    assert_eq!(rx.flushes, 1, "flush_input 只应在握手前调用一次");
}

/// A receiver that follows a script: one list of bytes as answer to each write.
struct Scripted {
    input: VecDeque<u8>,
    answers: VecDeque<Vec<u8>>,
    writes: Vec<Vec<u8>>,
    cancel_after: usize,
    fail_at: Option<usize>,
}

impl Scripted {
    fn new(request: u8, answers: Vec<Vec<u8>>) -> Self {
        Self {
            input: VecDeque::from(vec![request]),
            answers: VecDeque::from(answers),
            writes: Vec::new(),
            cancel_after: usize::MAX,
            fail_at: None,
        }
    }
}

impl SerialIo for Scripted {
    fn read_byte(&mut self, _timeout: Duration) -> Result<Option<u8>, XmodemError> {
        Ok(self.input.pop_front())
    }
    fn write_all(&mut self, data: &[u8]) -> Result<(), XmodemError> {
        if self.fail_at == Some(self.writes.len()) {
            return Err(XmodemError::Io(std::io::Error::other("unplugged")));
        }
        self.writes.push(data.to_vec());
        if let Some(answer) = self.answers.pop_front() {
            self.input.extend(answer);
        }
        Ok(())
    }
    fn flush_input(&mut self) -> Result<(), XmodemError> {
        Ok(())
    }
    fn is_cancelled(&self) -> bool {
        self.writes.len() >= self.cancel_after
    }
}

fn send_to(io: &mut Scripted, data: &[u8]) -> (Result<(), XmodemError>, Vec<Progress>) {
    let mut reports = Vec::new();
    let result = send(
        io,
        data,
        Duration::from_millis(50),
        Duration::from_millis(5),
        false,
        |p| reports.push(p),
    );
    (result, reports)
}

/// The packets for `data`, in order, and the end of the transfer.
fn expected_writes(data: &[u8], mode: ChecksumMode) -> Vec<Vec<u8>> {
    let mut out = Vec::new();
    for (i, block) in split_into_payloads(data, PAYLOAD_128).iter().enumerate() {
        out.push(build_packet((i + 1) as u8, block, mode));
    }
    out.push(vec![EOT]);
    out
}

#[test]
fn smooth_send_writes_every_packet_once() {
    let data: Vec<u8> = (0..300).map(|i| (i % 251) as u8).collect();
    let mut io = Scripted::new(NAK, vec![vec![ACK]; 4]);
    let (result, reports) = send_to(&mut io, &data);
    assert!(result.is_ok());
    assert_eq!(io.writes, expected_writes(&data, ChecksumMode::Checksum));
    assert_eq!(reports.len(), 6);
    assert!(matches!(reports[1], Progress::HandshakeDone(ChecksumMode::Checksum)));
    assert!(matches!(
        reports[2],
        Progress::Packet { sent: 1, total: 3, bytes: 128, total_bytes: 300 }
    ));
    assert!(matches!(
        reports[4],
        Progress::Packet { sent: 3, total: 3, bytes: 384, total_bytes: 300 }
    ));
    assert!(matches!(reports[5], Progress::Finished { packets: 3, bytes: 300 }));
}

#[test]
fn empty_file_is_only_ended() {
    let mut io = Scripted::new(CRC_CHAR, vec![vec![ACK]]);
    let (result, reports) = send_to(&mut io, &[]);
    assert!(result.is_ok());
    assert_eq!(io.writes, vec![vec![EOT]]);
    assert!(matches!(reports[2], Progress::Finished { packets: 0, bytes: 0 }));
}

#[test]
fn retried_packet_repeats_the_same_bytes() {
    let data = [7u8; 200];
    let mut io = Scripted::new(
        CRC_CHAR,
        vec![vec![NAK], vec![b'x'], vec![ACK], vec![NAK], vec![ACK], vec![], vec![ACK]],
    );
    let (result, reports) = send_to(&mut io, &data);
    assert!(result.is_ok());
    let once = expected_writes(&data, ChecksumMode::Crc);
    let wanted = [0, 0, 0, 1, 1, 2, 2];
    assert_eq!(io.writes.len(), wanted.len());
    for (write, index) in io.writes.iter().zip(wanted) {
        assert_eq!(*write, once[index]);
    }
    assert!(matches!(reports[2], Progress::Retry { packet: 1, attempt: 1 }));
    assert!(matches!(reports[3], Progress::Retry { packet: 1, attempt: 2 }));
}

#[test]
fn refused_packet_is_given_up_after_ten_retries() {
    let mut io = Scripted::new(CRC_CHAR, vec![vec![NAK]; 20]);
    let (result, reports) = send_to(&mut io, &[1u8; 128]);
    assert!(matches!(result, Err(XmodemError::TooManyRetries(MAX_RETRIES))));
    assert_eq!(io.writes.len(), 12);
    assert_eq!(io.writes[10], io.writes[0]);
    assert_eq!(io.writes[11], vec![CAN, CAN, CAN]);
    assert!(matches!(reports.last(), Some(Progress::Retry { packet: 1, attempt: 10 })));
}

#[test]
fn every_packet_may_be_refused_ten_times() {
    let data = [3u8; 384];
    let mut answers = Vec::new();
    for _ in 0..3 {
        answers.extend(vec![vec![NAK]; 10]);
        answers.push(vec![ACK]);
    }
    answers.push(vec![ACK]);
    let mut io = Scripted::new(CRC_CHAR, answers);
    let (result, reports) = send_to(&mut io, &data);
    assert!(result.is_ok());
    let once = expected_writes(&data, ChecksumMode::Crc);
    assert_eq!(io.writes.len(), 34);
    for (i, write) in io.writes.iter().enumerate() {
        assert_eq!(*write, once[i / 11]);
    }
    let retries = reports.iter().filter(|p| matches!(p, Progress::Retry { .. })).count();
    assert_eq!(retries, 30);
}

#[test]
fn refused_end_is_given_up_without_cancel_bytes() {
    let mut answers = vec![vec![ACK]];
    answers.extend(vec![vec![NAK]; 20]);
    let mut io = Scripted::new(CRC_CHAR, answers);
    let (result, _) = send_to(&mut io, &[1u8; 128]);
    assert!(matches!(result, Err(XmodemError::TooManyRetries(10))));
    assert_eq!(io.writes.len(), 12);
    assert_eq!(*io.writes.last().unwrap(), vec![EOT]);
}

#[test]
fn receiver_can_cancel() {
    let mut io = Scripted::new(CRC_CHAR, vec![vec![ACK], vec![CAN]]);
    let (result, _) = send_to(&mut io, &[1u8; 300]);
    assert!(matches!(result, Err(XmodemError::RemoteCancel)));
    assert_eq!(io.writes.len(), 2);
}

#[test]
fn cancelled_send_tells_the_receiver() {
    let mut io = Scripted::new(CRC_CHAR, vec![vec![ACK], vec![ACK]]);
    io.cancel_after = 1;
    let (result, _) = send_to(&mut io, &[1u8; 300]);
    assert!(matches!(result, Err(XmodemError::Cancelled)));
    assert_eq!(io.writes.len(), 2);
    assert_eq!(io.writes[1], vec![CAN, CAN, CAN]);
}

#[test]
fn failing_line_fails_the_send() {
    let mut io = Scripted::new(CRC_CHAR, vec![vec![ACK]]);
    io.fail_at = Some(1);
    let (result, _) = send_to(&mut io, &[1u8; 300]);
    assert!(matches!(result, Err(XmodemError::Io(_))));
    assert_eq!(io.writes.len(), 1);
}

#[test]
fn packet_numbers_wrap_around() {
    let data = vec![9u8; 128 * 257];
    let mut io = Scripted::new(CRC_CHAR, vec![vec![ACK]; 258]);
    let (result, _) = send_to(&mut io, &data);
    assert!(result.is_ok());
    assert_eq!(io.writes[254][1], 255);
    assert_eq!(io.writes[255][1], 0);
    assert_eq!(io.writes[256][1], 1);
}

/// Keeps the reports.
struct Log {
    reports: Vec<Progress>,
}

impl Reporter for Log {
    fn report(&mut self, progress: Progress) {
        self.reports.push(progress);
    }
}

#[test]
fn failed_send_never_reports_its_end() {
    let wait = Duration::from_millis(20);
    let mut log = Log { reports: Vec::new() };
    let result = send_with(&mut Silent, &mut SystemClock, &[1], wait, wait, false, &mut log);
    assert!(matches!(result, Err(XmodemError::Timeout)));
    assert!(matches!(log.reports[..], [Progress::WaitingHandshake]));

    let mut log = Log { reports: Vec::new() };
    let mut io = Scripted::new(CRC_CHAR, vec![vec![NAK]; 20]);
    let result = send_with(&mut io, &mut SystemClock, &[1], wait, wait, false, &mut log);
    assert!(matches!(result, Err(XmodemError::TooManyRetries(10))));
    assert_eq!(log.reports.len(), 12);
    assert!(log.reports[2..].iter().all(|p| matches!(p, Progress::Retry { packet: 1, .. })));
}
