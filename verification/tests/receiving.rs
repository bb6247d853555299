use std::collections::VecDeque;
use std::time::Duration;
use xmodem_transfer::xmodem::line::SystemClock;
use xmodem_transfer::xmodem::receiver::receive_with;
use xmodem_transfer::xmodem::{
    build_packet, receive, send, split_into_payloads, ChecksumMode, Progress, Reporter,
    SerialIo, XmodemError, ACK, CAN, CRC_CHAR, EOT, NAK, PAYLOAD_1024, PAYLOAD_128, SUB,
};

/// A sender that waits for the request, sends its packets and ends the transfer.
///
/// A packet that is refused is sent again.
struct FakeSender {
    /// The blocks to send.
    payloads: Vec<Vec<u8>>,
    /// The block that is being sent.
    idx: usize,
    /// Whether the block was sent and not answered yet.
    awaiting_ack: bool,
    /// Whether the receiver asked for the first packet.
    handshake_seen: bool,
    /// Whether the end was sent.
    eot_sent: bool,
    /// What the receiver wrote.
    received: Vec<u8>,
    mode: ChecksumMode,
    /// The block to damage once.
    corrupt_once: Option<usize>,
    corrupt_done: bool,
    /// How often each block was sent.
    send_counts: Vec<u32>,
}

impl FakeSender {
    fn new(data: &[u8], mode: ChecksumMode, block: usize) -> Self {
        Self {
            payloads: split_into_payloads(data, block),
            idx: 0,
            awaiting_ack: false,
            handshake_seen: false,
            eot_sent: false,
            received: Vec::new(),
            mode,
            corrupt_once: None,
            corrupt_done: false,
            send_counts: Vec::new(),
        }
    }

    /// The next bytes to send.
    fn next_bytes(&mut self) -> Option<Vec<u8>> {
        if !self.handshake_seen {
            return None;
        }
        if self.idx >= self.payloads.len() {
            return if self.eot_sent {
                None
            } else {
                self.eot_sent = true;
                Some(vec![EOT])
            };
        }
        let no = ((self.idx + 1) & 0xFF) as u8;
        let payload = &self.payloads[self.idx];
        let mut frame = build_packet(no, payload, self.mode);
        if self.corrupt_once == Some(self.idx) && !self.corrupt_done {
            let last = frame.len() - 1;
            frame[last] ^= 0xFF;
            self.corrupt_done = true;
        }
        if self.send_counts.len() == self.idx {
            self.send_counts.push(1);
        } else {
            self.send_counts[self.idx] += 1;
        }
        self.awaiting_ack = true;
        Some(frame)
    }
}

impl SerialIo for FakeSender {
    fn read_byte(&mut self, _timeout: Duration) -> Result<Option<u8>, XmodemError> {
        if self.received.is_empty() {
            return Ok(None);
        }
        let b = self.received.remove(0);
        Ok(Some(b))
    }
    fn write_all(&mut self, data: &[u8]) -> Result<(), XmodemError> {
        for &b in data {
            match b {
                CRC_CHAR | NAK if !self.handshake_seen => {
                    self.handshake_seen = true;
                }
                ACK => {
                    if self.awaiting_ack {
                        self.awaiting_ack = false;
                        self.idx += 1;
                    }
                }
                NAK => {
                    self.awaiting_ack = false;
                }
                _ => {}
            }
        }
        Ok(())
    }
    fn flush_input(&mut self) -> Result<(), XmodemError> {
        self.received.clear();
        Ok(())
    }
    fn is_cancelled(&self) -> bool {
        false
    }
}

/// Feeds what a `FakeSender` has to send to the receiver.
///
/// A read takes the sender's next byte; when it has none, the read times out.
struct LoopbackIo {
    sender: FakeSender,
    /// Bytes on their way to the receiver.
    pending: VecDeque<u8>,
}

impl LoopbackIo {
    fn new(sender: FakeSender) -> Self {
        Self {
            sender,
            pending: VecDeque::new(),
        }
    }

    /// Asks the sender for more when no byte is on its way.
    fn refill(&mut self) {
        if !self.pending.is_empty() {
            return;
        }
        if let Some(bytes) = self.sender.next_bytes() {
            self.pending.extend(bytes);
        }
    }
}

impl SerialIo for LoopbackIo {
    fn read_byte(&mut self, _timeout: Duration) -> Result<Option<u8>, XmodemError> {
        self.refill();
        Ok(self.pending.pop_front())
    }
    fn write_all(&mut self, data: &[u8]) -> Result<(), XmodemError> {
        self.sender.write_all(data)
    }
    fn flush_input(&mut self) -> Result<(), XmodemError> {
        self.pending.clear();
        Ok(())
    }
    fn is_cancelled(&self) -> bool {
        false
    }
}

#[test]
fn test_receive_success_crc_128() {
    let data = vec![0x42u8; 300]; // three packets of 128 bytes
    let sender = FakeSender::new(&data, ChecksumMode::Crc, PAYLOAD_128);
    let mut io = LoopbackIo::new(sender);

    let mut events = Vec::new();
    let got = receive(
        &mut io,
        ChecksumMode::Crc,
        Duration::from_millis(200),
        Duration::from_millis(100),
        0,
        |p| events.push(p),
    )
    .unwrap();

    assert_eq!(got, data, "接收内容应与发送内容一致");
    assert!(matches!(events[0], Progress::WaitingSender));
    assert!(events
        .iter()
        .any(|e| matches!(e, Progress::HandshakeDone(ChecksumMode::Crc))));
    assert!(events
        .iter()
        .any(|e| matches!(e, Progress::Finished { packets: 3, bytes: 300 })));
}

#[test]
fn test_receive_strips_sub_padding() {
    // The last block is filled up.
    let data = vec![0x7Fu8; 130];
    let sender = FakeSender::new(&data, ChecksumMode::Crc, PAYLOAD_128);
    let mut io = LoopbackIo::new(sender);

    let got = receive(
        &mut io,
        ChecksumMode::Crc,
        Duration::from_millis(200),
        Duration::from_millis(100),
        0,
        |_| {},
    )
    .unwrap();

    assert_eq!(got.len(), 130, "末尾 SUB 填充应被去除");
    assert_eq!(got, data);
}

#[test]
fn test_receive_checksum_mode() {
    let data = vec![0x11u8; 100];
    let sender = FakeSender::new(&data, ChecksumMode::Checksum, PAYLOAD_128);
    let mut io = LoopbackIo::new(sender);

    let got = receive(
        &mut io,
        ChecksumMode::Checksum,
        Duration::from_millis(200),
        Duration::from_millis(100),
        0,
        |_| {},
    )
    .unwrap();
    assert_eq!(got, data);
}

#[test]
fn test_receive_retransmits_on_corruption() {
    let data = vec![0x33u8; 200]; // two packets
    let mut sender = FakeSender::new(&data, ChecksumMode::Crc, PAYLOAD_128);
    sender.corrupt_once = Some(0);
    let mut io = LoopbackIo::new(sender);

    let got = receive(
        &mut io,
        ChecksumMode::Crc,
        Duration::from_millis(200),
        Duration::from_millis(100),
        0,
        |_| {},
    )
    .unwrap();

    assert_eq!(got, data, "损坏包重传后应完整接收");
    assert_eq!(io.sender.send_counts[0], 2, "损坏包应触发一次重传");
}

#[test]
fn test_receive_1k_packets() {
    let data = vec![0x99u8; 2500]; // three packets of 1024 bytes
    let sender = FakeSender::new(&data, ChecksumMode::Crc, PAYLOAD_1024);
    let mut io = LoopbackIo::new(sender);

    let got = receive(
        &mut io,
        ChecksumMode::Crc,
        Duration::from_millis(200),
        Duration::from_millis(100),
        0,
        |_| {},
    )
    .unwrap();
    assert_eq!(got, data);
}

#[test]
fn test_receive_skips_leading_noise() {
    let data = vec![0x24u8; 50];
    let sender = FakeSender::new(&data, ChecksumMode::Crc, PAYLOAD_128);
    let mut io = LoopbackIo::new(sender);
    // A device's prompt comes before the first packet.
    io.pending.extend(b"~ # \r\n".iter().copied());

    let got = receive(
        &mut io,
        ChecksumMode::Crc,
        Duration::from_millis(200),
        Duration::from_millis(100),
        0,
        |_| {},
    )
    .unwrap();
    assert_eq!(got, data, "前导噪声应被跳过");
}

struct Silent;

impl SerialIo for Silent {
    fn read_byte(&mut self, _t: Duration) -> Result<Option<u8>, XmodemError> {
        Ok(None)
    }
    fn write_all(&mut self, _d: &[u8]) -> Result<(), XmodemError> {
        Ok(())
    }
    fn flush_input(&mut self) -> Result<(), XmodemError> {
        Ok(())
    }
    fn is_cancelled(&self) -> bool {
        false
    }
}

#[test]
fn test_receive_timeout_when_silent() {
    let err = receive(
        &mut Silent,
        ChecksumMode::Crc,
        Duration::from_millis(20),
        Duration::from_millis(10),
        0,
        |_| {},
    )
    .unwrap_err();
    assert!(matches!(err, XmodemError::Timeout));
}

struct Cancelled;

impl SerialIo for Cancelled {
    fn read_byte(&mut self, _t: Duration) -> Result<Option<u8>, XmodemError> {
        Ok(None)
    }
    fn write_all(&mut self, _d: &[u8]) -> Result<(), XmodemError> {
        Ok(())
    }
    fn flush_input(&mut self) -> Result<(), XmodemError> {
        Ok(())
    }
    fn is_cancelled(&self) -> bool {
        true
    }
}

#[test]
fn test_receive_cancelled() {
    let err = receive(
        &mut Cancelled,
        ChecksumMode::Crc,
        Duration::from_millis(200),
        Duration::from_millis(100),
        0,
        |_| {},
    )
    .unwrap_err();
    assert!(matches!(err, XmodemError::Cancelled));
}

#[test]
fn test_receive_respects_max_packets() {
    let data = vec![0x01u8; 1000]; // eight packets
    let sender = FakeSender::new(&data, ChecksumMode::Crc, PAYLOAD_128);
    let mut io = LoopbackIo::new(sender);

    let err = receive(
        &mut io,
        ChecksumMode::Crc,
        Duration::from_millis(200),
        Duration::from_millis(100),
        3,
        |_| {},
    )
    .unwrap_err();
    assert!(matches!(err, XmodemError::TooManyRetries(3)));
}

#[test]
fn test_send_receive_roundtrip() {
    let data: Vec<u8> = (0..=255u8).cycle().take(1500).collect();
    let sender = FakeSender::new(&data, ChecksumMode::Crc, PAYLOAD_128);
    let mut io = LoopbackIo::new(sender);

    let got = receive(
        &mut io,
        ChecksumMode::Crc,
        Duration::from_millis(200),
        Duration::from_millis(100),
        0,
        |_| {},
    )
    .unwrap();
    assert_eq!(got, data, "往返数据应完全一致");
}
/// A sender that follows a script: bytes to read, and one list of bytes after each write.
struct Scripted {
    input: VecDeque<u8>,
    answers: VecDeque<Vec<u8>>,
    writes: Vec<Vec<u8>>,
    cancel_after: usize,
}

impl Scripted {
    fn new(answers: Vec<Vec<u8>>) -> Self {
        Self {
            input: VecDeque::new(),
            answers: VecDeque::from(answers),
            writes: Vec::new(),
            cancel_after: usize::MAX,
        }
    }
}

impl SerialIo for Scripted {
    fn read_byte(&mut self, _timeout: Duration) -> Result<Option<u8>, XmodemError> {
        Ok(self.input.pop_front())
    }
    fn write_all(&mut self, data: &[u8]) -> Result<(), XmodemError> {
        self.writes.push(data.to_vec());
        if let Some(answer) = self.answers.pop_front() {
            self.input.extend(answer);
        }
        Ok(())
    }
    fn flush_input(&mut self) -> Result<(), XmodemError> {
        self.input.clear();
        Ok(())
    }
    fn is_cancelled(&self) -> bool {
        self.writes.len() >= self.cancel_after
    }
}

fn receive_from(
    io: &mut Scripted,
    max_packets: u32,
) -> (Result<Vec<u8>, XmodemError>, Vec<Progress>) {
    let mut reports = Vec::new();
    let result = receive(
        io,
        ChecksumMode::Crc,
        Duration::from_millis(200),
        Duration::from_millis(5),
        max_packets,
        |p| reports.push(p),
    );
    (result, reports)
}

fn frame(no: u8, byte: u8) -> Vec<u8> {
    build_packet(no, &[byte; PAYLOAD_128], ChecksumMode::Crc)
}

#[test]
fn repeated_packet_is_accepted_and_ignored() {
    let mut io = Scripted::new(vec![
        frame(1, 10),
        frame(1, 10),
        frame(2, 20),
        frame(2, 20),
        vec![EOT],
    ]);
    let (result, reports) = receive_from(&mut io, 0);
    let mut wanted = vec![10u8; 128];
    wanted.extend([20u8; 128]);
    assert_eq!(result.unwrap(), wanted);
    assert_eq!(
        io.writes,
        vec![vec![CRC_CHAR], vec![ACK], vec![ACK], vec![ACK], vec![ACK], vec![ACK]]
    );
    assert!(matches!(reports[0], Progress::WaitingSender));
    assert!(matches!(reports[1], Progress::HandshakeDone(ChecksumMode::Crc)));
    assert!(matches!(reports[2], Progress::Received { packets: 1, bytes: 128 }));
    assert!(matches!(reports[3], Progress::Received { packets: 2, bytes: 256 }));
    assert!(matches!(reports[4], Progress::Finished { packets: 2, bytes: 256 }));
    assert_eq!(reports.len(), 5);
}

#[test]
fn damaged_packet_is_refused() {
    let mut damaged = frame(2, 20);
    damaged[50] ^= 1;
    let mut io = Scripted::new(vec![frame(1, 10), damaged, frame(2, 20), vec![EOT]]);
    let (result, _) = receive_from(&mut io, 0);
    assert_eq!(result.unwrap().len(), 256);
    assert_eq!(io.writes[2], vec![NAK]);
}

/// A packet, damaged so many times before it comes as it is.
fn at_last(no: u8, byte: u8, damaged: usize) -> Vec<Vec<u8>> {
    let mut bad = frame(no, byte);
    bad[50] ^= 1;
    let mut answers = vec![bad; damaged];
    answers.push(frame(no, byte));
    answers
}

#[test]
fn every_packet_may_be_damaged_ten_times() {
    let mut answers = at_last(1, 10, 15);
    answers.extend(at_last(2, 20, 10));
    answers.extend(at_last(3, 30, 10));
    answers.push(vec![EOT]);
    let mut io = Scripted::new(answers);
    let (result, reports) = receive_from(&mut io, 0);
    assert_eq!(result.unwrap(), [[10u8; 128], [20u8; 128], [30u8; 128]].concat());
    assert_eq!(io.writes.iter().filter(|w| **w == vec![NAK]).count(), 35);
    assert_eq!(reports.len(), 6);
    assert!(matches!(reports[5], Progress::Finished { packets: 3, bytes: 384 }));

    let mut answers = at_last(1, 10, 0);
    answers.extend(at_last(2, 20, 11));
    let (result, _) = receive_from(&mut Scripted::new(answers), 0);
    assert!(matches!(result, Err(XmodemError::TooManyRetries(10))));
}

#[test]
fn packet_out_of_order_is_refused() {
    let mut io = Scripted::new(vec![frame(1, 10), frame(3, 30), frame(2, 20), vec![EOT]]);
    let (result, _) = receive_from(&mut io, 0);
    assert_eq!(result.unwrap()[128..], [20u8; 128]);
    assert_eq!(io.writes[2], vec![NAK]);
}

#[test]
fn first_packet_must_have_number_one() {
    let mut io = Scripted::new(vec![frame(2, 20), frame(1, 10), vec![EOT]]);
    let (result, _) = receive_from(&mut io, 0);
    assert_eq!(result.unwrap(), vec![10u8; 128]);
    assert_eq!(io.writes[..3], [vec![CRC_CHAR], vec![NAK], vec![ACK]]);
}

#[test]
fn silent_sender_is_given_up_after_ten_retries() {
    let mut io = Scripted::new(vec![frame(1, 10)]);
    let (result, _) = receive_from(&mut io, 0);
    assert!(matches!(result, Err(XmodemError::TooManyRetries(10))));
    assert_eq!(io.writes.len(), 14);
    assert!(io.writes[2..13].iter().all(|w| *w == vec![NAK]));
    assert_eq!(io.writes[13], vec![CAN, CAN, CAN]);
}

#[test]
fn three_cancel_bytes_stop_the_receiver() {
    for end in [vec![CAN, CAN, CAN], vec![CAN, b'x', CAN, CAN, CAN]] {
        let mut io = Scripted::new(vec![frame(1, 10), end]);
        let (result, _) = receive_from(&mut io, 0);
        assert!(matches!(result, Err(XmodemError::RemoteCancel)));
        assert_eq!(io.writes.len(), 2);
    }
}

#[test]
fn cancel_bytes_with_others_between_do_not_stop_the_receiver() {
    for end in [vec![CAN, b'x', CAN, b'x', CAN], vec![CAN, b'x', CAN, CAN]] {
        let mut io = Scripted::new(vec![frame(1, 10), end, vec![EOT]]);
        let (result, _) = receive_from(&mut io, 0);
        assert_eq!(result.unwrap(), vec![10u8; 128]);
    }
}

#[test]
fn two_cancel_bytes_do_not_stop_the_receiver() {
    let mut first = frame(1, 10);
    first.extend([CAN, CAN]);
    let mut io = Scripted::new(vec![first, vec![], vec![EOT]]);
    let (result, _) = receive_from(&mut io, 0);
    assert_eq!(result.unwrap(), vec![10u8; 128]);
}

#[test]
fn cancelled_receive_tells_the_sender() {
    let mut io = Scripted::new(vec![frame(1, 10), frame(2, 20)]);
    io.cancel_after = 2;
    let (result, _) = receive_from(&mut io, 0);
    assert!(matches!(result, Err(XmodemError::Cancelled)));
    assert_eq!(*io.writes.last().unwrap(), vec![CAN, CAN, CAN]);
}

#[test]
fn limit_of_packets_is_kept() {
    let answers = vec![frame(1, 10), frame(2, 20), frame(3, 30), vec![EOT]];
    let mut io = Scripted::new(answers.clone());
    let (result, reports) = receive_from(&mut io, 3);
    assert!(matches!(result, Err(XmodemError::TooManyRetries(3))));
    assert_eq!(*io.writes.last().unwrap(), vec![CAN, CAN, CAN]);
    assert!(matches!(reports.last(), Some(Progress::Received { packets: 3, bytes: 384 })));

    let mut io = Scripted::new(answers);
    let (result, _) = receive_from(&mut io, 4);
    assert_eq!(result.unwrap().len(), 384);
}

#[test]
fn limit_of_one_packet_is_kept() {
    let mut io = Scripted::new(vec![frame(1, 10), frame(2, 20), vec![EOT]]);
    let (result, reports) = receive_from(&mut io, 1);
    assert!(matches!(result, Err(XmodemError::TooManyRetries(1))));
    assert_eq!(io.writes, vec![vec![CRC_CHAR], vec![ACK], vec![CAN, CAN, CAN]]);
    assert_eq!(reports.len(), 3);
    assert!(matches!(reports[2], Progress::Received { packets: 1, bytes: 128 }));
}

/// Keeps the reports.
struct Log {
    reports: Vec<Progress>,
}

impl Reporter for Log {
    fn report(&mut self, progress: Progress) {
        self.reports.push(progress);
    }
}

#[test]
fn failed_receive_never_reports_its_end() {
    let mut log = Log { reports: Vec::new() };
    let mut io = Scripted::new(vec![frame(1, 10)]);
    let wait = Duration::from_millis(20);
    let mode = ChecksumMode::Crc;
    let result = receive_with(&mut io, &mut SystemClock, mode, wait, wait, 0, &mut log);
    assert!(matches!(result, Err(XmodemError::TooManyRetries(10))));
    assert!(matches!(
        log.reports[..],
        [
            Progress::WaitingSender,
            Progress::HandshakeDone(ChecksumMode::Crc),
            Progress::Received { packets: 1, bytes: 128 },
        ]
    ));

    let mut log = Log { reports: Vec::new() };
    let result = receive_with(&mut Silent, &mut SystemClock, mode, wait, wait, 0, &mut log);
    assert!(matches!(result, Err(XmodemError::Timeout)));
    assert!(matches!(log.reports[..], [Progress::WaitingSender]));
}

#[test]
fn packet_numbers_wrap_around_on_arrival() {
    let mut answers = Vec::new();
    for i in 0..300usize {
        answers.push(frame(((i + 1) & 0xFF) as u8, i as u8 | 1));
    }
    answers.push(vec![EOT]);
    let mut io = Scripted::new(answers);
    let (result, _) = receive_from(&mut io, 0);
    let got = result.unwrap();
    assert_eq!(got.len(), 300 * 128);
    assert_eq!(got[299 * 128], 299u32 as u8 | 1);
}

/// A receiver that keeps what it is sent and accepts it.
struct Recorder {
    input: VecDeque<u8>,
    writes: Vec<Vec<u8>>,
}

impl SerialIo for Recorder {
    fn read_byte(&mut self, _timeout: Duration) -> Result<Option<u8>, XmodemError> {
        Ok(self.input.pop_front())
    }
    fn write_all(&mut self, data: &[u8]) -> Result<(), XmodemError> {
        self.writes.push(data.to_vec());
        self.input.push_back(ACK);
        Ok(())
    }
    fn flush_input(&mut self) -> Result<(), XmodemError> {
        Ok(())
    }
    fn is_cancelled(&self) -> bool {
        false
    }
}

fn transferred(data: &[u8], use_1k: bool) -> Vec<u8> {
    let mut sink = Recorder {
        input: VecDeque::from(vec![CRC_CHAR]),
        writes: Vec::new(),
    };
    send(
        &mut sink,
        data,
        Duration::from_millis(50),
        Duration::from_millis(50),
        use_1k,
        |_| {},
    )
    .unwrap();
    let mut io = Scripted::new(sink.writes);
    receive_from(&mut io, 0).0.unwrap()
}

#[test]
fn what_was_sent_arrives() {
    let data: Vec<u8> = (0..3000u32).map(|i| (i * i % 253) as u8 | 1).collect();
    assert_eq!(transferred(&data, false), data);
    assert_eq!(transferred(&data, true), data);
}

#[test]
fn filling_at_the_end_is_not_told_from_data() {
    let mut data = vec![5u8; 100];
    data.extend([SUB; 7]);
    assert_eq!(transferred(&data, false), vec![5u8; 100]);
}
