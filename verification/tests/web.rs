use xmodem_transfer::protocol::{
    b64_decode, b64_encode, default_handshake_timeout, default_packet_timeout, ClientMessage,
    ServerMessage,
};
use xmodem_transfer::serial::session::{order_for, SessionRequest};
use xmodem_transfer::serial::worker::{worker_step, WorkerInput, WorkerTask};
use xmodem_transfer::serial::{PortInfo, SerialConfig, SerialEvent};
use xmodem_transfer::web::{
    bad_message, error_message, event_to_message, is_last, is_shown, on_message, open_message,
    ports_message, progress_to_message, OpenOutcome, SocketAction,
};
use xmodem_transfer::xmodem::{ChecksumMode, Progress, XmodemError, CAN};

fn shown(p: Progress) -> (String, u32, u32, u64, u64, String) {
    match progress_to_message(p) {
        ServerMessage::Progress { stage, sent, total, bytes, total_bytes, message } => {
            (stage, sent, total, bytes, total_bytes, message)
        }
        _ => panic!("no progress"),
    }
}

#[test]
fn reports_become_messages() {
    assert_eq!(
        shown(Progress::WaitingHandshake),
        ("waiting_handshake".into(), 0, 0, 0, 0, "等待接收方发起握手...".into())
    );
    assert_eq!(
        shown(Progress::HandshakeDone(ChecksumMode::Crc)),
        ("handshake_done".into(), 0, 0, 0, 0, "握手完成，校验方式: crc".into())
    );
    assert_eq!(
        shown(Progress::HandshakeDone(ChecksumMode::Checksum)).5,
        "握手完成，校验方式: checksum"
    );
    assert_eq!(
        shown(Progress::Packet { sent: 3, total: 10, bytes: 384, total_bytes: 1200 }),
        ("packet".into(), 3, 10, 384, 1200, "已发送 3/10 包".into())
    );
    assert_eq!(
        shown(Progress::Retry { packet: 255, attempt: 2 }),
        ("retry".into(), 255, 0, 0, 0, "第 255 包重传（第 2 次）".into())
    );
    assert_eq!(
        shown(Progress::Finished { packets: 3, bytes: 300 }),
        ("finished".into(), 3, 3, 300, 300, "传输完成，共 3 包 / 300 字节".into())
    );
}

#[test]
fn reports_of_a_receive_are_not_shown() {
    assert!(!is_shown(&Progress::WaitingSender));
    assert!(!is_shown(&Progress::Received { packets: 1, bytes: 1 }));
    assert!(is_shown(&Progress::WaitingHandshake));
    assert!(event_to_message(SerialEvent::XmodemProgress(Progress::WaitingSender)).is_none());
    assert!(event_to_message(SerialEvent::XmodemReceived(vec![1])).is_none());
}

#[test]
fn events_become_messages() {
    match event_to_message(SerialEvent::Data(vec![0, 255, 7])) {
        Some(ServerMessage::Output { data }) => {
            assert_eq!(b64_decode(&data).unwrap(), [0, 255, 7]);
        }
        _ => panic!("no output"),
    }
    assert!(event_to_message(SerialEvent::Data(vec![])).is_none());
    assert!(matches!(
        event_to_message(SerialEvent::XmodemDone(Ok(()))),
        Some(ServerMessage::XmodemDone { success: true, message, bytes: 0 }) if message == "传输完成"
    ));
    assert!(matches!(
        event_to_message(SerialEvent::XmodemDone(Err("why".into()))),
        Some(ServerMessage::XmodemDone { success: false, message, bytes: 0 }) if message == "why"
    ));
    assert!(matches!(
        event_to_message(SerialEvent::Error("why".into())),
        Some(ServerMessage::Error { message }) if message == "why"
    ));
    assert!(matches!(
        event_to_message(SerialEvent::Closed),
        Some(ServerMessage::Status { open: false, port: None, message }) if message == "串口已关闭"
    ));
    assert!(matches!(
        event_to_message(SerialEvent::XmodemProgress(Progress::WaitingHandshake)),
        Some(ServerMessage::Progress { .. })
    ));
    assert!(is_last(&SerialEvent::Closed));
    assert!(!is_last(&SerialEvent::Data(vec![])));
}

fn refusal(actions: Vec<SocketAction>) -> String {
    assert_eq!(actions.len(), 1);
    match actions.into_iter().next() {
        Some(SocketAction::Reply(ServerMessage::Error { message })) => message,
        _ => panic!("not refused"),
    }
}

fn file(data: &str) -> ClientMessage {
    ClientMessage::XmodemSend {
        filename: "f".into(),
        data: data.into(),
        use_1k: true,
        handshake_timeout_ms: default_handshake_timeout(),
        packet_timeout_ms: default_packet_timeout(),
    }
}

#[test]
fn requests_are_refused_while_no_port_is_open() {
    let input = ClientMessage::Input { data: "QQ==".into() };
    assert_eq!(refusal(on_message(input, false)), "串口未打开");
    assert_eq!(refusal(on_message(file("QQ=="), false)), "请先打开串口");
    assert!(on_message(ClientMessage::XmodemCancel, false).is_empty());
}

#[test]
fn bad_base64_is_refused() {
    let input = ClientMessage::Input { data: "A".into() };
    assert_eq!(refusal(on_message(input, true)), "base64 长度非法");
    assert_eq!(refusal(on_message(file("A!=="), false)), "非法 base64 字符: !");
}

#[test]
fn requests_reach_the_port() {
    let input = ClientMessage::Input { data: b64_encode(&[1, 2, 3]) };
    let actions = on_message(input, true);
    assert!(matches!(&actions[..], [SocketAction::WritePort(data)] if *data == [1, 2, 3]));
    let actions = on_message(file("QQ=="), true);
    assert!(matches!(
        &actions[..],
        [SocketAction::StartSend {
            filename,
            data,
            use_1k: true,
            handshake_timeout_ms: 60_000,
            packet_timeout_ms: 3_000,
        }] if filename == "f" && *data == [65]
    ));
    assert!(matches!(
        on_message(ClientMessage::XmodemCancel, true)[..],
        [SocketAction::CancelTransfer]
    ));
}

#[test]
fn opening_releases_the_port_before() {
    let mut config = SerialConfig::default();
    config.port = "COM9".into();
    for is_open in [false, true] {
        let message = ClientMessage::Open { config: config.clone() };
        let actions = on_message(message, is_open);
        assert!(matches!(
            &actions[..],
            [SocketAction::ReleasePort, SocketAction::OpenPort(c)] if c.port == "COM9"
        ));
        let actions = on_message(ClientMessage::Close, is_open);
        assert!(matches!(
            &actions[..],
            [
                SocketAction::ClosePort,
                SocketAction::Reply(ServerMessage::Status { open: false, port: None, message }),
            ] if message == "串口已关闭"
        ));
    }
}

#[test]
fn pings_and_lists() {
    assert!(matches!(
        on_message(ClientMessage::Ping, false)[..],
        [SocketAction::Reply(ServerMessage::Pong)]
    ));
    assert!(matches!(
        on_message(ClientMessage::ListPorts, true)[..],
        [SocketAction::ListPorts]
    ));
    let port = PortInfo {
        name: "a".into(),
        port_type: "b".into(),
        label: "c".into(),
        detail: "d".into(),
    };
    match ports_message(vec![port]) {
        ServerMessage::Ports { ports } => assert_eq!(ports[0].label, "c"),
        _ => panic!("no ports"),
    }
}

#[test]
fn answers_to_opening() {
    assert!(matches!(
        open_message(OpenOutcome::Opened("COM3".into())),
        ServerMessage::Status { open: true, port: Some(port), message }
            if port == "COM3" && message == "已打开 COM3"
    ));
    assert!(matches!(
        open_message(OpenOutcome::Failed("busy".into())),
        ServerMessage::Error { message } if message == "busy"
    ));
    assert!(matches!(
        open_message(OpenOutcome::NotTried("panic".into())),
        ServerMessage::Error { message } if message == "任务调度失败: panic"
    ));
    assert!(matches!(
        bad_message("eof"),
        ServerMessage::Error { message } if message == "消息格式错误: eof"
    ));
    assert!(matches!(error_message("x"), ServerMessage::Error { message } if message == "x"));
}

#[test]
fn cancelling_has_the_other_side_told() {
    let actions = on_message(ClientMessage::XmodemCancel, true);
    assert!(matches!(actions[..], [SocketAction::CancelTransfer]));
    let order = order_for(SessionRequest::Cancel);
    assert_eq!(order.cancel_flag, Some(true));
    let ended = worker_step(WorkerInput::Sent(Err(XmodemError::Cancelled)));
    assert!(matches!(ended.task, WorkerTask::PollCommand));
    let told = worker_step(WorkerInput::Command(order.command));
    assert!(told.events.is_empty());
    assert!(matches!(told.task, WorkerTask::WriteQuietly(bytes) if bytes == [CAN, CAN, CAN]));
}
