use std::time::Duration;
use xmodem_transfer::serial::config::{
    default_baud, default_data_bits, default_flow_control, default_parity, default_stop_bits,
    DataBits, FlowControl, Parity, StopBits,
};
use xmodem_transfer::serial::ports::{SerialPortInfo, SerialPortType, UsbPortInfo};
use xmodem_transfer::serial::session::{
    open_failed, order_for, port_closed, start_failed, SessionRequest,
};
use xmodem_transfer::serial::worker::{
    error_event, read_result, worker_step, ReadOutcome, WorkerInput, WorkerReply, WorkerTask,
};
use xmodem_transfer::serial::{describe_port, SerialCommand, SerialConfig, SerialEvent};
use xmodem_transfer::xmodem::{ChecksumMode, Progress, XmodemError, CAN};

#[test]
fn test_default_config_values() {
    let cfg = SerialConfig::default();
    assert_eq!(cfg.baud_rate, 115200);
    assert_eq!(cfg.data_bits, 8);
    assert_eq!(cfg.parity, "none");
    assert_eq!(cfg.stop_bits, 1);
    assert_eq!(cfg.flow_control, "none");
}

#[test]
fn test_config_to_settings_rejects_bad_values() {
    let mut cfg = SerialConfig::default();
    cfg.parity = "invalid".into();
    assert!(cfg.to_builder().is_err());

    let mut cfg = SerialConfig::default();
    cfg.data_bits = 9;
    assert!(cfg.to_builder().is_err());

    let mut cfg = SerialConfig::default();
    cfg.stop_bits = 3;
    assert!(cfg.to_builder().is_err());
}

#[test]
fn test_config_to_settings_ok() {
    let cfg = SerialConfig {
        port: "COM3".into(),
        baud_rate: 9600,
        data_bits: 7,
        parity: "even".into(),
        stop_bits: 2,
        flow_control: "hardware".into(),
    };
    assert!(cfg.to_builder().is_ok());
}

#[test]
fn test_describe_port_usb() {
    let info = SerialPortInfo {
        port_name: "COM7".into(),
        port_type: SerialPortType::UsbPort(UsbPortInfo {
            vid: 0x1A86,
            pid: 0x7523,
            serial_number: Some("5".into()),
            manufacturer: Some("wch.cn".into()),
            product: Some("USB-SERIAL CH340".into()),
        }),
    };
    let p = describe_port(info);
    assert_eq!(p.name, "COM7");
    assert_eq!(p.port_type, "USB");
    assert_eq!(p.label, "COM7 — USB-SERIAL CH340");
    assert!(p.detail.contains("wch.cn"));
    assert!(p.detail.contains("VID:1A86"));
    assert_eq!(
        p.detail,
        "COM7 [wch.cn, USB-SERIAL CH340, VID:1A86 PID:7523, SN:5]"
    );
}

#[test]
fn test_describe_port_unknown() {
    let info = SerialPortInfo {
        port_name: "COM1".into(),
        port_type: SerialPortType::Unknown,
    };
    let p = describe_port(info);
    assert_eq!(p.port_type, "Unknown");
    assert_eq!(p.label, "COM1 (Unknown)");
    assert_eq!(p.detail, "COM1 [Unknown]");
}

#[test]
fn bare_usb_port_is_shown_by_its_numbers() {
    let p = describe_port(SerialPortInfo {
        port_name: "tty".into(),
        port_type: SerialPortType::UsbPort(UsbPortInfo {
            vid: 0x000B,
            pid: 0xF0,
            serial_number: None,
            manufacturer: None,
            product: None,
        }),
    });
    assert_eq!(p.label, "tty — USB 串口");
    assert_eq!(p.detail, "tty [VID:000B PID:00F0]");
}

#[test]
fn other_ports_are_shown_by_their_kind() {
    let pci = describe_port(SerialPortInfo {
        port_name: "a".into(),
        port_type: SerialPortType::PciPort,
    });
    assert_eq!((pci.port_type.as_str(), pci.label.as_str()), ("PCI", "a (PCI)"));
    let bluetooth = describe_port(SerialPortInfo {
        port_name: "b".into(),
        port_type: SerialPortType::BluetoothPort,
    });
    assert_eq!(bluetooth.port_type, "Bluetooth");
    assert_eq!(bluetooth.detail, "b [Bluetooth]");
}

#[test]
fn every_setting_reaches_the_builder() {
    let cfg = SerialConfig {
        port: "COM3".into(),
        baud_rate: 9600,
        data_bits: 7,
        parity: "even".into(),
        stop_bits: 2,
        flow_control: "hardware".into(),
    };
    let wanted = serialport::new("COM3", 9600)
        .data_bits(serialport::DataBits::Seven)
        .parity(serialport::Parity::Even)
        .stop_bits(serialport::StopBits::Two)
        .flow_control(serialport::FlowControl::Hardware)
        .timeout(Duration::from_millis(5));
    assert_eq!(cfg.to_builder().unwrap(), wanted);

    let cfg = SerialConfig {
        port: "x".into(),
        baud_rate: 1,
        data_bits: 5,
        parity: "odd".into(),
        stop_bits: 1,
        flow_control: "software".into(),
    };
    let wanted = serialport::new("x", 1)
        .data_bits(serialport::DataBits::Five)
        .parity(serialport::Parity::Odd)
        .flow_control(serialport::FlowControl::Software)
        .timeout(Duration::from_millis(5));
    assert_eq!(cfg.to_builder().unwrap(), wanted);

    let mut cfg = SerialConfig::default();
    cfg.data_bits = 6;
    let wanted = serialport::new("", 115200)
        .data_bits(serialport::DataBits::Six)
        .timeout(Duration::from_millis(5));
    assert_eq!(cfg.to_builder().unwrap(), wanted);
}

#[test]
fn builders_start_from_the_usual_settings() {
    let wanted = serialport::new("", 115200)
        .data_bits(serialport::DataBits::Eight)
        .parity(serialport::Parity::None)
        .stop_bits(serialport::StopBits::One)
        .flow_control(serialport::FlowControl::None)
        .timeout(Duration::from_millis(0));
    assert_eq!(serialport::new("", 115200), wanted);
    assert_eq!(
        SerialConfig::default().to_builder().unwrap(),
        wanted.timeout(Duration::from_millis(5))
    );
}

#[test]
fn first_bad_setting_is_named() {
    let mut cfg = SerialConfig::default();
    cfg.flow_control = "xon".into();
    assert_eq!(cfg.to_builder().unwrap_err(), "不支持的流控: xon");
    cfg.stop_bits = 0;
    assert_eq!(cfg.to_builder().unwrap_err(), "不支持的停止位: 0");
    cfg.parity = "None".into();
    assert_eq!(cfg.to_builder().unwrap_err(), "不支持的校验位: None");
    cfg.data_bits = 255;
    assert_eq!(cfg.to_builder().unwrap_err(), "不支持的数据位: 255");
}

#[test]
fn line_settings_are_read() {
    let line = SerialConfig::default().line_settings().unwrap();
    assert_eq!(line.data_bits, DataBits::Eight);
    assert_eq!(line.parity, Parity::Off);
    assert_eq!(line.stop_bits, StopBits::One);
    assert_eq!(line.flow_control, FlowControl::Off);
    assert_eq!(default_baud(), 115200);
    assert_eq!(default_data_bits(), 8);
    assert_eq!(default_parity(), "none");
    assert_eq!(default_stop_bits(), 1);
    assert_eq!(default_flow_control(), "none");
}

fn silent(reply: &WorkerReply) -> bool {
    reply.events.is_empty()
}

#[test]
fn commands_become_tasks() {
    let reply = worker_step(WorkerInput::Command(SerialCommand::Write(vec![1, 2])));
    assert!(silent(&reply));
    assert!(matches!(reply.task, WorkerTask::Write(data) if data == [1, 2]));

    let reply = worker_step(WorkerInput::Command(SerialCommand::CancelXmodem));
    assert!(silent(&reply));
    assert!(matches!(reply.task, WorkerTask::WriteQuietly(data) if data == [CAN, CAN, CAN]));

    let reply = worker_step(WorkerInput::Command(SerialCommand::Xmodem {
        data: vec![7],
        use_1k: true,
        handshake_timeout: Duration::from_secs(1),
        packet_timeout: Duration::from_secs(2),
    }));
    assert!(silent(&reply));
    match reply.task {
        WorkerTask::Send { data, use_1k, handshake_timeout, packet_timeout } => {
            assert_eq!(data, [7]);
            assert!(use_1k);
            assert_eq!(handshake_timeout, Duration::from_secs(1));
            assert_eq!(packet_timeout, Duration::from_secs(2));
        }
        _ => panic!("not a send"),
    }

    let reply = worker_step(WorkerInput::Command(SerialCommand::XmodemRecv {
        mode: ChecksumMode::Checksum,
        handshake_timeout: Duration::from_secs(1),
        packet_timeout: Duration::from_secs(2),
        max_packets: 9,
    }));
    assert!(matches!(
        reply.task,
        WorkerTask::Receive { mode: ChecksumMode::Checksum, max_packets: 9, .. }
    ));

    let reply = worker_step(WorkerInput::Command(SerialCommand::Shutdown));
    assert!(matches!(reply.events[..], [SerialEvent::Closed]));
    assert!(matches!(reply.task, WorkerTask::Stop));
}

#[test]
fn idle_port_is_read() {
    let reply = worker_step(WorkerInput::Idle);
    assert!(silent(&reply) && matches!(reply.task, WorkerTask::ReadPort));
    let reply = worker_step(WorkerInput::Orphaned);
    assert!(matches!(reply.events[..], [SerialEvent::Closed]));
    assert!(matches!(reply.task, WorkerTask::Stop));
}

#[test]
fn what_is_read_is_announced() {
    let reply = worker_step(WorkerInput::Read(ReadOutcome::Bytes(vec![65])));
    assert!(matches!(&reply.events[..], [SerialEvent::Data(data)] if *data == [65]));
    assert!(matches!(reply.task, WorkerTask::PollCommand));
    let reply = worker_step(WorkerInput::Read(ReadOutcome::Bytes(vec![])));
    assert!(silent(&reply) && matches!(reply.task, WorkerTask::PollCommand));
    let reply = worker_step(WorkerInput::Read(ReadOutcome::TimedOut));
    assert!(silent(&reply) && matches!(reply.task, WorkerTask::PollCommand));
}

#[test]
fn failures_at_the_port_are_announced() {
    let gone = std::io::Error::other("gone");
    let reply = worker_step(WorkerInput::Read(ReadOutcome::Failed(gone)));
    assert!(matches!(
        &reply.events[..],
        [SerialEvent::Error(text), SerialEvent::Closed] if text == "读取失败: gone"
    ));
    assert!(matches!(reply.task, WorkerTask::Stop));

    let reply = worker_step(WorkerInput::Written(Err(std::io::Error::other("full"))));
    assert!(matches!(&reply.events[..], [SerialEvent::Error(text)] if text == "写入失败: full"));
    assert!(matches!(reply.task, WorkerTask::PollCommand));

    let reply = worker_step(WorkerInput::Written(Ok(())));
    assert!(silent(&reply) && matches!(reply.task, WorkerTask::PollCommand));
    let reply = worker_step(WorkerInput::WrittenQuietly);
    assert!(silent(&reply) && matches!(reply.task, WorkerTask::PollCommand));
    assert!(matches!(error_event("a", "b"), SerialEvent::Error(text) if text == "ab"));
}

fn failure(reply: WorkerReply) -> String {
    match reply.events.into_iter().next() {
        Some(SerialEvent::XmodemDone(Err(text))) => text,
        _ => panic!("no failure"),
    }
}

#[test]
fn ends_of_transfers_are_announced() {
    let reply = worker_step(WorkerInput::Sent(Ok(())));
    assert!(matches!(reply.events[..], [SerialEvent::XmodemDone(Ok(()))]));
    let reply = worker_step(WorkerInput::Received(Ok(vec![3, 4])));
    assert!(matches!(
        &reply.events[..],
        [SerialEvent::XmodemReceived(data), SerialEvent::XmodemDone(Ok(()))] if *data == [3, 4]
    ));

    let sent = |error| failure(worker_step(WorkerInput::Sent(Err(error))));
    let received = |error| failure(worker_step(WorkerInput::Received(Err(error))));
    assert_eq!(sent(XmodemError::Cancelled), "传输被取消");
    assert_eq!(received(XmodemError::Cancelled), "接收被取消");
    assert_eq!(sent(XmodemError::Timeout), "接收方无响应（超时）");
    assert_eq!(sent(XmodemError::TooManyRetries(10)), "重试次数超过上限(10)");
    assert_eq!(received(XmodemError::RemoteCancel), "接收方发送了 CAN，传输被中止");
    assert_eq!(
        received(XmodemError::Io(std::io::Error::other("lost"))),
        "IO 错误: lost"
    );
}

#[test]
fn reads_of_one_byte() {
    assert_eq!(read_result(ReadOutcome::Bytes(vec![8])).unwrap(), Some(8));
    assert_eq!(read_result(ReadOutcome::Bytes(vec![])).unwrap(), None);
    assert_eq!(read_result(ReadOutcome::TimedOut).unwrap(), None);
    assert!(matches!(
        read_result(ReadOutcome::Failed(std::io::Error::other("x"))),
        Err(XmodemError::Io(_))
    ));
}

#[test]
fn requests_set_the_cancel_flag() {
    let order = order_for(SessionRequest::Cancel);
    assert_eq!(order.cancel_flag, Some(true));
    assert!(matches!(order.command, SerialCommand::CancelXmodem));
    let order = order_for(SessionRequest::Write(vec![1]));
    assert_eq!(order.cancel_flag, None);
    assert!(matches!(order.command, SerialCommand::Write(data) if data == [1]));
    let order = order_for(SessionRequest::Send {
        data: vec![2],
        use_1k: false,
        handshake_timeout: Duration::ZERO,
        packet_timeout: Duration::ZERO,
    });
    assert_eq!(order.cancel_flag, Some(false));
    assert!(matches!(order.command, SerialCommand::Xmodem { use_1k: false, .. }));
    let order = order_for(SessionRequest::Receive {
        mode: ChecksumMode::Crc,
        handshake_timeout: Duration::ZERO,
        packet_timeout: Duration::ZERO,
        max_packets: 1,
    });
    assert_eq!(order.cancel_flag, Some(false));
    assert!(matches!(order.command, SerialCommand::XmodemRecv { max_packets: 1, .. }));
    let order = order_for(SessionRequest::Close);
    assert_eq!(order.cancel_flag, None);
    assert!(matches!(order.command, SerialCommand::Shutdown));
}

#[test]
fn texts_of_a_session() {
    assert_eq!(open_failed("COM1", "busy"), "打开串口 COM1 失败: busy");
    assert_eq!(start_failed("no"), "启动串口线程失败: no");
    assert_eq!(port_closed(), "串口已关闭");
}

#[test]
fn events_can_be_copied() {
    let event = SerialEvent::XmodemProgress(Progress::Retry { packet: 1, attempt: 2 });
    assert!(matches!(
        event.clone(),
        SerialEvent::XmodemProgress(Progress::Retry { packet: 1, attempt: 2 })
    ));
    let event = SerialEvent::XmodemDone(Err("x".into()));
    assert!(matches!(event.clone(), SerialEvent::XmodemDone(Err(text)) if text == "x"));
    let event = SerialEvent::Data(vec![1, 2, 3]);
    assert!(matches!(event.clone(), SerialEvent::Data(data) if data == [1, 2, 3]));
}
