use std::collections::VecDeque;
use std::sync::{Arc, Condvar, Mutex};
use std::time::{Duration, Instant};
use xmodem_transfer::xmodem::{receive, send, ChecksumMode, SerialIo, XmodemError};

/// Bytes on their way, in both directions.
struct Pipe {
    to_sender: VecDeque<u8>,
    to_receiver: VecDeque<u8>,
}

struct Shared {
    pipe: Mutex<Pipe>,
    cv: Condvar,
}

impl Shared {
    fn read(
        &self,
        timeout: Duration,
        queue: fn(&mut Pipe) -> &mut VecDeque<u8>,
    ) -> Option<u8> {
        let mut pipe = self.pipe.lock().unwrap();
        let deadline = Instant::now() + timeout;
        loop {
            if let Some(byte) = queue(&mut pipe).pop_front() {
                return Some(byte);
            }
            let now = Instant::now();
            if now >= deadline {
                return None;
            }
            let (guard, _) = self.cv.wait_timeout(pipe, deadline - now).unwrap();
            pipe = guard;
        }
    }

    fn write(&self, data: &[u8], queue: fn(&mut Pipe) -> &mut VecDeque<u8>) {
        let mut pipe = self.pipe.lock().unwrap();
        queue(&mut pipe).extend(data.iter().copied());
        self.cv.notify_all();
    }
}

fn to_sender(pipe: &mut Pipe) -> &mut VecDeque<u8> {
    &mut pipe.to_sender
}

fn to_receiver(pipe: &mut Pipe) -> &mut VecDeque<u8> {
    &mut pipe.to_receiver
}

/// The receiver's end.
struct PipeReceiver(Arc<Shared>);

impl SerialIo for PipeReceiver {
    fn read_byte(&mut self, timeout: Duration) -> Result<Option<u8>, XmodemError> {
        Ok(self.0.read(timeout, to_receiver))
    }
    fn write_all(&mut self, data: &[u8]) -> Result<(), XmodemError> {
        self.0.write(data, to_sender);
        Ok(())
    }
    fn flush_input(&mut self) -> Result<(), XmodemError> {
        self.0.pipe.lock().unwrap().to_receiver.clear();
        Ok(())
    }
    fn is_cancelled(&self) -> bool {
        false
    }
}

/// The sender's end.
struct PipeSender(Arc<Shared>);

impl SerialIo for PipeSender {
    fn read_byte(&mut self, timeout: Duration) -> Result<Option<u8>, XmodemError> {
        Ok(self.0.read(timeout, to_sender))
    }
    fn write_all(&mut self, data: &[u8]) -> Result<(), XmodemError> {
        self.0.write(data, to_receiver);
        Ok(())
    }
    fn flush_input(&mut self) -> Result<(), XmodemError> {
        Ok(())
    }
    fn is_cancelled(&self) -> bool {
        false
    }
}

#[test]
fn test_send_and_receive_interoperate() {
    let data: Vec<u8> = (0..=255u8).cycle().take(700).collect();
    let shared = Arc::new(Shared {
        pipe: Mutex::new(Pipe {
            to_sender: VecDeque::new(),
            to_receiver: VecDeque::new(),
        }),
        cv: Condvar::new(),
    });

    let runtime = tokio::runtime::Runtime::new().unwrap();
    let rx_shared = shared.clone();
    let rx_handle = runtime.spawn_blocking(move || {
        let mut io = PipeReceiver(rx_shared);
        receive(
            &mut io,
            ChecksumMode::Crc,
            Duration::from_millis(2000),
            Duration::from_millis(500),
            0,
            |_| {},
        )
    });

    let tx_shared = shared.clone();
    let tx_data = data.clone();
    let tx_handle = runtime.spawn_blocking(move || {
        let mut io = PipeSender(tx_shared);
        send(
            &mut io,
            &tx_data,
            Duration::from_millis(2000),
            Duration::from_millis(500),
            false,
            |_| {},
        )
    });

    let tx_result = runtime.block_on(tx_handle).expect("发送线程 panic");
    let rx_result = runtime.block_on(rx_handle).expect("接收线程 panic");

    if let Err(e) = &tx_result {
        panic!("发送失败: {}", e.message());
    }
    let got = rx_result.expect("接收应成功");
    assert_eq!(got, data, "双端对接应完整还原数据");
}
