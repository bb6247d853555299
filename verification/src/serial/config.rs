//! The settings of a serial port.

use crate::text::{decimal, decimal_text, is_text};
use crate::xmodem::line::{millis_to_nanos, nanos};
use serialport::SerialPortBuilder;
use std::time::Duration;
use vstd::prelude::*;

verus! {

/// How long one read from an open port may take, in milliseconds: short, so that commands
/// are not kept waiting.
pub const READ_MILLIS: u64 = 5;

/// Settings as a client asks for them.
#[derive(Debug, Clone)]
pub struct SerialConfig {
    /// The system's name of the port.
    pub port: String,
    pub baud_rate: u32,
    /// 5 to 8.
    pub data_bits: u8,
    /// `none`, `odd` or `even`.
    pub parity: String,
    /// 1 or 2.
    pub stop_bits: u8,
    /// `none`, `software` or `hardware`.
    pub flow_control: String,
}

/// The baud rate where none is asked for.
pub fn default_baud() -> (rate: u32)
    ensures
        rate == 115200,
{
    115200
}

/// The number of data bits where none is asked for.
pub fn default_data_bits() -> (bits: u8)
    ensures
        bits == 8,
{
    8
}

/// The parity where none is asked for.
pub fn default_parity() -> (parity: String)
    ensures
        parity@ == "none"@,
{
    "none".to_owned()
}

/// The number of stop bits where none is asked for.
pub fn default_stop_bits() -> (bits: u8)
    ensures
        bits == 1,
{
    1
}

/// The flow control where none is asked for.
pub fn default_flow_control() -> (flow_control: String)
    ensures
        flow_control@ == "none"@,
{
    "none".to_owned()
}

impl Default for SerialConfig {
    /// No port, and the default of everything else.
    fn default() -> (config: Self)
        ensures
            config.port@ == Seq::<char>::empty(),
            config.baud_rate == 115200,
            config.data_bits == 8,
            config.parity@ == "none"@,
            config.stop_bits == 1,
            config.flow_control@ == "none"@,
    {
        SerialConfig {
            port: String::new(),
            baud_rate: default_baud(),
            data_bits: default_data_bits(),
            parity: default_parity(),
            stop_bits: default_stop_bits(),
            flow_control: default_flow_control(),
        }
    }
}

/// The number of bits in a character.
#[derive(Debug, Clone, Copy, PartialEq, Eq, Structural)]
pub enum DataBits {
    Five,
    Six,
    Seven,
    Eight,
}

/// What a parity bit makes of the number of ones.
#[derive(Debug, Clone, Copy, PartialEq, Eq, Structural)]
pub enum Parity {
    Off,
    Odd,
    Even,
}

/// The number of bits after a character.
#[derive(Debug, Clone, Copy, PartialEq, Eq, Structural)]
pub enum StopBits {
    One,
    Two,
}

/// How one side keeps the other from sending too much.
#[derive(Debug, Clone, Copy, PartialEq, Eq, Structural)]
pub enum FlowControl {
    Off,
    Software,
    Hardware,
}

/// How characters go over the line.
#[derive(Debug, Clone, Copy, PartialEq, Eq, Structural)]
pub struct LineSettings {
    pub data_bits: DataBits,
    pub parity: Parity,
    pub stop_bits: StopBits,
    pub flow_control: FlowControl,
}

/// The number of data bits that is asked for.
pub open spec fn data_bits_of(bits: u8) -> Option<DataBits> {
    if bits == 5 {
        Some(DataBits::Five)
    } else if bits == 6 {
        Some(DataBits::Six)
    } else if bits == 7 {
        Some(DataBits::Seven)
    } else if bits == 8 {
        Some(DataBits::Eight)
    } else {
        None
    }
}

/// The parity that is asked for.
pub open spec fn parity_of(name: Seq<char>) -> Option<Parity> {
    if name == "none"@ {
        Some(Parity::Off)
    } else if name == "odd"@ {
        Some(Parity::Odd)
    } else if name == "even"@ {
        Some(Parity::Even)
    } else {
        None
    }
}

/// The number of stop bits that is asked for.
pub open spec fn stop_bits_of(bits: u8) -> Option<StopBits> {
    if bits == 1 {
        Some(StopBits::One)
    } else if bits == 2 {
        Some(StopBits::Two)
    } else {
        None
    }
}

/// The flow control that is asked for.
pub open spec fn flow_control_of(name: Seq<char>) -> Option<FlowControl> {
    if name == "none"@ {
        Some(FlowControl::Off)
    } else if name == "software"@ {
        Some(FlowControl::Software)
    } else if name == "hardware"@ {
        Some(FlowControl::Hardware)
    } else {
        None
    }
}

impl SerialConfig {
    /// The line settings that are asked for, or what is wrong with the first that cannot be
    /// had.
    pub open spec fn line(&self) -> Result<LineSettings, Seq<char>> {
        match data_bits_of(self.data_bits) {
            None => Err("不支持的数据位: "@ + decimal(self.data_bits as nat)),
            Some(data_bits) => match parity_of(self.parity@) {
                None => Err("不支持的校验位: "@ + self.parity@),
                Some(parity) => match stop_bits_of(self.stop_bits) {
                    None => Err("不支持的停止位: "@ + decimal(self.stop_bits as nat)),
                    Some(stop_bits) => match flow_control_of(self.flow_control@) {
                        None => Err("不支持的流控: "@ + self.flow_control@),
                        Some(flow_control) => Ok(
                            LineSettings { data_bits, parity, stop_bits, flow_control },
                        ),
                    },
                },
            },
        }
    }

    /// Everything that opening the port takes.
    pub open spec fn settings(&self) -> Result<PortSettings, Seq<char>> {
        match self.line() {
            Ok(line) => Ok(
                PortSettings {
                    path: self.port@,
                    baud_rate: self.baud_rate,
                    line,
                    timeout: millis_to_nanos(READ_MILLIS as int),
                },
            ),
            Err(message) => Err(message),
        }
    }

    /// Reads the line settings.
    pub fn line_settings(&self) -> (result: Result<LineSettings, String>)
        ensures
            match result {
                Ok(line) => self.line() == Ok::<LineSettings, Seq<char>>(line),
                Err(message) => self.line() == Err::<LineSettings, Seq<char>>(message@),
            },
            result is Ok <==> can_be_had(*self),
            result matches Ok(line) ==> is_as_asked(*self, line),
    {
        proof {
            lemma_names_differ();
        }
        let data_bits: DataBits = match self.data_bits {
            5 => DataBits::Five,
            6 => DataBits::Six,
            7 => DataBits::Seven,
            8 => DataBits::Eight,
            other => {
                let mut message: String = "不支持的数据位: ".to_owned();
                message.append(decimal_text(other as u64).as_str());
                return Err(message);
            },
        };
        let parity: Parity = if is_text(&self.parity, "none") {
            Parity::Off
        } else if is_text(&self.parity, "odd") {
            Parity::Odd
        } else if is_text(&self.parity, "even") {
            Parity::Even
        } else {
            let mut message: String = "不支持的校验位: ".to_owned();
            message.append(self.parity.as_str());
            return Err(message);
        };
        let stop_bits: StopBits = match self.stop_bits {
            1 => StopBits::One,
            2 => StopBits::Two,
            other => {
                let mut message: String = "不支持的停止位: ".to_owned();
                message.append(decimal_text(other as u64).as_str());
                return Err(message);
            },
        };
        let flow_control: FlowControl = if is_text(&self.flow_control, "none") {
            FlowControl::Off
        } else if is_text(&self.flow_control, "software") {
            FlowControl::Software
        } else if is_text(&self.flow_control, "hardware") {
            FlowControl::Hardware
        } else {
            let mut message: String = "不支持的流控: ".to_owned();
            message.append(self.flow_control.as_str());
            return Err(message);
        };
        Ok(LineSettings { data_bits, parity, stop_bits, flow_control })
    }

    /// Prepares the opening of the port.
    pub fn to_builder(&self) -> (result: Result<SerialPortBuilder, String>)
        ensures
            match result {
                Ok(builder) => self.settings() == Ok::<PortSettings, Seq<char>>(
                    builder_settings(builder),
                ),
                Err(message) => self.settings() == Err::<PortSettings, Seq<char>>(message@),
            },
            result is Ok <==> can_be_had(*self),
            result matches Ok(builder) ==> {
                &&& builder_settings(builder).path == self.port@
                &&& builder_settings(builder).baud_rate == self.baud_rate
                &&& is_as_asked(*self, builder_settings(builder).line)
                &&& builder_settings(builder).timeout == 5_000_000
            },
    {
        proof {
            law_settings_are_as_asked(*self);
        }
        let line: LineSettings = match self.line_settings() {
            Ok(line) => line,
            Err(message) => {
                return Err(message);
            },
        };
        let builder = new_builder(self.port.as_str(), self.baud_rate);
        let builder = with_data_bits(builder, line.data_bits);
        let builder = with_parity(builder, line.parity);
        let builder = with_stop_bits(builder, line.stop_bits);
        let builder = with_flow_control(builder, line.flow_control);
        let builder = with_timeout(builder, Duration::from_millis(READ_MILLIS));
        Ok(builder)
    }
}

// ---------------------------------------------------------------------------------------
// The serialport crate
// ---------------------------------------------------------------------------------------

/// What a `serialport::SerialPortBuilder` holds of what is set here.
pub struct PortSettings {
    /// The system's name of the port.
    pub path: Seq<char>,
    pub baud_rate: u32,
    pub line: LineSettings,
    /// How long a read may take, in nanoseconds.
    pub timeout: int,
}

/// The settings under which the serialport crate opens a port.
#[verifier::external_type_specification]
#[verifier::external_body]
pub struct ExSerialPortBuilder(SerialPortBuilder);

/// The path, the baud rate, the line settings and the timeout that a builder holds.
pub uninterp spec fn builder_settings(builder: SerialPortBuilder) -> PortSettings;

/// `serialport::new`: a builder for this path and baud rate, with eight data bits, no
/// parity, one stop bit, no flow control and a timeout of zero.
#[verifier::external_body]
fn new_builder(path: &str, baud_rate: u32) -> (builder: SerialPortBuilder)
    ensures
        builder_settings(builder) == (PortSettings {
            path: path@,
            baud_rate,
            line: LineSettings {
                data_bits: DataBits::Eight,
                parity: Parity::Off,
                stop_bits: StopBits::One,
                flow_control: FlowControl::Off,
            },
            timeout: 0,
        }),
{
    serialport::new(path, baud_rate)
}

/// `SerialPortBuilder::data_bits`: sets the number of data bits and nothing else.
#[verifier::external_body]
fn with_data_bits(builder: SerialPortBuilder, data_bits: DataBits) -> (result: SerialPortBuilder)
    ensures
        builder_settings(result) == (PortSettings {
            line: LineSettings { data_bits, ..builder_settings(builder).line },
            ..builder_settings(builder)
        }),
{
    builder.data_bits(match data_bits {
        DataBits::Five => serialport::DataBits::Five,
        DataBits::Six => serialport::DataBits::Six,
        DataBits::Seven => serialport::DataBits::Seven,
        DataBits::Eight => serialport::DataBits::Eight,
    })
}

/// `SerialPortBuilder::parity`: sets the parity and nothing else.
#[verifier::external_body]
fn with_parity(builder: SerialPortBuilder, parity: Parity) -> (result: SerialPortBuilder)
    ensures
        builder_settings(result) == (PortSettings {
            line: LineSettings { parity, ..builder_settings(builder).line },
            ..builder_settings(builder)
        }),
{
    builder.parity(match parity {
        Parity::Off => serialport::Parity::None,
        Parity::Odd => serialport::Parity::Odd,
        Parity::Even => serialport::Parity::Even,
    })
}

/// `SerialPortBuilder::stop_bits`: sets the number of stop bits and nothing else.
#[verifier::external_body]
fn with_stop_bits(builder: SerialPortBuilder, stop_bits: StopBits) -> (result: SerialPortBuilder)
    ensures
        builder_settings(result) == (PortSettings {
            line: LineSettings { stop_bits, ..builder_settings(builder).line },
            ..builder_settings(builder)
        }),
{
    builder.stop_bits(match stop_bits {
        StopBits::One => serialport::StopBits::One,
        StopBits::Two => serialport::StopBits::Two,
    })
}

/// `SerialPortBuilder::flow_control`: sets the flow control and nothing else.
#[verifier::external_body]
fn with_flow_control(builder: SerialPortBuilder, flow_control: FlowControl) -> (result:
    SerialPortBuilder)
    ensures
        builder_settings(result) == (PortSettings {
            line: LineSettings { flow_control, ..builder_settings(builder).line },
            ..builder_settings(builder)
        }),
{
    builder.flow_control(match flow_control {
        FlowControl::Off => serialport::FlowControl::None,
        FlowControl::Software => serialport::FlowControl::Software,
        FlowControl::Hardware => serialport::FlowControl::Hardware,
    })
}

/// `SerialPortBuilder::timeout`: sets the timeout and nothing else.
#[verifier::external_body]
fn with_timeout(builder: SerialPortBuilder, timeout: Duration) -> (result: SerialPortBuilder)
    ensures
        builder_settings(result) == (PortSettings {
            timeout: nanos(timeout) as int,
            ..builder_settings(builder)
        }),
{
    builder.timeout(timeout)
}

// ---------------------------------------------------------------------------------------
// What is asked for is what is set
// ---------------------------------------------------------------------------------------

/// The number that a setting of the data bits stands for.
pub open spec fn bits_in(data_bits: DataBits) -> int {
    match data_bits {
        DataBits::Five => 5,
        DataBits::Six => 6,
        DataBits::Seven => 7,
        DataBits::Eight => 8,
    }
}

/// The name that a setting of the parity goes by.
pub open spec fn parity_name(parity: Parity) -> Seq<char> {
    match parity {
        Parity::Off => "none"@,
        Parity::Odd => "odd"@,
        Parity::Even => "even"@,
    }
}

/// The number that a setting of the stop bits stands for.
pub open spec fn stops_in(stop_bits: StopBits) -> int {
    match stop_bits {
        StopBits::One => 1,
        StopBits::Two => 2,
    }
}

/// The name that a setting of the flow control goes by.
pub open spec fn flow_name(flow_control: FlowControl) -> Seq<char> {
    match flow_control {
        FlowControl::Off => "none"@,
        FlowControl::Software => "software"@,
        FlowControl::Hardware => "hardware"@,
    }
}

/// Whether line settings are those that a client asks for, each of them.
pub open spec fn is_as_asked(config: SerialConfig, line: LineSettings) -> bool {
    &&& bits_in(line.data_bits) == config.data_bits
    &&& parity_name(line.parity) == config.parity@
    &&& stops_in(line.stop_bits) == config.stop_bits
    &&& flow_name(line.flow_control) == config.flow_control@
}

/// Whether there are line settings such as a client asks for.
pub open spec fn can_be_had(config: SerialConfig) -> bool {
    &&& 5 <= config.data_bits <= 8
    &&& config.parity@ == "none"@ || config.parity@ == "odd"@ || config.parity@ == "even"@
    &&& 1 <= config.stop_bits <= 2
    &&& config.flow_control@ == "none"@ || config.flow_control@ == "software"@
        || config.flow_control@ == "hardware"@
}

/// The settings that a port is opened with are those asked for: the path and the baud rate as
/// they are, and the line settings one by one. Only what cannot be had is refused.
pub proof fn law_settings_are_as_asked(config: SerialConfig)
    ensures
        config.settings() is Ok <==> can_be_had(config),
        config.settings() matches Ok(settings) ==> {
            &&& settings.path == config.port@
            &&& settings.baud_rate == config.baud_rate
            &&& is_as_asked(config, settings.line)
            &&& settings.timeout == 5_000_000
        },
{
    lemma_names_differ();
}

/// Two requests that differ in path, baud rate or a line setting never lead to the same
/// settings.
pub proof fn law_settings_tell_requests_apart(a: SerialConfig, b: SerialConfig)
    requires
        a.settings() is Ok,
        a.settings() == b.settings(),
    ensures
        a.port@ == b.port@,
        a.baud_rate == b.baud_rate,
        a.data_bits == b.data_bits,
        a.parity@ == b.parity@,
        a.stop_bits == b.stop_bits,
        a.flow_control@ == b.flow_control@,
{
    law_settings_are_as_asked(a);
    law_settings_are_as_asked(b);
}

/// What is refused is named: the complaint ends in the setting that cannot be had, and settings
/// are looked at in the order data bits, parity, stop bits, flow control.
pub proof fn law_refusal_names_the_setting(config: SerialConfig)
    requires
        config.settings() is Err,
    ensures
        config.settings()->Err_0 == if !(5 <= config.data_bits <= 8) {
            "不支持的数据位: "@ + decimal(config.data_bits as nat)
        } else if config.parity@ != "none"@ && config.parity@ != "odd"@ && config.parity@
            != "even"@ {
            "不支持的校验位: "@ + config.parity@
        } else if !(1 <= config.stop_bits <= 2) {
            "不支持的停止位: "@ + decimal(config.stop_bits as nat)
        } else {
            "不支持的流控: "@ + config.flow_control@
        },
{
}

proof fn lemma_names_differ()
    ensures
        "none"@ != "odd"@,
        "none"@ != "even"@,
        "odd"@ != "even"@,
        "none"@ != "software"@,
        "none"@ != "hardware"@,
        "software"@ != "hardware"@,
{
    reveal_strlit("none");
    reveal_strlit("odd");
    reveal_strlit("even");
    reveal_strlit("software");
    reveal_strlit("hardware");
    assert("none"@[0] == 'n');
    assert("odd"@[0] == 'o');
    assert("even"@[0] == 'e');
    assert("software"@[0] == 's');
    assert("hardware"@[0] == 'h');
}

} // verus!
