//! How a port is presented to a person.

use crate::text::{hex4, hex4_text};
use vstd::prelude::*;

verus! {

/// What the system knows of a port.
#[derive(Debug, Clone)]
pub struct SerialPortInfo {
    /// The system's name of the port, such as `COM3`.
    pub port_name: String,
    pub port_type: SerialPortType,
}

/// How a port is attached.
#[derive(Debug, Clone)]
pub enum SerialPortType {
    UsbPort(UsbPortInfo),
    PciPort,
    BluetoothPort,
    Unknown,
}

/// What the system knows of a USB device.
#[derive(Debug, Clone)]
pub struct UsbPortInfo {
    pub vid: u16,
    pub pid: u16,
    pub serial_number: Option<String>,
    pub manufacturer: Option<String>,
    pub product: Option<String>,
}

/// A port as a list of ports shows it.
#[derive(Debug, Clone)]
pub struct PortInfo {
    /// The system's name of the port.
    pub name: String,
    /// How it is attached: `USB`, `PCI`, `Bluetooth` or `Unknown`.
    pub port_type: String,
    /// A short label.
    pub label: String,
    /// All that is known of it.
    pub detail: String,
}

/// The contents of a [`PortInfo`].
pub struct PortView {
    pub name: Seq<char>,
    pub port_type: Seq<char>,
    pub label: Seq<char>,
    pub detail: Seq<char>,
}

impl View for PortInfo {
    type V = PortView;

    open spec fn view(&self) -> PortView {
        PortView {
            name: self.name@,
            port_type: self.port_type@,
            label: self.label@,
            detail: self.detail@,
        }
    }
}

impl SerialPortType {
    /// The name of the way of attachment.
    pub open spec fn name(&self) -> Seq<char> {
        match self {
            SerialPortType::UsbPort(_) => "USB"@,
            SerialPortType::PciPort => "PCI"@,
            SerialPortType::BluetoothPort => "Bluetooth"@,
            SerialPortType::Unknown => "Unknown"@,
        }
    }

    /// The name of the way of attachment.
    fn kind(&self) -> (name: String)
        ensures
            name@ == self.name(),
    {
        match self {
            SerialPortType::UsbPort(_) => "USB".to_owned(),
            SerialPortType::PciPort => "PCI".to_owned(),
            SerialPortType::BluetoothPort => "Bluetooth".to_owned(),
            SerialPortType::Unknown => "Unknown".to_owned(),
        }
    }
}

/// A text that may be missing, with what separates it from the next one.
pub open spec fn followed(text: Option<String>, separator: Seq<char>) -> Seq<char> {
    match text {
        Some(text) => text@ + separator,
        None => Seq::empty(),
    }
}

/// A text that may be missing, with what introduces it.
pub open spec fn preceded(introduction: Seq<char>, text: Option<String>) -> Seq<char> {
    match text {
        Some(text) => introduction + text@,
        None => Seq::empty(),
    }
}

impl UsbPortInfo {
    /// Manufacturer, product, numbers and serial number, as far as they are known.
    pub open spec fn summary(&self) -> Seq<char> {
        followed(self.manufacturer, ", "@) + followed(self.product, ", "@) + "VID:"@ + hex4(
            self.vid,
        ) + " PID:"@ + hex4(self.pid) + preceded(", SN:"@, self.serial_number)
    }

    /// Manufacturer, product, numbers and serial number, as far as they are known.
    fn describe(&self) -> (text: String)
        ensures
            text@ == self.summary(),
    {
        let mut text: String = String::new();
        if let Some(manufacturer) = &self.manufacturer {
            text.append(manufacturer.as_str());
            text.append(", ");
        }
        assert(text@ =~= followed(self.manufacturer, ", "@));
        let ghost so_far = text@;
        if let Some(product) = &self.product {
            text.append(product.as_str());
            text.append(", ");
        }
        assert(text@ =~= so_far + followed(self.product, ", "@));
        text.append("VID:");
        text.append(hex4_text(self.vid).as_str());
        text.append(" PID:");
        text.append(hex4_text(self.pid).as_str());
        let ghost so_far = text@;
        if let Some(serial_number) = &self.serial_number {
            text.append(", SN:");
            text.append(serial_number.as_str());
        }
        assert(text@ =~= so_far + preceded(", SN:"@, self.serial_number));
        text
    }
}

impl SerialPortInfo {
    /// How a list of ports shows this one. The product's name is what a person knows a USB
    /// device by.
    pub open spec fn shown(&self) -> PortView {
        let name = self.port_name@;
        let port_type = self.port_type.name();
        match self.port_type {
            SerialPortType::UsbPort(info) => PortView {
                name,
                port_type,
                label: match info.product {
                    Some(product) => name + " — "@ + product@,
                    None => name + " — USB 串口"@,
                },
                detail: name + " ["@ + info.summary() + "]"@,
            },
            _ => PortView {
                name,
                port_type,
                label: name + " ("@ + port_type + ")"@,
                detail: name + " ["@ + port_type + "]"@,
            },
        }
    }
}

/// Presents a port.
pub fn describe_port(p: SerialPortInfo) -> (info: PortInfo)
    ensures
        info@ == p.shown(),
{
    let port_type: String = p.port_type.kind();
    let mut detail: String = p.port_name.clone();
    detail.append(" [");
    let mut label: String = p.port_name.clone();
    match &p.port_type {
        SerialPortType::UsbPort(info) => {
            detail.append(info.describe().as_str());
            match &info.product {
                Some(product) => {
                    label.append(" — ");
                    label.append(product.as_str());
                },
                None => {
                    label.append(" — USB 串口");
                },
            }
        },
        _ => {
            detail.append(port_type.as_str());
            label.append(" (");
            label.append(port_type.as_str());
            label.append(")");
        },
    }
    detail.append("]");
    PortInfo { name: p.port_name, port_type, label, detail }
}

/// How a port is shown: under the system's name for it and the way it is attached. The label of
/// a USB port ends in the name of the product, if that is known, and that of any other port in
/// the way it is attached.
pub proof fn law_how_a_port_is_shown(p: SerialPortInfo)
    ensures
        p.shown().name == p.port_name@,
        match p.port_type {
            SerialPortType::UsbPort(info) => {
                &&& p.shown().port_type == "USB"@
                &&& p.shown().label == p.port_name@ + match info.product {
                    Some(product) => " — "@ + product@,
                    None => " — USB 串口"@,
                }
            },
            SerialPortType::PciPort => {
                &&& p.shown().port_type == "PCI"@
                &&& p.shown().label == p.port_name@ + " ("@ + "PCI"@ + ")"@
                &&& p.shown().detail == p.port_name@ + " ["@ + "PCI"@ + "]"@
            },
            SerialPortType::BluetoothPort => {
                &&& p.shown().port_type == "Bluetooth"@
                &&& p.shown().label == p.port_name@ + " ("@ + "Bluetooth"@ + ")"@
                &&& p.shown().detail == p.port_name@ + " ["@ + "Bluetooth"@ + "]"@
            },
            SerialPortType::Unknown => {
                &&& p.shown().port_type == "Unknown"@
                &&& p.shown().label == p.port_name@ + " ("@ + "Unknown"@ + ")"@
                &&& p.shown().detail == p.port_name@ + " ["@ + "Unknown"@ + "]"@
            },
        },
{
    if let SerialPortType::UsbPort(info) = p.port_type {
        if let Some(product) = info.product {
            assert(p.shown().label =~= p.port_name@ + (" — "@ + product@));
        }
    }
}

/// The words that are known of a USB device, in the order in which they are shown.
pub open spec fn known_words(info: UsbPortInfo) -> Seq<Seq<char>> {
    let maker = match info.manufacturer {
        Some(text) => seq![text@],
        None => Seq::empty(),
    };
    let product = match info.product {
        Some(text) => seq![text@],
        None => Seq::empty(),
    };
    let serial = match info.serial_number {
        Some(text) => seq!["SN:"@ + text@],
        None => Seq::empty(),
    };
    maker + product + seq!["VID:"@ + hex4(info.vid) + " PID:"@ + hex4(info.pid)] + serial
}

/// Words with a comma and a space between them.
pub open spec fn listed(words: Seq<Seq<char>>) -> Seq<char>
    decreases words.len(),
{
    if words.len() == 0 {
        Seq::empty()
    } else if words.len() == 1 {
        words[0]
    } else {
        listed(words.drop_last()) + ", "@ + words.last()
    }
}

/// The details of a USB port are all that is known of it, in brackets: maker, product, the two
/// numbers in hexadecimal and the serial number, with commas between them.
pub proof fn law_details_of_a_usb_port(p: SerialPortInfo, info: UsbPortInfo)
    requires
        p.port_type == SerialPortType::UsbPort(info),
    ensures
        p.shown().detail == p.port_name@ + " ["@ + listed(known_words(info)) + "]"@,
{
    let words = known_words(info);
    let ids = "VID:"@ + hex4(info.vid) + " PID:"@ + hex4(info.pid);
    reveal_strlit(", ");
    reveal_strlit(", SN:");
    reveal_strlit("SN:");
    reveal_with_fuel(listed, 5);
    assert(", SN:"@ =~= ", "@ + "SN:"@);
    let shorter = if info.serial_number is Some {
        words.drop_last()
    } else {
        words
    };
    let head = followed(info.manufacturer, ", "@) + followed(info.product, ", "@);
    match (info.manufacturer, info.product) {
        (Some(a), Some(b)) => {
            assert(shorter =~= seq![a@, b@, ids]);
            assert(shorter.drop_last() =~= seq![a@, b@]);
            assert(shorter.drop_last().drop_last() =~= seq![a@]);
            assert(listed(shorter) =~= head + ids);
        },
        (Some(a), None) => {
            assert(shorter =~= seq![a@, ids]);
            assert(shorter.drop_last() =~= seq![a@]);
            assert(listed(shorter) =~= head + ids);
        },
        (None, Some(b)) => {
            assert(shorter =~= seq![b@, ids]);
            assert(shorter.drop_last() =~= seq![b@]);
            assert(listed(shorter) =~= head + ids);
        },
        (None, None) => {
            assert(shorter =~= seq![ids]);
            assert(listed(shorter) =~= head + ids);
        },
    }
    assert(listed(words) =~= info.summary());
}

} // verus!
