//! Serial ports as they are offered for connection.
use crate::text;
use crate::text::{chars_of, push_hex};
use vstd::prelude::*;

verus! {

/// What the system says of the kind of a port.
#[derive(Debug, Clone, PartialEq, Eq)]
pub enum PortType {
    Usb(UsbPort),
    Bluetooth,
    Pci,
    Unknown,
}

/// What the system says of a port on USB.
#[derive(Debug, Clone, PartialEq, Eq)]
pub struct UsbPort {
    pub vid: u16,
    pub pid: u16,
    pub manufacturer: Option<String>,
    pub product: Option<String>,
    pub serial_number: Option<String>,
}

/// A serial port that a connection could use.
#[derive(Debug, Clone, PartialEq, Eq)]
pub struct SerialPort {
    pub port_name: String,
    pub port_type: String,
    pub manufacturer: Option<String>,
    pub product: Option<String>,
    pub serial_number: Option<String>,
    pub vid: Option<u16>,
    pub pid: Option<u16>,
}

/// A serial port as it is offered.
#[derive(Debug, Clone, PartialEq, Eq)]
pub struct SerialPortInfo {
    pub port_name: String,
    pub label: String,
    pub detail: String,
}

/// How a kind of port is called.
pub open spec fn type_label(t: PortType) -> Seq<char> {
    match t {
        PortType::Usb(_) => "USB"@,
        PortType::Bluetooth => "Bluetooth"@,
        PortType::Pci => "PCI"@,
        PortType::Unknown => "Serial"@,
    }
}

/// How a kind of port is called.
pub fn serial_port_type_label(t: &PortType) -> (s: &'static str)
    ensures
        s@ == type_label(*t),
{
    match t {
        PortType::Usb(_) => "USB",
        PortType::Bluetooth => "Bluetooth",
        PortType::Pci => "PCI",
        PortType::Unknown => "Serial",
    }
}

/// A port of the given name and kind. Only a port on USB has more to say.
pub fn serial_port_info(port_name: String, port_type: PortType) -> (p: SerialPort)
    ensures
        p.port_name == port_name,
        p.port_type@ == type_label(port_type),
        match port_type {
            PortType::Usb(usb) => {
                &&& p.manufacturer == usb.manufacturer
                &&& p.product == usb.product
                &&& p.serial_number == usb.serial_number
                &&& p.vid == Some(usb.vid)
                &&& p.pid == Some(usb.pid)
            },
            _ => {
                &&& p.manufacturer is None
                &&& p.product is None
                &&& p.serial_number is None
                &&& p.vid is None
                &&& p.pid is None
            },
        },
{
    let label: String = serial_port_type_label(&port_type).to_owned();
    match port_type {
        PortType::Usb(usb) => SerialPort {
            port_name,
            port_type: label,
            manufacturer: usb.manufacturer,
            product: usb.product,
            serial_number: usb.serial_number,
            vid: Some(usb.vid),
            pid: Some(usb.pid),
        },
        _ => SerialPort {
            port_name,
            port_type: label,
            manufacturer: None,
            product: None,
            serial_number: None,
            vid: None,
            pid: None,
        },
    }
}

/// Whether there is text.
pub open spec fn given(s: Option<String>) -> bool {
    s is Some && s->Some_0@.len() > 0
}

fn is_given(s: &Option<String>) -> (r: bool)
    ensures
        r == given(*s),
{
    match s {
        Some(t) => chars_of(t.as_str()).len() > 0,
        None => false,
    }
}

/// How a port is called: by its file name where it has one, and by its product.
pub open spec fn port_label(p: SerialPort, file_name: Option<Seq<char>>) -> Seq<char> {
    let name = match file_name {
        Some(n) => n,
        None => p.port_name@,
    };
    if given(p.product) {
        name + " - "@ + p.product->Some_0@
    } else {
        name
    }
}

/// How a port is called.
pub fn serial_port_label(port: &SerialPort, file_name: Option<&str>) -> (s: String)
    ensures
        s@ == port_label(
            *port,
            match file_name {
                Some(n) => Some(n@),
                None => None,
            },
        ),
{
    let mut s: String = match file_name {
        Some(n) => n.to_owned(),
        None => port.port_name.clone(),
    };
    if is_given(&port.product) {
        match &port.product {
            Some(p) => {
                s.push_str(" - ");
                s.push_str(p.as_str());
            },
            None => {},
        }
    }
    s
}

/// What is said of a port, part by part.
pub open spec fn port_parts(p: SerialPort) -> Seq<Seq<char>> {
    let a = seq![p.port_type@];
    let b = if p.vid is Some && p.pid is Some {
        a.push(text::hex(p.vid->Some_0 as nat, 4) + ":"@ + text::hex(p.pid->Some_0 as nat, 4))
    } else {
        a
    };
    let c = if given(p.manufacturer) {
        b.push(p.manufacturer->Some_0@)
    } else {
        b
    };
    if given(p.serial_number) {
        c.push("sn="@ + p.serial_number->Some_0@)
    } else {
        c
    }
}

fn push_part(parts: &mut Vec<String>, part: String)
    ensures
        text::texts(final(parts)@) == text::texts(old(parts)@).push(part@),
{
    parts.push(part);
    assert(text::texts(parts@) =~= text::texts(old(parts)@).push(part@));
}

/// What is said of a port.
pub fn serial_port_detail(port: &SerialPort) -> (s: String)
    ensures
        s@ == text::joined(port_parts(*port), " "@),
{
    let mut parts: Vec<String> = Vec::new();
    parts.push(port.port_type.clone());
    assert(text::texts(parts@) =~= seq![port.port_type@]);
    match (port.vid, port.pid) {
        (Some(vid), Some(pid)) => {
            let mut id: String = String::new();
            push_hex(&mut id, vid as u128, 4);
            id.push_str(":");
            push_hex(&mut id, pid as u128, 4);
            assert(id@ =~= text::hex(vid as nat, 4) + ":"@ + text::hex(pid as nat, 4));
            push_part(&mut parts, id);
        },
        _ => {},
    }
    if is_given(&port.manufacturer) {
        match &port.manufacturer {
            Some(m) => {
                push_part(&mut parts, m.clone());
            },
            None => {},
        }
    }
    if is_given(&port.serial_number) {
        match &port.serial_number {
            Some(n) => {
                let mut part: String = "sn=".to_owned();
                part.push_str(n.as_str());
                push_part(&mut parts, part);
            },
            None => {},
        }
    }
    text::join(&parts, " ")
}

/// A port as it is offered.
pub fn offered_port(port: SerialPort, file_name: Option<&str>) -> (p: SerialPortInfo)
    ensures
        p.port_name == port.port_name,
        p.label@ == port_label(
            port,
            match file_name {
                Some(n) => Some(n@),
                None => None,
            },
        ),
        p.detail@ == text::joined(port_parts(port), " "@),
{
    let label = serial_port_label(&port, file_name);
    let detail = serial_port_detail(&port);
    SerialPortInfo { port_name: port.port_name, label, detail }
}

/// A port as a menu shows it.
pub open spec fn menu_label(port: SerialPortInfo) -> Seq<char> {
    if port.detail@.len() == 0 {
        port.label@
    } else {
        port.label@ + " ("@ + port.detail@ + ")"@
    }
}

/// A port as a menu shows it.
pub fn serial_port_menu_label(port: &SerialPortInfo) -> (s: String)
    ensures
        s@ == menu_label(*port),
{
    let mut s: String = port.label.clone();
    if chars_of(port.detail.as_str()).len() == 0 {
        return s;
    }
    s.push_str(" (");
    s.push_str(port.detail.as_str());
    s.push_str(")");
    s
}

} // verus!
