//! Reaching a device: which link is chosen, and what it takes.
use crate::health::ReportHealth;
use crate::modes;
use crate::modes::{common_serial_bauds, LinkMode};
use crate::numbers;
use crate::numbers::parse_serial_baud;
use crate::ports;
use crate::ports::{serial_port_menu_label, SerialPortInfo};
use crate::session::two;
use crate::text;
use crate::text::{chars_of, dec_text, join, parse_number, push_dec, push_dec_int, same_text, trim};
use crate::text::trim_text;
use vstd::prelude::*;

verus! {

/// How a device is to be reached.
#[derive(Debug, Clone, PartialEq, Eq)]
pub struct LinkOptions {
    pub demo: bool,
    pub serial: Option<String>,
    pub baud: u32,
    pub watch: bool,
}

/// What is typed and what was found, once a serial link is to be used.
pub open spec fn serial_choice(typed: Seq<char>, found: Seq<Seq<char>>, baud: Seq<char>) -> Result<
    (Seq<char>, nat),
    Seq<char>,
> {
    let port = text::trimmed(typed);
    if port.len() == 0 && found.len() == 0 {
        Err("no serial ports found"@)
    } else if port.len() == 0 && found.len() > 1 {
        Err("select a serial port first: "@ + text::joined(found, ", "@))
    } else {
        match numbers::serial_baud(baud) {
            Ok(n) => Ok(
                (
                    if port.len() == 0 {
                        found[0]
                    } else {
                        port
                    },
                    n,
                ),
            ),
            Err(e) => Err(e),
        }
    }
}

/// The port and the speed of a serial link, or why there are none. A port that is not typed is
/// taken from those found, where there is only one.
pub fn resolve_serial_config(typed: &str, found: &[String], baud: &str) -> (r: Result<
    (String, u32),
    String,
>)
    ensures
        (match r {
            Ok((p, n)) => Ok((p@, n as nat)),
            Err(e) => Err(e@),
        }) == serial_choice(typed@, text::texts(found@), baud@),
{
    let mut port: String = trim_text(typed);
    if chars_of(port.as_str()).len() == 0 {
        if found.len() == 0 {
            return Err("no serial ports found".to_owned());
        }
        if found.len() > 1 {
            return Err(two("select a serial port first: ", join(found, ", ").as_str()));
        }
        assert(text::texts(found@)[0] == found@[0]@);
        port = found[0].clone();
    }
    match parse_serial_baud(baud) {
        Ok(n) => Ok((port, n)),
        Err(e) => Err(e),
    }
}

/// Takes over the link that is chosen, or tells why it cannot be used.
pub fn prepare_connection_config(
    options: &mut LinkOptions,
    mode: LinkMode,
    typed: &str,
    found: &[String],
    baud: &str,
) -> (r: Result<(), String>)
    ensures
        final(options).watch == old(options).watch,
        match mode {
            LinkMode::Demo => {
                &&& r is Ok
                &&& final(options).demo
                &&& final(options).serial is None
                &&& final(options).baud == old(options).baud
            },
            LinkMode::Serial => match serial_choice(typed@, text::texts(found@), baud@) {
                Ok((port, n)) => {
                    &&& r is Ok
                    &&& !final(options).demo
                    &&& final(options).serial matches Some(s) && s@ == port
                    &&& final(options).baud == n
                },
                Err(e) => {
                    &&& r matches Err(s) && s@ == e
                    &&& *final(options) == *old(options)
                },
            },
            other => {
                &&& r matches Err(s) && s@ == modes::link_label(other)
                    + " transport is not implemented yet"@
                &&& *final(options) == *old(options)
            },
        },
{
    match mode {
        LinkMode::Demo => {
            options.demo = true;
            options.serial = None;
            Ok(())
        },
        LinkMode::Serial => match resolve_serial_config(typed, found, baud) {
            Ok((port, n)) => {
                options.demo = false;
                options.serial = Some(port);
                options.baud = n;
                Ok(())
            },
            Err(e) => Err(e),
        },
        other => Err(two(other.label(), " transport is not implemented yet")),
    }
}

/// The link that is chosen at the start.
pub fn initial_link_mode(demo: bool) -> (mode: LinkMode)
    ensures
        mode == (if demo {
            LinkMode::Demo
        } else {
            LinkMode::Serial
        }),
{
    if demo {
        LinkMode::Demo
    } else {
        LinkMode::Serial
    }
}

/// Whether a session starts at once: where none is needed but a pretended device, or a port was
/// given.
pub fn starts_at_once(options: &LinkOptions) -> (r: bool)
    ensures
        r == (options.demo || options.serial is Some),
{
    options.demo || options.serial.is_some()
}

/// The port that is typed at the start: the one given, or the only one found.
pub fn initial_serial_port(given: Option<&str>, found: &[String]) -> (s: String)
    ensures
        s@ == (match given {
            Some(g) => if g@.len() == 0 && found@.len() == 1 {
                found@[0]@
            } else {
                g@
            },
            None => if found@.len() == 1 {
                found@[0]@
            } else {
                Seq::empty()
            },
        }),
{
    let value: String = match given {
        Some(g) => g.to_owned(),
        None => String::new(),
    };
    if chars_of(value.as_str()).len() == 0 && found.len() == 1 {
        return found[0].clone();
    }
    assert(given is None ==> value@ =~= Seq::<char>::empty());
    value
}

/// What comes of looking for ports: a port to be typed, where none is and only one was found, and
/// what is told.
pub struct PortScan {
    pub fill: Option<String>,
    pub message: String,
}

/// What comes of looking for ports.
pub fn refresh_serial_ports(found: &[String], typed: &str) -> (r: PortScan)
    ensures
        match r.fill {
            Some(p) => found@.len() == 1 && text::trimmed(typed@).len() == 0 && p@ == found@[0]@,
            None => found@.len() != 1 || text::trimmed(typed@).len() > 0,
        },
        r.message@ == (if found@.len() == 0 {
            "no serial ports found"@
        } else if found@.len() == 1 {
            "found 1 serial port: "@ + found@[0]@
        } else {
            "found "@ + text::dec(found@.len()) + " serial ports; choose one from Ports"@
        }),
{
    if found.len() == 0 {
        return PortScan { fill: None, message: "no serial ports found".to_owned() };
    }
    if found.len() == 1 {
        let chars = chars_of(typed);
        let fill: Option<String> = if trim(&chars).len() == 0 {
            Some(found[0].clone())
        } else {
            None
        };
        return PortScan { fill, message: two("found 1 serial port: ", found[0].as_str()) };
    }
    let mut s: String = "found ".to_owned();
    push_dec(&mut s, found.len() as u128);
    s.push_str(" serial ports; choose one from Ports");
    PortScan { fill: None, message: s }
}

/// What comes of choosing a link.
pub enum LinkChange {
    /// It is not taken over.
    Refused(String),
    /// It is taken over, and ports are to be looked for.
    Scan,
    /// It is taken over.
    Selected(String),
}

/// What comes of choosing a link, with or without a session.
pub fn choose_link_mode(in_session: bool, mode: LinkMode) -> (r: LinkChange)
    ensures
        match r {
            LinkChange::Refused(s) => in_session && s@ == "disconnect before changing link mode"@,
            LinkChange::Scan => !in_session && mode is Serial,
            LinkChange::Selected(s) => !in_session && !(mode is Serial) && s@ == "selected "@
                + modes::link_label(mode) + " link"@,
        },
{
    if in_session {
        return LinkChange::Refused("disconnect before changing link mode".to_owned());
    }
    match mode {
        LinkMode::Serial => LinkChange::Scan,
        _ => {
            let mut s: String = two("selected ", mode.label());
            s.push_str(" link");
            LinkChange::Selected(s)
        },
    }
}

/// What is told once a port was chosen, where it has a name.
pub fn select_serial_port(port: &str) -> (r: Option<String>)
    ensures
        match r {
            Some(s) => port@.len() > 0 && s@ == "selected serial port "@ + port@,
            None => port@.len() == 0,
        },
{
    if chars_of(port).len() == 0 {
        None
    } else {
        Some(two("selected serial port ", port))
    }
}

/// What is told once a speed was chosen.
pub fn select_serial_baud(baud: u32) -> (s: String)
    ensures
        s@ == "selected serial baud "@ + text::dec(baud as nat),
{
    let mut s: String = "selected serial baud ".to_owned();
    push_dec(&mut s, baud as u128);
    s
}

/// How the list of ports is called.
pub fn ports_label(count: usize) -> (s: String)
    ensures
        s@ == (if count == 0 {
            "Ports"@
        } else {
            "Ports ("@ + text::dec(count as nat) + ")"@
        }),
{
    if count == 0 {
        return "Ports".to_owned();
    }
    let mut s: String = "Ports (".to_owned();
    push_dec(&mut s, count as u128);
    s.push_str(")");
    s
}

/// An entry of a menu.
#[derive(Debug, Clone, PartialEq, Eq)]
pub struct MenuEntry {
    pub label: String,
    pub checked: bool,
}

/// The entries of the list of ports. The one that is typed is checked.
pub fn port_menu(found: &[SerialPortInfo], typed: &str) -> (menu: Vec<MenuEntry>)
    ensures
        menu@.len() == found@.len(),
        forall|i: int|
            0 <= i < found@.len() ==> (#[trigger] menu@[i]).label@ == ports::menu_label(found@[i])
                && menu@[i].checked == (typed@ == found@[i].port_name@),
{
    let mut menu: Vec<MenuEntry> = Vec::new();
    let mut i: usize = 0;
    while i < found.len()
        invariant
            i <= found.len(),
            menu@.len() == i,
            forall|k: int|
                0 <= k < i ==> (#[trigger] menu@[k]).label@ == ports::menu_label(found@[k])
                    && menu@[k].checked == (typed@ == found@[k].port_name@),
        decreases found.len() - i,
    {
        menu.push(
            MenuEntry {
                label: serial_port_menu_label(&found[i]),
                checked: same_text(typed, found[i].port_name.as_str()),
            },
        );
        i += 1;
    }
    menu
}

/// The entries of the list of speeds. The one that is typed is checked.
pub fn baud_menu(typed: &str) -> (menu: Vec<MenuEntry>)
    ensures
        menu@.len() == 10,
        ({
            let bauds = seq![
                9_600u32, 19_200, 38_400, 57_600, 115_200, 230_400, 460_800, 921_600, 1_000_000,
                2_000_000,
            ];
            forall|i: int|
                0 <= i < 10 ==> (#[trigger] menu@[i]).label@ == text::dec(bauds[i] as nat)
                    && menu@[i].checked == (text::bounded_value(
                    text::trimmed(typed@),
                    10,
                    u32::MAX as nat,
                ) == Some(bauds[i] as nat))
        }),
{
    let bauds = common_serial_bauds();
    let chars = chars_of(typed);
    let chosen: Option<u64> = parse_number(trim(&chars), 10, u32::MAX as u64);
    let ghost value = text::bounded_value(text::trimmed(typed@), 10, u32::MAX as nat);
    let mut menu: Vec<MenuEntry> = Vec::new();
    let mut i: usize = 0;
    while i < 10
        invariant
            i <= 10,
            menu@.len() == i,
            value == (match chosen {
                Some(n) => Some(n as nat),
                None => None,
            }),
            forall|k: int|
                0 <= k < i ==> (#[trigger] menu@[k]).label@ == text::dec(bauds@[k] as nat)
                    && menu@[k].checked == (value == Some(bauds@[k] as nat)),
        decreases 10 - i,
    {
        let baud: u32 = bauds[i];
        let checked: bool = match chosen {
            Some(n) => n == baud as u64,
            None => false,
        };
        menu.push(MenuEntry { label: dec_text(baud as u128), checked });
        i += 1;
    }
    menu
}

/// What stands in place of an end point, where none is typed.
pub fn endpoint_text(mode: LinkMode) -> (r: Option<String>)
    ensures
        match mode {
            LinkMode::Demo => r matches Some(s) && s@ == "No endpoint required"@,
            LinkMode::Serial => r is None,
            other => r matches Some(s) && s@ == modes::link_label(other)
                + " transport is a reserved slot"@,
        },
{
    match mode {
        LinkMode::Demo => Some("No endpoint required".to_owned()),
        LinkMode::Serial => None,
        other => Some(two(other.label(), " transport is a reserved slot")),
    }
}

/// The time between the last two reports.
pub open spec fn dt_text(dt: Option<i64>) -> Seq<char> {
    match dt {
        Some(dt) => text::dec_int(dt as int) + "us"@,
        None => "-"@,
    }
}

/// What is told of the reports so far.
pub fn stream_summary(h: &ReportHealth) -> (s: String)
    ensures
        s@ == "reports="@ + text::dec(h.total_reports as nat) + " dropped="@ + text::dec(
            h.dropped_frames as nat,
        ) + " dt="@ + dt_text(h.last_dt_us),
{
    let mut s: String = "reports=".to_owned();
    push_dec(&mut s, h.total_reports as u128);
    s.push_str(" dropped=");
    push_dec(&mut s, h.dropped_frames as u128);
    s.push_str(" dt=");
    let ghost before = s@;
    match h.last_dt_us {
        Some(dt) => {
            push_dec_int(&mut s, dt);
            s.push_str("us");
            assert(s@ =~= before + (text::dec_int(dt as int) + "us"@));
        },
        None => {
            s.push_str("-");
        },
    }
    s
}

/// Which buttons of the connection bar can be pressed.
#[derive(Debug, Clone, Copy, PartialEq, Eq, Structural)]
pub struct ConnectionBar {
    pub connect: bool,
    pub load_run: bool,
    pub watch: bool,
    /// Ping, stop and reset.
    pub commands: bool,
    pub disconnect: bool,
    /// The link and its end point.
    pub link: bool,
}

/// Which buttons of the connection bar can be pressed.
pub fn connection_bar(mode: LinkMode, has_source: bool, connected: bool, in_session: bool) -> (b:
    ConnectionBar)
    ensures
        ({
            let usable = mode is Demo || mode is Serial;
            b == ConnectionBar {
                connect: usable,
                load_run: usable && has_source,
                watch: usable,
                commands: connected,
                disconnect: in_session,
                link: !in_session,
            }
        }),
{
    let usable: bool = mode.can_connect();
    ConnectionBar {
        connect: usable,
        load_run: usable && has_source,
        watch: usable,
        commands: connected,
        disconnect: in_session,
        link: !in_session,
    }
}

} // verus!
