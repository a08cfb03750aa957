//! What can be chosen in the workbench.
use vstd::prelude::*;

verus! {

/// How a device is reached.
#[derive(Debug, Clone, Copy, PartialEq, Eq, Structural)]
pub enum LinkMode {
    Demo,
    Serial,
    Tcp,
    Ble,
    WebSocket,
    Custom,
}

/// The number of a link mode.
pub open spec fn link_id(mode: LinkMode) -> int {
    match mode {
        LinkMode::Demo => 0,
        LinkMode::Serial => 1,
        LinkMode::Tcp => 2,
        LinkMode::Ble => 3,
        LinkMode::WebSocket => 4,
        LinkMode::Custom => 5,
    }
}

/// How a link mode is called.
pub open spec fn link_label(mode: LinkMode) -> Seq<char> {
    match mode {
        LinkMode::Demo => "Demo"@,
        LinkMode::Serial => "Serial"@,
        LinkMode::Tcp => "TCP"@,
        LinkMode::Ble => "BLE"@,
        LinkMode::WebSocket => "WebSocket"@,
        LinkMode::Custom => "Custom"@,
    }
}

impl LinkMode {
    /// All link modes, by number.
    pub fn all() -> (r: [LinkMode; 6])
        ensures
            forall|i: int| 0 <= i < 6 ==> link_id(#[trigger] r@[i]) == i,
    {
        [
            LinkMode::Demo,
            LinkMode::Serial,
            LinkMode::Tcp,
            LinkMode::Ble,
            LinkMode::WebSocket,
            LinkMode::Custom,
        ]
    }

    /// The number of the mode.
    pub fn id(self) -> (n: usize)
        ensures
            n == link_id(self),
    {
        match self {
            Self::Demo => 0,
            Self::Serial => 1,
            Self::Tcp => 2,
            Self::Ble => 3,
            Self::WebSocket => 4,
            Self::Custom => 5,
        }
    }

    /// The mode of a number.
    pub fn from_id(id: usize) -> (r: Option<Self>)
        ensures
            match r {
                Some(mode) => link_id(mode) == id,
                None => id >= 6,
            },
    {
        match id {
            0 => Some(Self::Demo),
            1 => Some(Self::Serial),
            2 => Some(Self::Tcp),
            3 => Some(Self::Ble),
            4 => Some(Self::WebSocket),
            5 => Some(Self::Custom),
            _ => None,
        }
    }

    /// How the mode is called.
    pub fn label(self) -> (s: &'static str)
        ensures
            s@ == link_label(self),
    {
        match self {
            Self::Demo => "Demo",
            Self::Serial => "Serial",
            Self::Tcp => "TCP",
            Self::Ble => "BLE",
            Self::WebSocket => "WebSocket",
            Self::Custom => "Custom",
        }
    }

    /// Whether a device can be reached this way.
    pub fn can_connect(self) -> (r: bool)
        ensures
            r == (self is Demo || self is Serial),
    {
        match self {
            Self::Demo | Self::Serial => true,
            _ => false,
        }
    }

    /// What is told of the mode.
    pub fn tooltip(self) -> (s: &'static str)
        ensures
            s@ == (match self {
                Self::Demo => "Run the built-in simulated report stream."@,
                Self::Serial => "Use an MCU over USB CDC or USB-UART with the rseq-link frame protocol."@,
                Self::Tcp => "Reserved for a future TCP byte-stream transport."@,
                Self::Ble => "Reserved for a future BLE transport."@,
                Self::WebSocket => "Reserved for a future WebSocket transport."@,
                Self::Custom => "Reserved for project-specific transports."@,
            }),
    {
        match self {
            Self::Demo => "Run the built-in simulated report stream.",
            Self::Serial => "Use an MCU over USB CDC or USB-UART with the rseq-link frame protocol.",
            Self::Tcp => "Reserved for a future TCP byte-stream transport.",
            Self::Ble => "Reserved for a future BLE transport.",
            Self::WebSocket => "Reserved for a future WebSocket transport.",
            Self::Custom => "Reserved for project-specific transports.",
        }
    }
}

/// A link mode is known by its number.
pub proof fn law_link_id(a: LinkMode, b: LinkMode)
    ensures
        0 <= link_id(a) < 6,
        link_id(a) == link_id(b) ==> a == b,
{
}

/// A panel of the workbench.
#[derive(Debug, Clone, Copy, PartialEq, Eq, Structural)]
pub enum PanelTab {
    Motion,
    Reports,
    Registers,
    Sequences,
    Logs,
}

/// The place of a panel.
pub open spec fn tab_index(tab: PanelTab) -> int {
    match tab {
        PanelTab::Motion => 0,
        PanelTab::Reports => 1,
        PanelTab::Registers => 2,
        PanelTab::Sequences => 3,
        PanelTab::Logs => 4,
    }
}

impl Default for PanelTab {
    fn default() -> (t: Self)
        ensures
            t == PanelTab::Motion,
    {
        PanelTab::Motion
    }
}

impl PanelTab {
    /// All panels, by place.
    pub fn all() -> (r: [PanelTab; 5])
        ensures
            forall|i: int| 0 <= i < 5 ==> tab_index(#[trigger] r@[i]) == i,
    {
        [
            PanelTab::Motion,
            PanelTab::Reports,
            PanelTab::Registers,
            PanelTab::Sequences,
            PanelTab::Logs,
        ]
    }

    /// How the panel is called.
    pub fn label(self) -> (s: &'static str)
        ensures
            s@ == (match self {
                Self::Motion => "Motion"@,
                Self::Reports => "Reports"@,
                Self::Registers => "Registers"@,
                Self::Sequences => "Sequences"@,
                Self::Logs => "Logs"@,
            }),
    {
        match self {
            Self::Motion => "Motion",
            Self::Reports => "Reports",
            Self::Registers => "Registers",
            Self::Sequences => "Sequences",
            Self::Logs => "Logs",
        }
    }

    /// The panel at a place, or the first.
    pub fn from_index(index: usize) -> (t: Self)
        ensures
            index < 5 ==> tab_index(t) == index,
            index >= 5 ==> t == PanelTab::Motion,
    {
        match index {
            1 => Self::Reports,
            2 => Self::Registers,
            3 => Self::Sequences,
            4 => Self::Logs,
            _ => Self::Motion,
        }
    }

    /// The place of the panel.
    pub fn index(self) -> (i: usize)
        ensures
            i == tab_index(self),
    {
        match self {
            Self::Motion => 0,
            Self::Reports => 1,
            Self::Registers => 2,
            Self::Sequences => 3,
            Self::Logs => 4,
        }
    }
}

/// A panel is known by its place.
pub proof fn law_tab_index(a: PanelTab, b: PanelTab)
    ensures
        0 <= tab_index(a) < 5,
        tab_index(a) == tab_index(b) ==> a == b,
{
}

/// How registers are shown.
#[derive(Debug, Clone, Copy, PartialEq, Eq, Structural)]
pub enum RegisterViewMode {
    Dump,
    RegisterMap,
}

impl Default for RegisterViewMode {
    fn default() -> (m: Self)
        ensures
            m == RegisterViewMode::Dump,
    {
        RegisterViewMode::Dump
    }
}

/// What can be done in a view of registers.
pub open spec fn register_hint(mode: RegisterViewMode) -> Seq<char> {
    match mode {
        RegisterViewMode::Dump => "hover for decoded fields; double click a cell to edit"@,
        RegisterViewMode::RegisterMap => "rows are YAML registers; active bit fields are highlighted"@,
    }
}

impl RegisterViewMode {
    /// How the view is called.
    pub fn label(self) -> (s: &'static str)
        ensures
            s@ == (match self {
                Self::Dump => "Matrix"@,
                Self::RegisterMap => "Register Map"@,
            }),
    {
        match self {
            Self::Dump => "Matrix",
            Self::RegisterMap => "Register Map",
        }
    }

    /// What can be done in the view.
    pub fn hint(self) -> (s: &'static str)
        ensures
            s@ == register_hint(self),
    {
        match self {
            Self::Dump => "hover for decoded fields; double click a cell to edit",
            Self::RegisterMap => "rows are YAML registers; active bit fields are highlighted",
        }
    }
}

/// How a sequence is shown.
#[derive(Debug, Clone, Copy, PartialEq, Eq, Structural)]
pub enum SequenceViewMode {
    Text,
    Blocks,
}

impl Default for SequenceViewMode {
    fn default() -> (m: Self)
        ensures
            m == SequenceViewMode::Text,
    {
        SequenceViewMode::Text
    }
}

impl SequenceViewMode {
    /// How the view is called.
    pub fn label(self) -> (s: &'static str)
        ensures
            s@ == (match self {
                Self::Text => "Text"@,
                Self::Blocks => "Blocks"@,
            }),
    {
        match self {
            Self::Text => "Text",
            Self::Blocks => "Blocks",
        }
    }
}

/// A series of motion samples.
#[derive(Debug, Clone, Copy, PartialEq, Eq, Structural)]
pub enum MotionSeries {
    Acc,
    Gyro,
}

/// How a series is called.
pub open spec fn series_label(series: MotionSeries) -> Seq<char> {
    match series {
        MotionSeries::Acc => "Accelerometer"@,
        MotionSeries::Gyro => "Gyroscope"@,
    }
}

impl MotionSeries {
    /// How the series is called.
    pub fn label(self) -> (s: &'static str)
        ensures
            s@ == series_label(self),
    {
        match self {
            Self::Acc => "Accelerometer",
            Self::Gyro => "Gyroscope",
        }
    }
}

/// The speeds of a serial line that are offered.
pub fn common_serial_bauds() -> (r: [u32; 10])
    ensures
        r@ == seq![
            9_600u32, 19_200, 38_400, 57_600, 115_200, 230_400, 460_800, 921_600, 1_000_000,
            2_000_000,
        ],
{
    let r: [u32; 10] = [
        9_600, 19_200, 38_400, 57_600, 115_200, 230_400, 460_800, 921_600, 1_000_000, 2_000_000,
    ];
    assert(r@ =~= seq![
        9_600u32, 19_200, 38_400, 57_600, 115_200, 230_400, 460_800, 921_600, 1_000_000, 2_000_000,
    ]);
    r
}

} // verus!
