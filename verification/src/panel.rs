//! The register panel: what was read and written of the registers of a page, and what is asked
//! of the device from there.
use crate::catalog;
use crate::catalog::{largest_of, AccessKind, RegisterCatalog, RegisterInfo};
use crate::catalog::{RegisterReadTarget, RegisterWriteTarget};
use crate::catalog::{ReadTargetView, RegView, WriteTargetView};
use crate::input;
use crate::input::parse_register_write_bytes;
use crate::report;
use crate::report::hex_bytes;
use crate::session::SessionCommand;
use crate::text;
use crate::text::{has_text, push_dec};
use std::collections::BTreeMap;
use vstd::prelude::*;

verus! {

/// What is known of the byte, or bytes, at an address, and from what.
#[derive(Debug, Clone, PartialEq, Eq)]
pub struct RegisterValue {
    pub access: AccessKind,
    pub data: Vec<u8>,
}

impl RegisterValue {
    pub open spec fn view(self) -> (AccessKind, Seq<u8>) {
        (self.access, self.data@)
    }
}

/// What is asked of a session, as a mathematical value.
pub enum CommandView {
    Ping,
    StopReports,
    ResetMcu,
    ReadRegister(u32, u16, Seq<char>),
    WriteRegister(u32, Seq<u8>, Seq<char>),
    Shutdown,
}

impl SessionCommand {
    pub open spec fn view(self) -> CommandView {
        match self {
            Self::Ping => CommandView::Ping,
            Self::StopReports => CommandView::StopReports,
            Self::ResetMcu => CommandView::ResetMcu,
            Self::ReadRegister { addr, len, label } => CommandView::ReadRegister(addr, len, label@),
            Self::WriteRegister { addr, data, label } => CommandView::WriteRegister(
                addr,
                data@,
                label@,
            ),
            Self::Shutdown => CommandView::Shutdown,
        }
    }
}

/// A command, or why there is none.
pub open spec fn command_result(r: Result<SessionCommand, String>) -> Result<
    CommandView,
    Seq<char>,
> {
    match r {
        Ok(c) => Ok(c.view()),
        Err(e) => Err(e@),
    }
}

// ---- registers of a page

/// The registers that take the byte at an address, of a page where one is given.
pub open spec fn chosen(regs: Seq<RegView>, page: Option<Seq<char>>, addr: u32) -> Seq<RegView> {
    match page {
        Some(p) => regs.filter(catalog::at_page_addr(p, addr)),
        None => regs.filter(catalog::at_addr(addr)),
    }
}

/// The registers of a page, or all where none is given.
pub open spec fn page_regs(regs: Seq<RegView>, page: Option<Seq<char>>) -> Seq<RegView> {
    match page {
        Some(p) => regs.filter(catalog::of_page(p)),
        None => regs,
    }
}

/// Whether the byte at an address must not be dumped.
pub open spec fn undumpable(c: RegisterCatalog, page: Option<Seq<char>>, addr: u32) -> bool {
    match page {
        Some(p) => catalog::first_where(chosen(c.regs(), page, addr), catalog::undumpable_reg()) is Some,
        None => c.marks().contains_key(addr) && !c.marks()[addr],
    }
}

/// How an address is called where no register is there.
pub open spec fn address_label(page: Option<Seq<char>>, addr: u32) -> Seq<char> {
    match page {
        Some(p) => catalog::page_addr_text(p, addr),
        None => catalog::addr_text(addr),
    }
}

/// What to read when an address is selected, or why nothing is read.
pub open spec fn read_target(c: RegisterCatalog, page: Option<Seq<char>>, addr: u32) -> Result<
    ReadTargetView,
    Seq<char>,
> {
    if undumpable(c, page, addr) {
        Err(address_label(page, addr) + " is marked no_dump; read skipped"@)
    } else {
        catalog::read_selection(chosen(c.regs(), page, addr), addr, address_label(page, addr))
    }
}

/// What to write when an address is selected, or why nothing is written.
pub open spec fn write_target(c: RegisterCatalog, page: Option<Seq<char>>, addr: u32) -> Result<
    WriteTargetView,
    Seq<char>,
> {
    catalog::write_selection(chosen(c.regs(), page, addr), addr, address_label(page, addr))
}

/// The page that is shown once the pages are `pages`: the one shown so far if it is still there,
/// else the first.
pub open spec fn kept_page(page: Option<Seq<char>>, pages: Seq<Seq<char>>) -> Option<Seq<char>> {
    if pages.len() == 0 {
        None
    } else if page is Some && pages.contains(page->0) {
        page
    } else {
        Some(pages[0])
    }
}

/// Copies of registers.
pub fn copy_registers(regs: &[&RegisterInfo]) -> (c: Vec<RegisterInfo>)
    ensures
        catalog::regs_view(c@) == catalog::refs_view(regs@),
{
    let mut c: Vec<RegisterInfo> = Vec::new();
    let mut i: usize = 0;
    while i < regs.len()
        invariant
            i <= regs.len(),
            c@.len() == i,
            forall|k: int| 0 <= k < i ==> (#[trigger] c@[k]).view() == regs@[k].view(),
        decreases regs.len() - i,
    {
        c.push(regs[i].copy());
        i += 1;
    }
    assert(catalog::regs_view(c@) =~= catalog::refs_view(regs@));
    c
}

// ---- values

/// Whether what is recorded at `addr` is entered at `a`: the first byte always, the others
/// where they may be dumped.
pub open spec fn enters(addr: u32, len: nat, hidden: spec_fn(u32) -> bool, a: u32) -> bool {
    if a == addr {
        len > 0 || hidden(addr)
    } else {
        addr < a < addr + len && !hidden(a)
    }
}

/// The values once bytes were read or written at `addr`. They are entered one by one; where the
/// first may not be dumped, all of them are entered there.
pub open spec fn recorded(
    values: Map<u32, (AccessKind, Seq<u8>)>,
    addr: u32,
    access: AccessKind,
    data: Seq<u8>,
    hidden: spec_fn(u32) -> bool,
) -> Map<u32, (AccessKind, Seq<u8>)> {
    Map::new(
        |a: u32| values.contains_key(a) || enters(addr, data.len(), hidden, a),
        |a: u32|
            if !enters(addr, data.len(), hidden, a) {
                values[a]
            } else if a == addr && hidden(addr) {
                (access, data)
            } else {
                (access, seq![data[a - addr]])
            },
    )
}

/// The first bytes of what is known at `width` addresses from `addr` on, where something is.
pub open spec fn gathered(values: Map<u32, (AccessKind, Seq<u8>)>, addr: u32, width: nat) -> Seq<u8>
    decreases width,
{
    if width == 0 {
        Seq::empty()
    } else {
        let a = (addr + width - 1) as u32;
        let rest = gathered(values, addr, (width - 1) as nat);
        if values.contains_key(a) && values[a].1.len() > 0 {
            rest.push(values[a].1[0])
        } else {
            rest
        }
    }
}

/// Whether enough is entered at one address.
pub open spec fn has_all(values: Map<u32, (AccessKind, Seq<u8>)>, addr: u32, width: nat) -> bool {
    values.contains_key(addr) && values[addr].1.len() >= width
}

/// What is known of `width` bytes from `addr` on.
pub open spec fn bytes_at(values: Map<u32, (AccessKind, Seq<u8>)>, addr: u32, width: nat) -> Seq<u8> {
    if has_all(values, addr, width) {
        values[addr].1.take(width as int)
    } else {
        gathered(values, addr, width)
    }
}

proof fn lemma_gathered_recorded(
    values: Map<u32, (AccessKind, Seq<u8>)>,
    addr: u32,
    access: AccessKind,
    data: Seq<u8>,
    hidden: spec_fn(u32) -> bool,
    n: nat,
)
    requires
        n <= data.len(),
        addr + data.len() <= 0x1_0000_0000,
        forall|a: u32| addr <= a < addr + data.len() ==> !#[trigger] hidden(a),
    ensures
        gathered(recorded(values, addr, access, data, hidden), addr, n) == data.take(n as int),
    decreases n,
{
    let after = recorded(values, addr, access, data, hidden);
    if n > 0 {
        lemma_gathered_recorded(values, addr, access, data, hidden, (n - 1) as nat);
        let a = (addr + n - 1) as u32;
        assert(!hidden(a));
        assert(!hidden(addr));
        assert(enters(addr, data.len(), hidden, a));
        assert(after[a] == (access, seq![data[n - 1]]));
        assert(data.take(n as int) =~= data.take(n - 1).push(data[n - 1]));
    } else {
        assert(data.take(0) =~= Seq::empty());
    }
}

/// Bytes that may be dumped are known once they were read or written.
pub proof fn law_recorded_bytes(
    values: Map<u32, (AccessKind, Seq<u8>)>,
    addr: u32,
    access: AccessKind,
    data: Seq<u8>,
    hidden: spec_fn(u32) -> bool,
    n: nat,
)
    requires
        1 <= n <= data.len(),
        addr + data.len() <= 0x1_0000_0000,
        forall|a: u32| addr <= a < addr + data.len() ==> !#[trigger] hidden(a),
    ensures
        bytes_at(recorded(values, addr, access, data, hidden), addr, n) == data.take(n as int),
{
    let after = recorded(values, addr, access, data, hidden);
    lemma_gathered_recorded(values, addr, access, data, hidden, n);
    assert(!hidden(addr));
    assert(enters(addr, data.len(), hidden, addr));
    assert(after[addr] == (access, seq![data[0]]));
    if has_all(after, addr, n) {
        assert(after[addr].1.take(n as int) =~= data.take(n as int));
    }
}

/// Bytes that start where nothing may be dumped are known all the same once they were read or
/// written.
pub proof fn law_recorded_hidden_bytes(
    values: Map<u32, (AccessKind, Seq<u8>)>,
    addr: u32,
    access: AccessKind,
    data: Seq<u8>,
    hidden: spec_fn(u32) -> bool,
    n: nat,
)
    requires
        n <= data.len(),
        hidden(addr),
    ensures
        bytes_at(recorded(values, addr, access, data, hidden), addr, n) == data.take(n as int),
{
}

/// What was recorded leaves other addresses as they were.
pub proof fn law_recorded_elsewhere(
    values: Map<u32, (AccessKind, Seq<u8>)>,
    addr: u32,
    access: AccessKind,
    data: Seq<u8>,
    hidden: spec_fn(u32) -> bool,
    a: u32,
)
    requires
        a < addr || a >= addr + data.len(),
        a != addr,
    ensures
        recorded(values, addr, access, data, hidden).contains_key(a) == values.contains_key(a),
        values.contains_key(a) ==> recorded(values, addr, access, data, hidden)[a] == values[a],
{
}

// ---- the panel

/// The register panel.
#[derive(Debug, Clone)]
pub struct RegisterPanel {
    pub catalog: RegisterCatalog,
    /// The page that is shown.
    pub page: Option<String>,
    /// The address that is selected.
    pub selected: u32,
    /// The address that is written in place.
    pub inline_write: Option<u32>,
    /// What is known, by address.
    pub values: BTreeMap<u32, RegisterValue>,
}

impl RegisterPanel {
    /// What is known, by address.
    pub open spec fn values(&self) -> Map<u32, (AccessKind, Seq<u8>)> {
        self.values@.map_values(|v: RegisterValue| v.view())
    }

    /// The page that is shown.
    pub open spec fn page_view(&self) -> Option<Seq<char>> {
        catalog::opt_text(self.page)
    }

    /// Which addresses may not be dumped.
    pub open spec fn hidden(&self) -> spec_fn(u32) -> bool {
        |a: u32| undumpable(self.catalog, self.page_view(), a)
    }

    /// Whether the registers of the page can be compared with an address.
    pub open spec fn reaches(&self, addr: u32) -> bool {
        self.catalog.all_reachable(self.page_view(), addr)
    }

    /// A panel that knows nothing yet.
    pub fn new(catalog: RegisterCatalog) -> (p: Self)
        ensures
            p.catalog == catalog,
            p.values() == Map::<u32, (AccessKind, Seq<u8>)>::empty(),
            p.page_view() == kept_page(None, catalog::pages_of(catalog.regs())),
            p.selected == 0,
            p.inline_write is None,
    {
        let mut p = RegisterPanel {
            catalog,
            page: None,
            selected: 0,
            inline_write: None,
            values: BTreeMap::new(),
        };
        p.sync_active_register_page();
        assert(p.values() =~= Map::<u32, (AccessKind, Seq<u8>)>::empty());
        p
    }

    /// Takes over another catalog. What was known of registers is forgotten.
    pub fn set_catalog(&mut self, catalog: RegisterCatalog)
        ensures
            final(self).catalog == catalog,
            final(self).values() == Map::<u32, (AccessKind, Seq<u8>)>::empty(),
            final(self).page_view() == kept_page(
                old(self).page_view(),
                catalog::pages_of(catalog.regs()),
            ),
            final(self).selected == old(self).selected,
            final(self).inline_write == old(self).inline_write,
    {
        self.catalog = catalog;
        self.values.clear();
        self.sync_active_register_page();
        assert(self.values() =~= Map::<u32, (AccessKind, Seq<u8>)>::empty());
    }

    /// Shows the page shown so far if it is still there, else the first.
    pub fn sync_active_register_page(&mut self)
        ensures
            final(self).page_view() == kept_page(
                old(self).page_view(),
                catalog::pages_of(old(self).catalog.regs()),
            ),
            final(self).catalog == old(self).catalog,
            final(self).values() == old(self).values(),
            final(self).selected == old(self).selected,
            final(self).inline_write == old(self).inline_write,
    {
        let pages = self.catalog.pages();
        if pages.len() == 0 {
            self.page = None;
            return;
        }
        let kept: bool = match &self.page {
            Some(p) => has_text(&pages, p.as_str()),
            None => false,
        };
        if !kept {
            assert(text::texts(pages@)[0] == pages@[0]@);
            self.page = Some(pages[0].clone());
        }
    }

    /// Shows a page.
    pub fn set_active_register_page(&mut self, page: String)
        ensures
            final(self).page_view() == Some(page@),
            final(self).inline_write is None,
            final(self).catalog == old(self).catalog,
            final(self).values() == old(self).values(),
            final(self).selected == old(self).selected,
    {
        self.page = Some(page);
        self.inline_write = None;
    }

    /// Whether the value at an address is being edited in its place, in the grid of addresses and
    /// in the list of registers.
    pub fn is_edited(&self, addr: u32) -> (r: bool)
        ensures
            r == (self.inline_write == Some(addr)),
    {
        match self.inline_write {
            Some(a) => a == addr,
            None => false,
        }
    }

    /// How many addresses are known.
    pub fn known(&self) -> (n: usize)
        ensures
            n == self.values().len(),
    {
        assert(self.values().dom() =~= self.values@.dom());
        self.values.len()
    }

    /// What is known at an address.
    pub fn value(&self, addr: u32) -> (v: Option<&RegisterValue>)
        ensures
            match v {
                Some(v) => self.values().contains_key(addr) && v.view() == self.values()[addr],
                None => !self.values().contains_key(addr),
            },
    {
        self.values.get(&addr)
    }

    /// The registers that take the byte at an address.
    pub fn register_infos_for_addr(&self, addr: u32) -> (r: Vec<RegisterInfo>)
        requires
            self.reaches(addr),
        ensures
            catalog::regs_view(r@) == chosen(self.catalog.regs(), self.page_view(), addr),
    {
        match &self.page {
            Some(p) => copy_registers(&self.catalog.registers_for_page_addr(p.as_str(), addr)),
            None => copy_registers(&self.catalog.registers_for_addr(addr)),
        }
    }

    /// The registers of the page.
    pub fn active_register_page_registers(&self) -> (r: Vec<RegisterInfo>)
        ensures
            catalog::regs_view(r@) == page_regs(self.catalog.regs(), self.page_view()),
    {
        match &self.page {
            Some(p) => copy_registers(&self.catalog.registers_for_page(p.as_str())),
            None => {
                let all = self.catalog.registers();
                let mut c: Vec<RegisterInfo> = Vec::new();
                let mut i: usize = 0;
                while i < all.len()
                    invariant
                        i <= all.len(),
                        c@.len() == i,
                        forall|k: int| 0 <= k < i ==> (#[trigger] c@[k]).view() == all@[k].view(),
                    decreases all.len() - i,
                {
                    c.push(all[i].copy());
                    i += 1;
                }
                assert(catalog::regs_view(c@) =~= catalog::regs_view(all@));
                c
            },
        }
    }

    /// Whether the byte at an address must not be dumped.
    pub fn register_is_no_dump(&self, addr: u32) -> (r: bool)
        requires
            self.reaches(addr),
        ensures
            r == undumpable(self.catalog, self.page_view(), addr),
    {
        match &self.page {
            Some(p) => self.catalog.is_no_dump_for_page(p.as_str(), addr),
            None => self.catalog.is_no_dump(addr),
        }
    }

    /// What to read when an address is selected, or why nothing is read.
    pub fn selected_register_read_target(&self, addr: u32) -> (r: Result<RegisterReadTarget, String>)
        requires
            self.reaches(addr),
        ensures
            catalog::read_view(r) == read_target(self.catalog, self.page_view(), addr),
    {
        match &self.page {
            Some(p) => self.catalog.selected_read_target_for_page(p.as_str(), addr),
            None => self.catalog.selected_read_target(addr),
        }
    }

    /// What to write when an address is selected, or why nothing is written.
    pub fn selected_register_write_target(&self, addr: u32) -> (r: Result<
        RegisterWriteTarget,
        String,
    >)
        requires
            self.reaches(addr),
        ensures
            catalog::write_view(r) == write_target(self.catalog, self.page_view(), addr),
    {
        match &self.page {
            Some(p) => self.catalog.selected_write_target_for_page(p.as_str(), addr),
            None => self.catalog.selected_write_target(addr),
        }
    }

    fn enter(&mut self, addr: u32, v: RegisterValue)
        ensures
            final(self).values() == old(self).values().insert(addr, v.view()),
            final(self).catalog == old(self).catalog,
            final(self).page == old(self).page,
            final(self).selected == old(self).selected,
            final(self).inline_write == old(self).inline_write,
    {
        self.values.insert(addr, v);
        assert(self.values() =~= old(self).values().insert(addr, v.view()));
    }

    /// Records that bytes were read or written at an address.
    pub fn record(&mut self, addr: u32, access: AccessKind, data: Vec<u8>)
        requires
            addr + data.len() <= 0x1_0000_0000,
            forall|a: u32| addr <= a < addr + data.len() ==> #[trigger] old(self).reaches(a),
            old(self).reaches(addr),
        ensures
            final(self).values() == recorded(
                old(self).values(),
                addr,
                access,
                data@,
                old(self).hidden(),
            ),
            final(self).catalog == old(self).catalog,
            final(self).page == old(self).page,
            final(self).selected == old(self).selected,
            final(self).inline_write == old(self).inline_write,
    {
        let ghost before = *self;
        let ghost h = self.hidden();
        let n: usize = data.len();
        let mut i: usize = 0;
        while i < n
            invariant
                i <= n,
                n == data@.len(),
                addr + n <= 0x1_0000_0000,
                forall|a: u32| addr <= a < addr + n ==> #[trigger] before.reaches(a),
                h == before.hidden(),
                self.catalog == before.catalog,
                self.page == before.page,
                self.selected == before.selected,
                self.inline_write == before.inline_write,
                forall|a: u32|
                    {
                        let here = addr <= a < addr + i && (a == addr || !h(a));
                        &&& #[trigger] self.values().contains_key(a) == (before.values().contains_key(a)
                            || here)
                        &&& self.values().contains_key(a) ==> self.values()[a] == (if here {
                            (access, seq![data@[a - addr]])
                        } else {
                            before.values()[a]
                        })
                    },
            decreases n - i,
        {
            let at: u32 = (addr as u64 + i as u64) as u32;
            let ghost now = self.values();
            assert(before.reaches(at));
            assert(self.reaches(at));
            if i == 0 || !self.register_is_no_dump(at) {
                let mut one: Vec<u8> = Vec::new();
                one.push(data[i]);
                assert(one@ =~= seq![data@[i as int]]);
                self.enter(at, RegisterValue { access, data: one });
                assert(self.values() == now.insert(at, (access, seq![data@[at - addr]])));
            }
            i += 1;
        }
        assert(self.reaches(addr));
        if self.register_is_no_dump(addr) {
            self.enter(addr, RegisterValue { access, data });
        }
        assert(self.values() =~= recorded(before.values(), addr, access, data@, h));
    }

    /// What is known of `width` bytes from an address on.
    pub fn register_bytes(&self, addr: u32, width: usize) -> (bytes: Vec<u8>)
        requires
            has_all(self.values(), addr, width as nat) || addr + width <= 0x1_0000_0000,
        ensures
            bytes@ == bytes_at(self.values(), addr, width as nat),
    {
        let mut bytes: Vec<u8> = Vec::new();
        match self.value(addr) {
            Some(v) => {
                if v.data.len() >= width {
                    let mut i: usize = 0;
                    while i < width
                        invariant
                            i <= width <= v.data@.len(),
                            bytes@ == v.data@.take(i as int),
                        decreases width - i,
                    {
                        bytes.push(v.data[i]);
                        assert(bytes@ =~= v.data@.take(i + 1));
                        i += 1;
                    }
                    return bytes;
                }
            },
            None => {},
        }
        let mut i: usize = 0;
        while i < width
            invariant
                i <= width,
                addr + width <= 0x1_0000_0000,
                bytes@ == gathered(self.values(), addr, i as nat),
            decreases width - i,
        {
            let at: u32 = (addr as u64 + i as u64) as u32;
            match self.value(at) {
                Some(v) => {
                    if v.data.len() > 0 {
                        bytes.push(v.data[0]);
                    }
                },
                None => {},
            }
            i += 1;
        }
        bytes
    }

    /// The command that reads what is selected, or why nothing is read.
    pub fn request_selected_register_dump(&self) -> (r: Result<SessionCommand, String>)
        requires
            self.reaches(self.selected),
        ensures
            command_result(r) == (match read_target(self.catalog, self.page_view(), self.selected) {
                Ok(t) => Ok(CommandView::ReadRegister(t.addr, t.len, t.label)),
                Err(e) => Err(e),
            }),
    {
        match self.selected_register_read_target(self.selected) {
            Ok(t) => Ok(SessionCommand::ReadRegister { addr: t.addr, len: t.len, label: t.label }),
            Err(e) => Err(e),
        }
    }

    /// The command that writes what was typed at an address, or why nothing is written.
    pub fn write_register_value(&self, addr: u32, value: &str) -> (r: Result<SessionCommand, String>)
        requires
            self.reaches(addr),
        ensures
            command_result(r) == write_request(self.catalog, self.page_view(), addr, value@),
    {
        let data: Vec<u8> = match parse_register_write_bytes(value) {
            Ok(d) => d,
            Err(e) => {
                return Err(e);
            },
        };
        match self.selected_register_write_target(addr) {
            Ok(t) => {
                if let Some(width) = t.width {
                    if data.len() != width {
                        let mut s: String = "expected ".to_owned();
                        push_dec(&mut s, width as u128);
                        s.push_str(" byte(s), got ");
                        push_dec(&mut s, data.len() as u128);
                        return Err(s);
                    }
                }
                Ok(SessionCommand::WriteRegister { addr: t.addr, data, label: t.label })
            },
            Err(e) => Err(e),
        }
    }

    /// Selects an address and starts to write in place there. Returns the text to start from, or
    /// why nothing is written there.
    pub fn begin_inline_register_write(&mut self, addr: u32) -> (r: Result<String, String>)
        requires
            old(self).reaches(addr),
            inline_fits(old(self).catalog, old(self).page_view(), old(self).values(), addr),
        ensures
            final(self).selected == addr,
            final(self).catalog == old(self).catalog,
            final(self).page == old(self).page,
            final(self).values() == old(self).values(),
            match write_target(old(self).catalog, old(self).page_view(), addr) {
                Ok(t) => {
                    &&& final(self).inline_write == Some(t.addr)
                    &&& r matches Ok(s) && s@ == report::hex_text(
                        inline_bytes(old(self).values(), t),
                    )
                },
                Err(e) => {
                    &&& final(self).inline_write == old(self).inline_write
                    &&& r matches Err(s) && s@ == e
                },
            },
    {
        self.selected = addr;
        let t: RegisterWriteTarget = match self.selected_register_write_target(addr) {
            Ok(t) => t,
            Err(e) => {
                return Err(e);
            },
        };
        let width: usize = match t.width {
            Some(w) => if w == 0 {
                1
            } else {
                w
            },
            None => 1,
        };
        let mut initial: Vec<u8> = self.register_bytes(t.addr, width);
        if initial.len() == 0 {
            initial.push(0);
            assert(initial@ =~= seq![0u8]);
        }
        self.inline_write = Some(t.addr);
        Ok(hex_bytes(&initial))
    }

    /// Ends writing in place. Returns the address.
    pub fn commit_inline_register_write(&mut self) -> (r: Option<u32>)
        ensures
            r == old(self).inline_write,
            final(self).inline_write is None,
            final(self).catalog == old(self).catalog,
            final(self).page == old(self).page,
            final(self).values() == old(self).values(),
            final(self).selected == old(self).selected,
    {
        let r: Option<u32> = self.inline_write;
        self.inline_write = None;
        r
    }

    fn known_addrs(&self) -> (keys: Vec<u32>)
        ensures
            keys@.to_set() == self.values().dom(),
    {
        assert(self.values().dom() =~= self.values@.dom());
        let mut keys: Vec<u32> = Vec::new();
        for k in it: self.values.keys()
            invariant
                it.seq().unref().to_set() == self.values@.dom(),
                keys@ == it.seq().unref().take(it.index() as int),
                it.index() == it.seq().len() ==> keys@.to_set() == self.values@.dom(),
        {
            keys.push(*k);
            assert(keys@ =~= it.seq().unref().take(it.index() + 1));
            assert(it.index() + 1 == it.seq().len() ==> keys@ =~= it.seq().unref());
        }
        keys
    }

    /// The largest address that is known or that a register of the page takes.
    pub fn register_grid_max_addr(&self) -> (m: u32)
        requires
            forall|i: int|
                0 <= i < page_regs(self.catalog.regs(), self.page_view()).len()
                    ==> catalog::ends_in_range(
                    #[trigger] page_regs(self.catalog.regs(), self.page_view())[i],
                ),
        ensures
            exists|known: Option<u32>| #[trigger]
                catalog::is_largest(known, self.values().dom()) && m == (match catalog::opt_max(
                    known,
                    catalog::last_addr(page_regs(self.catalog.regs(), self.page_view())),
                ) {
                    Some(x) => x,
                    None => 0x0f,
                }),
    {
        let known: Option<u32> = largest_of(&self.known_addrs());
        let regs = self.active_register_page_registers();
        let ghost all = catalog::regs_view(regs@);
        let mut last: Option<u32> = None;
        let mut i: usize = 0;
        while i < regs.len()
            invariant
                i <= regs.len(),
                all == catalog::regs_view(regs@),
                forall|i: int| 0 <= i < all.len() ==> catalog::ends_in_range(#[trigger] all[i]),
                last == catalog::last_addr(all.take(i as int)),
            decreases regs.len() - i,
        {
            assert(all[i as int] == regs@[i as int].view());
            assert(all.take(i + 1).drop_last() =~= all.take(i as int));
            let end: u32 = regs[i].addr + regs[i].bytes() - 1;
            last = match last {
                Some(x) => if x >= end {
                    Some(x)
                } else {
                    Some(end)
                },
                None => Some(end),
            };
            i += 1;
        }
        assert(all.take(all.len() as int) =~= all);
        match (known, last) {
            (Some(x), Some(y)) => if x >= y {
                x
            } else {
                y
            },
            (Some(x), None) => x,
            (None, Some(y)) => y,
            (None, None) => 0x0f,
        }
    }
}

/// The command that writes what was typed at an address, or why nothing is written.
pub open spec fn write_request(
    c: RegisterCatalog,
    page: Option<Seq<char>>,
    addr: u32,
    value: Seq<char>,
) -> Result<CommandView, Seq<char>> {
    match input::write_bytes(value) {
        Err(e) => Err(e),
        Ok(data) => match write_target(c, page, addr) {
            Err(e) => Err(e),
            Ok(t) => if t.width is Some && t.width->0 != data.len() {
                Err(
                    "expected "@ + text::dec(t.width->0 as nat) + " byte(s), got "@ + text::dec(
                        data.len(),
                    ),
                )
            } else {
                Ok(CommandView::WriteRegister(t.addr, data, t.label))
            },
        },
    }
}

/// How many bytes are written at a target.
pub open spec fn target_width(t: WriteTargetView) -> nat {
    match t.width {
        Some(w) => if w == 0 {
            1
        } else {
            w as nat
        },
        None => 1,
    }
}

/// The bytes that writing in place starts from: what is known, or a zero.
pub open spec fn inline_bytes(values: Map<u32, (AccessKind, Seq<u8>)>, t: WriteTargetView) -> Seq<u8> {
    let bytes = bytes_at(values, t.addr, target_width(t));
    if bytes.len() == 0 {
        seq![0u8]
    } else {
        bytes
    }
}

/// Whether the addresses of what would be written in place are all addresses.
pub open spec fn inline_fits(
    c: RegisterCatalog,
    page: Option<Seq<char>>,
    values: Map<u32, (AccessKind, Seq<u8>)>,
    addr: u32,
) -> bool {
    match write_target(c, page, addr) {
        Ok(t) => has_all(values, t.addr, target_width(t)) || t.addr + target_width(t)
            <= 0x1_0000_0000,
        Err(_) => true,
    }
}

} // verus!
