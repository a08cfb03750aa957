//! The registers of a chip: which may be read or written, and what their bits mean.
use crate::bits;
use crate::bits::extract_field;
use crate::text;
use crate::text::{has_text, chars_of, push_dec, push_hex, same_text};
use crate::wire::{CONTROL_MAX_READ_LEN, CONTROL_MAX_WRITE_LEN};
use std::collections::BTreeMap;
use vstd::prelude::*;

verus! {

broadcast use {vstd::std_specs::btree::group_btree_axioms, vstd::laws_cmp::group_laws_cmp};

/// Whether a register was read or written.
#[derive(Debug, Clone, Copy, PartialEq, Eq, Structural)]
pub enum AccessKind {
    Read,
    Write,
}

/// A bit field of a register.
#[derive(Debug, Clone, PartialEq, Eq)]
pub struct FieldInfo {
    pub name: String,
    pub bit_hi: u8,
    pub bit_lo: u8,
    pub desc: String,
    pub event: Option<String>,
}

/// A bit field as a mathematical value.
pub struct FieldView {
    pub name: Seq<char>,
    pub bit_hi: u8,
    pub bit_lo: u8,
    pub desc: Seq<char>,
    pub event: Option<Seq<char>>,
}

/// What an optional string stands for.
pub open spec fn opt_text(s: Option<String>) -> Option<Seq<char>> {
    match s {
        Some(s) => Some(s@),
        None => None,
    }
}

/// A copy of an optional string.
pub fn copy_opt(s: &Option<String>) -> (c: Option<String>)
    ensures
        opt_text(c) == opt_text(*s),
{
    match s {
        Some(s) => Some(s.clone()),
        None => None,
    }
}

impl FieldInfo {
    pub open spec fn view(self) -> FieldView {
        FieldView {
            name: self.name@,
            bit_hi: self.bit_hi,
            bit_lo: self.bit_lo,
            desc: self.desc@,
            event: opt_text(self.event),
        }
    }

    /// A copy of the field.
    pub fn copy(&self) -> (f: Self)
        ensures
            f.view() == self.view(),
    {
        FieldInfo {
            name: self.name.clone(),
            bit_hi: self.bit_hi,
            bit_lo: self.bit_lo,
            desc: self.desc.clone(),
            event: copy_opt(&self.event),
        }
    }
}

/// What a list of fields stands for.
pub open spec fn fields_view(fields: Seq<FieldInfo>) -> Seq<FieldView> {
    fields.map_values(|f: FieldInfo| f.view())
}

/// A copy of a list of fields.
pub fn copy_fields(fields: &Vec<FieldInfo>) -> (c: Vec<FieldInfo>)
    ensures
        fields_view(c@) == fields_view(fields@),
{
    let mut c: Vec<FieldInfo> = Vec::new();
    let mut i: usize = 0;
    while i < fields.len()
        invariant
            i <= fields.len(),
            fields_view(c@) == fields_view(fields@.take(i as int)),
        decreases fields.len() - i,
    {
        let ghost before = c@;
        let f = fields[i].copy();
        c.push(f);
        i += 1;
        assert(fields_view(c@) =~= fields_view(before).push(f.view()));
        assert(fields_view(fields@.take(i as int)) =~= fields_view(
            fields@.take(i - 1),
        ).push(fields@[i - 1].view()));
    }
    assert(fields@.take(fields@.len() as int) =~= fields@);
    c
}

/// A register as the chip metadata describes it.
#[derive(Debug, Clone, PartialEq, Eq)]
pub struct Register {
    pub name: String,
    pub addr: u32,
    pub access: String,
    pub width: u32,
    pub desc: String,
    pub no_dump: bool,
    pub no_dump_reason: String,
    pub fields: Vec<FieldInfo>,
}

/// A register of the catalog, on its page.
#[derive(Debug, Clone, PartialEq, Eq)]
pub struct RegisterInfo {
    pub page: String,
    pub name: String,
    pub addr: u32,
    pub access: String,
    pub width: u32,
    pub desc: String,
    pub no_dump: bool,
    pub no_dump_reason: String,
    pub fields: Vec<FieldInfo>,
}

/// A register of the catalog as a mathematical value.
pub struct RegView {
    pub page: Seq<char>,
    pub name: Seq<char>,
    pub addr: u32,
    pub access: Seq<char>,
    pub width: u32,
    pub desc: Seq<char>,
    pub no_dump: bool,
    pub no_dump_reason: Seq<char>,
    pub fields: Seq<FieldView>,
}

impl Register {
    /// The catalog entry of this register on a page.
    pub open spec fn on_page(self, page: Seq<char>) -> RegView {
        RegView {
            page,
            name: self.name@,
            addr: self.addr,
            access: self.access@,
            width: self.width,
            desc: self.desc@,
            no_dump: self.no_dump,
            no_dump_reason: self.no_dump_reason@,
            fields: fields_view(self.fields@),
        }
    }
}

impl RegisterInfo {
    pub open spec fn view(self) -> RegView {
        RegView {
            page: self.page@,
            name: self.name@,
            addr: self.addr,
            access: self.access@,
            width: self.width,
            desc: self.desc@,
            no_dump: self.no_dump,
            no_dump_reason: self.no_dump_reason@,
            fields: fields_view(self.fields@),
        }
    }

    /// A copy of the register.
    pub fn copy(&self) -> (r: Self)
        ensures
            r.view() == self.view(),
    {
        RegisterInfo {
            page: self.page.clone(),
            name: self.name.clone(),
            addr: self.addr,
            access: self.access.clone(),
            width: self.width,
            desc: self.desc.clone(),
            no_dump: self.no_dump,
            no_dump_reason: self.no_dump_reason.clone(),
            fields: copy_fields(&self.fields),
        }
    }

    /// How many bytes the register takes: at least one.
    pub fn bytes(&self) -> (n: u32)
        ensures
            n == byte_width(self.view()),
    {
        if self.width >= 1 {
            self.width
        } else {
            1
        }
    }
}

/// How many bytes a register takes: at least one.
pub open spec fn byte_width(r: RegView) -> u32 {
    if r.width >= 1 {
        r.width
    } else {
        1
    }
}

/// Whether a register takes the byte at `addr`.
pub open spec fn covers(r: RegView, addr: u32) -> bool {
    r.addr <= addr < r.addr + byte_width(r)
}

/// What a list of registers stands for.
pub open spec fn regs_view(regs: Seq<RegisterInfo>) -> Seq<RegView> {
    regs.map_values(|r: RegisterInfo| r.view())
}

/// What a list of borrowed registers stands for.
pub open spec fn refs_view(regs: Seq<&RegisterInfo>) -> Seq<RegView> {
    regs.map_values(|r: &RegisterInfo| r.view())
}

/// What to ask the device for when a register is to be read.
#[derive(Debug, Clone, PartialEq, Eq)]
pub struct RegisterReadTarget {
    pub addr: u32,
    pub len: u16,
    pub label: String,
}

/// What to hand the device when a register is to be written.
#[derive(Debug, Clone, PartialEq, Eq)]
pub struct RegisterWriteTarget {
    pub addr: u32,
    pub width: Option<usize>,
    pub label: String,
}

/// A read target as a mathematical value.
pub struct ReadTargetView {
    pub addr: u32,
    pub len: u16,
    pub label: Seq<char>,
}

/// A write target as a mathematical value.
pub struct WriteTargetView {
    pub addr: u32,
    pub width: Option<usize>,
    pub label: Seq<char>,
}

/// What a read target or a reason against it stands for.
pub open spec fn read_view(r: Result<RegisterReadTarget, String>) -> Result<
    ReadTargetView,
    Seq<char>,
> {
    match r {
        Ok(t) => Ok(ReadTargetView { addr: t.addr, len: t.len, label: t.label@ }),
        Err(e) => Err(e@),
    }
}

/// What a write target or a reason against it stands for.
pub open spec fn write_view(r: Result<RegisterWriteTarget, String>) -> Result<
    WriteTargetView,
    Seq<char>,
> {
    match r {
        Ok(t) => Ok(WriteTargetView { addr: t.addr, width: t.width, label: t.label@ }),
        Err(e) => Err(e@),
    }
}

/// A field with its value, as it is shown.
#[derive(Debug, Clone, PartialEq, Eq)]
pub struct DecodedField {
    pub register: String,
    pub name: String,
    pub bit_hi: u8,
    pub bit_lo: u8,
    pub value: Option<u128>,
    pub desc: String,
    pub event: Option<String>,
}

/// A field with its value as a mathematical value.
pub struct DecodedView {
    pub register: Seq<char>,
    pub field: FieldView,
    pub value: Option<u128>,
}

impl DecodedField {
    pub open spec fn view(self) -> DecodedView {
        DecodedView {
            register: self.register@,
            field: FieldView {
                name: self.name@,
                bit_hi: self.bit_hi,
                bit_lo: self.bit_lo,
                desc: self.desc@,
                event: opt_text(self.event),
            },
            value: self.value,
        }
    }
}

/// What a list of decoded fields stands for.
pub open spec fn decoded_view(fields: Seq<DecodedField>) -> Seq<DecodedView> {
    fields.map_values(|f: DecodedField| f.view())
}

// ---- texts

/// An address as it is shown.
pub open spec fn addr_text(addr: u32) -> Seq<char> {
    "0x"@ + text::hex(addr as nat, 2)
}

/// An address on a page as it is shown.
pub open spec fn page_addr_text(page: Seq<char>, addr: u32) -> Seq<char> {
    page + ".0x"@ + text::hex(addr as nat, 2)
}

/// A register's name as it is shown.
pub open spec fn reg_text(r: RegView) -> Seq<char> {
    r.page + "."@ + r.name
}

/// An address as it is shown.
pub fn addr_label(addr: u32) -> (s: String)
    ensures
        s@ == addr_text(addr),
{
    let mut s: String = "0x".to_owned();
    push_hex(&mut s, addr as u128, 2);
    s
}

/// An address on a page as it is shown.
pub fn page_addr_label(page: &str, addr: u32) -> (s: String)
    ensures
        s@ == page_addr_text(page@, addr),
{
    let mut s: String = page.to_owned();
    s.push_str(".0x");
    push_hex(&mut s, addr as u128, 2);
    s
}

/// A register's name as it is shown.
pub fn reg_label(r: &RegisterInfo) -> (s: String)
    ensures
        s@ == reg_text(r.view()),
{
    let mut s: String = r.page.clone();
    s.push_str(".");
    s.push_str(r.name.as_str());
    s
}

// ---- what may be done with a register

/// Whether an access string permits writing.
pub open spec fn writable(access: Seq<char>) -> bool {
    access.contains('w') || access.contains('W')
}

/// Whether an access string permits writing.
pub fn register_is_writable(access: &str) -> (r: bool)
    ensures
        r == writable(access@),
{
    let chars = chars_of(access);
    text::has_char(&chars, 'w') || text::has_char(&chars, 'W')
}

/// The read target of a register, or why there is none.
pub open spec fn read_target_of(r: RegView) -> Result<ReadTargetView, Seq<char>> {
    let width = byte_width(r);
    if r.no_dump {
        Err(reg_text(r) + " is marked no_dump; read skipped"@)
    } else if width > 65535 {
        Err(reg_text(r) + " width "@ + text::dec(r.width as nat) + " exceeds u16::MAX"@)
    } else if width > CONTROL_MAX_READ_LEN {
        Err(
            reg_text(r) + " width "@ + text::dec(width as nat) + " exceeds control read limit "@
                + text::dec(CONTROL_MAX_READ_LEN as nat),
        )
    } else {
        Ok(ReadTargetView { addr: r.addr, len: width as u16, label: reg_text(r) })
    }
}

/// The write target of a register, or why there is none.
pub open spec fn write_target_of(r: RegView) -> Result<WriteTargetView, Seq<char>> {
    let width = byte_width(r);
    if !writable(r.access) {
        Err(reg_text(r) + " is read-only; write skipped"@)
    } else if width > CONTROL_MAX_WRITE_LEN {
        Err(
            reg_text(r) + " width "@ + text::dec(width as nat) + " exceeds control write limit "@
                + text::dec(CONTROL_MAX_WRITE_LEN as nat),
        )
    } else {
        Ok(WriteTargetView { addr: r.addr, width: Some(width as usize), label: reg_text(r) })
    }
}

/// The read target of a register, or why there is none.
pub fn register_read_target_from_info(reg: &RegisterInfo) -> (r: Result<
    RegisterReadTarget,
    String,
>)
    ensures
        read_view(r) == read_target_of(reg.view()),
{
    let mut label: String = reg_label(reg);
    let width: u32 = reg.bytes();
    if reg.no_dump {
        label.push_str(" is marked no_dump; read skipped");
        return Err(label);
    }
    if width > 65535 {
        label.push_str(" width ");
        push_dec(&mut label, reg.width as u128);
        label.push_str(" exceeds u16::MAX");
        return Err(label);
    }
    if width as usize > CONTROL_MAX_READ_LEN {
        label.push_str(" width ");
        push_dec(&mut label, width as u128);
        label.push_str(" exceeds control read limit ");
        push_dec(&mut label, CONTROL_MAX_READ_LEN as u128);
        return Err(label);
    }
    Ok(RegisterReadTarget { addr: reg.addr, len: width as u16, label })
}

/// The write target of a register, or why there is none.
pub fn register_write_target_from_info(reg: &RegisterInfo) -> (r: Result<
    RegisterWriteTarget,
    String,
>)
    ensures
        write_view(r) == write_target_of(reg.view()),
{
    let mut label: String = reg_label(reg);
    let width: u32 = reg.bytes();
    if !register_is_writable(reg.access.as_str()) {
        label.push_str(" is read-only; write skipped");
        return Err(label);
    }
    if width as usize > CONTROL_MAX_WRITE_LEN {
        label.push_str(" width ");
        push_dec(&mut label, width as u128);
        label.push_str(" exceeds control write limit ");
        push_dec(&mut label, CONTROL_MAX_WRITE_LEN as u128);
        return Err(label);
    }
    Ok(RegisterWriteTarget { addr: reg.addr, width: Some(width as usize), label })
}

// ---- choosing registers

/// The first element that satisfies the predicate.
pub open spec fn first_where<T>(s: Seq<T>, pred: spec_fn(T) -> bool) -> Option<T>
    decreases s.len(),
{
    if s.len() == 0 {
        None
    } else {
        match first_where(s.drop_last(), pred) {
            Some(x) => Some(x),
            None => if pred(s.last()) {
                Some(s.last())
            } else {
                None
            },
        }
    }
}

/// Registers that take the byte at `addr`.
pub open spec fn at_addr(addr: u32) -> spec_fn(RegView) -> bool {
    |r: RegView| covers(r, addr)
}

/// Registers of a page.
pub open spec fn of_page(page: Seq<char>) -> spec_fn(RegView) -> bool {
    |r: RegView| r.page == page
}

/// Registers of a page that take the byte at `addr`.
pub open spec fn at_page_addr(page: Seq<char>, addr: u32) -> spec_fn(RegView) -> bool {
    |r: RegView| r.page == page && covers(r, addr)
}

/// Registers that start at `addr`.
pub open spec fn starting_at(addr: u32) -> spec_fn(RegView) -> bool {
    |r: RegView| r.addr == addr
}

/// Any register.
pub open spec fn any_reg() -> spec_fn(RegView) -> bool {
    |r: RegView| true
}

/// Writable registers.
pub open spec fn writable_reg() -> spec_fn(RegView) -> bool {
    |r: RegView| writable(r.access)
}

/// Writable registers that start at `addr`.
pub open spec fn writable_at(addr: u32) -> spec_fn(RegView) -> bool {
    |r: RegView| writable(r.access) && r.addr == addr
}

/// Registers that must not be dumped.
pub open spec fn undumpable_reg() -> spec_fn(RegView) -> bool {
    |r: RegView| r.no_dump
}

/// The first choice, or else the second.
pub open spec fn or_else<T>(a: Option<T>, b: Option<T>) -> Option<T> {
    match a {
        Some(x) => Some(x),
        None => b,
    }
}

/// The register to read: the first that starts at `addr`, or else the first.
pub open spec fn read_choice(regs: Seq<RegView>, addr: u32) -> Option<RegView> {
    or_else(first_where(regs, starting_at(addr)), first_where(regs, any_reg()))
}

/// The register to write: the first writable one that starts at `addr`, or else
/// the first writable one.
pub open spec fn write_choice(regs: Seq<RegView>, addr: u32) -> Option<RegView> {
    or_else(first_where(regs, writable_at(addr)), first_where(regs, writable_reg()))
}

/// The read target among the registers at an address. `label` names the address.
pub open spec fn read_selection(regs: Seq<RegView>, addr: u32, label: Seq<char>) -> Result<
    ReadTargetView,
    Seq<char>,
> {
    match read_choice(regs, addr) {
        Some(r) => read_target_of(r),
        None => Ok(ReadTargetView { addr, len: 1, label }),
    }
}

/// The write target among the registers at an address. `label` names the address.
pub open spec fn write_selection(regs: Seq<RegView>, addr: u32, label: Seq<char>) -> Result<
    WriteTargetView,
    Seq<char>,
> {
    match write_choice(regs, addr) {
        Some(r) => write_target_of(r),
        None => if regs.len() > 0 {
            Err(label + " is read-only; write skipped"@)
        } else {
            Ok(WriteTargetView { addr, width: Some(1), label })
        },
    }
}

/// The pages of the registers, each once, in the order in which they first come.
pub open spec fn pages_of(regs: Seq<RegView>) -> Seq<Seq<char>>
    decreases regs.len(),
{
    if regs.len() == 0 {
        Seq::empty()
    } else {
        let pages = pages_of(regs.drop_last());
        if pages.contains(regs.last().page) {
            pages
        } else {
            pages.push(regs.last().page)
        }
    }
}

/// The marks after `n` bytes from `addr` on were marked.
pub open spec fn marked(marks: Map<u32, bool>, addr: u32, n: nat, dumpable: bool) -> Map<u32, bool>
    decreases n,
{
    if n == 0 {
        marks
    } else {
        marked(marks, addr, (n - 1) as nat, dumpable).insert((addr + n - 1) as u32, dumpable)
    }
}

/// The fields of a register with their values in `bytes`.
pub open spec fn decoded_of(r: RegView, bytes: Seq<u8>) -> Seq<DecodedView> {
    r.fields.map_values(
        |f: FieldView|
            DecodedView {
                register: reg_text(r),
                field: f,
                value: bits::extracted(bytes, f.bit_hi, f.bit_lo),
            },
    )
}

/// The fields of registers with their values in `bytes`.
pub open spec fn decoded_all(regs: Seq<RegView>, bytes: Seq<u8>) -> Seq<DecodedView>
    decreases regs.len(),
{
    if regs.len() == 0 {
        Seq::empty()
    } else {
        decoded_all(regs.drop_last(), bytes) + decoded_of(regs.last(), bytes)
    }
}

/// Whether every field of a register can be taken out of `bytes`.
pub open spec fn fields_in_range(r: RegView, bytes: Seq<u8>) -> bool {
    forall|i: int|
        0 <= i < r.fields.len() && bytes.len() >= (#[trigger] r.fields[i]).bit_hi / 8 + 1
            ==> bits::field_in_range(r.fields[i].bit_hi, r.fields[i].bit_lo)
}

/// Whether the end of a register is an address too.
pub open spec fn ends_in_range(r: RegView) -> bool {
    r.addr + byte_width(r) <= u32::MAX
}

/// The largest element of two optional numbers.
pub open spec fn opt_max(a: Option<u32>, b: Option<u32>) -> Option<u32> {
    match (a, b) {
        (Some(x), Some(y)) => Some(if x >= y {
            x
        } else {
            y
        }),
        (Some(x), None) => Some(x),
        (None, y) => y,
    }
}

/// The last address of all registers.
pub open spec fn last_addr(regs: Seq<RegView>) -> Option<u32>
    decreases regs.len(),
{
    if regs.len() == 0 {
        None
    } else {
        opt_max(
            last_addr(regs.drop_last()),
            Some((regs.last().addr + byte_width(regs.last()) - 1) as u32),
        )
    }
}

/// Whether `m` is the largest of a set of addresses.
pub open spec fn is_largest(m: Option<u32>, set: Set<u32>) -> bool {
    match m {
        Some(m) => set.contains(m) && forall|a: u32| #[trigger] set.contains(a) ==> a <= m,
        None => set == Set::<u32>::empty(),
    }
}

/// The largest of some addresses.
pub fn largest_of(keys: &[u32]) -> (m: Option<u32>)
    ensures
        is_largest(m, keys@.to_set()),
{
    let mut m: Option<u32> = None;
    let mut i: usize = 0;
    while i < keys.len()
        invariant
            i <= keys.len(),
            match m {
                Some(m) => {
                    &&& keys@.to_set().contains(m)
                    &&& forall|j: int| 0 <= j < i ==> #[trigger] keys@[j] <= m
                },
                None => i == 0,
            },
        decreases keys.len() - i,
    {
        let k: u32 = keys[i];
        assert(keys@.contains(k));
        m = match m {
            Some(m) => if k >= m {
                Some(k)
            } else {
                Some(m)
            },
            None => Some(k),
        };
        i += 1;
    }
    proof {
        assert forall|a: u32| #[trigger] keys@.to_set().contains(a) implies m matches Some(x) && a
            <= x by {
            assert(keys@.contains(a));
        }
        if m is None {
            assert(keys@.to_set() =~= Set::<u32>::empty());
        }
    }
    m
}

/// The registers known so far, and which addresses may be dumped.
#[derive(Debug, Clone)]
pub struct RegisterCatalog {
    dumpable_by_addr: BTreeMap<u32, bool>,
    registers: Vec<RegisterInfo>,
}

impl Default for RegisterCatalog {
    fn default() -> (c: Self)
        ensures
            c.marks() == Map::<u32, bool>::empty(),
            c.regs() == Seq::<RegView>::empty(),
    {
        let c = RegisterCatalog { dumpable_by_addr: BTreeMap::new(), registers: Vec::new() };
        assert(regs_view(c.registers@) =~= Seq::<RegView>::empty());
        c
    }
}

impl RegisterCatalog {
    /// Whether addresses may be dumped, as far as it was said.
    pub closed spec fn marks(&self) -> Map<u32, bool> {
        self.dumpable_by_addr@
    }

    /// The registers.
    pub closed spec fn regs(&self) -> Seq<RegView> {
        regs_view(self.registers@)
    }

    /// Enters a register on a page. One with the same page, name and address
    /// is entered only once.
    pub fn mark_register(&mut self, page: &str, reg: &Register)
        requires
            reg.addr + byte_width(reg.on_page(page@)) <= 0x1_0000_0000,
        ensures
            final(self).marks() == marked(
                old(self).marks(),
                reg.addr,
                byte_width(reg.on_page(page@)) as nat,
                !reg.no_dump,
            ),
            final(self).regs() == with_register(old(self).regs(), reg.on_page(page@)),
    {
        self.mark_dumpability(reg.addr, reg.width, !reg.no_dump);
        let mut i: usize = 0;
        while i < self.registers.len()
            invariant
                i <= self.registers.len(),
                !has_register(self.regs().take(i as int), page@, reg.name@, reg.addr),
                self.regs() == old(self).regs(),
                self.marks() == marked(
                    old(self).marks(),
                    reg.addr,
                    byte_width(reg.on_page(page@)) as nat,
                    !reg.no_dump,
                ),
            decreases self.registers.len() - i,
        {
            let existing = &self.registers[i];
            assert(self.regs()[i as int] == existing.view());
            if existing.addr == reg.addr && same_text(existing.page.as_str(), page) && same_text(
                existing.name.as_str(),
                reg.name.as_str(),
            ) {
                assert(same_register(self.regs()[i as int], page@, reg.name@, reg.addr));
                return;
            }
            assert forall|k: int| 0 <= k < i + 1 implies !same_register(
                #[trigger] self.regs().take(i + 1)[k],
                page@,
                reg.name@,
                reg.addr,
            ) by {
                if k < i {
                    assert(self.regs().take(i as int)[k] == self.regs().take(i + 1)[k]);
                }
            }
            i += 1;
        }
        assert(self.regs().take(self.registers@.len() as int) =~= self.regs());
        let ghost before = self.registers@;
        let info = RegisterInfo {
            page: page.to_owned(),
            name: reg.name.clone(),
            addr: reg.addr,
            access: reg.access.clone(),
            width: reg.width,
            desc: reg.desc.clone(),
            no_dump: reg.no_dump,
            no_dump_reason: reg.no_dump_reason.clone(),
            fields: copy_fields(&reg.fields),
        };
        self.registers.push(info);
        assert(regs_view(self.registers@) =~= regs_view(before).push(info.view()));
    }

    /// Says of `width` bytes from `addr` on, at least one, whether they may be dumped.
    pub fn mark_dumpability(&mut self, addr: u32, width: u32, dumpable: bool)
        requires
            addr + (if width >= 1 {
                width as int
            } else {
                1
            }) <= 0x1_0000_0000,
        ensures
            final(self).regs() == old(self).regs(),
            final(self).marks() == marked(
                old(self).marks(),
                addr,
                (if width >= 1 {
                    width as nat
                } else {
                    1
                }),
                dumpable,
            ),
    {
        let n: u32 = if width >= 1 {
            width
        } else {
            1
        };
        let mut offset: u32 = 0;
        while offset < n
            invariant
                offset <= n,
                addr + n <= 0x1_0000_0000,
                self.registers == old(self).registers,
                self.marks() == marked(old(self).marks(), addr, offset as nat, dumpable),
            decreases n - offset,
        {
            self.dumpable_by_addr.insert(addr + offset, dumpable);
            offset += 1;
        }
    }

    /// Whether it was said that `addr` must not be dumped.
    pub fn is_no_dump(&self, addr: u32) -> (r: bool)
        ensures
            r == (self.marks().contains_key(addr) && !self.marks()[addr]),
    {
        match self.dumpable_by_addr.get(&addr) {
            Some(dumpable) => !*dumpable,
            None => false,
        }
    }

    /// The largest marked address.
    fn max_mark(&self) -> (m: Option<u32>)
        ensures
            is_largest(m, self.marks().dom()),
    {
        largest_of(&self.marked_addrs())
    }

    /// The marked addresses.
    fn marked_addrs(&self) -> (keys: Vec<u32>)
        ensures
            keys@.to_set() == self.marks().dom(),
    {
        let mut keys: Vec<u32> = Vec::new();
        for k in it: self.dumpable_by_addr.keys()
            invariant
                it.seq().unref().to_set() == self.marks().dom(),
                keys@ == it.seq().unref().take(it.index() as int),
                it.index() == it.seq().len() ==> keys@.to_set() == self.marks().dom(),
        {
            keys.push(*k);
            assert(keys@ =~= it.seq().unref().take(it.index() + 1));
            assert(it.index() + 1 == it.seq().len() ==> keys@ =~= it.seq().unref());
        }
        keys
    }

    /// The largest address that was marked or that a register takes.
    pub fn max_addr(&self) -> (m: Option<u32>)
        requires
            forall|i: int| 0 <= i < self.regs().len() ==> ends_in_range(#[trigger] self.regs()[i]),
        ensures
            exists|mark: Option<u32>|
                #[trigger] is_largest(mark, self.marks().dom()) && m == opt_max(
                    mark,
                    last_addr(self.regs()),
                ),
    {
        let mark: Option<u32> = self.max_mark();
        let mut last: Option<u32> = None;
        let mut i: usize = 0;
        while i < self.registers.len()
            invariant
                i <= self.registers.len(),
                forall|i: int|
                    0 <= i < self.regs().len() ==> ends_in_range(#[trigger] self.regs()[i]),
                last == last_addr(self.regs().take(i as int)),
            decreases self.registers.len() - i,
        {
            let reg = &self.registers[i];
            assert(self.regs()[i as int] == reg.view());
            assert(self.regs().take(i + 1).drop_last() =~= self.regs().take(i as int));
            let end: u32 = reg.addr + reg.bytes() - 1;
            last = match last {
                Some(x) => if x >= end {
                    Some(x)
                } else {
                    Some(end)
                },
                None => Some(end),
            };
            i += 1;
        }
        assert(self.regs().take(self.regs().len() as int) =~= self.regs());
        match (mark, last) {
            (Some(x), Some(y)) => if x >= y {
                Some(x)
            } else {
                Some(y)
            },
            (Some(x), None) => Some(x),
            (None, y) => y,
        }
    }

    /// The registers.
    pub fn registers(&self) -> (r: &[RegisterInfo])
        ensures
            regs_view(r@) == self.regs(),
    {
        self.registers.as_slice()
    }
}

/// Whether a register has the given page, name and address.
pub open spec fn same_register(r: RegView, page: Seq<char>, name: Seq<char>, addr: u32) -> bool {
    r.page == page && r.name == name && r.addr == addr
}

/// Whether a register with the given page, name and address is among `regs`.
pub open spec fn has_register(
    regs: Seq<RegView>,
    page: Seq<char>,
    name: Seq<char>,
    addr: u32,
) -> bool {
    exists|i: int| 0 <= i < regs.len() && same_register(#[trigger] regs[i], page, name, addr)
}

proof fn lemma_refs_push(refs: Seq<&RegisterInfo>, r: &RegisterInfo)
    ensures
        refs_view(refs.push(r)) == refs_view(refs).push(r.view()),
{
    assert(refs_view(refs.push(r)) =~= refs_view(refs).push(r.view()));
}

proof fn lemma_filter_step(regs: Seq<RegView>, i: int, pred: spec_fn(RegView) -> bool)
    requires
        0 <= i < regs.len(),
    ensures
        regs.take(i + 1).filter(pred) == (if pred(regs[i]) {
            regs.take(i).filter(pred).push(regs[i])
        } else {
            regs.take(i).filter(pred)
        }),
{
    reveal(Seq::filter);
    assert(regs.take(i + 1).drop_last() =~= regs.take(i));
}

proof fn lemma_first_step<T>(s: Seq<T>, i: int, pred: spec_fn(T) -> bool)
    requires
        0 <= i < s.len(),
    ensures
        first_where(s.take(i + 1), pred) == or_else(
            first_where(s.take(i), pred),
            if pred(s[i]) {
                Some(s[i])
            } else {
                None
            },
        ),
{
    assert(s.take(i + 1).drop_last() =~= s.take(i));
}

/// Whether the addresses of a register can be compared with `addr`.
pub open spec fn reachable(r: RegView, addr: u32) -> bool {
    r.addr <= addr ==> ends_in_range(r)
}

/// Whether the register takes the byte at `addr`.
fn takes_addr(reg: &RegisterInfo, addr: u32) -> (r: bool)
    requires
        reachable(reg.view(), addr),
    ensures
        r == covers(reg.view(), addr),
{
    addr >= reg.addr && addr < reg.addr + reg.bytes()
}

impl RegisterCatalog {
    /// Whether all registers, or those of one page, can be compared with `addr`.
    pub open spec fn all_reachable(&self, page: Option<Seq<char>>, addr: u32) -> bool {
        forall|i: int|
            0 <= i < self.regs().len() && (page matches Some(p) ==> (
            #[trigger] self.regs()[i]).page == p) ==> reachable(self.regs()[i], addr)
    }

    /// The pages, each once, in the order in which they first come.
    pub fn pages(&self) -> (pages: Vec<String>)
        ensures
            text::texts(pages@) == pages_of(self.regs()),
    {
        let mut pages: Vec<String> = Vec::new();
        let mut i: usize = 0;
        assert(text::texts(pages@) =~= Seq::<Seq<char>>::empty());
        while i < self.registers.len()
            invariant
                i <= self.registers.len(),
                text::texts(pages@) == pages_of(self.regs().take(i as int)),
            decreases self.registers.len() - i,
        {
            let page = &self.registers[i].page;
            assert(self.regs()[i as int].page == page@);
            assert(self.regs().take(i + 1).drop_last() =~= self.regs().take(i as int));
            if !has_text(&pages, page.as_str()) {
                let ghost before = pages@;
                let copy = page.clone();
                pages.push(copy);
                assert(text::texts(pages@) =~= text::texts(before).push(page@));
            }
            i += 1;
        }
        assert(self.regs().take(self.regs().len() as int) =~= self.regs());
        pages
    }

    /// The registers of a page.
    pub fn registers_for_page(&self, page: &str) -> (r: Vec<&RegisterInfo>)
        ensures
            refs_view(r@) == self.regs().filter(of_page(page@)),
    {
        let mut r: Vec<&RegisterInfo> = Vec::new();
        let mut i: usize = 0;
        proof {
            reveal(Seq::filter);
            assert(refs_view(r@) =~= self.regs().take(0).filter(of_page(page@)));
        }
        while i < self.registers.len()
            invariant
                i <= self.registers.len(),
                refs_view(r@) == self.regs().take(i as int).filter(of_page(page@)),
            decreases self.registers.len() - i,
        {
            let reg = &self.registers[i];
            proof {
                assert(self.regs()[i as int] == reg.view());
                lemma_filter_step(self.regs(), i as int, of_page(page@));
                lemma_refs_push(r@, reg);
            }
            if same_text(reg.page.as_str(), page) {
                r.push(reg);
            }
            i += 1;
        }
        assert(self.regs().take(self.regs().len() as int) =~= self.regs());
        r
    }

    /// The registers that take the byte at `addr`.
    pub fn registers_for_addr(&self, addr: u32) -> (r: Vec<&RegisterInfo>)
        requires
            self.all_reachable(None, addr),
        ensures
            refs_view(r@) == self.regs().filter(at_addr(addr)),
    {
        let mut r: Vec<&RegisterInfo> = Vec::new();
        let mut i: usize = 0;
        proof {
            reveal(Seq::filter);
            assert(refs_view(r@) =~= self.regs().take(0).filter(at_addr(addr)));
        }
        while i < self.registers.len()
            invariant
                i <= self.registers.len(),
                self.all_reachable(None, addr),
                refs_view(r@) == self.regs().take(i as int).filter(at_addr(addr)),
            decreases self.registers.len() - i,
        {
            let reg = &self.registers[i];
            proof {
                assert(self.regs()[i as int] == reg.view());
                lemma_filter_step(self.regs(), i as int, at_addr(addr));
                lemma_refs_push(r@, reg);
            }
            if takes_addr(reg, addr) {
                r.push(reg);
            }
            i += 1;
        }
        assert(self.regs().take(self.regs().len() as int) =~= self.regs());
        r
    }

    /// The registers of a page that take the byte at `addr`.
    pub fn registers_for_page_addr(&self, page: &str, addr: u32) -> (r: Vec<&RegisterInfo>)
        requires
            self.all_reachable(Some(page@), addr),
        ensures
            refs_view(r@) == self.regs().filter(at_page_addr(page@, addr)),
    {
        let mut r: Vec<&RegisterInfo> = Vec::new();
        let mut i: usize = 0;
        proof {
            reveal(Seq::filter);
            assert(refs_view(r@) =~= self.regs().take(0).filter(at_page_addr(page@, addr)));
        }
        while i < self.registers.len()
            invariant
                i <= self.registers.len(),
                self.all_reachable(Some(page@), addr),
                refs_view(r@) == self.regs().take(i as int).filter(at_page_addr(page@, addr)),
            decreases self.registers.len() - i,
        {
            let reg = &self.registers[i];
            proof {
                assert(self.regs()[i as int] == reg.view());
                lemma_filter_step(self.regs(), i as int, at_page_addr(page@, addr));
                lemma_refs_push(r@, reg);
            }
            if same_text(reg.page.as_str(), page) && takes_addr(reg, addr) {
                r.push(reg);
            }
            i += 1;
        }
        assert(self.regs().take(self.regs().len() as int) =~= self.regs());
        r
    }

    /// Whether a register of the page that takes the byte at `addr` must not be dumped.
    pub fn is_no_dump_for_page(&self, page: &str, addr: u32) -> (r: bool)
        requires
            self.all_reachable(Some(page@), addr),
        ensures
            r == (first_where(
                self.regs().filter(at_page_addr(page@, addr)),
                undumpable_reg(),
            ) is Some),
    {
        let regs = self.registers_for_page_addr(page, addr);
        let ghost view = refs_view(regs@);
        let mut i: usize = 0;
        while i < regs.len()
            invariant
                i <= regs.len(),
                view == refs_view(regs@),
                view == self.regs().filter(at_page_addr(page@, addr)),
                first_where(view.take(i as int), undumpable_reg()) is None,
            decreases regs.len() - i,
        {
            proof {
                lemma_first_step(view, i as int, undumpable_reg());
                assert(view[i as int] == regs@[i as int].view());
            }
            if regs[i].no_dump {
                proof {
                    lemma_first_stays(view, i + 1, undumpable_reg());
                }
                return true;
            }
            i += 1;
        }
        assert(view.take(view.len() as int) =~= view);
        false
    }

    /// What to read when `addr` is selected, or why nothing is read.
    pub fn selected_read_target(&self, addr: u32) -> (r: Result<RegisterReadTarget, String>)
        requires
            self.all_reachable(None, addr),
        ensures
            read_view(r) == (if self.marks().contains_key(addr) && !self.marks()[addr] {
                Err(addr_text(addr) + " is marked no_dump; read skipped"@)
            } else {
                read_selection(self.regs().filter(at_addr(addr)), addr, addr_text(addr))
            }),
    {
        let mut label: String = addr_label(addr);
        if self.is_no_dump(addr) {
            label.push_str(" is marked no_dump; read skipped");
            return Err(label);
        }
        let regs = self.registers_for_addr(addr);
        select_read(&regs, addr, label)
    }

    /// What to read when `addr` is selected on a page, or why nothing is read.
    pub fn selected_read_target_for_page(&self, page: &str, addr: u32) -> (r: Result<
        RegisterReadTarget,
        String,
    >)
        requires
            self.all_reachable(Some(page@), addr),
        ensures
            read_view(r) == (if first_where(
                self.regs().filter(at_page_addr(page@, addr)),
                undumpable_reg(),
            ) is Some {
                Err(page_addr_text(page@, addr) + " is marked no_dump; read skipped"@)
            } else {
                read_selection(
                    self.regs().filter(at_page_addr(page@, addr)),
                    addr,
                    page_addr_text(page@, addr),
                )
            }),
    {
        let mut label: String = page_addr_label(page, addr);
        if self.is_no_dump_for_page(page, addr) {
            label.push_str(" is marked no_dump; read skipped");
            return Err(label);
        }
        let regs = self.registers_for_page_addr(page, addr);
        select_read(&regs, addr, label)
    }

    /// What to write when `addr` is selected, or why nothing is written.
    pub fn selected_write_target(&self, addr: u32) -> (r: Result<RegisterWriteTarget, String>)
        requires
            self.all_reachable(None, addr),
        ensures
            write_view(r) == write_selection(
                self.regs().filter(at_addr(addr)),
                addr,
                addr_text(addr),
            ),
    {
        let regs = self.registers_for_addr(addr);
        select_write(&regs, addr, addr_label(addr))
    }

    /// What to write when `addr` is selected on a page, or why nothing is written.
    pub fn selected_write_target_for_page(&self, page: &str, addr: u32) -> (r: Result<
        RegisterWriteTarget,
        String,
    >)
        requires
            self.all_reachable(Some(page@), addr),
        ensures
            write_view(r) == write_selection(
                self.regs().filter(at_page_addr(page@, addr)),
                addr,
                page_addr_text(page@, addr),
            ),
    {
        let regs = self.registers_for_page_addr(page, addr);
        select_write(&regs, addr, page_addr_label(page, addr))
    }

    /// The fields of the registers at `addr`, with their values in `bytes`.
    pub fn decoded_fields(&self, addr: u32, bytes: &[u8]) -> (r: Vec<DecodedField>)
        requires
            self.all_reachable(None, addr),
            forall|i: int|
                0 <= i < self.regs().len() && covers(#[trigger] self.regs()[i], addr)
                    ==> fields_in_range(self.regs()[i], bytes@),
        ensures
            decoded_view(r@) == decoded_all(self.regs().filter(at_addr(addr)), bytes@),
    {
        let regs = self.registers_for_addr(addr);
        let ghost view = refs_view(regs@);
        proof {
            view_filter_members(self.regs(), at_addr(addr));
        }
        let mut r: Vec<DecodedField> = Vec::new();
        assert(decoded_view(r@) =~= Seq::<DecodedView>::empty());
        let mut i: usize = 0;
        while i < regs.len()
            invariant
                i <= regs.len(),
                view == refs_view(regs@),
                forall|k: int| 0 <= k < view.len() ==> fields_in_range(#[trigger] view[k], bytes@),
                decoded_view(r@) == decoded_all(view.take(i as int), bytes@),
            decreases regs.len() - i,
        {
            assert(view[i as int] == regs@[i as int].view());
            assert(view.take(i + 1).drop_last() =~= view.take(i as int));
            push_decoded(&mut r, regs[i], bytes);
            i += 1;
        }
        assert(view.take(view.len() as int) =~= view);
        r
    }
}

proof fn view_filter_members(regs: Seq<RegView>, pred: spec_fn(RegView) -> bool)
    ensures
        forall|k: int|
            0 <= k < regs.filter(pred).len() ==> pred(#[trigger] regs.filter(pred)[k])
                && regs.contains(regs.filter(pred)[k]),
    decreases regs.len(),
{
    reveal(Seq::filter);
    if regs.len() > 0 {
        view_filter_members(regs.drop_last(), pred);
        let less = regs.drop_last().filter(pred);
        assert forall|k: int| 0 <= k < regs.filter(pred).len() implies pred(
            #[trigger] regs.filter(pred)[k],
        ) && regs.contains(regs.filter(pred)[k]) by {
            if k < less.len() {
                assert(regs.filter(pred)[k] == less[k]);
                let j = choose|j: int|
                    0 <= j < regs.drop_last().len() && regs.drop_last()[j] == less[k];
                assert(regs[j] == less[k]);
            } else {
                assert(regs[regs.len() - 1] == regs.last());
            }
        }
    }
}

proof fn lemma_first_stays<T>(s: Seq<T>, i: int, pred: spec_fn(T) -> bool)
    requires
        0 <= i <= s.len(),
        first_where(s.take(i), pred) is Some,
    ensures
        first_where(s, pred) == first_where(s.take(i), pred),
    decreases s.len() - i,
{
    if i < s.len() {
        lemma_first_step(s, i, pred);
        lemma_first_stays(s, i + 1, pred);
    } else {
        assert(s.take(i) =~= s);
    }
}

/// Appends the fields of a register with their values in `bytes`.
fn push_decoded(out: &mut Vec<DecodedField>, reg: &RegisterInfo, bytes: &[u8])
    requires
        fields_in_range(reg.view(), bytes@),
    ensures
        decoded_view(final(out)@) == decoded_view(old(out)@) + decoded_of(reg.view(), bytes@),
{
    let ghost all = decoded_of(reg.view(), bytes@);
    let ghost before = decoded_view(out@);
    let mut i: usize = 0;
    assert(decoded_view(out@) =~= before + all.take(0));
    while i < reg.fields.len()
        invariant
            i <= reg.fields.len(),
            fields_in_range(reg.view(), bytes@),
            all == decoded_of(reg.view(), bytes@),
            decoded_view(out@) == before + all.take(i as int),
        decreases reg.fields.len() - i,
    {
        let f = &reg.fields[i];
        assert(reg.view().fields[i as int] == f.view());
        let d = DecodedField {
            register: reg_label(reg),
            name: f.name.clone(),
            bit_hi: f.bit_hi,
            bit_lo: f.bit_lo,
            value: extract_field(bytes, f.bit_hi, f.bit_lo),
            desc: f.desc.clone(),
            event: copy_opt(&f.event),
        };
        assert(all[i as int] == d.view());
        let ghost now = out@;
        out.push(d);
        assert(decoded_view(out@) =~= decoded_view(now).push(d.view()));
        assert(before + all.take(i + 1) =~= (before + all.take(i as int)).push(all[i as int]));
        i += 1;
    }
    assert(all.take(all.len() as int) =~= all);
}

/// The first register that satisfies a test on its start and its access.
fn first_reg<'a>(regs: &Vec<&'a RegisterInfo>, addr: Option<u32>, must_write: bool) -> (r: Option<
    &'a RegisterInfo,
>)
    ensures
        (match r {
            Some(r) => Some(r.view()),
            None => None,
        }) == first_where(refs_view(regs@), wanted(addr, must_write)),
{
    let ghost view = refs_view(regs@);
    let ghost pred = wanted(addr, must_write);
    let mut i: usize = 0;
    while i < regs.len()
        invariant
            i <= regs.len(),
            view == refs_view(regs@),
            pred == wanted(addr, must_write),
            first_where(view.take(i as int), pred) is None,
        decreases regs.len() - i,
    {
        let reg = regs[i];
        proof {
            lemma_first_step(view, i as int, pred);
            assert(view[i as int] == reg.view());
        }
        let at = match addr {
            Some(a) => reg.addr == a,
            None => true,
        };
        if at && (!must_write || register_is_writable(reg.access.as_str())) {
            proof {
                lemma_first_stays(view, i + 1, pred);
            }
            return Some(reg);
        }
        i += 1;
    }
    assert(view.take(view.len() as int) =~= view);
    None
}

/// Registers that start at `addr`, if one is given, and are writable, if asked for.
spec fn wanted(addr: Option<u32>, must_write: bool) -> spec_fn(RegView) -> bool {
    |r: RegView| (addr matches Some(a) ==> r.addr == a) && (must_write ==> writable(r.access))
}

fn select_read(regs: &Vec<&RegisterInfo>, addr: u32, label: String) -> (r: Result<
    RegisterReadTarget,
    String,
>)
    ensures
        read_view(r) == read_selection(refs_view(regs@), addr, label@),
{
    assert(wanted(Some(addr), false) =~= starting_at(addr));
    assert(wanted(None, false) =~= any_reg());
    let reg = match first_reg(regs, Some(addr), false) {
        Some(reg) => Some(reg),
        None => first_reg(regs, None, false),
    };
    match reg {
        Some(reg) => register_read_target_from_info(reg),
        None => Ok(RegisterReadTarget { addr, len: 1, label }),
    }
}

fn select_write(regs: &Vec<&RegisterInfo>, addr: u32, label: String) -> (r: Result<
    RegisterWriteTarget,
    String,
>)
    ensures
        write_view(r) == write_selection(refs_view(regs@), addr, label@),
{
    assert(wanted(Some(addr), true) =~= writable_at(addr));
    assert(wanted(None, true) =~= writable_reg());
    let reg = match first_reg(regs, Some(addr), true) {
        Some(reg) => Some(reg),
        None => first_reg(regs, None, true),
    };
    match reg {
        Some(reg) => register_write_target_from_info(reg),
        None => {
            if regs.len() > 0 {
                let mut reason: String = label;
                reason.push_str(" is read-only; write skipped");
                Err(reason)
            } else {
                Ok(RegisterWriteTarget { addr, width: Some(1), label })
            }
        },
    }
}

// ---- laws

/// Marking bytes sets their mark and no other.
pub proof fn law_marks(marks: Map<u32, bool>, addr: u32, n: nat, dumpable: bool, at: u32)
    requires
        addr + n <= 0x1_0000_0000,
    ensures
        ({
            let after = marked(marks, addr, n, dumpable);
            if addr <= at < addr + n {
                after.contains_key(at) && after[at] == dumpable
            } else {
                after.contains_key(at) == marks.contains_key(at) && (marks.contains_key(at)
                    ==> after[at] == marks[at])
            }
        }),
    decreases n,
{
    if n > 0 {
        law_marks(marks, addr, (n - 1) as nat, dumpable, at);
    }
}

/// The list of pages holds every page of a register, and none twice.
pub proof fn law_pages(regs: Seq<RegView>)
    ensures
        pages_of(regs).no_duplicates(),
        forall|page: Seq<char>|
            #[trigger] pages_of(regs).contains(page) <==> exists|i: int|
                0 <= i < regs.len() && (#[trigger] regs[i]).page == page,
    decreases regs.len(),
{
    if regs.len() > 0 {
        let less = regs.drop_last();
        law_pages(less);
        let pages = pages_of(less);
        let last = regs.last().page;
        assert forall|page: Seq<char>| #[trigger] pages_of(regs).contains(page) <==> exists|i: int|
            0 <= i < regs.len() && (#[trigger] regs[i]).page == page by {
            if exists|i: int| 0 <= i < regs.len() && (#[trigger] regs[i]).page == page {
                let i = choose|i: int| 0 <= i < regs.len() && (#[trigger] regs[i]).page == page;
                if i < less.len() {
                    assert(less[i].page == page);
                    assert(pages.contains(page));
                    let j = choose|j: int| 0 <= j < pages.len() && pages[j] == page;
                    assert(pages_of(regs)[j] == page);
                } else {
                    assert(page == last);
                    if !pages.contains(last) {
                        assert(pages_of(regs)[pages.len() as int] == last);
                    }
                }
            }
            if pages_of(regs).contains(page) {
                let j = choose|j: int| 0 <= j < pages_of(regs).len() && pages_of(regs)[j] == page;
                if j < pages.len() {
                    assert(pages.contains(page)) by {
                        assert(pages[j] == page);
                    }
                    let i = choose|i: int|
                        0 <= i < less.len() && (#[trigger] less[i]).page == page;
                    assert(regs[i].page == page);
                } else {
                    assert(regs[regs.len() - 1].page == page);
                }
            }
        }
    }
}

proof fn lemma_first_where_member<T>(s: Seq<T>, pred: spec_fn(T) -> bool)
    ensures
        first_where(s, pred) matches Some(x) ==> pred(x) && s.contains(x),
        first_where(s, pred) is None ==> forall|i: int|
            0 <= i < s.len() ==> !pred(#[trigger] s[i]),
    decreases s.len(),
{
    if s.len() > 0 {
        let less = s.drop_last();
        lemma_first_where_member(less, pred);
        match first_where(less, pred) {
            Some(x) => {
                let i = choose|i: int| 0 <= i < less.len() && less[i] == x;
                assert(s[i] == x);
            },
            None => {
                assert(s[s.len() - 1] == s.last());
                assert forall|i: int| 0 <= i < s.len() && !pred(s.last()) implies !pred(
                    #[trigger] s[i],
                ) by {
                    if i < less.len() {
                        assert(less[i] == s[i]);
                    }
                }
            },
        }
    }
}

/// A read target takes in the selected address, and one request can carry it.
pub proof fn law_read_target_covers(regs: Seq<RegView>, addr: u32, label: Seq<char>)
    requires
        forall|i: int| 0 <= i < regs.len() ==> covers(#[trigger] regs[i], addr),
    ensures
        read_selection(regs, addr, label) matches Ok(t) ==> t.addr <= addr < t.addr + t.len
            && t.len <= CONTROL_MAX_READ_LEN,
{
    lemma_first_where_member(regs, starting_at(addr));
    lemma_first_where_member(regs, any_reg());
}

/// A write target takes in the selected address, and one request can carry it.
pub proof fn law_write_target_covers(regs: Seq<RegView>, addr: u32, label: Seq<char>)
    requires
        forall|i: int| 0 <= i < regs.len() ==> covers(#[trigger] regs[i], addr),
    ensures
        write_selection(regs, addr, label) matches Ok(t) ==> t.width matches Some(w) && t.addr
            <= addr < t.addr + w && w <= CONTROL_MAX_WRITE_LEN,
{
    lemma_first_where_member(regs, writable_at(addr));
    lemma_first_where_member(regs, writable_reg());
}

/// A register that starts at the selected address is preferred to one that
/// only takes it in.
pub proof fn law_read_prefers_start(regs: Seq<RegView>, addr: u32, i: int)
    requires
        0 <= i < regs.len(),
        regs[i].addr == addr,
    ensures
        read_choice(regs, addr) matches Some(r) && r.addr == addr,
{
    lemma_first_where_member(regs, starting_at(addr));
}

/// Registers with one more, unless it is among them already.
pub open spec fn with_register(regs: Seq<RegView>, r: RegView) -> Seq<RegView> {
    if has_register(regs, r.page, r.name, r.addr) {
        regs
    } else {
        regs.push(r)
    }
}

/// A register that was entered is found, and entering it again adds nothing.
pub proof fn law_register_entered_once(regs: Seq<RegView>, r: RegView)
    ensures
        has_register(with_register(regs, r), r.page, r.name, r.addr),
        with_register(with_register(regs, r), r) == with_register(regs, r),
{
    assert(same_register(regs.push(r)[regs.len() as int], r.page, r.name, r.addr));
}

} // verus!
