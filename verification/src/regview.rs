//! Registers and their fields as they are shown.
use crate::bits;
use crate::bits::field_value;
use crate::catalog;
use crate::catalog::{AccessKind, FieldInfo, RegisterInfo};
use crate::catalog::{FieldView, RegView};
use crate::dump;
use crate::report;
use crate::report::{hex_bytes, push_hex_join};
use crate::text;
use crate::text::{chars_of, push_bin, push_dec, push_hex};
use vstd::prelude::*;

verus! {

// ---- values

/// The first register that starts at an address.
pub open spec fn first_at(regs: Seq<RegView>, addr: u32) -> Option<RegView>
    decreases regs.len(),
{
    if regs.len() == 0 {
        None
    } else if regs[0].addr == addr {
        Some(regs[0])
    } else {
        first_at(regs.skip(1), addr)
    }
}

/// How many bytes are shown of an address: those of the register that starts there, else of
/// the first one.
pub open spec fn display_width(regs: Seq<RegView>, addr: u32) -> nat {
    match first_at(regs, addr) {
        Some(r) => dump::reg_bytes(r),
        None => if regs.len() > 0 {
            dump::reg_bytes(regs[0])
        } else {
            1
        },
    }
}

/// How many bytes a register takes.
pub fn width_of(reg: &RegisterInfo) -> (n: usize)
    ensures
        n == dump::reg_bytes(reg.view()),
{
    if reg.width == 0 {
        1
    } else {
        reg.width as usize
    }
}

/// How many bytes are shown of an address.
pub fn register_display_width(regs: &[RegisterInfo], addr: u32) -> (n: usize)
    ensures
        n == display_width(catalog::regs_view(regs@), addr),
{
    let ghost all = catalog::regs_view(regs@);
    let mut i: usize = 0;
    assert(all.skip(0) =~= all);
    while i < regs.len()
        invariant
            i <= regs.len(),
            all == catalog::regs_view(regs@),
            first_at(all, addr) == first_at(all.skip(i as int), addr),
        decreases regs.len() - i,
    {
        assert(all.skip(i as int)[0] == regs@[i as int].view());
        assert(all.skip(i as int).skip(1) =~= all.skip(i + 1));
        if regs[i].addr == addr {
            return width_of(&regs[i]);
        }
        i += 1;
    }
    if regs.len() > 0 {
        assert(all[0] == regs@[0].view());
        width_of(&regs[0])
    } else {
        1
    }
}

/// The bytes of a register as one number, the last byte first.
pub open spec fn number_text(bytes: Seq<u8>) -> Seq<char> {
    "0x"@ + report::hex_join(bytes.reverse(), ""@)
}

/// The bytes of a register as they are shown. Where some are missing, dots follow.
pub open spec fn value_text(bytes: Seq<u8>, expected: nat, no_dump: bool) -> Seq<char> {
    if no_dump {
        "??"@
    } else if bytes.len() == 0 {
        "--"@
    } else if bytes.len() < expected {
        number_text(bytes) + " ..."@
    } else {
        number_text(bytes)
    }
}

fn reversed(bytes: &[u8]) -> (r: Vec<u8>)
    ensures
        r@ == bytes@.reverse(),
{
    let mut r: Vec<u8> = Vec::new();
    let mut i: usize = bytes.len();
    while i > 0
        invariant
            i <= bytes.len(),
            r@ == bytes@.reverse().take(bytes.len() - i),
        decreases i,
    {
        i -= 1;
        r.push(bytes[i]);
        assert(r@ =~= bytes@.reverse().take(bytes.len() - i));
    }
    assert(r@ =~= bytes@.reverse());
    r
}

/// The bytes of a register as they are shown.
pub fn register_value_text(bytes: &[u8], expected_width: usize, no_dump: bool) -> (s: String)
    ensures
        s@ == value_text(bytes@, expected_width as nat, no_dump),
{
    if no_dump {
        return "??".to_owned();
    }
    if bytes.len() == 0 {
        return "--".to_owned();
    }
    let mut s: String = "0x".to_owned();
    push_hex_join(&mut s, &reversed(bytes), "");
    if bytes.len() < expected_width {
        s.push_str(" ...");
    }
    s
}

// ---- fields

/// Whether the bits of a field can be taken out of as many bytes as there are.
pub open spec fn field_ok(f: FieldView, bytes: Seq<u8>) -> bool {
    bytes.len() >= bits::bit_max(f.bit_hi, f.bit_lo) / 8 + 1 ==> bits::field_in_range(
        f.bit_hi,
        f.bit_lo,
    )
}

/// Whether the bits of all fields of a register can be taken out.
pub open spec fn fields_ok(r: RegView, bytes: Seq<u8>) -> bool {
    forall|i: int| 0 <= i < r.fields.len() ==> field_ok(#[trigger] r.fields[i], bytes)
}

/// Whether the bits of all fields of registers can be taken out.
pub open spec fn all_fields_ok(regs: Seq<RegView>, bytes: Seq<u8>) -> bool {
    forall|i: int| 0 <= i < regs.len() ==> fields_ok(#[trigger] regs[i], bytes)
}

/// Whether a field has a value other than zero.
pub open spec fn field_active(f: FieldView, bytes: Seq<u8>) -> bool {
    match bits::field_bits(bytes, f.bit_hi, f.bit_lo) {
        Some(v) => v != 0,
        None => false,
    }
}

/// Whether a field of a register has a value other than zero.
pub open spec fn reg_active(r: RegView, bytes: Seq<u8>) -> bool {
    exists|i: int| 0 <= i < r.fields.len() && field_active(#[trigger] r.fields[i], bytes)
}

/// Whether a field of one of the registers has a value other than zero.
pub open spec fn any_active(regs: Seq<RegView>, bytes: Seq<u8>) -> bool {
    exists|i: int| 0 <= i < regs.len() && reg_active(#[trigger] regs[i], bytes)
}

/// Whether a field has a value other than zero.
pub fn is_field_active(f: &FieldInfo, bytes: &[u8]) -> (r: bool)
    requires
        field_ok(f.view(), bytes@),
    ensures
        r == field_active(f.view(), bytes@),
{
    match field_value(bytes, f.bit_hi, f.bit_lo) {
        Some(v) => v != 0,
        None => false,
    }
}

fn is_reg_active(reg: &RegisterInfo, bytes: &[u8]) -> (r: bool)
    requires
        fields_ok(reg.view(), bytes@),
    ensures
        r == reg_active(reg.view(), bytes@),
{
    let ghost v = reg.view();
    let mut i: usize = 0;
    while i < reg.fields.len()
        invariant
            i <= reg.fields.len(),
            v == reg.view(),
            fields_ok(v, bytes@),
            forall|k: int| 0 <= k < i ==> !field_active(#[trigger] v.fields[k], bytes@),
        decreases reg.fields.len() - i,
    {
        assert(v.fields[i as int] == reg.fields@[i as int].view());
        assert(field_ok(v.fields[i as int], bytes@));
        if is_field_active(&reg.fields[i], bytes) {
            assert(field_active(v.fields[i as int], bytes@));
            return true;
        }
        i += 1;
    }
    false
}

/// Whether something was read, and a field of one of the registers has a value other than zero.
pub fn register_has_active_fields(regs: &[RegisterInfo], bytes: &[u8]) -> (r: bool)
    requires
        bytes@.len() > 0 ==> all_fields_ok(catalog::regs_view(regs@), bytes@),
    ensures
        r == (bytes@.len() > 0 && any_active(catalog::regs_view(regs@), bytes@)),
{
    if bytes.len() == 0 {
        return false;
    }
    let ghost all = catalog::regs_view(regs@);
    let mut i: usize = 0;
    while i < regs.len()
        invariant
            i <= regs.len(),
            bytes@.len() > 0,
            all == catalog::regs_view(regs@),
            all_fields_ok(all, bytes@),
            forall|k: int| 0 <= k < i ==> !reg_active(#[trigger] all[k], bytes@),
        decreases regs.len() - i,
    {
        assert(all[i as int] == regs@[i as int].view());
        assert(fields_ok(all[i as int], bytes@));
        if is_reg_active(&regs[i], bytes) {
            assert(reg_active(all[i as int], bytes@));
            return true;
        }
        i += 1;
    }
    false
}

/// The bits of a field as they are shown.
pub open spec fn bits_text(f: FieldView) -> Seq<char> {
    if f.bit_hi == f.bit_lo {
        text::dec(f.bit_lo as nat)
    } else {
        text::dec(f.bit_hi as nat) + ":"@ + text::dec(f.bit_lo as nat)
    }
}

/// The bits of a field as they are shown.
pub fn field_bit_label(field: &FieldInfo) -> (s: String)
    ensures
        s@ == bits_text(field.view()),
{
    let mut s: String = String::new();
    if field.bit_hi == field.bit_lo {
        push_dec(&mut s, field.bit_lo as u128);
        assert(s@ =~= text::dec(field.bit_lo as nat));
    } else {
        push_dec(&mut s, field.bit_hi as u128);
        s.push_str(":");
        push_dec(&mut s, field.bit_lo as u128);
        assert(s@ =~= text::dec(field.bit_hi as nat) + ":"@ + text::dec(field.bit_lo as nat));
    }
    s
}

/// How many bits a field has.
pub open spec fn bit_width(f: FieldView) -> nat {
    (bits::bit_max(f.bit_hi, f.bit_lo) - bits::bit_min(f.bit_hi, f.bit_lo) + 1) as nat
}

/// The value of a field as it is shown: one bit as it is, more in hexadecimal digits.
pub open spec fn field_text(f: FieldView, bytes: Seq<u8>) -> Seq<char> {
    match bits::field_bits(bytes, f.bit_hi, f.bit_lo) {
        None => "--"@,
        Some(v) => if bit_width(f) == 1 {
            text::dec(v as nat)
        } else {
            "0x"@ + text::hex(v as nat, (bit_width(f) + 3) / 4)
        },
    }
}

fn high(f: &FieldInfo) -> (b: u8)
    ensures
        b == bits::bit_max(f.bit_hi, f.bit_lo),
{
    if f.bit_hi >= f.bit_lo {
        f.bit_hi
    } else {
        f.bit_lo
    }
}

fn low(f: &FieldInfo) -> (b: u8)
    ensures
        b == bits::bit_min(f.bit_hi, f.bit_lo),
{
    if f.bit_hi >= f.bit_lo {
        f.bit_lo
    } else {
        f.bit_hi
    }
}

/// The value of a field as it is shown.
pub fn field_value_text(field: &FieldInfo, bytes: &[u8]) -> (s: String)
    requires
        field_ok(field.view(), bytes@),
    ensures
        s@ == field_text(field.view(), bytes@),
{
    match field_value(bytes, field.bit_hi, field.bit_lo) {
        None => "--".to_owned(),
        Some(v) => {
            let width: usize = high(field) as usize - low(field) as usize + 1;
            if width == 1 {
                text::dec_text(v)
            } else {
                let mut s: String = "0x".to_owned();
                push_hex(&mut s, v, (width + 3) / 4);
                s
            }
        },
    }
}

// ---- what is told of a field

/// What is told of a field.
#[derive(Debug, Clone, PartialEq, Eq)]
pub struct FieldTip {
    pub bits: String,
    pub name: String,
    pub value: String,
    pub event: Option<String>,
    pub desc: Option<String>,
}

/// A text, where there is one.
pub open spec fn filled(s: Seq<char>) -> Option<Seq<char>> {
    if s.len() > 0 {
        Some(s)
    } else {
        None
    }
}

fn if_filled(s: &String) -> (r: Option<String>)
    ensures
        catalog::opt_text(r) == filled(s@),
{
    if chars_of(s.as_str()).len() > 0 {
        Some(s.clone())
    } else {
        None
    }
}

/// The value of a field in words.
pub open spec fn tip_value(f: FieldView, bytes: Seq<u8>) -> Seq<char> {
    "value "@ + field_text(f, bytes) + " ("@ + (match bits::field_bits(bytes, f.bit_hi, f.bit_lo) {
        Some(v) => "decimal "@ + text::dec(v as nat),
        None => "read register first"@,
    }) + ") · width "@ + text::dec(bit_width(f)) + "b · bits "@ + text::dec(
        bits::bit_max(f.bit_hi, f.bit_lo) as nat,
    ) + ":"@ + text::dec(bits::bit_min(f.bit_hi, f.bit_lo) as nat)
}

/// What is told of a field.
pub fn field_tip(field: &FieldInfo, bytes: &[u8]) -> (t: FieldTip)
    requires
        field_ok(field.view(), bytes@),
        bit_width(field.view()) < 256,
    ensures
        t.bits@ == bits_text(field.view()),
        t.name@ == field.name@,
        t.value@ == tip_value(field.view(), bytes@),
        catalog::opt_text(t.event) == (match field.view().event {
            Some(e) => Some("event "@ + e),
            None => None,
        }),
        catalog::opt_text(t.desc) == filled(field.desc@),
{
    let mut value: String = "value ".to_owned();
    value.push_str(field_value_text(field, bytes).as_str());
    value.push_str(" (");
    let note: String = match field_value(bytes, field.bit_hi, field.bit_lo) {
        Some(v) => {
            let mut n: String = "decimal ".to_owned();
            push_dec(&mut n, v);
            n
        },
        None => "read register first".to_owned(),
    };
    value.push_str(note.as_str());
    value.push_str(") · width ");
    push_dec(&mut value, high(field) as u128 - low(field) as u128 + 1);
    value.push_str("b · bits ");
    push_dec(&mut value, high(field) as u128);
    value.push_str(":");
    push_dec(&mut value, low(field) as u128);
    let event: Option<String> = match &field.event {
        Some(e) => {
            let mut s: String = "event ".to_owned();
            s.push_str(e.as_str());
            Some(s)
        },
        None => None,
    };
    FieldTip {
        bits: field_bit_label(field),
        name: field.name.clone(),
        value,
        event,
        desc: if_filled(&field.desc),
    }
}

// ---- what is told of a register

/// A field in what is told of a register.
#[derive(Debug, Clone, PartialEq, Eq)]
pub struct FieldLine {
    pub bits: String,
    pub value: String,
    pub active: bool,
    pub about: String,
}

/// A field in what is told of a register, as a mathematical value.
pub struct FieldLineView {
    pub bits: Seq<char>,
    pub value: Seq<char>,
    pub active: bool,
    pub about: Seq<char>,
}

impl FieldLine {
    pub open spec fn view(self) -> FieldLineView {
        FieldLineView {
            bits: self.bits@,
            value: self.value@,
            active: self.active,
            about: self.about@,
        }
    }
}

/// A field in what is told of a register.
pub open spec fn field_line(f: FieldView, bytes: Seq<u8>) -> FieldLineView {
    FieldLineView {
        bits: bits_text(f),
        value: field_text(f, bytes),
        active: field_active(f, bytes),
        about: if f.desc.len() == 0 {
            f.name
        } else {
            f.name + " - "@ + f.desc
        },
    }
}

/// The fields of a register in what is told of it.
pub open spec fn field_lines(r: RegView, bytes: Seq<u8>) -> Seq<FieldLineView> {
    r.fields.map_values(|f: FieldView| field_line(f, bytes))
}

/// One of the registers at an address.
#[derive(Debug, Clone, PartialEq, Eq)]
pub struct RegisterPart {
    pub desc: Option<String>,
    pub no_dump: Option<String>,
    pub fields: Vec<FieldLine>,
}

/// One of the registers at an address, as a mathematical value.
pub struct RegisterPartView {
    pub desc: Option<Seq<char>>,
    pub no_dump: Option<Seq<char>>,
    pub fields: Seq<FieldLineView>,
}

impl RegisterPart {
    pub open spec fn view(self) -> RegisterPartView {
        RegisterPartView {
            desc: catalog::opt_text(self.desc),
            no_dump: catalog::opt_text(self.no_dump),
            fields: self.fields@.map_values(|l: FieldLine| l.view()),
        }
    }
}

/// One of the registers at an address.
pub open spec fn register_part(r: RegView, bytes: Seq<u8>) -> RegisterPartView {
    RegisterPartView {
        desc: filled(r.desc),
        no_dump: if !r.no_dump {
            None
        } else if r.no_dump_reason.len() == 0 {
            Some("no_dump"@)
        } else {
            Some("no_dump: "@ + r.no_dump_reason)
        },
        fields: field_lines(r, bytes),
    }
}

fn make_field_lines(reg: &RegisterInfo, bytes: &[u8]) -> (v: Vec<FieldLine>)
    requires
        fields_ok(reg.view(), bytes@),
    ensures
        v@.map_values(|l: FieldLine| l.view()) == field_lines(reg.view(), bytes@),
{
    let ghost r = reg.view();
    let mut v: Vec<FieldLine> = Vec::new();
    let mut i: usize = 0;
    while i < reg.fields.len()
        invariant
            i <= reg.fields.len(),
            r == reg.view(),
            fields_ok(r, bytes@),
            v@.len() == i,
            forall|k: int| 0 <= k < i ==> (#[trigger] v@[k]).view() == field_line(r.fields[k], bytes@),
        decreases reg.fields.len() - i,
    {
        let f = &reg.fields[i];
        assert(r.fields[i as int] == f.view());
        assert(field_ok(r.fields[i as int], bytes@));
        let mut about: String = f.name.clone();
        if chars_of(f.desc.as_str()).len() > 0 {
            about.push_str(" - ");
            about.push_str(f.desc.as_str());
        }
        v.push(
            FieldLine {
                bits: field_bit_label(f),
                value: field_value_text(f, bytes),
                active: is_field_active(f, bytes),
                about,
            },
        );
        i += 1;
    }
    assert(v@.map_values(|l: FieldLine| l.view()) =~= field_lines(r, bytes@));
    v
}

fn make_register_part(reg: &RegisterInfo, bytes: &[u8]) -> (p: RegisterPart)
    requires
        fields_ok(reg.view(), bytes@),
    ensures
        p.view() == register_part(reg.view(), bytes@),
{
    let no_dump: Option<String> = if !reg.no_dump {
        None
    } else if chars_of(reg.no_dump_reason.as_str()).len() == 0 {
        Some("no_dump".to_owned())
    } else {
        let mut s: String = "no_dump: ".to_owned();
        s.push_str(reg.no_dump_reason.as_str());
        Some(s)
    };
    RegisterPart { desc: if_filled(&reg.desc), no_dump, fields: make_field_lines(reg, bytes) }
}

/// What is told of an address.
#[derive(Debug, Clone, PartialEq, Eq)]
pub struct RegisterTip {
    pub title: String,
    pub subtitle: String,
    pub value: String,
    pub hint: Option<String>,
    pub parts: Vec<RegisterPart>,
}

/// An address as it is shown.
pub open spec fn addr_text(addr: u32) -> Seq<char> {
    "0x"@ + text::hex(addr as nat, 2)
}

/// An address as it is shown.
pub fn format_addr(addr: u32) -> (s: String)
    ensures
        s@ == addr_text(addr),
{
    let mut s: String = "0x".to_owned();
    push_hex(&mut s, addr as u128, 2);
    s
}

/// The bytes at an address in words.
pub open spec fn tip_bytes(bytes: Seq<u8>, no_dump: bool) -> Seq<char> {
    if no_dump {
        "value ?? (marked no_dump)"@
    } else if bytes.len() == 0 {
        "value -- (not read)"@
    } else if bytes.len() == 1 {
        "value 0x"@ + text::hex(bytes[0] as nat, 2) + " (0b"@ + text::bin(bytes[0] as nat, 8) + ")"@
    } else {
        "value "@ + value_text(bytes, bytes.len(), false)
    }
}

fn format_tip_bytes(bytes: &[u8], no_dump: bool) -> (s: String)
    ensures
        s@ == tip_bytes(bytes@, no_dump),
{
    if no_dump {
        "value ?? (marked no_dump)".to_owned()
    } else if bytes.len() == 0 {
        "value -- (not read)".to_owned()
    } else if bytes.len() == 1 {
        let mut s: String = "value 0x".to_owned();
        push_hex(&mut s, bytes[0] as u128, 2);
        s.push_str(" (0b");
        push_bin(&mut s, bytes[0] as u128, 8);
        s.push_str(")");
        s
    } else {
        let mut s: String = "value ".to_owned();
        s.push_str(register_value_text(bytes, bytes.len(), false).as_str());
        s
    }
}

/// How an address is called: by its first register, else by number.
pub open spec fn tip_title(addr: u32, regs: Seq<RegView>) -> Seq<char> {
    if regs.len() > 0 {
        regs[0].page + "."@ + regs[0].name
    } else {
        addr_text(addr)
    }
}

/// What stands below how an address is called.
pub open spec fn tip_subtitle(addr: u32, regs: Seq<RegView>) -> Seq<char> {
    if regs.len() > 1 {
        addr_text(addr) + " · "@ + text::dec(regs.len()) + " overlapping definitions"@
    } else if regs.len() == 1 {
        addr_text(addr) + " · "@ + regs[0].access + " · "@ + text::dec(dump::reg_bytes(regs[0]))
            + "B"@
    } else {
        "no register metadata"@
    }
}

/// What is told of an address.
pub fn register_tip(addr: u32, regs: &[RegisterInfo], bytes: &[u8], no_dump: bool) -> (t: RegisterTip)
    requires
        all_fields_ok(catalog::regs_view(regs@), bytes@),
    ensures
        t.title@ == tip_title(addr, catalog::regs_view(regs@)),
        t.subtitle@ == tip_subtitle(addr, catalog::regs_view(regs@)),
        t.value@ == tip_bytes(bytes@, no_dump),
        catalog::opt_text(t.hint) == (if regs@.len() == 0 {
            Some("single click selects this numeric address; double click writes one byte"@)
        } else {
            None
        }),
        t.parts@.map_values(|p: RegisterPart| p.view()) == catalog::regs_view(regs@).map_values(
            |r: RegView| register_part(r, bytes@),
        ),
{
    let ghost all = catalog::regs_view(regs@);
    let mut parts: Vec<RegisterPart> = Vec::new();
    let mut i: usize = 0;
    while i < regs.len()
        invariant
            i <= regs.len(),
            all == catalog::regs_view(regs@),
            all_fields_ok(all, bytes@),
            parts@.len() == i,
            forall|k: int|
                0 <= k < i ==> (#[trigger] parts@[k]).view() == register_part(all[k], bytes@),
        decreases regs.len() - i,
    {
        assert(all[i as int] == regs@[i as int].view());
        assert(fields_ok(all[i as int], bytes@));
        parts.push(make_register_part(&regs[i], bytes));
        i += 1;
    }
    assert(parts@.map_values(|p: RegisterPart| p.view()) =~= all.map_values(
        |r: RegView| register_part(r, bytes@),
    ));
    let title: String;
    let mut subtitle: String;
    let mut hint: Option<String> = None;
    if regs.len() > 0 {
        assert(all[0] == regs@[0].view());
        let mut s: String = regs[0].page.clone();
        s.push_str(".");
        s.push_str(regs[0].name.as_str());
        title = s;
        subtitle = format_addr(addr);
        subtitle.push_str(" · ");
        if regs.len() > 1 {
            push_dec(&mut subtitle, regs.len() as u128);
            subtitle.push_str(" overlapping definitions");
        } else {
            subtitle.push_str(regs[0].access.as_str());
            subtitle.push_str(" · ");
            push_dec(&mut subtitle, width_of(&regs[0]) as u128);
            subtitle.push_str("B");
        }
    } else {
        title = format_addr(addr);
        subtitle = "no register metadata".to_owned();
        hint = Some(
            "single click selects this numeric address; double click writes one byte".to_owned(),
        );
    }
    RegisterTip { title, subtitle, value: format_tip_bytes(bytes, no_dump), hint, parts }
}

// ---- cells

/// How a cell is highlighted.
#[derive(Debug, Clone, Copy, PartialEq, Eq, Structural)]
pub enum CellTone {
    Selected,
    NoDump,
    Active,
    HasValue,
    Unknown,
    Plain,
}

/// How the text of a cell is highlighted.
#[derive(Debug, Clone, Copy, PartialEq, Eq, Structural)]
pub enum CellText {
    NoDump,
    HasValue,
    Muted,
}

/// A cell of the grid of addresses.
#[derive(Debug, Clone, PartialEq, Eq)]
pub struct RegisterCell {
    pub label: String,
    pub tone: CellTone,
    pub text: CellText,
}

/// The text of a cell: the first byte, or what stands for it.
pub open spec fn cell_label(bytes: Seq<u8>, no_dump: bool, known: bool) -> Seq<char> {
    if no_dump {
        "??"@
    } else if bytes.len() > 0 {
        text::hex(bytes[0] as nat, 2)
    } else if known {
        "--"@
    } else {
        "··"@
    }
}

/// How a cell is highlighted.
pub open spec fn cell_tone(
    selected: bool,
    no_dump: bool,
    active: bool,
    has_value: bool,
    known: bool,
) -> CellTone {
    if selected {
        CellTone::Selected
    } else if no_dump {
        CellTone::NoDump
    } else if active {
        CellTone::Active
    } else if has_value {
        CellTone::HasValue
    } else if !known {
        CellTone::Unknown
    } else {
        CellTone::Plain
    }
}

/// A cell of the grid of addresses.
pub fn register_cell(
    regs: &[RegisterInfo],
    bytes: &[u8],
    selected: bool,
    no_dump: bool,
    has_value: bool,
) -> (c: RegisterCell)
    requires
        bytes@.len() > 0 ==> all_fields_ok(catalog::regs_view(regs@), bytes@),
    ensures
        c.label@ == cell_label(bytes@, no_dump, regs@.len() > 0),
        c.tone == cell_tone(
            selected,
            no_dump,
            bytes@.len() > 0 && any_active(catalog::regs_view(regs@), bytes@),
            has_value,
            regs@.len() > 0,
        ),
        c.text == (if no_dump {
            CellText::NoDump
        } else if has_value {
            CellText::HasValue
        } else {
            CellText::Muted
        }),
{
    let active: bool = register_has_active_fields(regs, bytes);
    let label: String = if no_dump {
        "??".to_owned()
    } else if bytes.len() > 0 {
        let mut s: String = String::new();
        push_hex(&mut s, bytes[0] as u128, 2);
        assert(s@ =~= text::hex(bytes@[0] as nat, 2));
        s
    } else if regs.len() > 0 {
        "--".to_owned()
    } else {
        "··".to_owned()
    };
    let tone = if selected {
        CellTone::Selected
    } else if no_dump {
        CellTone::NoDump
    } else if active {
        CellTone::Active
    } else if has_value {
        CellTone::HasValue
    } else if regs.len() == 0 {
        CellTone::Unknown
    } else {
        CellTone::Plain
    };
    let text = if no_dump {
        CellText::NoDump
    } else if has_value {
        CellText::HasValue
    } else {
        CellText::Muted
    };
    RegisterCell { label, tone, text }
}

/// The first address and the number of the rows of sixteen addresses that reach up to `max`.
pub fn grid_rows(max: u32) -> (rows: u32)
    ensures
        rows == (if max < 0x0f {
            0x0f
        } else {
            max
        }) / 16 + 1,
{
    let top: u32 = if max < 0x0f {
        0x0f
    } else {
        max
    };
    top / 16 + 1
}

// ---- the selected address

/// A field in the lines on the selected address.
pub open spec fn detail_field(f: FieldView) -> Seq<char> {
    "["@ + bits_text(f) + "] "@ + f.name + (match f.event {
        Some(e) => " event="@ + e,
        None => Seq::empty(),
    }) + " "@ + f.desc
}

/// A register in the lines on the selected address.
pub open spec fn detail_register(r: RegView) -> Seq<Seq<char>> {
    let first = seq![
        r.page + "."@ + r.name + " access="@ + r.access + " width="@ + text::dec(r.width as nat)
            + " "@ + r.desc,
    ];
    let second = if r.no_dump {
        first.push("no_dump: "@ + r.no_dump_reason)
    } else {
        first
    };
    second + r.fields.map_values(|f: FieldView| detail_field(f))
}

/// The registers in the lines on the selected address.
pub open spec fn detail_registers(regs: Seq<RegView>) -> Seq<Seq<char>>
    decreases regs.len(),
{
    if regs.len() == 0 {
        Seq::empty()
    } else {
        detail_registers(regs.drop_last()) + detail_register(regs.last())
    }
}

/// What was last done at the selected address.
pub open spec fn access_text(stored: Option<(AccessKind, Seq<u8>)>) -> Seq<char> {
    match stored {
        Some((AccessKind::Read, _)) => "read"@,
        Some((AccessKind::Write, _)) => "write"@,
        None => "-"@,
    }
}

/// The lines on the selected address.
pub open spec fn detail_lines(
    addr: u32,
    regs: Seq<RegView>,
    stored: Option<(AccessKind, Seq<u8>)>,
    no_dump: bool,
) -> Seq<Seq<char>> {
    let value = if no_dump {
        "??"@
    } else {
        match stored {
            Some((_, data)) => report::hex_text(data),
            None => "--"@,
        }
    };
    let first = "addr "@ + addr_text(addr) + " value "@ + value + " last="@ + access_text(stored);
    if regs.len() == 0 {
        seq![first, "no register metadata"@]
    } else {
        seq![first] + detail_registers(regs)
    }
}

fn push_line(lines: &mut Vec<String>, line: String)
    ensures
        text::texts(final(lines)@) == text::texts(old(lines)@).push(line@),
{
    lines.push(line);
    assert(text::texts(lines@) =~= text::texts(old(lines)@).push(line@));
}

fn format_detail_field(f: &FieldInfo) -> (s: String)
    ensures
        s@ == detail_field(f.view()),
{
    let mut s: String = "[".to_owned();
    s.push_str(field_bit_label(f).as_str());
    s.push_str("] ");
    s.push_str(f.name.as_str());
    let ghost before = s@;
    match &f.event {
        Some(e) => {
            s.push_str(" event=");
            s.push_str(e.as_str());
            assert(s@ =~= before + (" event="@ + e@));
        },
        None => {
            assert(s@ =~= before + Seq::<char>::empty());
        },
    }
    s.push_str(" ");
    s.push_str(f.desc.as_str());
    s
}

fn push_detail_register(lines: &mut Vec<String>, reg: &RegisterInfo)
    ensures
        text::texts(final(lines)@) == text::texts(old(lines)@) + detail_register(reg.view()),
{
    let ghost start = text::texts(lines@);
    let ghost r = reg.view();
    let mut s: String = reg.page.clone();
    s.push_str(".");
    s.push_str(reg.name.as_str());
    s.push_str(" access=");
    s.push_str(reg.access.as_str());
    s.push_str(" width=");
    push_dec(&mut s, reg.width as u128);
    s.push_str(" ");
    s.push_str(reg.desc.as_str());
    push_line(lines, s);
    if reg.no_dump {
        let mut n: String = "no_dump: ".to_owned();
        n.push_str(reg.no_dump_reason.as_str());
        push_line(lines, n);
    }
    let ghost head = text::texts(lines@);
    let ghost add = r.fields.map_values(|f: FieldView| detail_field(f));
    let mut i: usize = 0;
    assert(head + add.take(0) =~= head);
    while i < reg.fields.len()
        invariant
            i <= reg.fields.len(),
            r == reg.view(),
            add == r.fields.map_values(|f: FieldView| detail_field(f)),
            text::texts(lines@) == head + add.take(i as int),
        decreases reg.fields.len() - i,
    {
        assert(r.fields[i as int] == reg.fields@[i as int].view());
        push_line(lines, format_detail_field(&reg.fields[i]));
        assert(add.take(i + 1) =~= add.take(i as int).push(add[i as int]));
        assert(head + add.take(i + 1) =~= (head + add.take(i as int)).push(add[i as int]));
        i += 1;
    }
    assert(add.take(add.len() as int) =~= add);
    assert(text::texts(lines@) =~= start + detail_register(r));
}

/// The lines on the selected address.
pub fn register_detail_lines(
    addr: u32,
    regs: &[RegisterInfo],
    stored: Option<(AccessKind, &[u8])>,
    no_dump: bool,
) -> (lines: Vec<String>)
    ensures
        text::texts(lines@) == detail_lines(
            addr,
            catalog::regs_view(regs@),
            match stored {
                Some((a, d)) => Some((a, d@)),
                None => None,
            },
            no_dump,
        ),
{
    let ghost all = catalog::regs_view(regs@);
    let mut first: String = "addr ".to_owned();
    first.push_str(format_addr(addr).as_str());
    first.push_str(" value ");
    let value: String = if no_dump {
        "??".to_owned()
    } else {
        match stored {
            Some((_, data)) => hex_bytes(data),
            None => "--".to_owned(),
        }
    };
    first.push_str(value.as_str());
    first.push_str(" last=");
    match stored {
        Some((AccessKind::Read, _)) => {
            first.push_str("read");
        },
        Some((AccessKind::Write, _)) => {
            first.push_str("write");
        },
        None => {
            first.push_str("-");
        },
    }
    let mut lines: Vec<String> = Vec::new();
    assert(text::texts(lines@) =~= Seq::<Seq<char>>::empty());
    push_line(&mut lines, first);
    if regs.len() == 0 {
        push_line(&mut lines, "no register metadata".to_owned());
        assert(text::texts(lines@) =~= seq![first@, "no register metadata"@]);
        return lines;
    }
    assert(text::texts(lines@) =~= seq![first@] + detail_registers(all.take(0)));
    let mut i: usize = 0;
    while i < regs.len()
        invariant
            i <= regs.len(),
            all == catalog::regs_view(regs@),
            text::texts(lines@) == seq![first@] + detail_registers(all.take(i as int)),
        decreases regs.len() - i,
    {
        assert(all.take(i + 1).drop_last() =~= all.take(i as int));
        assert(all[i as int] == regs@[i as int].view());
        push_detail_register(&mut lines, &regs[i]);
        assert(text::texts(lines@) =~= seq![first@] + detail_registers(all.take(i + 1)));
        i += 1;
    }
    assert(all.take(all.len() as int) =~= all);
    lines
}

} // verus!
