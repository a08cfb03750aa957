//! What is read, written, dumped and shown of registers.

use vstd::prelude::*;

use crate::bits;
use crate::catalog;
use crate::catalog::{AccessKind, DecodedView, RegView, ReadTargetView, RegisterCatalog, WriteTargetView};
use crate::dump;
use crate::input;
use crate::order;
use crate::page;
use crate::panel;
use crate::panel::CommandView;
use crate::text;

verus! {

// ---- targets

/// How many bytes a register takes: its width, and one where it tells none.
pub open spec fn bytes_of(r: RegView) -> int {
    if r.width == 0 {
        1
    } else {
        r.width as int
    }
}

/// The first item that meets a condition.
pub proof fn law_first_item<T>(s: Seq<T>, pred: spec_fn(T) -> bool, k: int)
    ensures
        0 <= k < s.len() && pred(s[k]) && (forall|j: int| 0 <= j < k ==> !pred(#[trigger] s[j]))
            ==> catalog::first_where(s, pred) == Some(s[k]),
        (forall|j: int| 0 <= j < s.len() ==> !pred(#[trigger] s[j])) ==> catalog::first_where(
            s,
            pred,
        ) is None,
    decreases s.len(),
{
    if s.len() > 0 {
        let less = s.drop_last();
        assert(forall|j: int| 0 <= j < less.len() ==> less[j] == s[j]);
        law_first_item(less, pred, k);
        law_first_item(less, pred, 0);
    }
}

/// A register takes in the addresses from its own on, as many as it has bytes.
pub proof fn law_covered_addresses(r: RegView, a: u32)
    ensures
        catalog::covers(r, a) <==> r.addr <= a && a < r.addr + bytes_of(r),
        dump::reg_has(r, a) <==> r.addr <= a && a < r.addr + bytes_of(r),
        catalog::byte_width(r) == bytes_of(r),
{
}

/// How a register is read: whole, from its own address, unless it is not to be dumped or is too wide
/// for one request.
pub open spec fn reads(r: RegView, t: Result<ReadTargetView, Seq<char>>) -> bool {
    &&& t is Ok <==> !r.no_dump && bytes_of(r) <= 64
    &&& t matches Ok(t) ==> {
        &&& t.addr == r.addr
        &&& t.len == bytes_of(r)
        &&& t.label == r.page + "."@ + r.name
    }
    &&& r.no_dump ==> t == Err::<ReadTargetView, Seq<char>>(
        r.page + "."@ + r.name + " is marked no_dump; read skipped"@,
    )
}

/// What is read for an address among registers: the first one that begins there, else the first one,
/// and one byte where there is none.
pub proof fn law_read_target(regs: Seq<RegView>, addr: u32, label: Seq<char>, k: int)
    ensures
        ({
            let t = catalog::read_selection(regs, addr, label);
            &&& 0 <= k < regs.len() && regs[k].addr == addr && (forall|j: int|
                0 <= j < k ==> (#[trigger] regs[j]).addr != addr) ==> reads(regs[k], t)
            &&& regs.len() > 0 && (forall|j: int|
                0 <= j < regs.len() ==> (#[trigger] regs[j]).addr != addr) ==> reads(regs[0], t)
            &&& regs.len() == 0 ==> t == Ok::<ReadTargetView, Seq<char>>(
                ReadTargetView { addr, len: 1, label },
            )
        }),
{
    law_first_item(regs, catalog::starting_at(addr), k);
    law_first_item(regs, catalog::any_reg(), 0);
}

/// How a register is written: whole, from its own address, unless it is read-only or too wide for
/// one request.
pub open spec fn writes(r: RegView, t: Result<WriteTargetView, Seq<char>>) -> bool {
    &&& t is Ok <==> (r.access.contains('w') || r.access.contains('W')) && bytes_of(r) <= 64
    &&& t matches Ok(t) ==> {
        &&& t.addr == r.addr
        &&& t.width == Some(bytes_of(r) as usize)
        &&& t.label == r.page + "."@ + r.name
    }
}

/// What is written for an address among registers: the first one that begins there and can be
/// written, else the first one that can be written. Where none can, nothing is written; where there
/// is no register, one byte is.
pub proof fn law_write_target(regs: Seq<RegView>, addr: u32, label: Seq<char>, k: int)
    ensures
        ({
            let t = catalog::write_selection(regs, addr, label);
            let open = |r: RegView| r.access.contains('w') || r.access.contains('W');
            &&& 0 <= k < regs.len() && regs[k].addr == addr && open(regs[k]) && (forall|j: int|
                0 <= j < k ==> (#[trigger] regs[j]).addr != addr || !open(regs[j])) ==> writes(
                regs[k],
                t,
            )
            &&& 0 <= k < regs.len() && open(regs[k]) && (forall|j: int|
                0 <= j < k ==> !open(#[trigger] regs[j])) && (forall|j: int|
                0 <= j < regs.len() ==> (#[trigger] regs[j]).addr != addr || !open(regs[j]))
                ==> writes(regs[k], t)
            &&& regs.len() > 0 && (forall|j: int| 0 <= j < regs.len() ==> !open(#[trigger] regs[j]))
                ==> t == Err::<WriteTargetView, Seq<char>>(label + " is read-only; write skipped"@)
            &&& regs.len() == 0 ==> t == Ok::<WriteTargetView, Seq<char>>(
                WriteTargetView { addr, width: Some(1), label },
            )
        }),
{
    law_first_item(regs, catalog::writable_at(addr), k);
    law_first_item(regs, catalog::writable_reg(), k);
}

/// The registers that an address chooses are those of the page, where there is one, that take the
/// address in.
pub proof fn law_chosen_registers(regs: Seq<RegView>, name: Seq<char>, addr: u32)
    ensures
        panel::chosen(regs, None, addr) == regs.filter(
            |r: RegView| r.addr <= addr && addr < r.addr + bytes_of(r),
        ),
        panel::chosen(regs, Some(name), addr) == regs.filter(
            |r: RegView| r.page == name && r.addr <= addr && addr < r.addr + bytes_of(r),
        ),
        panel::page_regs(regs, None) == regs,
        panel::page_regs(regs, Some(name)) == regs.filter(|r: RegView| r.page == name),
{
    assert(catalog::at_addr(addr) =~= |r: RegView| r.addr <= addr && addr < r.addr + bytes_of(r));
    assert(catalog::at_page_addr(name, addr) =~= |r: RegView|
        r.page == name && r.addr <= addr && addr < r.addr + bytes_of(r));
    assert(catalog::of_page(name) =~= |r: RegView| r.page == name);
}

/// The last address of registers is the last byte of one of them, and none goes beyond it.
pub proof fn law_last_address(regs: Seq<RegView>)
    requires
        forall|i: int|
            0 <= i < regs.len() ==> (#[trigger] regs[i]).addr + bytes_of(regs[i]) <= u32::MAX,
    ensures
        catalog::last_addr(regs) is None <==> regs.len() == 0,
        catalog::last_addr(regs) matches Some(m) ==> {
            &&& forall|i: int|
                0 <= i < regs.len() ==> (#[trigger] regs[i]).addr + bytes_of(regs[i]) - 1 <= m
            &&& exists|i: int|
                0 <= i < regs.len() && (#[trigger] regs[i]).addr + bytes_of(regs[i]) - 1 == m
        },
    decreases regs.len(),
{
    if regs.len() > 0 {
        let less = regs.drop_last();
        assert(forall|i: int| 0 <= i < less.len() ==> less[i] == regs[i]);
        law_last_address(less);
        assert(regs[regs.len() - 1] == regs.last());
        let m = catalog::last_addr(regs)->Some_0;
        if m != regs.last().addr + bytes_of(regs.last()) - 1 {
            let before = catalog::last_addr(less)->Some_0;
            let i = choose|i: int|
                0 <= i < less.len() && (#[trigger] less[i]).addr + bytes_of(less[i]) - 1 == before;
            assert(regs[i].addr + bytes_of(regs[i]) - 1 == m);
        }
    }
}

/// A register joins the end of the others unless one of its page, name and address is there.
pub proof fn law_register_joins(regs: Seq<RegView>, r: RegView)
    ensures
        (exists|i: int|
            0 <= i < regs.len() && (#[trigger] regs[i]).page == r.page && regs[i].name == r.name
                && regs[i].addr == r.addr) ==> catalog::with_register(regs, r) == regs,
        (forall|i: int|
            0 <= i < regs.len() ==> (#[trigger] regs[i]).page != r.page || regs[i].name != r.name
                || regs[i].addr != r.addr) ==> catalog::with_register(regs, r) == regs.push(r),
{
    if exists|i: int|
        0 <= i < regs.len() && (#[trigger] regs[i]).page == r.page && regs[i].name == r.name
            && regs[i].addr == r.addr {
        let i = choose|i: int|
            0 <= i < regs.len() && (#[trigger] regs[i]).page == r.page && regs[i].name == r.name
                && regs[i].addr == r.addr;
        assert(catalog::same_register(regs[i], r.page, r.name, r.addr));
    }
}

/// The pages come in the order in which their first registers do.
pub proof fn law_pages_in_order(a: Seq<RegView>, r: RegView)
    ensures
        (exists|i: int| 0 <= i < a.len() && (#[trigger] a[i]).page == r.page) ==> catalog::pages_of(
            a.push(r),
        ) == catalog::pages_of(a),
        (forall|i: int| 0 <= i < a.len() ==> (#[trigger] a[i]).page != r.page) ==> catalog::pages_of(
            a.push(r),
        ) == catalog::pages_of(a).push(r.page),
{
    assert(a.push(r).drop_last() =~= a);
    catalog::law_pages(a);
}

/// The page that is shown stays while there is one of its name; else the first one is shown.
pub proof fn law_shown_page(page: Seq<char>, pages: Seq<Seq<char>>)
    ensures
        panel::kept_page(Some(page), Seq::empty()) is None,
        panel::kept_page(None, Seq::empty()) is None,
        pages.len() > 0 ==> panel::kept_page(None, pages) == Some(pages[0]),
        pages.len() > 0 && !pages.contains(page) ==> panel::kept_page(Some(page), pages) == Some(
            pages[0],
        ),
        pages.contains(page) ==> panel::kept_page(Some(page), pages) == Some(page),
{
}

// ---- values

/// The fields of registers that are decoded from bytes: all fields of each, in their order, each
/// with the value that its bits have.
pub proof fn law_decoded_fields(a: Seq<RegView>, r: RegView, bytes: Seq<u8>, i: int)
    requires
        0 <= i < r.fields.len(),
    ensures
        ({
            let before = catalog::decoded_all(a, bytes);
            let all = catalog::decoded_all(a.push(r), bytes);
            &&& all.len() == before.len() + r.fields.len()
            &&& all.take(before.len() as int) == before
            &&& all[before.len() + i] == (DecodedView {
                register: r.page + "."@ + r.name,
                field: r.fields[i],
                value: bits::extracted(bytes, r.fields[i].bit_hi, r.fields[i].bit_lo),
            })
        }),
        catalog::decoded_all(Seq::empty(), bytes).len() == 0,
{
    assert(a.push(r).drop_last() =~= a);
    let before = catalog::decoded_all(a, bytes);
    assert(catalog::decoded_all(a.push(r), bytes).take(before.len() as int) =~= before);
}

/// Bytes that were seen at an address are known byte by byte, each at its own address and under the
/// access that told it.
pub proof fn law_recorded_byte(
    values: Map<u32, (AccessKind, Seq<u8>)>,
    addr: u32,
    access: AccessKind,
    data: Seq<u8>,
    hidden: spec_fn(u32) -> bool,
    i: int,
)
    requires
        0 <= i < data.len(),
        addr + data.len() <= 0x1_0000_0000,
    ensures
        ({
            let after = panel::recorded(values, addr, access, data, hidden);
            let a = (addr + i) as u32;
            &&& !hidden(a) ==> after.contains_key(a) && after[a] == (access, seq![data[i]])
            &&& hidden(a) && i > 0 ==> after.contains_key(a) == values.contains_key(a) && (
            values.contains_key(a) ==> after[a] == values[a])
            &&& hidden(addr) ==> after.contains_key(addr) && after[addr] == (access, data)
        }),
{
}

/// The bytes of a register whose addresses each have one byte are those bytes in their order.
pub proof fn law_bytes_of_addresses(
    values: Map<u32, (AccessKind, Seq<u8>)>,
    addr: u32,
    width: nat,
    i: int,
)
    requires
        0 <= i < width,
        addr + width <= 0x1_0000_0000,
        forall|k: int|
            0 <= k < width ==> values.contains_key(#[trigger] ((addr + k) as u32)) && values[(addr
                + k) as u32].1.len() == 1,
    ensures
        panel::bytes_at(values, addr, width).len() == width,
        panel::bytes_at(values, addr, width)[i] == values[(addr + i) as u32].1[0],
{
    assert(values.contains_key((addr + 0) as u32));
    lemma_gathered(values, addr, width, i);
    if panel::has_all(values, addr, width) {
        assert(width == 1);
    }
}

proof fn lemma_gathered(
    values: Map<u32, (AccessKind, Seq<u8>)>,
    addr: u32,
    width: nat,
    i: int,
)
    requires
        addr + width <= 0x1_0000_0000,
        forall|k: int|
            0 <= k < width ==> values.contains_key(#[trigger] ((addr + k) as u32)) && values[(addr
                + k) as u32].1.len() == 1,
    ensures
        panel::gathered(values, addr, width).len() == width,
        0 <= i < width ==> panel::gathered(values, addr, width)[i] == values[(addr
            + i) as u32].1[0],
    decreases width,
{
    if width > 0 {
        lemma_gathered(values, addr, (width - 1) as nat, i);
        assert(values.contains_key((addr + (width - 1)) as u32));
    }
}

/// A write that is asked for carries the bytes that were written down, to the target of the address,
/// and only where the target takes as many.
pub proof fn law_asked_write(
    c: RegisterCatalog,
    name: Option<Seq<char>>,
    addr: u32,
    value: Seq<char>,
)
    ensures
        ({
            let r = panel::write_request(c, name, addr, value);
            let bytes = input::write_bytes(value);
            let target = panel::write_target(c, name, addr);
            &&& r is Ok <==> {
                &&& bytes is Ok
                &&& target is Ok
                &&& target->Ok_0.width is None || target->Ok_0.width->Some_0 as nat
                    == bytes->Ok_0.len()
            }
            &&& r matches Ok(command) ==> command == CommandView::WriteRegister(
                target->Ok_0.addr,
                bytes->Ok_0,
                target->Ok_0.label,
            )
            &&& bytes matches Err(e) ==> r == Err::<CommandView, Seq<char>>(e)
            &&& bytes is Ok ==> (target matches Err(e) ==> r == Err::<CommandView, Seq<char>>(e))
        }),
{
}

/// The bytes that an editor of a register begins with: those that are known, as many as the target
/// takes, and one zero where none is.
pub proof fn law_edited_bytes(
    values: Map<u32, (AccessKind, Seq<u8>)>,
    t: WriteTargetView,
    data: Seq<u8>,
)
    requires
        t.width is Some,
        t.width->Some_0 > 0,
        t.addr + t.width->Some_0 <= 0x1_0000_0000,
    ensures
        values.contains_key(t.addr) && values[t.addr].1 == data && data.len() >= t.width->Some_0
            ==> panel::inline_bytes(values, t) == data.take(t.width->Some_0 as int),
        (forall|a: u32| t.addr <= a < t.addr + t.width->Some_0 ==> !#[trigger] values.contains_key(a))
            ==> panel::inline_bytes(values, t) == seq![0u8],
{
    if forall|a: u32| t.addr <= a < t.addr + t.width->Some_0 ==> !#[trigger] values.contains_key(
        a,
    ) {
        lemma_nothing_gathered(values, t.addr, t.width->Some_0 as nat);
        assert(!values.contains_key(t.addr));
    }
}

proof fn lemma_nothing_gathered(values: Map<u32, (AccessKind, Seq<u8>)>, addr: u32, width: nat)
    requires
        addr + width <= 0x1_0000_0000,
        forall|a: u32| addr <= a < addr + width ==> !#[trigger] values.contains_key(a),
    ensures
        panel::gathered(values, addr, width).len() == 0,
    decreases width,
{
    if width > 0 {
        lemma_nothing_gathered(values, addr, (width - 1) as nat);
        assert(!values.contains_key((addr + width - 1) as u32));
    }
}

// ---- dumps

/// A register is dumped where it is not marked against it and can be read.
pub open spec fn dumped(r: RegView) -> bool {
    !r.no_dump && (r.access.len() == 0 || r.access.contains('r') || r.access.contains('R'))
}

/// The addresses that are dumped are those of registers that are dumped, without those of registers
/// that are not.
pub proof fn law_dumped_addresses(regs: Seq<RegView>, a: u32)
    ensures
        dump::wanted(regs).contains(a) <==> {
            &&& exists|i: int|
                0 <= i < regs.len() && dumped(#[trigger] regs[i]) && regs[i].addr <= a && a
                    < regs[i].addr + bytes_of(regs[i])
            &&& forall|i: int|
                0 <= i < regs.len() && !dumped(#[trigger] regs[i]) ==> a < regs[i].addr || a
                    >= regs[i].addr + bytes_of(regs[i])
        },
{
    assert forall|r: RegView| (dump::skip_reason(r) is None) == #[trigger] dumped(r) by {}
    if dump::wanted(regs).contains(a) {
        let i = choose|i: int|
            0 <= i < regs.len() && dump::skip_reason(#[trigger] regs[i]) is None && dump::reg_has(
                regs[i],
                a,
            );
        assert(dumped(regs[i]));
        assert forall|j: int| 0 <= j < regs.len() && !dumped(#[trigger] regs[j]) implies a
            < regs[j].addr || a >= regs[j].addr + bytes_of(regs[j]) by {
            if dump::reg_has(regs[j], a) {
                assert(dump::skip_reason(regs[j]) is Some);
                assert(dump::excluded(regs).contains(a));
            }
        }
    } else if exists|i: int|
        0 <= i < regs.len() && dumped(#[trigger] regs[i]) && regs[i].addr <= a && a < regs[i].addr
            + bytes_of(regs[i]) {
        let i = choose|i: int|
            0 <= i < regs.len() && dumped(#[trigger] regs[i]) && regs[i].addr <= a && a
                < regs[i].addr + bytes_of(regs[i]);
        assert(dump::skip_reason(regs[i]) is None && dump::reg_has(regs[i], a));
        assert(dump::excluded(regs).contains(a));
        let j = choose|j: int|
            0 <= j < regs.len() && dump::skip_reason(#[trigger] regs[j]) is Some && dump::reg_has(
                regs[j],
                a,
            );
        assert(!dumped(regs[j]));
    }
}

/// Each register that is not dumped is told, in the order of the registers, with the reason.
pub proof fn law_told_skips(a: Seq<RegView>, r: RegView)
    ensures
        dump::skipped_texts(Seq::empty()).len() == 0,
        dumped(r) ==> dump::skipped_texts(a.push(r)) == dump::skipped_texts(a),
        !dumped(r) ==> dump::skipped_texts(a.push(r)) == dump::skipped_texts(a).push(
            r.page + "."@ + r.name + "@0x"@ + text::hex(r.addr as nat, 2) + " skipped: "@ + (
            if !r.no_dump {
                "write-only register"@
            } else if r.no_dump_reason.len() == 0 {
                "no_dump=true"@
            } else {
                r.no_dump_reason
            }),
        ),
{
    assert(a.push(r).drop_last() =~= a);
}

/// The ranges of a dump hold every address of the list, and no other.
pub proof fn law_ranges_hold_addresses(list: Seq<u32>, max: nat, a: u32)
    requires
        forall|i: int, j: int| 0 <= i < j < list.len() ==> list[i] < list[j],
        max >= 1,
    ensures
        list.contains(a) <==> exists|k: int|
            0 <= k < dump::grouped(list, max).len() && (#[trigger] dump::grouped(list, max)[k]).0 <= a
                && a < dump::grouped(list, max)[k].0 + dump::grouped(list, max)[k].1,
    decreases list.len(),
{
    let g = dump::grouped(list, max);
    if list.len() > 0 {
        let less = list.drop_last();
        let b = list.last();
        assert(forall|i: int| 0 <= i < less.len() ==> less[i] == list[i]);
        law_ranges_hold_addresses(less, max, a);
        let h = dump::grouped(less, max);
        assert(list.contains(a) <==> less.contains(a) || a == b) by {
            if less.contains(a) {
                let i = choose|i: int| 0 <= i < less.len() && less[i] == a;
                assert(list[i] == a);
            }
            if a == b {
                assert(list[list.len() - 1] == a);
            }
            if list.contains(a) && a != b {
                let i = choose|i: int| 0 <= i < list.len() && list[i] == a;
                assert(less[i] == a);
            }
        }
        if exists|k: int| 0 <= k < h.len() && (#[trigger] h[k]).0 <= a && a < h[k].0 + h[k].1 {
            let k = choose|k: int|
                0 <= k < h.len() && (#[trigger] h[k]).0 <= a && a < h[k].0 + h[k].1;
            assert(g[k].0 <= a && a < g[k].0 + g[k].1);
        }
        assert(g[g.len() - 1].0 <= b && b < g[g.len() - 1].0 + g[g.len() - 1].1);
        if exists|k: int| 0 <= k < g.len() && (#[trigger] g[k]).0 <= a && a < g[k].0 + g[k].1 {
            let k = choose|k: int|
                0 <= k < g.len() && (#[trigger] g[k]).0 <= a && a < g[k].0 + g[k].1;
            if a != b && k < h.len() {
                assert(h[k].0 <= a && a < h[k].0 + h[k].1);
            }
        }
    }
}

/// No range of a dump is longer than one read can be, nor than two bytes can tell, and none is
/// empty.
pub proof fn law_range_limit(max: nat)
    ensures
        1 <= dump::run_limit(max) <= 65535,
        1 <= max <= 65535 ==> dump::run_limit(max) == max,
{
}

/// A dump of a page reads its ranges in their order, each whole.
pub proof fn law_dump_commands(name: Seq<char>, ranges: Seq<(u32, nat)>, k: int)
    requires
        0 <= k < ranges.len(),
        ranges[k].1 <= 65535,
    ensures
        page::dump_commands(name, ranges).len() == ranges.len(),
        page::dump_commands(name, ranges)[k] matches CommandView::ReadRegister(addr, len, label)
            && addr == ranges[k].0 && len == ranges[k].1 && label == name + ".0x"@ + text::hex(
            addr as nat,
            2,
        ) + "+"@ + text::dec(len as nat),
{
}

/// The lines of a dump: what will be read, then each range with its first and last address, then the
/// registers that are left out, of which so many are told.
pub proof fn law_dump_lines(
    name: Seq<char>,
    ranges: Seq<(u32, nat)>,
    skipped: Seq<Seq<char>>,
    k: int,
)
    requires
        0 <= k < ranges.len(),
        ranges[k].1 > 0,
    ensures
        ({
            let lines = page::dump_lines(name, ranges, skipped);
            let n = 1 + ranges.len() as int;
            &&& lines[0] == "dumping active page "@ + name + ": "@ + text::dec(ranges.len())
                + " range(s), "@ + text::dec(page::byte_count(ranges)) + " byte(s), skipped "@
                + text::dec(skipped.len()) + " register(s)"@
            &&& lines[1 + k] == "dump range "@ + name + ".0x"@ + text::hex(ranges[k].0 as nat, 2)
                + "..0x"@ + text::hex((ranges[k].0 + ranges[k].1 - 1) as nat, 2) + " len="@
                + text::dec(ranges[k].1)
            &&& skipped.len() <= 8 ==> lines.skip(n) == skipped
            &&& skipped.len() > 8 ==> {
                &&& lines.len() == n + 9
                &&& lines.subrange(n, n + 8) == skipped.take(8)
                &&& lines.last() == "... "@ + text::dec((skipped.len() - 8) as nat)
                    + " more skipped registers omitted"@
            }
        }),
        page::dump_lines(name, Seq::empty(), skipped) == seq![
            "no readable registers in active page"@,
        ],
{
    let lines = page::dump_lines(name, ranges, skipped);
    let n = 1 + ranges.len() as int;
    assert(lines.skip(n) =~= page::skipped_lines(skipped));
    if skipped.len() > 8 {
        assert(lines.subrange(n, n + 8) =~= skipped.take(8));
    }
}

/// The bytes of ranges are those of each, summed up.
pub proof fn law_byte_count(a: Seq<(u32, nat)>, r: (u32, nat))
    ensures
        page::byte_count(Seq::empty()) == 0,
        page::byte_count(a.push(r)) == page::byte_count(a) + r.1,
{
    assert(a.push(r).drop_last() =~= a);
}

/// Registers are listed by page, those of one page by address, and those of one address by name.
pub proof fn law_register_order(a: RegView, b: RegView)
    ensures
        a.page != b.page ==> page::reg_le(a, b) == order::text_le(a.page, b.page),
        a.page == b.page && a.addr < b.addr ==> page::reg_le(a, b) && !page::reg_le(b, a),
        a.page == b.page && a.addr == b.addr ==> page::reg_le(a, b) == order::text_le(
            a.name,
            b.name,
        ),
{
}

/// How an address is told, with the page where there is one.
pub proof fn law_address_text(name: Seq<char>, addr: u32)
    ensures
        panel::address_label(None, addr) == "0x"@ + text::hex(addr as nat, 2),
        panel::address_label(Some(name), addr) == name + ".0x"@ + text::hex(addr as nat, 2),
{
}

/// Which addresses are not to be read: on a page, those that a register of it that is marked against
/// dumping takes in.
pub proof fn law_unread_addresses(c: RegisterCatalog, name: Seq<char>, addr: u32)
    ensures
        panel::undumpable(c, Some(name), addr) <==> exists|i: int|
            0 <= i < c.regs().len() && (#[trigger] c.regs()[i]).page == name && c.regs()[i].no_dump
                && c.regs()[i].addr <= addr && addr < c.regs()[i].addr + bytes_of(c.regs()[i]),
{
    let regs = c.regs();
    let on = |r: RegView| r.page == name && r.addr <= addr && addr < r.addr + bytes_of(r);
    law_chosen_registers(regs, name, addr);
    let chosen = regs.filter(on);
    lemma_filter(regs, on);
    let un = catalog::undumpable_reg();
    if forall|j: int| 0 <= j < chosen.len() ==> !un(#[trigger] chosen[j]) {
        law_first_item(chosen, un, 0);
        if exists|i: int|
            0 <= i < regs.len() && (#[trigger] regs[i]).page == name && regs[i].no_dump
                && regs[i].addr <= addr && addr < regs[i].addr + bytes_of(regs[i]) {
            let i = choose|i: int|
                0 <= i < regs.len() && (#[trigger] regs[i]).page == name && regs[i].no_dump
                    && regs[i].addr <= addr && addr < regs[i].addr + bytes_of(regs[i]);
            assert(on(regs[i]));
            assert(chosen.contains(regs[i]));
            let j = choose|j: int| 0 <= j < chosen.len() && chosen[j] == regs[i];
            assert(un(chosen[j]));
        }
    } else {
        let j = choose|j: int| 0 <= j < chosen.len() && un(#[trigger] chosen[j]);
        lemma_some_first(chosen, un, j);
        assert(chosen.contains(chosen[j]));
        let i = choose|i: int| 0 <= i < regs.len() && regs[i] == chosen[j];
        assert(regs[i].page == name && regs[i].no_dump);
    }
}

proof fn lemma_some_first<T>(s: Seq<T>, pred: spec_fn(T) -> bool, j: int)
    requires
        0 <= j < s.len(),
        pred(s[j]),
    ensures
        catalog::first_where(s, pred) is Some,
    decreases s.len(),
{
    if j < s.len() - 1 {
        assert(s.drop_last()[j] == s[j]);
        lemma_some_first(s.drop_last(), pred, j);
    }
}

proof fn lemma_filter<T>(s: Seq<T>, pred: spec_fn(T) -> bool)
    ensures
        forall|x: T| #[trigger] s.filter(pred).contains(x) <==> s.contains(x) && pred(x),
{
    assert forall|x: T| #[trigger] s.filter(pred).contains(x) <==> s.contains(x) && pred(x) by {
        if s.contains(x) && pred(x) {
            let i = choose|i: int| 0 <= i < s.len() && s[i] == x;
            s.lemma_filter_contains(pred, i);
        }
        if s.filter(pred).contains(x) {
            s.lemma_filter_contains_rev(pred, x);
            let i = choose|i: int| 0 <= i < s.filter(pred).len() && s.filter(pred)[i] == x;
            s.lemma_filter_pred(pred, i);
        }
    }
}

/// What is read at an address: nothing where a register there is marked against it, and else what
/// the registers there, or their lack, tell.
pub proof fn law_read_at_an_address(c: RegisterCatalog, name: Option<Seq<char>>, addr: u32)
    ensures
        panel::undumpable(c, name, addr) ==> panel::read_target(c, name, addr) == Err::<
            ReadTargetView,
            Seq<char>,
        >(panel::address_label(name, addr) + " is marked no_dump; read skipped"@),
        !panel::undumpable(c, name, addr) ==> panel::read_target(c, name, addr)
            == catalog::read_selection(
            panel::chosen(c.regs(), name, addr),
            addr,
            panel::address_label(name, addr),
        ),
        panel::write_target(c, name, addr) == catalog::write_selection(
            panel::chosen(c.regs(), name, addr),
            addr,
            panel::address_label(name, addr),
        ),
{
}

/// How many bytes a write takes: those that its target tells, and one where it tells none.
pub proof fn law_target_width(t: WriteTargetView)
    ensures
        t.width is None ==> panel::target_width(t) == 1,
        t.width == Some(0usize) ==> panel::target_width(t) == 1,
        t.width matches Some(w) ==> (w > 0 ==> panel::target_width(t) == w),
        panel::has_all(Map::empty(), t.addr, panel::target_width(t)) == false,
{
}

/// Why a register is not read or written as a whole: it is too wide.
pub proof fn law_too_wide(r: RegView)
    requires
        !r.no_dump,
        r.access.contains('w'),
        65535 >= r.width,
        r.width > 64,
    ensures
        catalog::read_target_of(r) == Err::<ReadTargetView, Seq<char>>(
            r.page + "."@ + r.name + " width "@ + text::dec(r.width as nat)
                + " exceeds control read limit "@ + text::dec(64),
        ),
        catalog::write_target_of(r) == Err::<WriteTargetView, Seq<char>>(
            r.page + "."@ + r.name + " width "@ + text::dec(r.width as nat)
                + " exceeds control write limit "@ + text::dec(64),
        ),
{
}

} // verus!
