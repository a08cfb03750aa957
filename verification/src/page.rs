//! A page of registers as a whole: dumping it, and listing it.
use crate::catalog;
use crate::catalog::{RegView, RegisterInfo};
use crate::dump;
use crate::dump::{register_dump_ranges, RegisterDumpRange};
use crate::order;
use crate::order::is_text_le;
use crate::panel;
use crate::panel::{CommandView, RegisterPanel};
use crate::session::SessionCommand;
use crate::text;
use crate::text::{push_dec, push_hex, same_text};
use crate::wire::CONTROL_MAX_READ_LEN;
use vstd::prelude::*;

verus! {

// ---- dumping

/// How many registers that are not dumped are told of one by one.
pub const SKIPPED_SHOWN: usize = 8;

/// What is asked of the device to dump a page, and what is told of it.
#[derive(Debug, Clone, PartialEq, Eq)]
pub struct PageDump {
    pub lines: Vec<String>,
    pub commands: Vec<SessionCommand>,
}

/// How many bytes ranges have together.
pub open spec fn byte_count(ranges: Seq<(u32, nat)>) -> nat
    decreases ranges.len(),
{
    if ranges.len() == 0 {
        0
    } else {
        byte_count(ranges.drop_last()) + ranges.last().1
    }
}

/// What is told of a range.
pub open spec fn range_line(page: Seq<char>, r: (u32, nat)) -> Seq<char> {
    "dump range "@ + page + ".0x"@ + text::hex(r.0 as nat, 2) + "..0x"@ + text::hex(
        (r.0 + r.1 - 1) as nat,
        2,
    ) + " len="@ + text::dec(r.1)
}

/// The command that reads a range.
pub open spec fn range_command(page: Seq<char>, r: (u32, nat)) -> CommandView {
    CommandView::ReadRegister(
        r.0,
        r.1 as u16,
        page + ".0x"@ + text::hex(r.0 as nat, 2) + "+"@ + text::dec(r.1),
    )
}

/// What is told of the registers that are not dumped: of the first few, and how many are left.
pub open spec fn skipped_lines(skipped: Seq<Seq<char>>) -> Seq<Seq<char>> {
    if skipped.len() > SKIPPED_SHOWN {
        skipped.take(SKIPPED_SHOWN as int).push(
            "... "@ + text::dec((skipped.len() - SKIPPED_SHOWN) as nat)
                + " more skipped registers omitted"@,
        )
    } else {
        skipped
    }
}

/// What is told of a dump.
pub open spec fn dump_lines(
    page: Seq<char>,
    ranges: Seq<(u32, nat)>,
    skipped: Seq<Seq<char>>,
) -> Seq<Seq<char>> {
    if ranges.len() == 0 {
        seq!["no readable registers in active page"@]
    } else {
        seq![
            "dumping active page "@ + page + ": "@ + text::dec(ranges.len()) + " range(s), "@
                + text::dec(byte_count(ranges)) + " byte(s), skipped "@ + text::dec(skipped.len())
                + " register(s)"@,
        ] + ranges.map_values(|r: (u32, nat)| range_line(page, r)) + skipped_lines(skipped)
    }
}

/// The commands of a dump.
pub open spec fn dump_commands(page: Seq<char>, ranges: Seq<(u32, nat)>) -> Seq<CommandView> {
    ranges.map_values(|r: (u32, nat)| range_command(page, r))
}

/// What commands stand for.
pub open spec fn command_views(commands: Seq<SessionCommand>) -> Seq<CommandView> {
    commands.map_values(|c: SessionCommand| c.view())
}

/// How the page of a panel is called.
pub open spec fn page_label(page: Option<Seq<char>>) -> Seq<char> {
    match page {
        Some(p) => p,
        None => "registers"@,
    }
}

fn count_bytes(ranges: &[RegisterDumpRange]) -> (n: u128)
    ensures
        n == byte_count(dump::range_views(ranges@)),
{
    let ghost v = dump::range_views(ranges@);
    let mut n: u128 = 0;
    let mut i: usize = 0;
    while i < ranges.len()
        invariant
            i <= ranges.len(),
            v == dump::range_views(ranges@),
            n == byte_count(v.take(i as int)),
            n <= i * 0xffff,
        decreases ranges.len() - i,
    {
        assert(v.take(i + 1).drop_last() =~= v.take(i as int));
        assert(v[i as int].1 == ranges@[i as int].len as nat);
        assert(i * 0xffff + 0xffff <= 0xffff_ffff_ffff_ffff * 0xffff) by (nonlinear_arith)
            requires
                i + 1 <= 0xffff_ffff_ffff_ffff,
        ;
        assert((i + 1) * 0xffff == i * 0xffff + 0xffff) by (nonlinear_arith);
        n += ranges[i].len as u128;
        i += 1;
    }
    assert(v.take(v.len() as int) =~= v);
    n
}

fn push_line(lines: &mut Vec<String>, line: String)
    ensures
        text::texts(final(lines)@) == text::texts(old(lines)@).push(line@),
{
    lines.push(line);
    assert(text::texts(lines@) =~= text::texts(old(lines)@).push(line@));
}

fn push_range_lines(lines: &mut Vec<String>, page: &str, ranges: &[RegisterDumpRange])
    requires
        forall|i: int| 0 <= i < ranges@.len() ==> (#[trigger] ranges@[i]).len >= 1,
    ensures
        text::texts(final(lines)@) == text::texts(old(lines)@) + dump::range_views(
            ranges@,
        ).map_values(|r: (u32, nat)| range_line(page@, r)),
{
    let ghost before = text::texts(lines@);
    let ghost v = dump::range_views(ranges@);
    let ghost all = v.map_values(|r: (u32, nat)| range_line(page@, r));
    let mut i: usize = 0;
    assert(before + all.take(0) =~= before);
    while i < ranges.len()
        invariant
            i <= ranges.len(),
            v == dump::range_views(ranges@),
            all == v.map_values(|r: (u32, nat)| range_line(page@, r)),
            forall|i: int| 0 <= i < ranges@.len() ==> (#[trigger] ranges@[i]).len >= 1,
            text::texts(lines@) == before + all.take(i as int),
        decreases ranges.len() - i,
    {
        let start: u32 = ranges[i].start;
        let len: u16 = ranges[i].len;
        assert(v[i as int] == (start, len as nat));
        let mut s: String = "dump range ".to_owned();
        s.push_str(page);
        s.push_str(".0x");
        push_hex(&mut s, start as u128, 2);
        s.push_str("..0x");
        push_hex(&mut s, start as u128 + len as u128 - 1, 2);
        s.push_str(" len=");
        push_dec(&mut s, len as u128);
        push_line(lines, s);
        assert(all.take(i + 1) =~= all.take(i as int).push(all[i as int]));
        assert(before + all.take(i + 1) =~= (before + all.take(i as int)).push(all[i as int]));
        i += 1;
    }
    assert(all.take(all.len() as int) =~= all);
}

fn push_skipped_lines(lines: &mut Vec<String>, skipped: &[String])
    ensures
        text::texts(final(lines)@) == text::texts(old(lines)@) + skipped_lines(
            text::texts(skipped@),
        ),
{
    let ghost before = text::texts(lines@);
    let ghost all = text::texts(skipped@);
    let n: usize = if skipped.len() < SKIPPED_SHOWN {
        skipped.len()
    } else {
        SKIPPED_SHOWN
    };
    let mut i: usize = 0;
    assert(before + all.take(0) =~= before);
    while i < n
        invariant
            i <= n <= skipped.len(),
            all == text::texts(skipped@),
            text::texts(lines@) == before + all.take(i as int),
        decreases n - i,
    {
        assert(all[i as int] == skipped@[i as int]@);
        push_line(lines, skipped[i].clone());
        assert(before + all.take(i + 1) =~= (before + all.take(i as int)).push(all[i as int]));
        i += 1;
    }
    if skipped.len() > SKIPPED_SHOWN {
        let mut s: String = "... ".to_owned();
        push_dec(&mut s, (skipped.len() - SKIPPED_SHOWN) as u128);
        s.push_str(" more skipped registers omitted");
        push_line(lines, s);
    }
    assert(text::texts(lines@) =~= before + skipped_lines(all));
}

fn make_commands(page: &str, ranges: &[RegisterDumpRange]) -> (commands: Vec<SessionCommand>)
    ensures
        command_views(commands@) == dump_commands(page@, dump::range_views(ranges@)),
{
    let mut commands: Vec<SessionCommand> = Vec::new();
    let mut i: usize = 0;
    while i < ranges.len()
        invariant
            i <= ranges.len(),
            commands@.len() == i,
            forall|k: int|
                0 <= k < i ==> (#[trigger] commands@[k]).view() == range_command(
                    page@,
                    (ranges@[k].start, ranges@[k].len as nat),
                ),
        decreases ranges.len() - i,
    {
        let mut label: String = page.to_owned();
        label.push_str(".0x");
        push_hex(&mut label, ranges[i].start as u128, 2);
        label.push_str("+");
        push_dec(&mut label, ranges[i].len as u128);
        commands.push(
            SessionCommand::ReadRegister { addr: ranges[i].start, len: ranges[i].len, label },
        );
        i += 1;
    }
    assert(command_views(commands@) =~= dump_commands(page@, dump::range_views(ranges@)));
    commands
}

impl RegisterPanel {
    /// The registers of the page.
    pub open spec fn shown_regs(&self) -> Seq<RegView> {
        panel::page_regs(self.catalog.regs(), self.page_view())
    }

    /// What is asked of the device to dump the page, and what is told of it.
    pub fn request_active_register_page_dump(&self) -> (d: PageDump)
        requires
            forall|i: int|
                0 <= i < self.shown_regs().len() ==> dump::reg_fits(
                    #[trigger] self.shown_regs()[i],
                ),
        ensures
            exists|list: Seq<u32>| #[trigger]
                dump::lists(list, dump::wanted(self.shown_regs())) && {
                    let ranges = dump::grouped(list, CONTROL_MAX_READ_LEN as nat);
                    let label = page_label(self.page_view());
                    &&& text::texts(d.lines@) == dump_lines(
                        label,
                        ranges,
                        dump::skipped_texts(self.shown_regs()),
                    )
                    &&& command_views(d.commands@) == dump_commands(label, ranges)
                },
    {
        let page: String = match &self.page {
            Some(p) => p.clone(),
            None => "registers".to_owned(),
        };
        let regs = self.active_register_page_registers();
        proof {
            assert forall|i: int| 0 <= i < regs@.len() implies dump::reg_fits(
                (#[trigger] regs@[i]).view(),
            ) by {
                assert(self.shown_regs()[i] == regs@[i].view());
            }
        }
        let (ranges, skipped) = register_dump_ranges(&regs, CONTROL_MAX_READ_LEN);
        let ghost v = dump::range_views(ranges@);
        let ghost list = choose|list: Seq<u32>| #[trigger]
            dump::lists(list, dump::wanted(self.shown_regs())) && v == dump::grouped(
                list,
                CONTROL_MAX_READ_LEN as nat,
            );
        let commands = make_commands(page.as_str(), &ranges);
        let mut lines: Vec<String> = Vec::new();
        assert(text::texts(lines@) =~= Seq::<Seq<char>>::empty());
        if ranges.len() == 0 {
            push_line(&mut lines, "no readable registers in active page".to_owned());
            assert(text::texts(lines@) =~= seq!["no readable registers in active page"@]);
            return PageDump { lines, commands };
        }
        let mut s: String = "dumping active page ".to_owned();
        s.push_str(page.as_str());
        s.push_str(": ");
        push_dec(&mut s, ranges.len() as u128);
        s.push_str(" range(s), ");
        push_dec(&mut s, count_bytes(&ranges));
        s.push_str(" byte(s), skipped ");
        push_dec(&mut s, skipped.len() as u128);
        s.push_str(" register(s)");
        push_line(&mut lines, s);
        assert(text::texts(lines@) =~= seq![s@]);
        proof {
            dump::law_runs(list, CONTROL_MAX_READ_LEN as nat);
            assert forall|i: int| 0 <= i < ranges@.len() implies (#[trigger] ranges@[i]).len >= 1 by {
                assert(v[i].1 == ranges@[i].len as nat);
            }
        }
        push_range_lines(&mut lines, page.as_str(), &ranges);
        push_skipped_lines(&mut lines, &skipped);
        PageDump { lines, commands }
    }
}

// ---- listing

/// Whether a register is listed before another, or could be: by page, address and name.
pub open spec fn reg_le(a: RegView, b: RegView) -> bool {
    if a.page != b.page {
        order::text_le(a.page, b.page)
    } else if a.addr != b.addr {
        a.addr < b.addr
    } else {
        order::text_le(a.name, b.name)
    }
}

/// A register put into an ordered list, behind those that may stand before it.
pub open spec fn reg_inserted(list: Seq<RegView>, r: RegView) -> Seq<RegView>
    decreases list.len(),
{
    if list.len() == 0 {
        seq![r]
    } else if reg_le(list.last(), r) {
        list.push(r)
    } else {
        reg_inserted(list.drop_last(), r).push(list.last())
    }
}

/// Registers by page, address and name. Those that are alike in that stay in their order.
pub open spec fn reg_ordered(list: Seq<RegView>) -> Seq<RegView>
    decreases list.len(),
{
    if list.len() == 0 {
        Seq::empty()
    } else {
        reg_inserted(reg_ordered(list.drop_last()), list.last())
    }
}

/// Whether registers are listed by page, address and name.
pub open spec fn regs_in_order(list: Seq<RegView>) -> bool {
    forall|i: int, j: int| 0 <= i <= j < list.len() ==> reg_le(#[trigger] list[i], #[trigger] list[j])
}

proof fn lemma_reg_le_total(a: RegView, b: RegView)
    ensures
        reg_le(a, b) || reg_le(b, a),
        reg_le(a, a),
{
    order::law_text_le_total(a.page, b.page);
    order::law_text_le_total(a.name, b.name);
    order::law_text_le_total(a.name, a.name);
}

proof fn lemma_reg_le_transitive(a: RegView, b: RegView, c: RegView)
    requires
        reg_le(a, b),
        reg_le(b, c),
    ensures
        reg_le(a, c),
{
    if a.page != b.page && b.page != c.page {
        order::law_text_le_transitive(a.page, b.page, c.page);
        if a.page == c.page {
            order::law_text_le_total(a.page, b.page);
        }
    } else if a.page == b.page && b.page == c.page && a.addr == b.addr && b.addr == c.addr {
        order::law_text_le_transitive(a.name, b.name, c.name);
    }
}

proof fn lemma_reg_below(list: Seq<RegView>, r: RegView, top: RegView)
    requires
        reg_le(r, top),
        forall|i: int| 0 <= i < list.len() ==> reg_le(#[trigger] list[i], top),
    ensures
        forall|i: int|
            0 <= i < reg_inserted(list, r).len() ==> reg_le(#[trigger] reg_inserted(list, r)[i], top),
    decreases list.len(),
{
    let all = reg_inserted(list, r);
    if list.len() > 0 && !reg_le(list.last(), r) {
        let rest = list.drop_last();
        assert forall|i: int| 0 <= i < rest.len() implies reg_le(#[trigger] rest[i], top) by {
            assert(rest[i] == list[i]);
        }
        lemma_reg_below(rest, r, top);
        let q = reg_inserted(rest, r);
        assert forall|i: int| 0 <= i < all.len() implies reg_le(#[trigger] all[i], top) by {
            if i < q.len() {
                assert(all[i] == q[i]);
            } else {
                assert(list[list.len() - 1] == all[i]);
            }
        }
    } else if list.len() > 0 {
        assert forall|i: int| 0 <= i < all.len() implies reg_le(#[trigger] all[i], top) by {
            if i < list.len() {
                assert(all[i] == list[i]);
            }
        }
    }
}

proof fn lemma_reg_inserted(list: Seq<RegView>, r: RegView)
    requires
        regs_in_order(list),
    ensures
        regs_in_order(reg_inserted(list, r)),
        reg_inserted(list, r).to_multiset() == list.to_multiset().insert(r),
    decreases list.len(),
{
    broadcast use vstd::seq_lib::group_to_multiset_ensures;
    let all = reg_inserted(list, r);
    lemma_reg_le_total(r, r);
    if list.len() == 0 {
        assert(all =~= list.push(r));
    } else if reg_le(list.last(), r) {
        assert forall|i: int, j: int| 0 <= i <= j < all.len() implies reg_le(
            #[trigger] all[i],
            #[trigger] all[j],
        ) by {
            if j == list.len() && i < j {
                lemma_reg_le_transitive(list[i], list.last(), r);
            }
        }
    } else {
        let rest = list.drop_last();
        assert(regs_in_order(rest));
        lemma_reg_inserted(rest, r);
        lemma_reg_le_total(list.last(), r);
        lemma_reg_below(rest, r, list.last());
        let q = reg_inserted(rest, r);
        assert forall|i: int, j: int| 0 <= i <= j < all.len() implies reg_le(
            #[trigger] all[i],
            #[trigger] all[j],
        ) by {
            if j == q.len() && i < j {
                assert(reg_le(q[i], list.last()));
            }
        }
        assert(list =~= rest.push(list.last()));
        assert(all.to_multiset() =~= q.to_multiset().insert(list.last()));
        assert(list.to_multiset() =~= rest.to_multiset().insert(list.last()));
        assert(all.to_multiset() =~= list.to_multiset().insert(r));
    }
}

/// Listing registers keeps them all and puts them in order.
pub proof fn law_reg_ordered(list: Seq<RegView>)
    ensures
        regs_in_order(reg_ordered(list)),
        reg_ordered(list).to_multiset() == list.to_multiset(),
    decreases list.len(),
{
    broadcast use vstd::seq_lib::group_to_multiset_ensures;
    if list.len() > 0 {
        law_reg_ordered(list.drop_last());
        lemma_reg_inserted(reg_ordered(list.drop_last()), list.last());
        assert(list =~= list.drop_last().push(list.last()));
        assert(list.to_multiset() =~= list.drop_last().to_multiset().insert(list.last()));
    } else {
        assert(reg_ordered(list) =~= list);
    }
}

fn is_reg_le(a: &RegisterInfo, b: &RegisterInfo) -> (r: bool)
    ensures
        r == reg_le(a.view(), b.view()),
{
    if !same_text(a.page.as_str(), b.page.as_str()) {
        is_text_le(a.page.as_str(), b.page.as_str())
    } else if a.addr != b.addr {
        a.addr < b.addr
    } else {
        is_text_le(a.name.as_str(), b.name.as_str())
    }
}

fn insert_reg(list: &mut Vec<RegisterInfo>, r: RegisterInfo)
    ensures
        catalog::regs_view(final(list)@) == reg_inserted(catalog::regs_view(old(list)@), r.view()),
{
    let ghost before = catalog::regs_view(list@);
    let mut k: usize = list.len();
    assert(before.take(k as int) =~= before);
    while k > 0 && !is_reg_le(&list[k - 1], &r)
        invariant
            k <= list.len(),
            before == catalog::regs_view(list@),
            reg_inserted(before, r.view()) == reg_inserted(before.take(k as int), r.view())
                + before.skip(k as int),
        decreases k,
    {
        proof {
            let here = before.take(k as int);
            assert(here.last() == list@[k - 1].view());
            assert(here.drop_last() =~= before.take(k - 1));
            let q = reg_inserted(before.take(k - 1), r.view());
            assert(q.push(here.last()) + before.skip(k as int) =~= q + before.skip(k - 1));
        }
        k -= 1;
    }
    proof {
        let here = before.take(k as int);
        if k > 0 {
            assert(here.last() == list@[k - 1].view());
        } else {
            assert(here.push(r.view()) =~= seq![r.view()]);
        }
        assert(reg_inserted(here, r.view()) == here.push(r.view()));
    }
    let ghost v = r.view();
    list.insert(k, r);
    assert(catalog::regs_view(list@) =~= before.take(k as int).push(v) + before.skip(k as int));
}

impl RegisterPanel {
    /// The registers of the page by page, address and name.
    pub fn listed_registers(&self) -> (list: Vec<RegisterInfo>)
        ensures
            catalog::regs_view(list@) == reg_ordered(self.shown_regs()),
    {
        let regs = self.active_register_page_registers();
        let ghost all = catalog::regs_view(regs@);
        let mut list: Vec<RegisterInfo> = Vec::new();
        let mut i: usize = 0;
        assert(catalog::regs_view(list@) =~= reg_ordered(all.take(0)));
        while i < regs.len()
            invariant
                i <= regs.len(),
                all == catalog::regs_view(regs@),
                catalog::regs_view(list@) == reg_ordered(all.take(i as int)),
            decreases regs.len() - i,
        {
            assert(all.take(i + 1).drop_last() =~= all.take(i as int));
            assert(all[i as int] == regs@[i as int].view());
            insert_reg(&mut list, regs[i].copy());
            i += 1;
        }
        assert(all.take(all.len() as int) =~= all);
        list
    }
}

} // verus!
