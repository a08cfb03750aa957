//! Which addresses are read when a page of registers is dumped.
use crate::catalog;
use crate::catalog::RegisterInfo;
use crate::catalog::RegView;
use crate::text;
use crate::text::{chars_of, has_char, push_hex};
use std::collections::BTreeSet;
use vstd::prelude::*;

verus! {

broadcast use {vstd::std_specs::btree::group_btree_axioms, vstd::laws_cmp::group_laws_cmp};

/// Whether a list goes up.
pub open spec fn increasing(list: Seq<u32>) -> bool {
    forall|i: int, j: int| 0 <= i < j < list.len() ==> list[i] < list[j]
}

broadcast proof fn lemma_goes_up(s: Seq<&u32>)
    requires
        #[trigger] vstd::std_specs::btree::increasing_seq(s),
    ensures
        forall|i: int, j: int|
            0 <= i < j < s.len() ==> *(#[trigger] s[i]) < *(#[trigger] s[j]),
{
    assert(vstd::laws_cmp::obeys_cmp::<&u32>());
    assert forall|i: int, j: int| 0 <= i < j < s.len() implies *(#[trigger] s[i])
        < *(#[trigger] s[j]) by {
        assert(vstd::std_specs::cmp::OrdSpec::cmp_spec(&s[i], &s[j]) is Less);
        assert(vstd::std_specs::cmp::OrdSpec::cmp_spec(s[i], s[j]) is Less);
    }
}

fn in_increasing_order(set: &BTreeSet<u32>) -> (list: Vec<u32>)
    ensures
        increasing(list@),
        list@.to_set() == set@,
{
    let mut list: Vec<u32> = Vec::new();
    for k in it: set.iter()
        invariant
            it.seq().unref().to_set() == set@,
            vstd::std_specs::btree::increasing_seq(it.seq()),
            list@ == it.seq().unref().take(it.index() as int),
            increasing(list@),
            it.index() == it.seq().len() ==> list@.to_set() == set@,
    {
        broadcast use lemma_goes_up;

        assert(forall|i: int, j: int|
            0 <= i < j < it.seq().len() ==> *(#[trigger] it.seq()[i]) < *(#[trigger] it.seq()[j]));
        list.push(*k);
        assert(list@ =~= it.seq().unref().take(it.index() + 1));
        assert(it.index() + 1 == it.seq().len() ==> list@ =~= it.seq().unref());
    }
    list
}

// ---- addresses

/// Whether an access string permits reading. Where it says nothing, reading is permitted.
pub open spec fn readable(access: Seq<char>) -> bool {
    access.len() == 0 || access.contains('r') || access.contains('R')
}

/// Whether an access string permits writing. Where it says nothing, writing is permitted.
pub open spec fn open_to_writing(access: Seq<char>) -> bool {
    access.len() == 0 || access.contains('w') || access.contains('W')
}

/// Whether an access string permits reading.
pub fn register_is_readable(access: &str) -> (r: bool)
    ensures
        r == readable(access@),
{
    let c = chars_of(access);
    c.len() == 0 || has_char(&c, 'r') || has_char(&c, 'R')
}

/// Whether an access string permits writing, or says nothing.
pub fn register_is_writable(access: &str) -> (r: bool)
    ensures
        r == open_to_writing(access@),
{
    let c = chars_of(access);
    c.len() == 0 || has_char(&c, 'w') || has_char(&c, 'W')
}

/// How many bytes a register takes.
pub open spec fn reg_bytes(r: RegView) -> nat {
    if r.width == 0 {
        1
    } else {
        r.width as nat
    }
}

/// Whether all bytes of a register have an address.
pub open spec fn reg_fits(r: RegView) -> bool {
    r.addr + reg_bytes(r) <= 0x1_0000_0000
}

/// Whether an address is one of a register.
pub open spec fn reg_has(r: RegView, a: u32) -> bool {
    r.addr <= a < r.addr + reg_bytes(r)
}

/// The addresses of a register, in order.
pub fn register_dump_addresses(reg: &RegisterInfo) -> (v: Vec<u32>)
    requires
        reg_fits(reg.view()),
    ensures
        v@ == Seq::new(reg_bytes(reg.view()), |i: int| (reg.addr + i) as u32),
{
    let n: u32 = if reg.width == 0 {
        1
    } else {
        reg.width
    };
    let mut v: Vec<u32> = Vec::new();
    let mut i: u32 = 0;
    while i < n
        invariant
            i <= n == reg_bytes(reg.view()),
            reg_fits(reg.view()),
            v@ == Seq::new(i as nat, |k: int| (reg.addr + k) as u32),
        decreases n - i,
    {
        v.push(reg.addr + i);
        i += 1;
        assert(v@ =~= Seq::new(i as nat, |k: int| (reg.addr + k) as u32));
    }
    v
}

/// Why a register is not dumped, if it is not.
pub open spec fn skip_reason(r: RegView) -> Option<Seq<char>> {
    if r.no_dump {
        Some(
            if r.no_dump_reason.len() == 0 {
                "no_dump=true"@
            } else {
                r.no_dump_reason
            },
        )
    } else if !readable(r.access) {
        Some("write-only register"@)
    } else {
        None
    }
}

fn find_skip_reason(reg: &RegisterInfo) -> (s: Option<String>)
    ensures
        (match s {
            Some(t) => Some(t@),
            None => None,
        }) == skip_reason(reg.view()),
{
    if reg.no_dump {
        if chars_of(reg.no_dump_reason.as_str()).len() == 0 {
            Some("no_dump=true".to_owned())
        } else {
            Some(reg.no_dump_reason.clone())
        }
    } else if !register_is_readable(reg.access.as_str()) {
        Some("write-only register".to_owned())
    } else {
        None
    }
}

/// The addresses of the registers that are not dumped.
pub open spec fn excluded(regs: Seq<RegView>) -> Set<u32> {
    Set::new(
        |a: u32|
            exists|i: int|
                0 <= i < regs.len() && skip_reason(#[trigger] regs[i]) is Some && reg_has(
                    regs[i],
                    a,
                ),
    )
}

/// The addresses that are dumped: those of the other registers that are not of an excluded
/// register too.
pub open spec fn wanted(regs: Seq<RegView>) -> Set<u32> {
    Set::new(
        |a: u32|
            !excluded(regs).contains(a) && exists|i: int|
                0 <= i < regs.len() && skip_reason(#[trigger] regs[i]) is None && reg_has(
                    regs[i],
                    a,
                ),
    )
}

/// What is told of the registers that are not dumped.
pub open spec fn skipped_texts(regs: Seq<RegView>) -> Seq<Seq<char>>
    decreases regs.len(),
{
    if regs.len() == 0 {
        Seq::empty()
    } else {
        let r = regs.last();
        let before = skipped_texts(regs.drop_last());
        match skip_reason(r) {
            Some(reason) => before.push(
                r.page + "."@ + r.name + "@0x"@ + text::hex(r.addr as nat, 2) + " skipped: "@
                    + reason,
            ),
            None => before,
        }
    }
}

// ---- ranges

/// A run of addresses that is read at once.
#[derive(Debug, Clone, Copy, PartialEq, Eq)]
pub struct RegisterDumpRange {
    pub start: u32,
    pub len: u16,
}

/// Addresses that go up as runs of at most `max` addresses.
pub open spec fn grouped(list: Seq<u32>, max: nat) -> Seq<(u32, nat)>
    decreases list.len(),
{
    if list.len() == 0 {
        Seq::empty()
    } else {
        let g = grouped(list.drop_last(), max);
        let a = list.last();
        if g.len() > 0 && g.last().0 + g.last().1 == a && g.last().1 < max {
            g.drop_last().push((g.last().0, g.last().1 + 1))
        } else {
            g.push((a, 1))
        }
    }
}

/// The addresses of a run.
pub open spec fn run_addresses(r: (u32, nat)) -> Seq<u32> {
    Seq::new(r.1, |i: int| (r.0 + i) as u32)
}

/// The addresses of runs, one run after the other.
pub open spec fn expanded(ranges: Seq<(u32, nat)>) -> Seq<u32>
    decreases ranges.len(),
{
    if ranges.len() == 0 {
        Seq::empty()
    } else {
        expanded(ranges.drop_last()) + run_addresses(ranges.last())
    }
}

/// What ranges stand for.
pub open spec fn range_views(ranges: Seq<RegisterDumpRange>) -> Seq<(u32, nat)> {
    ranges.map_values(|r: RegisterDumpRange| (r.start, r.len as nat))
}

/// How many addresses are read at once at most.
pub open spec fn run_limit(max_range_len: nat) -> nat {
    if max_range_len == 0 {
        1
    } else if max_range_len > u16::MAX {
        u16::MAX as nat
    } else {
        max_range_len
    }
}

/// Whether a list has the elements of a set, each once, and goes up.
pub open spec fn lists(list: Seq<u32>, set: Set<u32>) -> bool {
    increasing(list) && list.to_set() == set
}

fn group_addresses(list: &[u32], max: usize) -> (ranges: Vec<RegisterDumpRange>)
    requires
        increasing(list@),
        1 <= max <= u16::MAX,
    ensures
        range_views(ranges@) == grouped(list@, max as nat),
{
    let mut ranges: Vec<RegisterDumpRange> = Vec::new();
    let mut i: usize = 0;
    assert(range_views(ranges@) =~= grouped(list@.take(0), max as nat));
    while i < list.len()
        invariant
            i <= list.len(),
            increasing(list@),
            1 <= max <= u16::MAX,
            range_views(ranges@) == grouped(list@.take(i as int), max as nat),
        decreases list.len() - i,
    {
        let ghost g = range_views(ranges@);
        proof {
            assert(list@.take(i + 1).drop_last() =~= list@.take(i as int));
            law_runs(list@.take(i as int), max as nat);
            if ranges@.len() > 0 {
                assert(g.last() == (ranges@.last().start, ranges@.last().len as nat));
            }
        }
        let a: u32 = list[i];
        let n: usize = ranges.len();
        if n > 0 && ranges[n - 1].start as u64 + ranges[n - 1].len as u64 == a as u64 && (
        ranges[n - 1].len as usize) < max {
            let grown = RegisterDumpRange {
                start: ranges[n - 1].start,
                len: ranges[n - 1].len + 1,
            };
            ranges.set(n - 1, grown);
            assert(range_views(ranges@) =~= g.drop_last().push((grown.start, grown.len as nat)));
        } else {
            ranges.push(RegisterDumpRange { start: a, len: 1 });
            assert(range_views(ranges@) =~= g.push((a, 1nat)));
        }
        i += 1;
    }
    assert(list@.take(list@.len() as int) =~= list@);
    ranges
}

/// What runs of addresses that go up are like: they hold the addresses in order, none is empty
/// or too long, and a run that ends where the next one starts is as long as it may be.
pub proof fn law_runs(list: Seq<u32>, max: nat)
    requires
        increasing(list),
        max >= 1,
    ensures
        expanded(grouped(list, max)) == list,
        forall|k: int|
            0 <= k < grouped(list, max).len() ==> 1 <= (#[trigger] grouped(list, max)[k]).1 <= max,
        forall|k: int|
            0 < k < grouped(list, max).len() ==> {
                let p = grouped(list, max)[k - 1];
                p.0 + p.1 == (#[trigger] grouped(list, max)[k]).0 ==> p.1 == max
            },
    decreases list.len(),
{
    let all = grouped(list, max);
    if list.len() > 0 {
        let rest = list.drop_last();
        let a = list.last();
        law_runs(rest, max);
        let g = grouped(rest, max);
        if g.len() > 0 && g.last().0 + g.last().1 == a && g.last().1 < max {
            let grown = (g.last().0, g.last().1 + 1);
            assert(all == g.drop_last().push(grown));
            assert(all.drop_last() =~= g.drop_last());
            assert(run_addresses(grown) =~= run_addresses(g.last()).push(a));
            assert(expanded(all) =~= expanded(g).push(a));
            assert(expanded(g).push(a) =~= list);
            assert forall|k: int| 0 <= k < all.len() implies 1 <= (#[trigger] all[k]).1 <= max by {
                if k < all.len() - 1 {
                    assert(all[k] == g[k]);
                }
            }
            assert forall|k: int| 0 < k < all.len() implies {
                let p = all[k - 1];
                p.0 + p.1 == (#[trigger] all[k]).0 ==> p.1 == max
            } by {
                assert(all[k - 1] == g[k - 1]);
                assert(all[k].0 == g[k].0);
            }
        } else {
            assert(all == g.push((a, 1nat)));
            assert(all.drop_last() =~= g);
            assert(run_addresses((a, 1nat)) =~= seq![a]);
            assert(expanded(all) =~= expanded(g) + seq![a]);
            assert(expanded(g) + seq![a] =~= list);
            assert forall|k: int| 0 <= k < all.len() implies 1 <= (#[trigger] all[k]).1 <= max by {
                if k < all.len() - 1 {
                    assert(all[k] == g[k]);
                }
            }
            assert forall|k: int| 0 < k < all.len() implies {
                let p = all[k - 1];
                p.0 + p.1 == (#[trigger] all[k]).0 ==> p.1 == max
            } by {
                assert(all[k - 1] == g[k - 1]);
                if k < all.len() - 1 {
                    assert(all[k] == g[k]);
                }
            }
        }
    }
}

/// Lists that go up and have the same elements are the same.
pub proof fn law_lists_unique(a: Seq<u32>, b: Seq<u32>)
    requires
        increasing(a),
        increasing(b),
        a.to_set() == b.to_set(),
    ensures
        a == b,
    decreases a.len(),
{
    if a.len() == 0 {
        if b.len() > 0 {
            assert(b.contains(b[0]));
            assert(b.to_set().contains(b[0]));
            assert(a.contains(b[0]));
        }
        assert(a =~= b);
    } else {
        assert(a.contains(a.last()));
        assert(a.to_set().contains(a.last()));
        assert(b.contains(a.last()));
        let i = choose|i: int| 0 <= i < b.len() && b[i] == a.last();
        assert(b.contains(b.last()));
        assert(b.to_set().contains(b.last()));
        assert(a.contains(b.last()));
        let j = choose|j: int| 0 <= j < a.len() && a[j] == b.last();
        assert(a.last() == b.last()) by {
            if i < b.len() - 1 {
                assert(b[i] < b[b.len() - 1]);
            }
            if j < a.len() - 1 {
                assert(a[j] < a[a.len() - 1]);
            }
        }
        let x = a.drop_last();
        let y = b.drop_last();
        assert(x.to_set() =~= y.to_set()) by {
            assert forall|v: u32| x.to_set().contains(v) <==> y.to_set().contains(v) by {
                if x.to_set().contains(v) {
                    let k = choose|k: int| 0 <= k < x.len() && x[k] == v;
                    assert(a[k] == v && a[k] < a[a.len() - 1]);
                    assert(a.to_set().contains(v));
                    assert(b.to_set().contains(v));
                    let m = choose|m: int| 0 <= m < b.len() && b[m] == v;
                    assert(y[m] == v);
                }
                if y.to_set().contains(v) {
                    let k = choose|k: int| 0 <= k < y.len() && y[k] == v;
                    assert(b[k] == v && b[k] < b[b.len() - 1]);
                    assert(b.to_set().contains(v));
                    assert(a.to_set().contains(v));
                    let m = choose|m: int| 0 <= m < a.len() && a[m] == v;
                    assert(x[m] == v);
                }
            }
        }
        law_lists_unique(x, y);
        assert(a =~= x.push(a.last()));
        assert(b =~= y.push(b.last()));
    }
}

/// The addresses of the first `n` registers for which `skipped` says so.
pub open spec fn some_of(regs: Seq<RegView>, n: int, skipped: bool) -> Set<u32> {
    Set::new(
        |a: u32|
            exists|i: int|
                0 <= i < n && (skip_reason(#[trigger] regs[i]) is Some) == skipped && reg_has(
                    regs[i],
                    a,
                ),
    )
}

proof fn lemma_some_of_next(regs: Seq<RegView>, n: int, skipped: bool, set: Set<u32>)
    requires
        0 <= n < regs.len(),
        set == (if (skip_reason(regs[n]) is Some) == skipped {
            some_of(regs, n, skipped) + Set::new(|a: u32| reg_has(regs[n], a))
        } else {
            some_of(regs, n, skipped)
        }),
    ensures
        set == some_of(regs, n + 1, skipped),
{
    assert forall|a: u32| set.contains(a) <==> some_of(regs, n + 1, skipped).contains(a) by {
        if some_of(regs, n, skipped).contains(a) {
            let i = choose|i: int|
                0 <= i < n && (skip_reason(#[trigger] regs[i]) is Some) == skipped && reg_has(
                    regs[i],
                    a,
                );
            assert(0 <= i < n + 1 && (skip_reason(regs[i]) is Some) == skipped && reg_has(
                regs[i],
                a,
            ));
        }
        if (skip_reason(regs[n]) is Some) == skipped && reg_has(regs[n], a) {
            assert(some_of(regs, n + 1, skipped).contains(a));
        }
        if some_of(regs, n + 1, skipped).contains(a) {
            let i = choose|i: int|
                0 <= i < n + 1 && (skip_reason(#[trigger] regs[i]) is Some) == skipped && reg_has(
                    regs[i],
                    a,
                );
            if i < n {
                assert(some_of(regs, n, skipped).contains(a));
            }
        }
    }
    assert(set =~= some_of(regs, n + 1, skipped));
}

fn add_addresses(set: &mut BTreeSet<u32>, reg: &RegisterInfo)
    requires
        reg_fits(reg.view()),
    ensures
        final(set)@ == old(set)@ + Set::new(|a: u32| reg_has(reg.view(), a)),
{
    let list = register_dump_addresses(reg);
    let mut i: usize = 0;
    assert(set@ =~= old(set)@ + list@.take(0).to_set());
    while i < list.len()
        invariant
            i <= list.len(),
            set@ == old(set)@ + list@.take(i as int).to_set(),
        decreases list.len() - i,
    {
        let _ = set.insert(list[i]);
        proof {
            let a = list@.take(i as int);
            let b = list@.take(i + 1);
            assert(b =~= a.push(list@[i as int]));
            assert forall|v: u32| b.to_set().contains(v) <==> a.to_set().insert(
                list@[i as int],
            ).contains(v) by {
                if b.to_set().contains(v) {
                    let k = choose|k: int| 0 <= k < b.len() && b[k] == v;
                    if k < a.len() {
                        assert(a[k] == v);
                    }
                }
                if a.to_set().contains(v) {
                    let k = choose|k: int| 0 <= k < a.len() && a[k] == v;
                    assert(b[k] == v);
                }
                if v == list@[i as int] {
                    assert(b[i as int] == v);
                }
            }
            assert(b.to_set() =~= a.to_set().insert(list@[i as int]));
            assert(set@ =~= old(set)@ + b.to_set());
        }
        i += 1;
    }
    proof {
        assert(list@.take(list@.len() as int) =~= list@);
        let r = reg.view();
        assert forall|a: u32| list@.to_set().contains(a) <==> reg_has(r, a) by {
            if list@.to_set().contains(a) {
                let k = choose|k: int| 0 <= k < list@.len() && list@[k] == a;
                assert(list@[k] == r.addr + k);
            }
            if reg_has(r, a) {
                let k = a - r.addr;
                assert(list@[k] == a);
            }
        }
        assert(list@.to_set() =~= Set::new(|a: u32| reg_has(r, a)));
    }
}

fn remove_excluded(list: &[u32], out: &BTreeSet<u32>) -> (kept: Vec<u32>)
    requires
        increasing(list@),
    ensures
        lists(kept@, list@.to_set().difference(out@)),
{
    let mut kept: Vec<u32> = Vec::new();
    let mut i: usize = 0;
    while i < list.len()
        invariant
            i <= list.len(),
            increasing(list@),
            increasing(kept@),
            forall|k: int|
                0 <= k < kept@.len() ==> list@.take(i as int).contains(#[trigger] kept@[k])
                    && !out@.contains(kept@[k]),
            forall|k: int|
                0 <= k < i && !out@.contains(#[trigger] list@[k]) ==> kept@.contains(list@[k]),
        decreases list.len() - i,
    {
        let ghost before = kept@;
        proof {
            assert forall|k: int| 0 <= k < before.len() implies before[k] < list@[i as int] by {
                assert(list@.take(i as int).contains(before[k]));
                let m = choose|m: int|
                    0 <= m < list@.take(i as int).len() && list@.take(i as int)[m] == before[k];
                assert(list@[m] < list@[i as int]);
            }
            assert forall|k: int| 0 <= k < before.len() implies list@.take(i + 1).contains(
                #[trigger] before[k],
            ) by {
                assert(list@.take(i as int).contains(before[k]));
                let m = choose|m: int|
                    0 <= m < list@.take(i as int).len() && list@.take(i as int)[m] == before[k];
                assert(list@.take(i + 1)[m] == before[k]);
            }
            assert(list@.take(i + 1)[i as int] == list@[i as int]);
        }
        if !out.contains(&list[i]) {
            kept.push(list[i]);
        }
        proof {
            assert forall|k: int| 0 <= k < i + 1 && !out@.contains(#[trigger] list@[k]) implies
                kept@.contains(list@[k]) by {
                if k < i {
                    assert(before.contains(list@[k]));
                    let m = choose|m: int| 0 <= m < before.len() && before[m] == list@[k];
                    assert(kept@[m] == list@[k]);
                } else {
                    assert(kept@[kept@.len() - 1] == list@[k]);
                }
            }
        }
        i += 1;
    }
    proof {
        assert(list@.take(list@.len() as int) =~= list@);
        let want = list@.to_set().difference(out@);
        assert forall|a: u32| kept@.to_set().contains(a) <==> want.contains(a) by {
            if kept@.to_set().contains(a) {
                let k = choose|k: int| 0 <= k < kept@.len() && kept@[k] == a;
                assert(list@.contains(kept@[k]));
            }
            if want.contains(a) {
                let k = choose|k: int| 0 <= k < list@.len() && list@[k] == a;
                assert(kept@.contains(list@[k]));
            }
        }
        assert(kept@.to_set() =~= want);
    }
    kept
}

/// The runs of addresses that are read to dump registers, and what is told of those that are
/// not dumped.
pub fn register_dump_ranges(registers: &[RegisterInfo], max_range_len: usize) -> (r: (
    Vec<RegisterDumpRange>,
    Vec<String>,
))
    requires
        forall|i: int|
            0 <= i < registers.len() ==> reg_fits((#[trigger] registers@[i]).view()),
    ensures
        exists|list: Seq<u32>| #[trigger]
            lists(list, wanted(catalog::regs_view(registers@))) && range_views(r.0@) == grouped(
                list,
                run_limit(max_range_len as nat),
            ),
        text::texts(r.1@) == skipped_texts(catalog::regs_view(registers@)),
{
    let ghost regs = catalog::regs_view(registers@);
    let max: usize = if max_range_len == 0 {
        1
    } else if max_range_len > 65535 {
        65535
    } else {
        max_range_len
    };
    let mut out: BTreeSet<u32> = BTreeSet::new();
    let mut all: BTreeSet<u32> = BTreeSet::new();
    let mut skipped: Vec<String> = Vec::new();
    let mut i: usize = 0;
    proof {
        assert(out@ =~= some_of(regs, 0, true));
        assert(all@ =~= some_of(regs, 0, false));
        assert(text::texts(skipped@) =~= skipped_texts(regs.take(0)));
    }
    while i < registers.len()
        invariant
            i <= registers.len(),
            regs == catalog::regs_view(registers@),
            forall|k: int|
                0 <= k < registers.len() ==> reg_fits((#[trigger] registers@[k]).view()),
            out@ == some_of(regs, i as int, true),
            all@ == some_of(regs, i as int, false),
            text::texts(skipped@) == skipped_texts(regs.take(i as int)),
        decreases registers.len() - i,
    {
        let reg = &registers[i];
        assert(regs[i as int] == reg.view());
        assert(reg_fits(registers@[i as int].view()));
        assert(regs.take(i + 1).drop_last() =~= regs.take(i as int));
        match find_skip_reason(reg) {
            Some(reason) => {
                add_addresses(&mut out, reg);
                let mut s: String = reg.page.clone();
                s.push_str(".");
                s.push_str(reg.name.as_str());
                s.push_str("@0x");
                push_hex(&mut s, reg.addr as u128, 2);
                s.push_str(" skipped: ");
                s.push_str(reason.as_str());
                let ghost before = text::texts(skipped@);
                skipped.push(s);
                assert(text::texts(skipped@) =~= before.push(s@));
            },
            None => {
                add_addresses(&mut all, reg);
            },
        }
        proof {
            lemma_some_of_next(regs, i as int, true, out@);
            lemma_some_of_next(regs, i as int, false, all@);
        }
        i += 1;
    }
    assert(regs.take(regs.len() as int) =~= regs);
    let list = in_increasing_order(&all);
    let kept = remove_excluded(&list, &out);
    proof {
        assert(out@ =~= excluded(regs));
        assert(list@.to_set().difference(out@) =~= wanted(regs));
        assert(lists(kept@, wanted(regs)));
    }
    (group_addresses(&kept, max), skipped)
}

} // verus!
