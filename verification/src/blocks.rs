//! Editing sequences as blocks.
use crate::catalog;
use crate::catalog::{RegView, RegisterCatalog, RegisterInfo};
use crate::dump;
use crate::dump::{register_is_readable, register_is_writable};
use crate::panel::copy_registers;
use crate::position;
use crate::position::locate;
use crate::split;
use crate::split::split_on;
use crate::text;
use crate::text::{chars_of, push_dec, trim, trim_text};
use crate::visual;
use crate::visual::{SequenceView, StepView};
use crate::visual::{VisualSequenceBlueprint, VisualStepBlueprint, VisualStepKind};
use crate::visual_source;
use crate::visual_source::{format_step_label, parse_visual_number_u32};
use crate::visual_source::{visual_sequence_errors, visual_source_from_blueprints};
use vstd::prelude::*;
use vstd::slice::slice_subrange;

verus! {

// ---- what is typed

/// The name of a sequence: what is typed, or that it has none.
pub open spec fn settled_name(raw: Seq<char>) -> Seq<char> {
    let name = text::trimmed(raw);
    if name.len() == 0 {
        "Untitled"@
    } else {
        name
    }
}

/// A step without white space around what is typed.
pub open spec fn trimmed_step(s: StepView) -> StepView {
    StepView {
        kind: s.kind,
        address: text::trimmed(s.address),
        read_len: text::trimmed(s.read_len),
        data: text::trimmed(s.data),
        delay_us: text::trimmed(s.delay_us),
    }
}

/// A sequence as it is taken over from what is typed.
pub open spec fn blueprint(s: SequenceView) -> SequenceView {
    SequenceView {
        name: settled_name(s.name),
        steps: s.steps.map_values(|t: StepView| trimmed_step(t)),
    }
}

/// Sequences as they are taken over from what is typed.
pub open spec fn blueprints(sequences: Seq<SequenceView>) -> Seq<SequenceView> {
    sequences.map_values(|s: SequenceView| blueprint(s))
}

fn settle_name(raw: &str) -> (s: String)
    ensures
        s@ == settled_name(raw@),
{
    let name: String = trim_text(raw);
    if chars_of(name.as_str()).len() == 0 {
        "Untitled".to_owned()
    } else {
        name
    }
}

impl VisualStepBlueprint {
    /// The step without white space around what is typed.
    pub fn to_blueprint(&self) -> (s: Self)
        ensures
            s.view() == trimmed_step(self.view()),
    {
        VisualStepBlueprint {
            kind: self.kind,
            address: trim_text(self.address.as_str()),
            read_len: trim_text(self.read_len.as_str()),
            data: trim_text(self.data.as_str()),
            delay_us: trim_text(self.delay_us.as_str()),
        }
    }
}

impl VisualSequenceBlueprint {
    /// The sequence as it is taken over from what is typed.
    pub fn to_blueprint(&self) -> (s: Self)
        ensures
            s.view() == blueprint(self.view()),
    {
        let mut steps: Vec<VisualStepBlueprint> = Vec::new();
        let mut i: usize = 0;
        while i < self.steps.len()
            invariant
                i <= self.steps.len(),
                steps@.len() == i,
                forall|k: int|
                    0 <= k < i ==> (#[trigger] steps@[k]).view() == trimmed_step(
                        self.steps@[k].view(),
                    ),
            decreases self.steps.len() - i,
        {
            steps.push(self.steps[i].to_blueprint());
            i += 1;
        }
        let s = VisualSequenceBlueprint { name: settle_name(self.name.as_str()), steps };
        assert(s.view().steps =~= blueprint(self.view()).steps);
        s
    }
}

fn all_blueprints(sequences: &[VisualSequenceBlueprint]) -> (r: Vec<VisualSequenceBlueprint>)
    ensures
        visual::sequence_views(r@) == blueprints(visual::sequence_views(sequences@)),
{
    let mut r: Vec<VisualSequenceBlueprint> = Vec::new();
    let mut i: usize = 0;
    while i < sequences.len()
        invariant
            i <= sequences.len(),
            r@.len() == i,
            forall|k: int| 0 <= k < i ==> (#[trigger] r@[k]).view() == blueprint(sequences@[k].view()),
        decreases sequences.len() - i,
    {
        r.push(sequences[i].to_blueprint());
        i += 1;
    }
    assert(visual::sequence_views(r@) =~= blueprints(visual::sequence_views(sequences@)));
    r
}

// ---- what the registers allow

/// A letter in lower case, where it is one of the first twenty-six.
pub open spec fn lower(c: char) -> char {
    if 'A' <= c <= 'Z' {
        (c as u32 + 32) as char
    } else {
        c
    }
}

/// Whether texts are the same but for upper and lower case.
pub open spec fn alike(a: Seq<char>, b: Seq<char>) -> bool {
    a.map_values(|c: char| lower(c)) == b.map_values(|c: char| lower(c))
}

fn to_lower(c: char) -> (r: char)
    ensures
        r == lower(c),
{
    if 'A' <= c && c <= 'Z' {
        ((c as u8) + 32) as char
    } else {
        c
    }
}

fn is_alike(a: &[char], b: &[char]) -> (r: bool)
    ensures
        r == alike(a@, b@),
{
    let ghost x = a@.map_values(|c: char| lower(c));
    let ghost y = b@.map_values(|c: char| lower(c));
    if a.len() != b.len() {
        assert(x.len() != y.len());
        return false;
    }
    let mut i: usize = 0;
    while i < a.len()
        invariant
            i <= a.len(),
            a@.len() == b@.len(),
            x == a@.map_values(|c: char| lower(c)),
            y == b@.map_values(|c: char| lower(c)),
            forall|k: int| 0 <= k < i ==> x[k] == y[k],
        decreases a.len() - i,
    {
        if to_lower(a[i]) != to_lower(b[i]) {
            assert(x[i as int] != y[i as int]);
            return false;
        }
        i += 1;
    }
    assert(x =~= y);
    true
}

/// The page and the name that an address stands for: what stands before and behind the first dot.
pub open spec fn page_and_name(address: Seq<char>) -> (Option<Seq<char>>, Seq<char>) {
    let dot = split::first_sep(address, 0, seq!['.']);
    if dot < address.len() {
        (Some(text::trimmed(address.take(dot))), text::trimmed(address.skip(dot + 1)))
    } else {
        (None, address)
    }
}

/// Registers of a name, and of a page where one is given.
pub open spec fn named(page: Option<Seq<char>>, name: Seq<char>) -> spec_fn(RegView) -> bool {
    |r: RegView| alike(r.name, name) && (page is Some ==> alike(r.page, page->0))
}

/// The registers that the address of a step stands for.
pub open spec fn registers_of(regs: Seq<RegView>, address: Seq<char>) -> Seq<RegView> {
    let a = text::trimmed(address);
    if a.len() == 0 {
        Seq::empty()
    } else {
        match visual_source::typed_number(a) {
            Ok(n) => regs.filter(catalog::at_addr(n as u32)),
            Err(_) => {
                let (page, name) = page_and_name(a);
                regs.filter(named(page, name))
            },
        }
    }
}

/// Whether the ends of all registers are addresses too.
pub open spec fn all_end_in_range(regs: Seq<RegView>) -> bool {
    forall|i: int| 0 <= i < regs.len() ==> catalog::ends_in_range(#[trigger] regs[i])
}

fn find_dot(a: &[char]) -> (dot: usize)
    ensures
        dot == split::first_sep(a@, 0, seq!['.']),
        dot <= a@.len(),
{
    let mut dot: usize = 0;
    assert(seq!['.'].contains('.')) by {
        assert(seq!['.'][0] == '.');
    }
    while dot < a.len() && a[dot] != '.'
        invariant
            dot <= a.len(),
            split::first_sep(a@, 0, seq!['.']) == split::first_sep(a@, dot as int, seq!['.']),
            seq!['.'].contains('.'),
        decreases a.len() - dot,
    {
        assert(!seq!['.'].contains(a@[dot as int]));
        dot += 1;
    }
    dot
}

fn registers_named(regs: &[RegisterInfo], page: Option<&[char]>, name: &[char]) -> (r: Vec<
    RegisterInfo,
>)
    ensures
        catalog::regs_view(r@) == catalog::regs_view(regs@).filter(
            named(
                match page {
                    Some(p) => Some(p@),
                    None => None,
                },
                name@,
            ),
        ),
{
    let ghost pv = match page {
        Some(p) => Some(p@),
        None => None,
    };
    let ghost pred = named(pv, name@);
    let ghost all = catalog::regs_view(regs@);
    let mut r: Vec<RegisterInfo> = Vec::new();
    let mut i: usize = 0;
    proof {
        reveal(Seq::filter);
        assert(catalog::regs_view(r@) =~= all.take(0).filter(pred));
    }
    while i < regs.len()
        invariant
            i <= regs.len(),
            all == catalog::regs_view(regs@),
            pred == named(pv, name@),
            pv == (match page {
                Some(p) => Some(p@),
                None => None,
            }),
            catalog::regs_view(r@) == all.take(i as int).filter(pred),
        decreases regs.len() - i,
    {
        let reg = &regs[i];
        let ghost before = catalog::regs_view(r@);
        proof {
            reveal(Seq::filter);
            assert(all.take(i + 1).drop_last() =~= all.take(i as int));
            assert(all[i as int] == reg.view());
        }
        let fits: bool = is_alike(&chars_of(reg.name.as_str()), name) && match page {
            Some(p) => is_alike(&chars_of(reg.page.as_str()), p),
            None => true,
        };
        if fits {
            let c = reg.copy();
            r.push(c);
            assert(catalog::regs_view(r@) =~= before.push(c.view()));
        }
        i += 1;
    }
    assert(all.take(all.len() as int) =~= all);
    r
}

/// The registers that the address of a step stands for: a number, or a name with or without its
/// page.
pub fn register_infos_for_visual_address(c: &RegisterCatalog, address: &str) -> (r: Vec<RegisterInfo>)
    requires
        all_end_in_range(c.regs()),
    ensures
        catalog::regs_view(r@) == registers_of(c.regs(), address@),
{
    let chars = chars_of(address);
    let a = trim(&chars);
    if a.len() == 0 {
        let r: Vec<RegisterInfo> = Vec::new();
        assert(catalog::regs_view(r@) =~= Seq::<RegView>::empty());
        return r;
    }
    match parse_visual_number_u32(text::string_of(a).as_str()) {
        Ok(n) => {
            assert(c.all_reachable(None, n));
            copy_registers(&c.registers_for_addr(n))
        },
        Err(_) => {
            let dot: usize = find_dot(a);
            if dot < a.len() {
                let front = slice_subrange(a, 0, dot);
                let back = slice_subrange(a, dot + 1, a.len());
                assert(front@ =~= a@.take(dot as int));
                assert(back@ =~= a@.skip(dot + 1));
                registers_named(c.registers(), Some(trim(front)), trim(back))
            } else {
                registers_named(c.registers(), None, a)
            }
        },
    }
}

/// Whether a step can be done at a register, as far as its access tells.
pub open spec fn allowed(kind: VisualStepKind, access: Seq<char>) -> bool {
    match kind {
        VisualStepKind::Read => dump::readable(access),
        VisualStepKind::Write => dump::open_to_writing(access),
    }
}

/// Whether a step can be done at one of the registers.
pub open spec fn any_allows(kind: VisualStepKind, regs: Seq<RegView>) -> bool {
    exists|i: int| 0 <= i < regs.len() && allowed(kind, (#[trigger] regs[i]).access)
}

/// What the registers have against a step.
pub open spec fn step_objections(
    regs: Seq<RegView>,
    name: Seq<char>,
    i: int,
    step: StepView,
) -> Seq<Seq<char>> {
    let at = registers_of(regs, step.address);
    if at.len() == 0 || any_allows(step.kind, at) {
        Seq::empty()
    } else {
        seq![
            visual_source::step_label(name, i) + ": "@ + text::trimmed(step.address) + (
            match step.kind {
                VisualStepKind::Read => " is not readable according to chip metadata"@,
                VisualStepKind::Write => " is not writable according to chip metadata"@,
            }),
        ]
    }
}

/// What the registers have against steps.
pub open spec fn steps_objections(regs: Seq<RegView>, name: Seq<char>, steps: Seq<StepView>) -> Seq<
    Seq<char>,
>
    decreases steps.len(),
{
    if steps.len() == 0 {
        Seq::empty()
    } else {
        steps_objections(regs, name, steps.drop_last()) + step_objections(
            regs,
            name,
            steps.len() - 1,
            steps.last(),
        )
    }
}

/// What the registers have against sequences.
pub open spec fn objections(regs: Seq<RegView>, sequences: Seq<SequenceView>) -> Seq<Seq<char>>
    decreases sequences.len(),
{
    if sequences.len() == 0 {
        Seq::empty()
    } else {
        objections(regs, sequences.drop_last()) + steps_objections(
            regs,
            sequences.last().name,
            sequences.last().steps,
        )
    }
}

fn find_allowed(kind: VisualStepKind, regs: &[RegisterInfo]) -> (r: bool)
    ensures
        r == any_allows(kind, catalog::regs_view(regs@)),
{
    let ghost all = catalog::regs_view(regs@);
    let mut i: usize = 0;
    while i < regs.len()
        invariant
            i <= regs.len(),
            all == catalog::regs_view(regs@),
            forall|k: int| 0 <= k < i ==> !allowed(kind, (#[trigger] all[k]).access),
        decreases regs.len() - i,
    {
        assert(all[i as int] == regs@[i as int].view());
        let ok: bool = match kind {
            VisualStepKind::Read => register_is_readable(regs[i].access.as_str()),
            VisualStepKind::Write => register_is_writable(regs[i].access.as_str()),
        };
        if ok {
            assert(allowed(kind, all[i as int].access));
            return true;
        }
        i += 1;
    }
    false
}

fn push_step_objections(
    list: &mut Vec<String>,
    c: &RegisterCatalog,
    name: &str,
    i: usize,
    step: &VisualStepBlueprint,
)
    requires
        all_end_in_range(c.regs()),
    ensures
        text::texts(final(list)@) == text::texts(old(list)@) + step_objections(
            c.regs(),
            name@,
            i as int,
            step.view(),
        ),
{
    let at = register_infos_for_visual_address(c, step.address.as_str());
    if at.len() == 0 || find_allowed(step.kind, &at) {
        assert(text::texts(list@) =~= text::texts(list@) + Seq::<Seq<char>>::empty());
        return;
    }
    let mut s: String = format_step_label(name, i);
    s.push_str(": ");
    s.push_str(trim_text(step.address.as_str()).as_str());
    match step.kind {
        VisualStepKind::Read => {
            s.push_str(" is not readable according to chip metadata");
        },
        VisualStepKind::Write => {
            s.push_str(" is not writable according to chip metadata");
        },
    }
    list.push(s);
    assert(text::texts(list@) =~= text::texts(old(list)@) + seq![s@]);
}

fn push_steps_objections(list: &mut Vec<String>, c: &RegisterCatalog, s: &VisualSequenceBlueprint)
    requires
        all_end_in_range(c.regs()),
    ensures
        text::texts(final(list)@) == text::texts(old(list)@) + steps_objections(
            c.regs(),
            s.view().name,
            s.view().steps,
        ),
{
    let ghost start = text::texts(list@);
    let ghost v = s.view();
    let mut i: usize = 0;
    assert(v.steps.take(0) =~= Seq::<StepView>::empty());
    assert(start + steps_objections(c.regs(), v.name, v.steps.take(0)) =~= start);
    while i < s.steps.len()
        invariant
            i <= s.steps.len(),
            v == s.view(),
            all_end_in_range(c.regs()),
            text::texts(list@) == start + steps_objections(
                c.regs(),
                v.name,
                v.steps.take(i as int),
            ),
        decreases s.steps.len() - i,
    {
        assert(v.steps.take(i + 1).drop_last() =~= v.steps.take(i as int));
        assert(v.steps[i as int] == s.steps@[i as int].view());
        push_step_objections(list, c, s.name.as_str(), i, &s.steps[i]);
        assert(text::texts(list@) =~= start + steps_objections(
            c.regs(),
            v.name,
            v.steps.take(i + 1),
        ));
        i += 1;
    }
    assert(v.steps.take(v.steps.len() as int) =~= v.steps);
}

/// What the registers have against sequences: steps where no register that is meant allows them.
pub fn visual_safety_errors(c: &RegisterCatalog, sequences: &[VisualSequenceBlueprint]) -> (errors:
    Vec<String>)
    requires
        all_end_in_range(c.regs()),
    ensures
        text::texts(errors@) == objections(c.regs(), visual::sequence_views(sequences@)),
{
    let ghost v = visual::sequence_views(sequences@);
    let mut errors: Vec<String> = Vec::new();
    let mut i: usize = 0;
    assert(v.take(0) =~= Seq::<SequenceView>::empty());
    assert(text::texts(errors@) =~= Seq::<Seq<char>>::empty());
    while i < sequences.len()
        invariant
            i <= sequences.len(),
            v == visual::sequence_views(sequences@),
            all_end_in_range(c.regs()),
            text::texts(errors@) == objections(c.regs(), v.take(i as int)),
        decreases sequences.len() - i,
    {
        assert(v.take(i + 1).drop_last() =~= v.take(i as int));
        assert(v[i as int] == sequences@[i as int].view());
        push_steps_objections(&mut errors, c, &sequences[i]);
        i += 1;
    }
    assert(v.take(v.len() as int) =~= v);
    errors
}

// ---- moving

/// Where something that is moved from `from` in front of `to` comes to stand.
pub open spec fn landing(from: int, to: int) -> int {
    if from < to {
        to - 1
    } else {
        to
    }
}

/// A list in which one element was moved in front of another, or to the end.
pub open spec fn moved<T>(list: Seq<T>, from: int, to: int) -> Seq<T> {
    list.remove(from).insert(landing(from, to), list[from])
}

/// Whether moving an element changes something.
pub open spec fn moves(len: nat, from: int, to: int) -> bool {
    0 <= from < len && 0 <= to <= len && from != to && from + 1 != to
}

/// Where the element at `at` stands once one was moved.
pub open spec fn follow(at: int, from: int, to: int) -> int {
    if at == from {
        landing(from, to)
    } else {
        let rest = if at > from {
            at - 1
        } else {
            at
        };
        if rest >= landing(from, to) {
            rest + 1
        } else {
            rest
        }
    }
}

/// Moving an element loses none, and every element can be followed.
pub proof fn law_moved<T>(list: Seq<T>, from: int, to: int, at: int)
    requires
        moves(list.len(), from, to),
        0 <= at < list.len(),
    ensures
        moved(list, from, to).len() == list.len(),
        moved(list, from, to).to_multiset() == list.to_multiset(),
        0 <= follow(at, from, to) < list.len(),
        moved(list, from, to)[follow(at, from, to)] == list[at],
{
    broadcast use vstd::seq_lib::group_to_multiset_ensures;
    let rest = list.remove(from);
    assert(moved(list, from, to).to_multiset() =~= rest.to_multiset().insert(list[from]));
    assert(rest.insert(from, list[from]) =~= list);
    assert(list.to_multiset() =~= rest.to_multiset().insert(list[from]));
}

// ---- the editor

/// Sequences as they are edited: the one that is shown, whether something was changed, and what
/// happened last.
#[derive(Debug, Clone, PartialEq, Eq)]
pub struct VisualEditor {
    pub sequences: Vec<VisualSequenceBlueprint>,
    pub active: usize,
    pub dirty: bool,
    pub status: String,
}

/// Sequences as they are edited, as a mathematical value.
#[verifier::ext_equal]
pub struct EditorView {
    pub sequences: Seq<SequenceView>,
    pub active: int,
    pub dirty: bool,
    pub status: Seq<char>,
}

/// The editor once sequences were changed.
pub open spec fn changed(sequences: Seq<SequenceView>, active: int, status: Seq<char>) -> EditorView {
    EditorView { sequences, active, dirty: true, status }
}

/// The editor once a sequence is shown.
pub open spec fn with_active(e: EditorView, index: int) -> EditorView {
    if index < e.sequences.len() {
        EditorView { active: index, ..e }
    } else {
        e
    }
}

/// The editor once a sequence was added.
pub open spec fn with_sequence(e: EditorView) -> EditorView {
    changed(
        e.sequences.push(
            SequenceView {
                name: "Sequence "@ + text::dec(e.sequences.len() + 1),
                steps: Seq::empty(),
            },
        ),
        e.sequences.len() as int,
        "visual sequence added"@,
    )
}

/// The editor once the sequence that is shown was deleted. The last one is only emptied.
pub open spec fn without_active(e: EditorView) -> EditorView {
    let status = "visual sequence deleted"@;
    let n = e.sequences.len();
    if n == 0 {
        changed(e.sequences, 0, status)
    } else if n == 1 {
        changed(
            seq![SequenceView { name: e.sequences[0].name, steps: Seq::empty() }],
            0,
            status,
        )
    } else if e.active < n {
        changed(
            e.sequences.remove(e.active),
            if e.active < n - 1 {
                e.active
            } else {
                n - 2
            },
            status,
        )
    } else {
        changed(e.sequences, e.active, status)
    }
}

/// Sequences in which the steps of one were changed.
pub open spec fn with_steps(sequences: Seq<SequenceView>, i: int, steps: Seq<StepView>) -> Seq<
    SequenceView,
> {
    sequences.update(i, SequenceView { name: sequences[i].name, steps })
}

/// The editor once a step was added to the sequence that is shown.
pub open spec fn with_step(e: EditorView, kind: VisualStepKind) -> EditorView {
    let sequences = if e.sequences.len() == 0 {
        seq![SequenceView { name: "Sequence 1"@, steps: Seq::empty() }]
    } else {
        e.sequences
    };
    let active = if e.sequences.len() == 0 {
        0
    } else {
        e.active
    };
    changed(
        if active < sequences.len() {
            with_steps(
                sequences,
                active,
                sequences[active].steps.push(visual::new_step(kind)),
            )
        } else {
            sequences
        },
        active,
        visual::kind_label(kind) + " step added"@,
    )
}

/// Whether the sequence that is shown has a step of this number.
pub open spec fn has_step(e: EditorView, i: int) -> bool {
    e.active < e.sequences.len() && i < e.sequences[e.active].steps.len()
}

/// The editor once a step was doubled.
pub open spec fn with_double(e: EditorView, i: int) -> EditorView {
    if has_step(e, i) {
        let steps = e.sequences[e.active].steps;
        changed(
            with_steps(e.sequences, e.active, steps.insert(i + 1, trimmed_step(steps[i]))),
            e.active,
            "visual step duplicated"@,
        )
    } else {
        e
    }
}

/// The editor once a step was deleted.
pub open spec fn without_step(e: EditorView, i: int) -> EditorView {
    if has_step(e, i) {
        changed(
            with_steps(e.sequences, e.active, e.sequences[e.active].steps.remove(i)),
            e.active,
            "visual step deleted"@,
        )
    } else {
        e
    }
}

/// The editor once a sequence was dropped in front of another, or at the end.
pub open spec fn with_sequence_moved(e: EditorView, from: int, to: int) -> EditorView {
    let n = e.sequences.len();
    if from >= n || to > n {
        e
    } else if from == to || from + 1 == to {
        EditorView { active: from, ..e }
    } else {
        changed(
            moved(e.sequences, from, to),
            if follow(e.active, from, to) < n {
                follow(e.active, from, to)
            } else {
                n - 1
            },
            "visual sequence reordered"@,
        )
    }
}

/// The editor once a step was dropped in front of another, or at the end.
pub open spec fn with_step_moved(e: EditorView, sequence: int, from: int, to: int) -> EditorView {
    if sequence != e.active || e.active >= e.sequences.len() {
        e
    } else {
        let steps = e.sequences[e.active].steps;
        if moves(steps.len(), from, to) {
            changed(
                with_steps(e.sequences, e.active, moved(steps, from, to)),
                e.active,
                "visual step reordered"@,
            )
        } else {
            e
        }
    }
}

/// How many steps sequences have together.
pub open spec fn step_count(sequences: Seq<SequenceView>) -> nat
    decreases sequences.len(),
{
    if sequences.len() == 0 {
        0
    } else {
        step_count(sequences.drop_last()) + sequences.last().steps.len()
    }
}

impl VisualEditor {
    pub open spec fn view(self) -> EditorView {
        EditorView {
            sequences: visual::sequence_views(self.sequences@),
            active: self.active as int,
            dirty: self.dirty,
            status: self.status@,
        }
    }

    /// Shows a sequence.
    pub fn set_active_visual_sequence(&mut self, index: usize)
        ensures
            final(self).view() == with_active(old(self).view(), index as int),
    {
        if index < self.sequences.len() {
            self.active = index;
        }
    }

    fn add_named(&mut self, name: String)
        ensures
            final(self).view().sequences == old(self).view().sequences.push(
                SequenceView { name: name@, steps: Seq::empty() },
            ),
            final(self).active == old(self).active,
            final(self).dirty == old(self).dirty,
            final(self).status == old(self).status,
    {
        let s = VisualSequenceBlueprint { name, steps: Vec::new() };
        assert(visual::step_views(s.steps@) =~= Seq::<StepView>::empty());
        self.sequences.push(s);
        assert(self.view().sequences =~= old(self).view().sequences.push(s.view()));
    }

    /// Adds a sequence and shows it.
    pub fn add_visual_sequence(&mut self)
        ensures
            final(self).view() == with_sequence(old(self).view()),
    {
        let mut name: String = "Sequence ".to_owned();
        push_dec(&mut name, self.sequences.len() as u128 + 1);
        self.active = self.sequences.len();
        self.add_named(name);
        self.dirty = true;
        self.status = "visual sequence added".to_owned();
    }

    /// Deletes the sequence that is shown. The last one is only emptied.
    pub fn delete_active_visual_sequence(&mut self)
        ensures
            final(self).view() == without_active(old(self).view()),
    {
        let ghost before = self.view();
        let n: usize = self.sequences.len();
        if n <= 1 {
            if n == 1 {
                let name: String = self.sequences[0].name.clone();
                let s = VisualSequenceBlueprint { name, steps: Vec::new() };
                assert(visual::step_views(s.steps@) =~= Seq::<StepView>::empty());
                self.sequences.set(0, s);
                assert(before.sequences[0].name == name@);
                assert(self.view().sequences =~= seq![s.view()]);
            }
            self.active = 0;
        } else if self.active < n {
            self.sequences.remove(self.active);
            assert(self.view().sequences =~= before.sequences.remove(before.active));
            if self.active > n - 2 {
                self.active = n - 2;
            }
        }
        self.dirty = true;
        self.status = "visual sequence deleted".to_owned();
    }

    /// Puts other steps into a sequence.
    fn put_steps(&mut self, i: usize, steps: Vec<VisualStepBlueprint>)
        requires
            i < old(self).sequences@.len(),
        ensures
            final(self).view().sequences == with_steps(
                old(self).view().sequences,
                i as int,
                visual::step_views(steps@),
            ),
            final(self).active == old(self).active,
            final(self).dirty == old(self).dirty,
            final(self).status == old(self).status,
    {
        let ghost before = self.view();
        let name: String = self.sequences[i].name.clone();
        assert(before.sequences[i as int].name == name@);
        self.sequences.set(i, VisualSequenceBlueprint { name, steps });
        assert(self.view().sequences =~= with_steps(
            before.sequences,
            i as int,
            visual::step_views(steps@),
        ));
    }

    fn steps_of(&self, i: usize) -> (steps: Vec<VisualStepBlueprint>)
        requires
            i < self.sequences@.len(),
        ensures
            visual::step_views(steps@) == self.view().sequences[i as int].steps,
    {
        let from = &self.sequences[i].steps;
        let mut steps: Vec<VisualStepBlueprint> = Vec::new();
        let mut k: usize = 0;
        while k < from.len()
            invariant
                k <= from.len(),
                steps@.len() == k,
                forall|j: int| 0 <= j < k ==> (#[trigger] steps@[j]).view() == from@[j].view(),
            decreases from.len() - k,
        {
            steps.push(from[k].copy());
            k += 1;
        }
        assert(visual::step_views(steps@) =~= visual::step_views(from@));
        steps
    }

    /// Adds a step to the sequence that is shown.
    pub fn add_visual_step(&mut self, kind: VisualStepKind)
        ensures
            final(self).view() == with_step(old(self).view(), kind),
    {
        if self.sequences.len() == 0 {
            self.add_named("Sequence 1".to_owned());
            self.active = 0;
            assert(self.view().sequences =~= seq![
                SequenceView { name: "Sequence 1"@, steps: Seq::empty() },
            ]);
        }
        if self.active < self.sequences.len() {
            let mut steps = self.steps_of(self.active);
            let ghost v = visual::step_views(steps@);
            let step = VisualStepBlueprint::default_kind(kind);
            steps.push(step);
            assert(visual::step_views(steps@) =~= v.push(step.view()));
            self.put_steps(self.active, steps);
        }
        self.dirty = true;
        let mut s: String = kind.label().to_owned();
        s.push_str(" step added");
        self.status = s;
    }

    /// Doubles a step of the sequence that is shown.
    pub fn duplicate_visual_step(&mut self, step_index: usize)
        ensures
            final(self).view() == with_double(old(self).view(), step_index as int),
    {
        if self.active >= self.sequences.len() {
            return;
        }
        let mut steps = self.steps_of(self.active);
        let ghost v = visual::step_views(steps@);
        if step_index >= steps.len() {
            return;
        }
        let double = steps[step_index].to_blueprint();
        assert(v[step_index as int] == steps@[step_index as int].view());
        steps.insert(step_index + 1, double);
        assert(visual::step_views(steps@) =~= v.insert(step_index + 1, double.view()));
        self.put_steps(self.active, steps);
        self.dirty = true;
        self.status = "visual step duplicated".to_owned();
    }

    /// Deletes a step of the sequence that is shown.
    pub fn delete_visual_step(&mut self, step_index: usize)
        ensures
            final(self).view() == without_step(old(self).view(), step_index as int),
    {
        if self.active >= self.sequences.len() {
            return;
        }
        let mut steps = self.steps_of(self.active);
        let ghost v = visual::step_views(steps@);
        if step_index < steps.len() {
            steps.remove(step_index);
            assert(visual::step_views(steps@) =~= v.remove(step_index as int));
            self.put_steps(self.active, steps);
            self.dirty = true;
            self.status = "visual step deleted".to_owned();
        }
    }

    /// Drops a sequence in front of another, or at the end.
    pub fn drop_visual_sequence_at_index(&mut self, source_index: usize, target_index: usize)
        ensures
            final(self).view() == with_sequence_moved(
                old(self).view(),
                source_index as int,
                target_index as int,
            ),
    {
        let ghost before = self.view();
        let n: usize = self.sequences.len();
        if source_index >= n || target_index > n {
            return;
        }
        if source_index == target_index || source_index + 1 == target_index {
            self.active = source_index;
            return;
        }
        let at: usize = if source_index < target_index {
            target_index - 1
        } else {
            target_index
        };
        let s = self.sequences.remove(source_index);
        self.sequences.insert(at, s);
        assert(self.view().sequences =~= moved(
            before.sequences,
            source_index as int,
            target_index as int,
        ));
        if self.active == source_index {
            self.active = at;
        } else {
            let rest: usize = if self.active > source_index {
                self.active - 1
            } else {
                self.active
            };
            if rest >= n {
                self.active = n - 1;
            } else if rest >= at {
                self.active = if rest + 1 < n {
                    rest + 1
                } else {
                    n - 1
                };
            } else {
                self.active = rest;
            }
        }
        self.dirty = true;
        self.status = "visual sequence reordered".to_owned();
    }

    /// Drops a step of a sequence in front of another, or at the end.
    pub fn drop_visual_step_at_index(
        &mut self,
        sequence_index: usize,
        source_index: usize,
        target_index: usize,
    )
        ensures
            final(self).view() == with_step_moved(
                old(self).view(),
                sequence_index as int,
                source_index as int,
                target_index as int,
            ),
    {
        if sequence_index != self.active || self.active >= self.sequences.len() {
            return;
        }
        let mut steps = self.steps_of(self.active);
        let ghost v = visual::step_views(steps@);
        let n: usize = steps.len();
        if source_index >= n || target_index > n || source_index == target_index || source_index + 1
            == target_index {
            return;
        }
        let at: usize = if source_index < target_index {
            target_index - 1
        } else {
            target_index
        };
        let step = steps.remove(source_index);
        steps.insert(at, step);
        assert(visual::step_views(steps@) =~= moved(v, source_index as int, target_index as int));
        self.put_steps(self.active, steps);
        self.dirty = true;
        self.status = "visual step reordered".to_owned();
    }

    /// The sequences as they are taken over from what is typed.
    pub fn blueprints(&self) -> (list: Vec<VisualSequenceBlueprint>)
        ensures
            visual::sequence_views(list@) == blueprints(self.view().sequences),
    {
        all_blueprints(&self.sequences)
    }

    /// The text of all sequences, or all that is wrong with them.
    pub fn visual_source_all(&self, c: &RegisterCatalog, chips: &[String]) -> (r: Result<
        String,
        Vec<String>,
    >)
        requires
            all_end_in_range(c.regs()),
        ensures
            visual_source::text_or_faults(r) == source_of_all(
                c.regs(),
                self.view().sequences,
                text::texts(chips@),
            ),
    {
        let list = self.blueprints();
        let mut errors = visual_sequence_errors(&list);
        let mut more = visual_safety_errors(c, &list);
        let ghost a = text::texts(errors@);
        let ghost b = text::texts(more@);
        errors.append(&mut more);
        assert(text::texts(errors@) =~= a + b);
        if errors.len() > 0 {
            return Err(errors);
        }
        visual_source_from_blueprints(&list, chips)
    }

    /// The text of the sequence that is shown, or what is wrong with it.
    pub fn visual_source_for_active(&self, c: &RegisterCatalog, chips: &[String]) -> (r: Result<
        String,
        Vec<String>,
    >)
        requires
            all_end_in_range(c.regs()),
        ensures
            visual_source::text_or_faults(r) == source_of_active(
                c.regs(),
                self.view(),
                text::texts(chips@),
            ),
    {
        if self.active >= self.sequences.len() {
            let mut errors: Vec<String> = Vec::new();
            errors.push("no active visual sequence".to_owned());
            assert(text::texts(errors@) =~= seq!["no active visual sequence"@]);
            return Err(errors);
        }
        let one = self.sequences[self.active].to_blueprint();
        assert(self.view().sequences[self.active as int] == self.sequences@[self.active as int].view());
        let mut list: Vec<VisualSequenceBlueprint> = Vec::new();
        list.push(one);
        assert(visual::sequence_views(list@) =~= seq![one.view()]);
        let errors = visual_safety_errors(c, &list);
        if errors.len() > 0 {
            return Err(errors);
        }
        visual_source_from_blueprints(&list, chips)
    }

    /// Whether a sequence has a step.
    pub fn has_steps(&self) -> (r: bool)
        ensures
            r == any_steps(self.view().sequences),
    {
        let ghost v = self.view().sequences;
        let mut i: usize = 0;
        while i < self.sequences.len()
            invariant
                i <= self.sequences.len(),
                v == self.view().sequences,
                forall|k: int| 0 <= k < i ==> (#[trigger] v[k]).steps.len() == 0,
            decreases self.sequences.len() - i,
        {
            assert(v[i as int] == self.sequences@[i as int].view());
            if self.sequences[i].steps.len() > 0 {
                assert(v[i as int].steps.len() > 0);
                return true;
            }
            i += 1;
        }
        false
    }

    /// What is told of the sequences as a whole.
    pub fn visual_sequence_stats(&self) -> (s: String)
        ensures
            s@ == stats_text(self.view()),
    {
        let ghost v = self.view().sequences;
        let mut n: u128 = 0;
        let mut i: usize = 0;
        assert(v.take(0) =~= Seq::<SequenceView>::empty());
        while i < self.sequences.len()
            invariant
                i <= self.sequences.len(),
                v == self.view().sequences,
                n == step_count(v.take(i as int)),
                n <= i * usize::MAX,
            decreases self.sequences.len() - i,
        {
            assert(v.take(i + 1).drop_last() =~= v.take(i as int));
            assert(v[i as int] == self.sequences@[i as int].view());
            assert(i * usize::MAX + usize::MAX == (i + 1) * usize::MAX) by (nonlinear_arith);
            assert((i + 1) * usize::MAX <= usize::MAX * usize::MAX) by (nonlinear_arith)
                requires
                    i + 1 <= usize::MAX,
            ;
            assert(usize::MAX * usize::MAX <= u128::MAX) by (nonlinear_arith)
                requires
                    usize::MAX <= 0xffff_ffff_ffff_ffff,
            ;
            n += self.sequences[i].steps.len() as u128;
            i += 1;
        }
        assert(v.take(v.len() as int) =~= v);
        let mut s: String = String::new();
        push_dec(&mut s, self.sequences.len() as u128);
        s.push_str(" sequences, ");
        push_dec(&mut s, n);
        s.push_str(" steps, active ");
        if self.active < self.sequences.len() {
            assert(v[self.active as int] == self.sequences@[self.active as int].view());
            s.push_str(settle_name(self.sequences[self.active].name.as_str()).as_str());
        } else {
            s.push_str("none");
        }
        assert(s@ =~= stats_text(self.view()));
        s
    }
}

/// Whether a sequence has a step.
pub open spec fn any_steps(sequences: Seq<SequenceView>) -> bool {
    exists|i: int| 0 <= i < sequences.len() && (#[trigger] sequences[i]).steps.len() > 0
}

/// What is told of sequences as a whole.
pub open spec fn stats_text(e: EditorView) -> Seq<char> {
    text::dec(e.sequences.len()) + " sequences, "@ + text::dec(step_count(e.sequences))
        + " steps, active "@ + (if e.active < e.sequences.len() {
        settled_name(e.sequences[e.active].name)
    } else {
        "none"@
    })
}

/// The text of sequences, or all that is wrong with them.
pub open spec fn source_of_all(
    regs: Seq<RegView>,
    sequences: Seq<SequenceView>,
    chips: Seq<Seq<char>>,
) -> Result<Seq<char>, Seq<Seq<char>>> {
    let list = blueprints(sequences);
    let wrong = visual_source::faults(list) + objections(regs, list);
    if wrong.len() > 0 {
        Err(wrong)
    } else {
        visual_source::source_of(list, chips)
    }
}

/// The text of the sequence that is shown, or what is wrong with it.
pub open spec fn source_of_active(regs: Seq<RegView>, e: EditorView, chips: Seq<Seq<char>>) -> Result<
    Seq<char>,
    Seq<Seq<char>>,
> {
    if e.active >= e.sequences.len() {
        Err(seq!["no active visual sequence"@])
    } else {
        let list = seq![blueprint(e.sequences[e.active])];
        let wrong = objections(regs, list);
        if wrong.len() > 0 {
            Err(wrong)
        } else {
            visual_source::source_of(list, chips)
        }
    }
}

/// Moving a sequence keeps the same one shown.
pub proof fn law_shown_sequence_is_kept(e: EditorView, from: int, to: int)
    requires
        moves(e.sequences.len(), from, to),
        0 <= e.active < e.sequences.len(),
    ensures
        with_sequence_moved(e, from, to).sequences[with_sequence_moved(e, from, to).active]
            == e.sequences[e.active],
{
    law_moved(e.sequences, from, to, e.active);
}

/// A sequence is shown whatever is done, once there is one.
pub proof fn law_something_is_shown(e: EditorView, i: int, from: int, to: int, kind: VisualStepKind)
    requires
        0 <= e.active < e.sequences.len(),
        0 <= i,
        0 <= from,
        0 <= to,
    ensures
        ({
            let shown = |v: EditorView| 0 <= v.active < v.sequences.len();
            &&& shown(with_active(e, i))
            &&& shown(with_sequence(e))
            &&& shown(without_active(e))
            &&& shown(with_step(e, kind))
            &&& shown(with_double(e, i))
            &&& shown(without_step(e, i))
            &&& shown(with_sequence_moved(e, from, to))
            &&& shown(with_step_moved(e, i, from, to))
        }),
{
}

// ---- the text editor

/// How many lines a text has: at least one, and none behind the last line end.
pub open spec fn line_count(s: Seq<char>) -> nat {
    let lines = split::pieces(s, seq!['\n']);
    if lines.len() > 1 && lines.last().len() == 0 {
        (lines.len() - 1) as nat
    } else {
        lines.len()
    }
}

/// What is told of a text as a whole.
pub fn sequence_editor_stats(source: &str) -> (s: String)
    ensures
        s@ == text::dec(line_count(source@)) + " lines, "@ + text::dec(position::bytes_in(source@))
            + " bytes"@,
{
    let chars = chars_of(source);
    let mut newline: Vec<char> = Vec::new();
    newline.push('\n');
    assert(newline@ =~= seq!['\n']);
    let lines = split_on(&chars, &newline);
    let ghost all = split::pieces(source@, seq!['\n']);
    assert(split::char_lists(lines@) == all);
    let mut n: usize = lines.len();
    if n > 1 {
        assert(all.last() == lines@[n - 1]@);
        if lines[n - 1].len() == 0 {
            n -= 1;
        }
    }
    let located = locate(source);
    let k: usize = located.chars.len();
    assert(source@.take(k as int) =~= source@);
    let mut s: String = String::new();
    push_dec(&mut s, n as u128);
    s.push_str(" lines, ");
    push_dec(&mut s, located.offsets[k] as u128);
    s.push_str(" bytes");
    assert(s@ =~= text::dec(line_count(source@)) + " lines, "@ + text::dec(
        position::bytes_in(source@),
    ) + " bytes"@);
    s
}

} // verus!
