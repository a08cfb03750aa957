//! What editing blocks does to the sequences and their steps.
use crate::blocks;
use crate::blocks::EditorView;
use crate::text;
use crate::visual;
use crate::visual::{SequenceView, StepView, VisualStepKind};
use vstd::prelude::*;

verus! {

/// Whether one editor differs from another at most in the steps of the sequence that is shown, in
/// that it was changed, and in what happened last.
pub open spec fn only_steps_differ(e: EditorView, after: EditorView) -> bool {
    &&& after.active == e.active
    &&& after.dirty
    &&& after.sequences.len() == e.sequences.len()
    &&& forall|k: int|
        0 <= k < e.sequences.len() && k != e.active ==> #[trigger] after.sequences[k]
            == e.sequences[k]
    &&& after.sequences[e.active].name == e.sequences[e.active].name
}

/// Deleting step `i` takes out that step and no other: the steps in front of it keep their places,
/// and each step behind it moves up by one. All else stays.
pub proof fn law_deleted_step(e: EditorView, i: int)
    requires
        0 <= e.active < e.sequences.len(),
        0 <= i < e.sequences[e.active].steps.len(),
    ensures
        ({
            let steps = e.sequences[e.active].steps;
            let after = blocks::without_step(e, i);
            let left = after.sequences[e.active].steps;
            &&& only_steps_differ(e, after)
            &&& after.status == "visual step deleted"@
            &&& left == steps.subrange(0, i) + steps.subrange(i + 1, steps.len() as int)
            &&& left.len() == steps.len() - 1
            &&& forall|j: int| 0 <= j < i ==> #[trigger] left[j] == steps[j]
            &&& forall|j: int| i < j < steps.len() ==> left[j - 1] == #[trigger] steps[j]
        }),
{
    let steps = e.sequences[e.active].steps;
    let left = blocks::without_step(e, i).sequences[e.active].steps;
    assert(left =~= steps.subrange(0, i) + steps.subrange(i + 1, steps.len() as int));
}

/// Doubling step `i` puts a step like it, without white space around what is typed, right behind
/// it. The steps up to it keep their places, and each step behind it moves down by one.
pub proof fn law_doubled_step(e: EditorView, i: int)
    requires
        0 <= e.active < e.sequences.len(),
        0 <= i < e.sequences[e.active].steps.len(),
    ensures
        ({
            let steps = e.sequences[e.active].steps;
            let after = blocks::with_double(e, i);
            let all = after.sequences[e.active].steps;
            &&& only_steps_differ(e, after)
            &&& after.status == "visual step duplicated"@
            &&& all.len() == steps.len() + 1
            &&& forall|j: int| 0 <= j <= i ==> #[trigger] all[j] == steps[j]
            &&& forall|j: int| i < j < steps.len() ==> all[j + 1] == #[trigger] steps[j]
            &&& all[i + 1].kind == steps[i].kind
            &&& all[i + 1].address == text::trimmed(steps[i].address)
            &&& all[i + 1].read_len == text::trimmed(steps[i].read_len)
            &&& all[i + 1].data == text::trimmed(steps[i].data)
            &&& all[i + 1].delay_us == text::trimmed(steps[i].delay_us)
        }),
{
}

/// Deleting the step that doubling made gives back the steps there were.
pub proof fn law_double_and_delete(e: EditorView, i: int)
    requires
        0 <= e.active < e.sequences.len(),
        0 <= i < e.sequences[e.active].steps.len(),
    ensures
        blocks::without_step(blocks::with_double(e, i), i + 1).sequences == e.sequences,
{
    let steps = e.sequences[e.active].steps;
    let after = blocks::without_step(blocks::with_double(e, i), i + 1);
    assert(after.sequences[e.active].steps =~= steps);
    assert(after.sequences[e.active] == e.sequences[e.active]);
    assert(after.sequences =~= e.sequences);
}

/// A step is added behind all others of the sequence that is shown, and is of the kind that was
/// asked for. Where there is no sequence, one is made for it and shown.
pub proof fn law_added_step(e: EditorView, kind: VisualStepKind)
    requires
        e.sequences.len() == 0 || 0 <= e.active < e.sequences.len(),
    ensures
        ({
            let after = blocks::with_step(e, kind);
            let all = after.sequences[after.active].steps;
            &&& after.dirty
            &&& all.len() > 0
            &&& all.last() == visual::new_step(kind)
            &&& all.last().kind == kind
            &&& e.sequences.len() > 0 ==> {
                &&& only_steps_differ(e, after)
                &&& all.drop_last() == e.sequences[e.active].steps
            }
            &&& e.sequences.len() == 0 ==> {
                &&& after.sequences.len() == 1
                &&& after.active == 0
                &&& after.sequences[0].name == "Sequence 1"@
                &&& all.len() == 1
            }
        }),
{
    let after = blocks::with_step(e, kind);
    let all = after.sequences[after.active].steps;
    if e.sequences.len() > 0 {
        assert(all.drop_last() =~= e.sequences[e.active].steps);
    }
}

/// Dropping step `from` in front of step `to` takes it out and puts it there: the other steps keep
/// their order, and in front of it stand those that stood in front of `to`.
pub proof fn law_dropped_step(e: EditorView, from: int, to: int)
    requires
        0 <= e.active < e.sequences.len(),
        0 <= from < e.sequences[e.active].steps.len(),
        0 <= to <= e.sequences[e.active].steps.len(),
        from != to,
        from + 1 != to,
    ensures
        ({
            let steps = e.sequences[e.active].steps;
            let n = steps.len() as int;
            let after = blocks::with_step_moved(e, e.active, from, to);
            let all = after.sequences[e.active].steps;
            &&& only_steps_differ(e, after)
            &&& after.status == "visual step reordered"@
            &&& from < to ==> all == steps.subrange(0, from) + steps.subrange(from + 1, to)
                + seq![steps[from]] + steps.subrange(to, n)
            &&& to < from ==> all == steps.subrange(0, to) + seq![steps[from]] + steps.subrange(
                to,
                from,
            ) + steps.subrange(from + 1, n)
        }),
{
    let steps = e.sequences[e.active].steps;
    let n = steps.len() as int;
    let all = blocks::with_step_moved(e, e.active, from, to).sequences[e.active].steps;
    if from < to {
        assert(all =~= steps.subrange(0, from) + steps.subrange(from + 1, to) + seq![steps[from]]
            + steps.subrange(to, n));
    } else {
        assert(all =~= steps.subrange(0, to) + seq![steps[from]] + steps.subrange(to, from)
            + steps.subrange(from + 1, n));
    }
}

/// What names no step of the sequence that is shown changes nothing.
pub proof fn law_no_such_step(e: EditorView, sequence: int, i: int, to: int)
    requires
        0 <= i,
        0 <= to,
    ensures
        e.active >= e.sequences.len() || i >= e.sequences[e.active].steps.len() ==> {
            &&& blocks::without_step(e, i) == e
            &&& blocks::with_double(e, i) == e
            &&& blocks::with_step_moved(e, e.active, i, to) == e
        },
        sequence != e.active ==> blocks::with_step_moved(e, sequence, i, to) == e,
        i == to || i + 1 == to ==> blocks::with_step_moved(e, sequence, i, to) == e,
{
}

/// Dropping sequence `from` in front of sequence `to` takes it out and puts it there, and the other
/// sequences keep their order. The sequence that was shown is still shown.
pub proof fn law_dropped_sequence(e: EditorView, from: int, to: int)
    requires
        0 <= from < e.sequences.len(),
        0 <= to <= e.sequences.len(),
        from != to,
        from + 1 != to,
    ensures
        ({
            let s = e.sequences;
            let n = s.len() as int;
            let after = blocks::with_sequence_moved(e, from, to);
            &&& after.dirty
            &&& after.status == "visual sequence reordered"@
            &&& from < to ==> after.sequences == s.subrange(0, from) + s.subrange(from + 1, to)
                + seq![s[from]] + s.subrange(to, n)
            &&& to < from ==> after.sequences == s.subrange(0, to) + seq![s[from]] + s.subrange(
                to,
                from,
            ) + s.subrange(from + 1, n)
            &&& 0 <= e.active < n ==> 0 <= after.active < n && after.sequences[after.active]
                == s[e.active]
            &&& 0 <= e.active < n && e.active == from ==> after.active == (if from < to {
                to - 1
            } else {
                to
            })
            &&& 0 <= e.active < n && e.active < from && e.active < to ==> after.active == e.active
            &&& from < e.active < n && to <= e.active ==> (from < to ==> after.active == e.active)
            &&& from < e.active < to ==> after.active == e.active - 1
            &&& to <= e.active < from ==> after.active == e.active + 1
        }),
{
    let s = e.sequences;
    let n = s.len() as int;
    let after = blocks::with_sequence_moved(e, from, to);
    if from < to {
        assert(after.sequences =~= s.subrange(0, from) + s.subrange(from + 1, to) + seq![s[from]]
            + s.subrange(to, n));
    } else {
        assert(after.sequences =~= s.subrange(0, to) + seq![s[from]] + s.subrange(to, from)
            + s.subrange(from + 1, n));
    }
}

/// Dropping a sequence where it stands shows it and changes nothing else. Dropping one that there
/// is not, or where there is no place, changes nothing.
pub proof fn law_sequence_stays(e: EditorView, from: int, to: int)
    requires
        0 <= from,
        0 <= to,
    ensures
        ({
            let after = blocks::with_sequence_moved(e, from, to);
            let n = e.sequences.len();
            &&& from < n && to <= n && (from == to || from + 1 == to) ==> {
                &&& after.sequences == e.sequences
                &&& after.active == from
                &&& after.dirty == e.dirty
                &&& after.status == e.status
            }
            &&& from >= n || to > n ==> after == e
        }),
{
}

/// A sequence is added behind all others, without steps, and is shown.
pub proof fn law_added_sequence(e: EditorView)
    ensures
        ({
            let after = blocks::with_sequence(e);
            &&& after.dirty
            &&& after.status == "visual sequence added"@
            &&& after.sequences.len() == e.sequences.len() + 1
            &&& after.sequences.drop_last() == e.sequences
            &&& after.sequences.last().name == "Sequence "@ + text::dec(
                e.sequences.len() + 1,
            )
            &&& after.sequences.last().steps.len() == 0
            &&& after.active == e.sequences.len()
        }),
{
    let after = blocks::with_sequence(e);
    assert(after.sequences.drop_last() =~= e.sequences);
}

/// Deleting the sequence that is shown takes out that one and no other. Shown is then the one
/// behind it, or the last where there is none behind it.
pub proof fn law_deleted_sequence(e: EditorView)
    requires
        0 <= e.active < e.sequences.len(),
        e.sequences.len() > 1,
    ensures
        ({
            let n = e.sequences.len() as int;
            let after = blocks::without_active(e);
            &&& after.dirty
            &&& after.status == "visual sequence deleted"@
            &&& after.sequences == e.sequences.subrange(0, e.active) + e.sequences.subrange(
                e.active + 1,
                n,
            )
            &&& e.active + 1 < n ==> after.sequences[after.active] == e.sequences[e.active + 1]
                && after.active == e.active
            &&& e.active + 1 == n ==> after.active == n - 2
        }),
{
    let n = e.sequences.len() as int;
    assert(blocks::without_active(e).sequences =~= e.sequences.subrange(0, e.active)
        + e.sequences.subrange(e.active + 1, n));
}

/// Deleting the only sequence leaves it there under its name, without steps.
pub proof fn law_last_sequence_is_emptied(e: EditorView)
    requires
        e.sequences.len() == 1,
    ensures
        ({
            let after = blocks::without_active(e);
            &&& after.sequences.len() == 1
            &&& after.sequences[0].name == e.sequences[0].name
            &&& after.sequences[0].steps.len() == 0
            &&& after.active == 0
            &&& after.dirty
        }),
{
}

/// Adding a sequence and deleting it gives back the sequences there were.
pub proof fn law_add_and_delete_sequence(e: EditorView)
    requires
        e.sequences.len() > 0,
    ensures
        blocks::without_active(blocks::with_sequence(e)).sequences == e.sequences,
{
    assert(blocks::without_active(blocks::with_sequence(e)).sequences =~= e.sequences);
}

/// Showing a sequence shows that one and changes nothing else. One that there is not is not shown.
pub proof fn law_shown_sequence(e: EditorView, index: int)
    requires
        0 <= index,
    ensures
        ({
            let after = blocks::with_active(e, index);
            &&& after.sequences == e.sequences
            &&& after.dirty == e.dirty
            &&& after.status == e.status
            &&& index < e.sequences.len() ==> after.active == index
            &&& index >= e.sequences.len() ==> after.active == e.active
        }),
{
}

/// What is typed is taken over without white space around it and otherwise unchanged, step by step
/// and in order. A sequence without a name is called so.
pub proof fn law_taken_over(sequences: Seq<SequenceView>, i: int, j: int)
    requires
        0 <= i < sequences.len(),
    ensures
        ({
            let list = blocks::blueprints(sequences);
            let name = text::trimmed(sequences[i].name);
            &&& list.len() == sequences.len()
            &&& list[i].steps.len() == sequences[i].steps.len()
            &&& name.len() > 0 ==> list[i].name == name
            &&& name.len() == 0 ==> list[i].name == "Untitled"@
            &&& 0 <= j < sequences[i].steps.len() ==> {
                let from: StepView = sequences[i].steps[j];
                let to: StepView = list[i].steps[j];
                &&& to.kind == from.kind
                &&& to.address == text::trimmed(from.address)
                &&& to.read_len == text::trimmed(from.read_len)
                &&& to.data == text::trimmed(from.data)
                &&& to.delay_us == text::trimmed(from.delay_us)
            }
        }),
{
}

/// A step that is added reads one byte at zero, or writes a zero there, and does not wait.
pub proof fn law_new_step()
    ensures
        visual::new_step(VisualStepKind::Read) == (StepView {
            kind: VisualStepKind::Read,
            address: "0x00"@,
            read_len: "1"@,
            data: ""@,
            delay_us: "0"@,
        }),
        visual::new_step(VisualStepKind::Write) == (StepView {
            kind: VisualStepKind::Write,
            address: "0x00"@,
            read_len: "1"@,
            data: "0x00"@,
            delay_us: "0"@,
        }),
{
}

} // verus!
