//! Queues and lists that keep the newest entries only.
use std::collections::VecDeque;
use vstd::prelude::*;

verus! {

/// A queue after a value was put into it that may hold `cap` entries.
pub open spec fn bounded<T>(queue: Seq<T>, value: T, cap: nat) -> Seq<T> {
    if cap == 0 {
        queue
    } else if queue.len() == cap {
        queue.skip(1).push(value)
    } else {
        queue.push(value)
    }
}

/// Puts a value into a queue. A full queue loses its oldest entry.
pub fn push_bounded<T>(queue: &mut VecDeque<T>, value: T, cap: usize)
    ensures
        final(queue)@ == bounded(old(queue)@, value, cap as nat),
{
    if cap == 0 {
        return;
    }
    if queue.len() == cap {
        let _ = queue.pop_front();
        assert(queue@ =~= old(queue)@.skip(1));
    }
    queue.push_back(value);
}

/// How many bars of history are kept.
pub const MAX_HISTORY_BARS: usize = 120;

/// A list after a value was put at its end that is to hold `cap` entries.
pub open spec fn capped<T>(list: Seq<T>, value: T, cap: nat) -> Seq<T> {
    if cap == 0 {
        list
    } else if list.len() >= cap {
        list.skip(1).push(value)
    } else {
        list.push(value)
    }
}

/// Puts a value at the end of a list. A full list loses its oldest entry.
pub fn push_vec_capped<T>(buf: &mut Vec<T>, value: T, cap: usize)
    ensures
        final(buf)@ == capped(old(buf)@, value, cap as nat),
{
    if cap == 0 {
        return;
    }
    if buf.len() >= cap {
        let _ = buf.remove(0);
        assert(buf@ =~= old(buf)@.skip(1));
    }
    buf.push(value);
}

/// Puts a bar at the end of the history. A full history loses its oldest bar.
pub fn push_history_capped<T>(buf: &mut VecDeque<T>, value: T)
    ensures
        final(buf)@ == capped(old(buf)@, value, MAX_HISTORY_BARS as nat),
{
    if buf.len() >= MAX_HISTORY_BARS {
        let _ = buf.pop_front();
        assert(buf@ =~= old(buf)@.skip(1));
    }
    buf.push_back(value);
}

/// A queue that fits still fits after another value, and ends with it.
pub proof fn law_bounded_fits<T>(queue: Seq<T>, value: T, cap: nat)
    requires
        queue.len() <= cap,
        cap > 0,
    ensures
        bounded(queue, value, cap).len() <= cap,
        bounded(queue, value, cap).last() == value,
{
}

/// The queue after values were put into it one after the other.
pub open spec fn bounded_all<T>(queue: Seq<T>, values: Seq<T>, cap: nat) -> Seq<T>
    decreases values.len(),
{
    if values.len() == 0 {
        queue
    } else {
        bounded(bounded_all(queue, values.drop_last(), cap), values.last(), cap)
    }
}

/// The last `cap` of a list.
pub open spec fn newest<T>(list: Seq<T>, cap: nat) -> Seq<T> {
    if list.len() <= cap {
        list
    } else {
        list.skip(list.len() - cap)
    }
}

/// A queue that was empty holds the newest values that were put into it.
pub proof fn law_bounded_keeps_newest<T>(values: Seq<T>, cap: nat)
    requires
        cap > 0,
    ensures
        bounded_all(Seq::empty(), values, cap) == newest(values, cap),
    decreases values.len(),
{
    if values.len() > 0 {
        law_bounded_keeps_newest(values.drop_last(), cap);
        let before = newest(values.drop_last(), cap);
        assert(bounded(before, values.last(), cap) =~= newest(values, cap));
    } else {
        assert(bounded_all(Seq::empty(), values, cap) =~= newest(values, cap));
    }
}

/// On a list that fits, both ways to keep the newest entries agree.
pub proof fn law_capped_is_bounded<T>(list: Seq<T>, value: T, cap: nat)
    requires
        list.len() <= cap,
    ensures
        capped(list, value, cap) == bounded(list, value, cap),
{
}

/// The newest values are the last ones, as many as there is room for, in their order.
pub proof fn law_newest_are_last<T>(list: Seq<T>, cap: nat)
    ensures
        list.len() <= cap ==> newest(list, cap) == list,
        list.len() > cap ==> newest(list, cap) == list.subrange(
            list.len() - cap,
            list.len() as int,
        ),
{
    if list.len() > cap {
        assert(list.skip(list.len() - cap) =~= list.subrange(list.len() - cap, list.len() as int));
    }
}

/// One more value stands behind the others; where there is no room for it, the first one leaves.
pub proof fn law_one_more<T>(list: Seq<T>, value: T, cap: nat)
    requires
        0 < cap,
        list.len() <= cap,
    ensures
        list.len() < cap ==> bounded(list, value, cap) == list + seq![value] && capped(
            list,
            value,
            cap,
        ) == list + seq![value],
        list.len() == cap ==> bounded(list, value, cap) == list.subrange(1, cap as int) + seq![
            value,
        ] && capped(list, value, cap) == list.subrange(1, cap as int) + seq![value],
        bounded(list, value, 0) == list,
        capped(list, value, 0) == list,
{
    assert(list.push(value) =~= list + seq![value]);
    if list.len() == cap {
        assert(list.skip(1).push(value) =~= list.subrange(1, cap as int) + seq![value]);
    }
}

} // verus!
