//! The order of texts, and lists in that order.
use crate::text;
use crate::text::chars_of;
use vstd::prelude::*;

verus! {

/// Whether `a` stands before `b` or is the same: they are compared character by character,
/// and a text stands before those that continue it.
pub open spec fn text_le(a: Seq<char>, b: Seq<char>) -> bool
    decreases a.len(),
{
    if a.len() == 0 {
        true
    } else if b.len() == 0 {
        false
    } else if a[0] != b[0] {
        a[0] < b[0]
    } else {
        text_le(a.skip(1), b.skip(1))
    }
}

/// Of two texts one stands before the other.
pub proof fn law_text_le_total(a: Seq<char>, b: Seq<char>)
    ensures
        text_le(a, b) || text_le(b, a),
        text_le(a, b) && text_le(b, a) ==> a == b,
    decreases a.len(),
{
    if a.len() == 0 && b.len() == 0 {
        assert(a =~= b);
    } else if a.len() > 0 && b.len() > 0 && a[0] == b[0] {
        law_text_le_total(a.skip(1), b.skip(1));
        if text_le(a, b) && text_le(b, a) {
            assert(a =~= seq![a[0]] + a.skip(1));
            assert(b =~= seq![b[0]] + b.skip(1));
        }
    }
}

/// What stands before something stands before what follows that.
pub proof fn law_text_le_transitive(a: Seq<char>, b: Seq<char>, c: Seq<char>)
    requires
        text_le(a, b),
        text_le(b, c),
    ensures
        text_le(a, c),
    decreases a.len(),
{
    if a.len() > 0 && a[0] == b[0] && b[0] == c[0] {
        law_text_le_transitive(a.skip(1), b.skip(1), c.skip(1));
    }
}

/// Whether `a` stands before `b` or is the same.
pub fn is_text_le(a: &str, b: &str) -> (r: bool)
    ensures
        r == text_le(a@, b@),
{
    let x = chars_of(a);
    let y = chars_of(b);
    let mut i: usize = 0;
    assert(x@.skip(0) =~= x@);
    assert(y@.skip(0) =~= y@);
    while i < x.len()
        invariant
            i <= x.len(),
            i <= y.len(),
            x@ == a@,
            y@ == b@,
            text_le(a@, b@) == text_le(x@.skip(i as int), y@.skip(i as int)),
        decreases x.len() - i,
    {
        if i >= y.len() {
            return false;
        }
        assert(x@.skip(i as int).skip(1) =~= x@.skip(i + 1));
        assert(y@.skip(i as int).skip(1) =~= y@.skip(i + 1));
        if x[i] != y[i] {
            return x[i] < y[i];
        }
        i += 1;
    }
    true
}

/// `t` put into an ordered list, behind what stands before it or is the same.
pub open spec fn inserted(list: Seq<Seq<char>>, t: Seq<char>) -> Seq<Seq<char>>
    decreases list.len(),
{
    if list.len() == 0 {
        seq![t]
    } else if text_le(list.last(), t) {
        list.push(t)
    } else {
        inserted(list.drop_last(), t).push(list.last())
    }
}

/// The texts in order.
pub open spec fn ordered(list: Seq<Seq<char>>) -> Seq<Seq<char>>
    decreases list.len(),
{
    if list.len() == 0 {
        Seq::empty()
    } else {
        inserted(ordered(list.drop_last()), list.last())
    }
}

/// Whether a list is in order.
pub open spec fn in_order(list: Seq<Seq<char>>) -> bool {
    forall|i: int, j: int| 0 <= i <= j < list.len() ==> text_le(#[trigger] list[i], #[trigger] list[j])
}

proof fn lemma_text_le_refl(a: Seq<char>)
    ensures
        text_le(a, a),
{
    law_text_le_total(a, a);
}

proof fn lemma_inserted(list: Seq<Seq<char>>, t: Seq<char>)
    requires
        in_order(list),
    ensures
        in_order(inserted(list, t)),
        inserted(list, t).to_multiset() == list.to_multiset().insert(t),
        inserted(list, t).len() == list.len() + 1,
    decreases list.len(),
{
    let r = inserted(list, t);
    broadcast use vstd::seq_lib::group_to_multiset_ensures;
    lemma_text_le_refl(t);
    if list.len() == 0 {
        assert(r =~= list.push(t));
    } else if text_le(list.last(), t) {
        assert forall|i: int, j: int| 0 <= i <= j < r.len() implies text_le(
            #[trigger] r[i],
            #[trigger] r[j],
        ) by {
            if j == list.len() && i < j {
                law_text_le_transitive(list[i], list.last(), t);
            }
        }
    } else {
        let rest = list.drop_last();
        assert(in_order(rest));
        lemma_inserted(rest, t);
        law_text_le_total(list.last(), t);
        lemma_text_le_refl(list.last());
        let q = inserted(rest, t);
        lemma_below(rest, t, list.last());
        assert forall|i: int, j: int| 0 <= i <= j < r.len() implies text_le(
            #[trigger] r[i],
            #[trigger] r[j],
        ) by {
            if j == q.len() && i < j {
                assert(text_le(q[i], list.last()));
            }
        }
        assert(list =~= rest.push(list.last()));
        assert(r.to_multiset() =~= q.to_multiset().insert(list.last()));
        assert(list.to_multiset() =~= rest.to_multiset().insert(list.last()));
        assert(r.to_multiset() =~= list.to_multiset().insert(t));
    }
}

proof fn lemma_below(list: Seq<Seq<char>>, t: Seq<char>, top: Seq<char>)
    requires
        text_le(t, top),
        forall|i: int| 0 <= i < list.len() ==> text_le(#[trigger] list[i], top),
    ensures
        forall|i: int|
            0 <= i < inserted(list, t).len() ==> text_le(#[trigger] inserted(list, t)[i], top),
    decreases list.len(),
{
    let r = inserted(list, t);
    if list.len() > 0 && !text_le(list.last(), t) {
        let rest = list.drop_last();
        assert forall|i: int| 0 <= i < rest.len() implies text_le(#[trigger] rest[i], top) by {
            assert(rest[i] == list[i]);
        }
        lemma_below(rest, t, top);
        let q = inserted(rest, t);
        assert(r == q.push(list.last()));
        assert forall|i: int| 0 <= i < r.len() implies text_le(#[trigger] r[i], top) by {
            if i < q.len() {
                assert(r[i] == q[i]);
            } else {
                assert(list[list.len() - 1] == r[i]);
            }
        }
    } else if list.len() > 0 {
        assert forall|i: int| 0 <= i < r.len() implies text_le(#[trigger] r[i], top) by {
            if i < list.len() {
                assert(r[i] == list[i]);
            }
        }
    }
}

/// Ordering a list keeps its texts and puts them in order.
pub proof fn law_ordered(list: Seq<Seq<char>>)
    ensures
        in_order(ordered(list)),
        ordered(list).to_multiset() == list.to_multiset(),
        ordered(list).len() == list.len(),
    decreases list.len(),
{
    broadcast use vstd::seq_lib::group_to_multiset_ensures;
    if list.len() > 0 {
        law_ordered(list.drop_last());
        lemma_inserted(ordered(list.drop_last()), list.last());
        assert(list =~= list.drop_last().push(list.last()));
        assert(list.to_multiset() =~= list.drop_last().to_multiset().insert(list.last()));
    } else {
        assert(ordered(list) =~= list);
    }
}

proof fn lemma_same_order(a: Seq<Seq<char>>, b: Seq<Seq<char>>)
    requires
        in_order(a),
        in_order(b),
        a.to_multiset() == b.to_multiset(),
    ensures
        a == b,
    decreases a.len(),
{
    broadcast use vstd::seq_lib::group_to_multiset_ensures;
    assert(a.len() == a.to_multiset().len());
    assert(b.len() == b.to_multiset().len());
    if a.len() == 0 {
        assert(a =~= b);
    } else {
        assert(b.len() > 0);
        assert(b.contains(a.last())) by {
            assert(a.contains(a[a.len() - 1]));
            assert(a.to_multiset().count(a.last()) > 0);
        }
        assert(a.contains(b.last())) by {
            assert(b.contains(b[b.len() - 1]));
            assert(b.to_multiset().count(b.last()) > 0);
        }
        let i = choose|i: int| 0 <= i < b.len() && b[i] == a.last();
        let j = choose|j: int| 0 <= j < a.len() && a[j] == b.last();
        assert(text_le(b[i], b[b.len() - 1]));
        assert(text_le(a[j], a[a.len() - 1]));
        law_text_le_total(a.last(), b.last());
        assert(a.last() == b.last());
        let x = a.drop_last();
        let y = b.drop_last();
        assert(a =~= x.push(a.last()));
        assert(b =~= y.push(b.last()));
        assert(a.to_multiset() =~= x.to_multiset().insert(a.last()));
        assert(b.to_multiset() =~= y.to_multiset().insert(b.last()));
        assert(x.to_multiset() =~= a.to_multiset().remove(a.last()));
        assert(y.to_multiset() =~= b.to_multiset().remove(b.last()));
        lemma_same_order(x, y);
    }
}

/// Lists of the same texts are the same once they are in order.
pub proof fn law_ordered_of_permutation(a: Seq<Seq<char>>, b: Seq<Seq<char>>)
    requires
        a.to_multiset() == b.to_multiset(),
    ensures
        ordered(a) == ordered(b),
{
    law_ordered(a);
    law_ordered(b);
    lemma_same_order(ordered(a), ordered(b));
}

fn insert_text(list: &mut Vec<String>, t: String)
    ensures
        text::texts(final(list)@) == inserted(text::texts(old(list)@), t@),
{
    let ghost before = text::texts(list@);
    let mut k: usize = list.len();
    assert(before.take(k as int) =~= before);
    while k > 0 && !is_text_le(list[k - 1].as_str(), t.as_str())
        invariant
            k <= list.len(),
            before == text::texts(list@),
            inserted(before, t@) == inserted(before.take(k as int), t@) + before.skip(k as int),
        decreases k,
    {
        proof {
            let here = before.take(k as int);
            assert(here.last() == list@[k - 1]@);
            assert(here.drop_last() =~= before.take(k - 1));
            let q = inserted(before.take(k - 1), t@);
            assert(q.push(here.last()) + before.skip(k as int) =~= q + before.skip(k - 1));
        }
        k -= 1;
    }
    proof {
        let here = before.take(k as int);
        if k > 0 {
            assert(here.last() == list@[k - 1]@);
        } else {
            assert(here.push(t@) =~= seq![t@]);
        }
        assert(inserted(here, t@) == here.push(t@));
    }
    list.insert(k, t);
    assert(text::texts(list@) =~= before.take(k as int).push(t@) + before.skip(k as int));
}

/// The texts in order.
pub fn sort_texts(list: Vec<String>) -> (r: Vec<String>)
    ensures
        text::texts(r@) == ordered(text::texts(list@)),
{
    let mut r: Vec<String> = Vec::new();
    let ghost all = text::texts(list@);
    let mut i: usize = 0;
    assert(text::texts(r@) =~= ordered(all.take(0)));
    while i < list.len()
        invariant
            i <= list.len(),
            all == text::texts(list@),
            text::texts(r@) == ordered(all.take(i as int)),
        decreases list.len() - i,
    {
        assert(all.take(i + 1).drop_last() =~= all.take(i as int));
        assert(all[i as int] == list@[i as int]@);
        insert_text(&mut r, list[i].clone());
        i += 1;
    }
    assert(all.take(all.len() as int) =~= all);
    r
}

/// Texts are ordered by the first characters that differ; a text comes before every longer text that
/// it begins.
pub proof fn law_text_order(common: Seq<char>, a: Seq<char>, b: Seq<char>)
    ensures
        text_le(common, common + a),
        a.len() > 0 ==> !text_le(common + a, common),
        a.len() > 0 && b.len() > 0 && a[0] < b[0] ==> text_le(common + a, common + b) && !text_le(
            common + b,
            common + a,
        ),
    decreases common.len(),
{
    if common.len() > 0 {
        let rest = common.skip(1);
        law_text_order(rest, a, b);
        assert((common + a).skip(1) =~= rest + a);
        assert((common + b).skip(1) =~= rest + b);
    } else {
        assert(common + a =~= a);
        assert(common + b =~= b);
    }
}

} // verus!
