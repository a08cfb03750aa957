//! Parts of text: words, pieces between separators, and text without some characters.
use crate::text;
use crate::text::{has_char, white};
use vstd::prelude::*;
use vstd::slice::slice_subrange;

verus! {

/// Where the word that starts at `at` ends.
pub open spec fn word_end(s: Seq<char>, at: int) -> int
    decreases s.len() - at,
{
    if at < 0 || at >= s.len() || text::is_white(s[at]) {
        at
    } else {
        word_end(s, at + 1)
    }
}

proof fn lemma_word_end(s: Seq<char>, at: int)
    requires
        0 <= at <= s.len(),
    ensures
        at <= word_end(s, at) <= s.len(),
        at < s.len() && !text::is_white(s[at]) ==> at < word_end(s, at),
        forall|i: int| at <= i < word_end(s, at) ==> !text::is_white(#[trigger] s[i]),
        word_end(s, at) < s.len() ==> text::is_white(s[word_end(s, at)]),
    decreases s.len() - at,
{
    if at < s.len() && !text::is_white(s[at]) {
        lemma_word_end(s, at + 1);
    }
}

/// The words from position `at` on: the longest runs without white space.
pub open spec fn words_from(s: Seq<char>, at: int) -> Seq<Seq<char>>
    decreases s.len() - at,
{
    if at < 0 || at >= s.len() {
        Seq::empty()
    } else if text::is_white(s[at]) || word_end(s, at) <= at || word_end(s, at) > s.len() {
        words_from(s, at + 1)
    } else {
        seq![s.subrange(at, word_end(s, at))] + words_from(s, word_end(s, at))
    }
}

/// The words of a text.
pub open spec fn words(s: Seq<char>) -> Seq<Seq<char>> {
    words_from(s, 0)
}

/// What a list of character lists stands for.
pub open spec fn char_lists(v: Seq<Vec<char>>) -> Seq<Seq<char>> {
    v.map_values(|w: Vec<char>| w@)
}

/// A copy of characters.
pub fn copy_chars(s: &[char]) -> (c: Vec<char>)
    ensures
        c@ == s@,
{
    let mut c: Vec<char> = Vec::new();
    let mut i: usize = 0;
    while i < s.len()
        invariant
            i <= s.len(),
            c@ == s@.take(i as int),
        decreases s.len() - i,
    {
        c.push(s[i]);
        i += 1;
        assert(c@ =~= s@.take(i as int));
    }
    assert(s@.take(s@.len() as int) =~= s@);
    c
}

/// The words of a text.
pub fn split_words(s: &[char]) -> (w: Vec<Vec<char>>)
    ensures
        char_lists(w@) == words(s@),
{
    let mut w: Vec<Vec<char>> = Vec::new();
    let mut at: usize = 0;
    assert(char_lists(w@) =~= Seq::<Seq<char>>::empty());
    assert(Seq::<Seq<char>>::empty() + words(s@) =~= words(s@));
    while at < s.len()
        invariant
            at <= s.len(),
            words(s@) == char_lists(w@) + words_from(s@, at as int),
        decreases s.len() - at,
    {
        proof {
            lemma_word_end(s@, at as int);
        }
        if white(s[at]) {
            at += 1;
        } else {
            let mut end: usize = at + 1;
            while end < s.len() && !white(s[end])
                invariant
                    at < end <= s.len(),
                    word_end(s@, at as int) == word_end(s@, end as int),
                decreases s.len() - end,
            {
                end += 1;
            }
            let ghost before = char_lists(w@);
            let word = copy_chars(slice_subrange(s, at, end));
            w.push(word);
            proof {
                assert(char_lists(w@) =~= before.push(word@));
                let rest = words_from(s@, end as int);
                assert(before + (seq![word@] + rest) =~= before.push(word@) + rest);
            }
            at = end;
        }
    }
    assert(char_lists(w@) + Seq::<Seq<char>>::empty() =~= char_lists(w@));
    w
}

/// Whether a text is not empty and holds no white space.
pub open spec fn is_word(w: Seq<char>) -> bool {
    w.len() > 0 && forall|j: int| 0 <= j < w.len() ==> !text::is_white(#[trigger] w[j])
}

/// No word is empty, and none holds white space.
pub proof fn law_words(s: Seq<char>)
    ensures
        forall|i: int| 0 <= i < words(s).len() ==> is_word(#[trigger] words(s)[i]),
{
    lemma_words_from(s, 0);
}

proof fn lemma_words_from(s: Seq<char>, at: int)
    requires
        0 <= at,
    ensures
        forall|i: int| 0 <= i < words_from(s, at).len() ==> is_word(#[trigger] words_from(s, at)[i]),
    decreases s.len() - at,
{
    if at < s.len() {
        lemma_word_end(s, at);
        if text::is_white(s[at]) {
            lemma_words_from(s, at + 1);
            assert(words_from(s, at) == words_from(s, at + 1));
        } else {
            let e = word_end(s, at);
            lemma_words_from(s, e);
            let w = s.subrange(at, e);
            let rest = words_from(s, e);
            assert(is_word(w)) by {
                assert forall|j: int| 0 <= j < w.len() implies !text::is_white(#[trigger] w[j]) by {
                    assert(w[j] == s[at + j]);
                }
            }
            let all = words_from(s, at);
            assert(all == seq![w] + rest);
            assert forall|i: int| 0 <= i < all.len() implies is_word(#[trigger] all[i]) by {
                if i > 0 {
                    assert(all[i] == rest[i - 1]);
                }
            }
        }
    }
}

// ---- pieces between separators

/// The first position from `at` on that holds a separator, or the end.
pub open spec fn first_sep(s: Seq<char>, at: int, seps: Seq<char>) -> int
    decreases s.len() - at,
{
    if at < 0 || at >= s.len() || seps.contains(s[at]) {
        at
    } else {
        first_sep(s, at + 1, seps)
    }
}

proof fn lemma_first_sep(s: Seq<char>, at: int, seps: Seq<char>)
    requires
        0 <= at <= s.len(),
    ensures
        at <= first_sep(s, at, seps) <= s.len(),
    decreases s.len() - at,
{
    if at < s.len() && !seps.contains(s[at]) {
        lemma_first_sep(s, at + 1, seps);
    }
}

/// The pieces between separators from position `at` on.
pub open spec fn pieces_from(s: Seq<char>, at: int, seps: Seq<char>) -> Seq<Seq<char>>
    decreases s.len() - at,
{
    let e = first_sep(s, at, seps);
    if at < 0 || e < at || e >= s.len() {
        seq![s.skip(at)]
    } else {
        seq![s.subrange(at, e)] + pieces_from(s, e + 1, seps)
    }
}

/// The pieces of a text between separators.
pub open spec fn pieces(s: Seq<char>, seps: Seq<char>) -> Seq<Seq<char>> {
    pieces_from(s, 0, seps)
}

/// The pieces of a text between separators.
pub fn split_on(s: &[char], seps: &[char]) -> (p: Vec<Vec<char>>)
    ensures
        char_lists(p@) == pieces(s@, seps@),
{
    let mut p: Vec<Vec<char>> = Vec::new();
    let mut at: usize = 0;
    let mut end: usize = 0;
    assert(char_lists(p@) + pieces(s@, seps@) =~= pieces(s@, seps@));
    while end < s.len()
        invariant
            at <= end <= s.len(),
            first_sep(s@, at as int, seps@) == first_sep(s@, end as int, seps@),
            pieces(s@, seps@) == char_lists(p@) + pieces_from(s@, at as int, seps@),
        decreases s.len() - end,
    {
        if has_char(seps, s[end]) {
            let ghost before = char_lists(p@);
            let piece = copy_chars(slice_subrange(s, at, end));
            p.push(piece);
            proof {
                assert(char_lists(p@) =~= before.push(piece@));
                let rest = pieces_from(s@, end + 1, seps@);
                assert(before + (seq![piece@] + rest) =~= before.push(piece@) + rest);
            }
            at = end + 1;
        }
        end += 1;
    }
    let ghost before = char_lists(p@);
    let piece = copy_chars(slice_subrange(s, at, s.len()));
    p.push(piece);
    assert(piece@ =~= s@.skip(at as int));
    assert(char_lists(p@) =~= before + seq![piece@]);
    p
}

// ---- without some characters

/// Whether a character is another than `c`.
pub open spec fn other_than(c: char) -> spec_fn(char) -> bool {
    |k: char| k != c
}

/// `s` without the character `c`.
pub fn without(s: &[char], c: char) -> (r: Vec<char>)
    ensures
        r@ == s@.filter(other_than(c)),
{
    let mut r: Vec<char> = Vec::new();
    let mut i: usize = 0;
    proof {
        reveal(Seq::filter);
    }
    while i < s.len()
        invariant
            i <= s.len(),
            r@ == s@.take(i as int).filter(other_than(c)),
        decreases s.len() - i,
    {
        proof {
            reveal(Seq::filter);
            assert(s@.take(i + 1).drop_last() =~= s@.take(i as int));
        }
        if s[i] != c {
            r.push(s[i]);
        }
        i += 1;
    }
    assert(s@.take(s@.len() as int) =~= s@);
    r
}

/// `s` without the characters `c` at the front.
pub open spec fn strip_front(s: Seq<char>, c: char) -> Seq<char>
    decreases s.len(),
{
    if s.len() > 0 && s[0] == c {
        strip_front(s.skip(1), c)
    } else {
        s
    }
}

/// `s` without the characters `c` at the end.
pub open spec fn strip_back(s: Seq<char>, c: char) -> Seq<char>
    decreases s.len(),
{
    if s.len() > 0 && s.last() == c {
        strip_back(s.drop_last(), c)
    } else {
        s
    }
}

/// `s` without the characters `c` at both ends.
pub open spec fn stripped(s: Seq<char>, c: char) -> Seq<char> {
    strip_back(strip_front(s, c), c)
}

/// `s` without the characters `c` at both ends.
pub fn strip(s: &[char], c: char) -> (r: &[char])
    ensures
        r@ == stripped(s@, c),
{
    let mut from: usize = 0;
    assert(s@.skip(0) =~= s@);
    while from < s.len() && s[from] == c
        invariant
            from <= s.len(),
            strip_front(s@, c) == strip_front(s@.skip(from as int), c),
        decreases s.len() - from,
    {
        assert(s@.skip(from as int).skip(1) =~= s@.skip(from + 1));
        from += 1;
    }
    let mut to: usize = s.len();
    assert(s@.subrange(from as int, to as int) =~= s@.skip(from as int));
    while to > from && s[to - 1] == c
        invariant
            from <= to <= s.len(),
            stripped(s@, c) == strip_back(s@.subrange(from as int, to as int), c),
        decreases to,
    {
        assert(s@.subrange(from as int, to as int).drop_last() =~= s@.subrange(
            from as int,
            to - 1,
        ));
        to -= 1;
    }
    slice_subrange(s, from, to)
}

/// What follows `0` and one of two letters at the front of `s`.
pub open spec fn behind_prefix(s: Seq<char>, a: char, b: char) -> Option<Seq<char>> {
    if s.len() >= 2 && s[0] == '0' && (s[1] == a || s[1] == b) {
        Some(s.skip(2))
    } else {
        None
    }
}

/// What follows `0` and one of two letters at the front of `s`.
pub fn strip_prefix<'a>(s: &'a [char], a: char, b: char) -> (r: Option<&'a [char]>)
    ensures
        (match r {
            Some(t) => Some(t@),
            None => None,
        }) == behind_prefix(s@, a, b),
{
    if s.len() >= 2 && s[0] == '0' && (s[1] == a || s[1] == b) {
        assert(s@.subrange(2, s@.len() as int) =~= s@.skip(2));
        Some(slice_subrange(s, 2, s.len()))
    } else {
        None
    }
}

} // verus!
