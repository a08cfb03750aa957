//! What holds of what is shown and what is typed in.
use crate::input;
use crate::report;
use crate::split;
use crate::text;
use vstd::prelude::*;

verus! {

/// A numeral denotes the number that it is a numeral of.
pub proof fn law_numeral_value(n: nat, base: nat)
    requires
        2 <= base <= 16,
    ensures
        text::digits_value(text::numeral(n, base), base) == Some(n),
    decreases n,
{
    let s = text::numeral(n, base);
    if n < base {
        assert(s.drop_last() =~= Seq::<char>::empty());
        assert(s.last() == text::digit(n));
        assert(text::digits_value(s.drop_last(), base) == Some(0nat));
        assert(0 * base == 0);
    } else {
        assert(n / base < n) by (nonlinear_arith)
            requires
                n >= base,
                base >= 2,
        ;
        assert(n / base * base + n % base == n && 0 <= n % base < base) by (nonlinear_arith)
            requires
                base >= 2,
        ;
        law_numeral_value(n / base, base);
        assert(s.drop_last() =~= text::numeral(n / base, base));
        assert(s.last() == text::digit(n % base));
    }
}

/// A byte as it is shown.
spec fn shown_byte(b: u8) -> Seq<char> {
    text::hex(b as nat, 2)
}

proof fn lemma_shown_byte(b: u8)
    ensures
        shown_byte(b) == seq![text::digit(b as nat / 16), text::digit(b as nat % 16)],
        forall|i: int| 0 <= i < 2 ==> text::is_digit_char(#[trigger] shown_byte(b)[i]),
        input::hex_pair(shown_byte(b)[0], shown_byte(b)[1]) == b,
{
    let n = b as nat;
    reveal_with_fuel(text::numeral, 2);
    reveal_with_fuel(text::zero_padded, 2);
    if n < 16 {
        assert(text::numeral(n, 16) == seq![text::digit(n)]);
        assert(shown_byte(b) =~= seq!['0'] + seq![text::digit(n)]);
        assert(text::digit(0) == '0');
        assert(shown_byte(b) =~= seq![text::digit(n / 16), text::digit(n % 16)]);
    } else {
        assert(n / 16 < 16);
        assert(text::numeral(n, 16) =~= seq![text::digit(n / 16), text::digit(n % 16)]);
    }
    assert(text::digit_value(text::digit(n / 16), 16) == Some(n / 16));
    assert(text::digit_value(text::digit(n % 16), 16) == Some(n % 16));
}

/// Shown bytes stand three characters apart, with a space behind each but the last.
proof fn lemma_shown_bytes(bytes: Seq<u8>)
    requires
        bytes.len() > 0,
    ensures
        report::hex_text(bytes).len() == 3 * bytes.len() - 1,
        forall|k: int, j: int|
            0 <= k < bytes.len() && 0 <= j < 2 ==> report::hex_text(bytes)[#[trigger] (3 * k + j)]
                == shown_byte(bytes[k])[j],
        forall|k: int|
            0 <= k < bytes.len() - 1 ==> report::hex_text(bytes)[#[trigger] (3 * k + 2)] == ' ',
    decreases bytes.len(),
{
    reveal_strlit(" ");
    let s = report::hex_text(bytes);
    lemma_shown_byte(bytes.last());
    if bytes.len() > 1 {
        let less = bytes.drop_last();
        let t = report::hex_text(less);
        lemma_shown_bytes(less);
        assert(s == t + " "@ + shown_byte(bytes.last()));
        let n = less.len() as int;
        assert forall|k: int, j: int| 0 <= k < bytes.len() && 0 <= j < 2 implies s[#[trigger] (3 * k
            + j)] == shown_byte(bytes[k])[j] by {
            if k < n {
                assert(t[3 * k + j] == shown_byte(less[k])[j]);
            }
        }
        assert forall|k: int| 0 <= k < bytes.len() - 1 implies s[#[trigger] (3 * k + 2)] == ' ' by {
            if k < n - 1 {
                assert(t[3 * k + 2] == ' ');
            }
        }
    } else {
        assert(bytes[0] == bytes.last());
        assert(s == shown_byte(bytes[0]));
        assert forall|k: int, j: int| 0 <= k < bytes.len() && 0 <= j < 2 implies s[#[trigger] (3 * k
            + j)] == shown_byte(bytes[k])[j] by {
            assert(k == 0);
        }
    }
}

spec fn shown_words(bytes: Seq<u8>) -> Seq<Seq<char>> {
    bytes.map_values(|b: u8| shown_byte(b))
}

proof fn lemma_words_of_shown(bytes: Seq<u8>, k: int)
    requires
        0 <= k <= bytes.len(),
        bytes.len() > 0,
    ensures
        split::words_from(report::hex_text(bytes), 3 * k) == shown_words(bytes.skip(k)),
    decreases bytes.len() - k,
{
    let s = report::hex_text(bytes);
    lemma_shown_bytes(bytes);
    if k < bytes.len() {
        lemma_words_of_shown(bytes, k + 1);
        lemma_shown_byte(bytes[k]);
        let at = 3 * k;
        assert(s[3 * k + 0int] == shown_byte(bytes[k])[0]);
        assert(s[3 * k + 1] == shown_byte(bytes[k])[1]);
        reveal_with_fuel(split::word_end, 3);
        if k < bytes.len() - 1 {
            assert(s[3 * k + 2] == ' ');
            assert(split::word_end(s, at) == at + 2);
            assert(split::words_from(s, at + 2) == split::words_from(s, at + 3));
        } else {
            assert(split::word_end(s, at) == at + 2);
            assert(split::words_from(s, at + 2) =~= Seq::<Seq<char>>::empty());
            assert(split::words_from(s, 3 * (k + 1)) =~= Seq::<Seq<char>>::empty());
        }
        assert(s.subrange(at, at + 2) =~= shown_byte(bytes[k]));
        assert(bytes.skip(k)[0] == bytes[k]);
        assert(bytes.skip(k).skip(1) =~= bytes.skip(k + 1));
        assert(shown_words(bytes.skip(k)) =~= seq![shown_byte(bytes[k])] + shown_words(
            bytes.skip(k + 1),
        ));
    } else {
        assert(shown_words(bytes.skip(k)) =~= Seq::<Seq<char>>::empty());
    }
}

proof fn lemma_token_of_shown(b: u8)
    ensures
        input::token_bytes(shown_byte(b)) == Ok::<Seq<u8>, Seq<char>>(seq![b]),
{
    let w = shown_byte(b);
    lemma_shown_byte(b);
    assert(w.len() == 2);
    assert(text::is_digit_char(w[0]) && text::is_digit_char(w[1]));
    assert(text::trimmed(w) == w);
    reveal(Seq::filter);
    reveal_with_fuel(Seq::filter, 4);
    assert(w.drop_last().drop_last() =~= Seq::<char>::empty());
    assert(w.filter(split::other_than('_')) =~= w);
    assert(input::all_hex(w));
    assert(input::hex_value(w) =~= seq![b]);
}

proof fn lemma_single_bytes_of_shown(bytes: Seq<u8>)
    ensures
        input::single_bytes(shown_words(bytes)) == Ok::<Seq<u8>, Seq<char>>(bytes),
    decreases bytes.len(),
{
    let words = shown_words(bytes);
    if bytes.len() == 0 {
        assert(input::single_bytes(words) == Ok::<Seq<u8>, Seq<char>>(Seq::empty()));
        assert(bytes =~= Seq::<u8>::empty());
    } else {
        lemma_single_bytes_of_shown(bytes.drop_last());
        assert(words.drop_last() =~= shown_words(bytes.drop_last()));
        assert(words.last() == shown_byte(bytes.last()));
        lemma_token_of_shown(bytes.last());
        assert(bytes.drop_last() + seq![bytes.last()] =~= bytes);
    }
}

/// Bytes as they are shown are read back when they are typed in.
pub proof fn law_shown_bytes_read_back(bytes: Seq<u8>)
    requires
        bytes.len() > 0,
    ensures
        input::write_bytes(report::hex_text(bytes)) == Ok::<Seq<u8>, Seq<char>>(bytes),
{
    let s = report::hex_text(bytes);
    let n = bytes.len() as int;
    lemma_shown_bytes(bytes);
    lemma_shown_byte(bytes[0]);
    lemma_shown_byte(bytes[n - 1]);
    assert(s[3 * 0int + 0int] == shown_byte(bytes[0])[0]);
    assert(s[3 * (n - 1) + 1] == shown_byte(bytes[n - 1])[1]);
    assert(text::trimmed(s) == s);
    let spaced = s.map_values(|c: char| input::spaced(c));
    assert forall|i: int| 0 <= i < s.len() implies input::spaced(#[trigger] s[i]) == s[i] by {
        let k = i / 3;
        let j = i % 3;
        assert(i == 3 * k + j);
        if j < 2 {
            lemma_shown_byte(bytes[k]);
            assert(s[3 * k + j] == shown_byte(bytes[k])[j]);
        } else {
            assert(s[3 * k + 2] == ' ');
        }
    }
    assert(spaced =~= s);
    lemma_words_of_shown(bytes, 0);
    assert(bytes.skip(0) =~= bytes);
    assert(input::byte_tokens(s) == shown_words(bytes));
    if n == 1 {
        lemma_token_of_shown(bytes[0]);
        assert(bytes =~= seq![bytes[0]]);
        assert(shown_words(bytes)[0] == shown_byte(bytes[0]));
    } else {
        lemma_single_bytes_of_shown(bytes);
    }
}

} // verus!
