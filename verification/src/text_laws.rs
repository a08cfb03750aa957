//! What texts say: numerals, trimmed and joined texts, and the texts of reports.

use vstd::prelude::*;

use crate::report;
use crate::text;
use crate::wire::ArgView;
use crate::wire::ReportMeta;

verus! {

/// The value of a digit of a numeral.
pub open spec fn worth(c: char) -> int {
    if c <= '9' {
        c as int - '0' as int
    } else {
        c as int - 'a' as int + 10
    }
}

/// The number that digits stand for, the most significant one first.
pub open spec fn stands_for(s: Seq<char>, base: int) -> int
    decreases s.len(),
{
    if s.len() == 0 {
        0
    } else {
        base * stands_for(s.drop_last(), base) + worth(s.last())
    }
}

/// A numeral: at least one digit, each one of the base, in small letters.
pub open spec fn is_numeral(s: Seq<char>, base: int) -> bool {
    s.len() > 0 && forall|i: int|
        0 <= i < s.len() ==> {
            &&& '0' <= (#[trigger] s[i]) <= '9' || 'a' <= s[i] <= 'f'
            &&& worth(s[i]) < base
        }
}

/// A number is written in the digits of its base, without a needless zero.
pub proof fn law_numeral(n: nat, base: nat)
    requires
        2 <= base <= 16,
    ensures
        is_numeral(text::numeral(n, base), base as int),
        stands_for(text::numeral(n, base), base as int) == n,
        text::numeral(n, base).len() > 1 ==> text::numeral(n, base)[0] != '0',
    decreases n,
{
    let s = text::numeral(n, base);
    if n < base {
        assert(s.drop_last() =~= Seq::<char>::empty());
        assert(stands_for(s.drop_last(), base as int) == 0);
        assert(base * 0 == 0);
    } else {
        let q = n / base;
        assert(0 < q < n && n == base * q + n % base) by (nonlinear_arith)
            requires
                n >= base,
                base >= 2,
                q == n / base,
        ;
        law_numeral(q, base);
        let less = text::numeral(q, base);
        assert(s.drop_last() =~= less);
        assert(s.last() == text::digit(n % base));
        assert forall|i: int| 0 <= i < s.len() implies {
            &&& '0' <= (#[trigger] s[i]) <= '9' || 'a' <= s[i] <= 'f'
            &&& worth(s[i]) < base
        } by {
            if i < less.len() {
                assert(s[i] == less[i]);
            }
        }
        if less.len() == 1 && less[0] == '0' {
            assert(less.drop_last() =~= Seq::<char>::empty());
            assert(stands_for(less.drop_last(), base as int) == 0);
            assert(base * 0 == 0);
            assert(q == 0);
        }
    }
}

proof fn lemma_zero_in_front(s: Seq<char>, base: int)
    ensures
        stands_for(seq!['0'] + s, base) == stands_for(s, base),
    decreases s.len(),
{
    let t = seq!['0'] + s;
    if s.len() == 0 {
        assert(t.drop_last() =~= Seq::<char>::empty());
        assert(stands_for(t.drop_last(), base) == 0);
        assert(base * 0 == 0);
    } else {
        assert(t.drop_last() =~= seq!['0'] + s.drop_last());
        lemma_zero_in_front(s.drop_last(), base);
    }
}

proof fn lemma_padded(s: Seq<char>, base: int, width: nat)
    requires
        base >= 2,
        is_numeral(s, base),
    ensures
        is_numeral(text::zero_padded(s, width), base),
        stands_for(text::zero_padded(s, width), base) == stands_for(s, base),
        text::zero_padded(s, width).len() == if s.len() >= width {
            s.len()
        } else {
            width
        },
        s.len() >= width ==> text::zero_padded(s, width) == s,
    decreases width - s.len(),
{
    if s.len() < width {
        let t = seq!['0'] + s;
        lemma_zero_in_front(s, base);
        assert forall|i: int| 0 <= i < t.len() implies {
            &&& '0' <= (#[trigger] t[i]) <= '9' || 'a' <= t[i] <= 'f'
            &&& worth(t[i]) < base
        } by {
            if i > 0 {
                assert(t[i] == s[i - 1]);
            }
        }
        lemma_padded(t, base, width);
    }
}

/// A number in decimal, hexadecimal and binary: the numeral that stands for it, with zeros in front
/// up to the width and not beyond it.
pub proof fn law_number_texts(n: nat, width: nat)
    ensures
        is_numeral(text::dec(n), 10) && stands_for(text::dec(n), 10) == n,
        text::dec(n).len() > 1 ==> text::dec(n)[0] != '0',
        is_numeral(text::hex(n, width), 16) && stands_for(text::hex(n, width), 16) == n,
        text::hex(n, width).len() >= width,
        text::hex(n, width).len() > width && text::hex(n, width).len() > 1 ==> text::hex(n, width)[0]
            != '0',
        is_numeral(text::bin(n, width), 2) && stands_for(text::bin(n, width), 2) == n,
        text::bin(n, width).len() >= width,
        text::bin(n, width).len() > width && text::bin(n, width).len() > 1 ==> text::bin(n, width)[0]
            != '0',
{
    law_numeral(n, 10);
    law_numeral(n, 16);
    law_numeral(n, 2);
    lemma_padded(text::numeral(n, 16), 16, width);
    lemma_padded(text::numeral(n, 2), 2, width);
}

/// A signed number: a minus sign in front of the magnitude of a negative one, and nothing in front
/// of another.
pub proof fn law_signed_number_text(i: int)
    ensures
        ({
            let s = text::dec_int(i);
            &&& s.len() > 0
            &&& i < 0 <==> s[0] == '-'
            &&& i < 0 ==> is_numeral(s.skip(1), 10) && stands_for(s.skip(1), 10) == -i
            &&& i >= 0 ==> is_numeral(s, 10) && stands_for(s, 10) == i
        }),
{
    reveal_strlit("-");
    if i < 0 {
        law_numeral((-i) as nat, 10);
        assert(text::dec_int(i).skip(1) =~= text::dec((-i) as nat));
    } else {
        law_numeral(i as nat, 10);
        assert(is_numeral(text::dec_int(i), 10));
        assert('0' <= text::dec_int(i)[0]);
    }
}

/// Which characters are digits of a base, and what they are worth: small and capital letters alike.
pub proof fn law_digit_worth(c: char, base: nat)
    requires
        base <= 36,
    ensures
        '0' <= c <= '9' && c as int - '0' as int <= base - 1 ==> text::digit_value(c, base) == Some(
            (c as int - '0' as int) as nat,
        ),
        'a' <= c <= 'z' && c as int - 'a' as int + 10 <= base - 1 ==> text::digit_value(c, base)
            == Some((c as int - 'a' as int + 10) as nat),
        'A' <= c <= 'Z' && c as int - 'A' as int + 10 <= base - 1 ==> text::digit_value(c, base)
            == Some((c as int - 'A' as int + 10) as nat),
        text::digit_value(c, base) is Some ==> '0' <= c <= '9' || 'a' <= c <= 'z' || 'A' <= c
            <= 'Z',
        text::digit_value(c, base) is Some ==> text::digit_value(c, base)->Some_0 < base,
{
}

/// What digits are read as: nothing is read as zero, one more digit multiplies what was read by the
/// base and adds its worth, and a character that is no digit leaves nothing to read.
pub proof fn law_read_digits(s: Seq<char>, c: char, base: nat)
    ensures
        text::digits_value(Seq::empty(), base) == Some(0nat),
        match (text::digits_value(s, base), text::digit_value(c, base)) {
            (Some(n), Some(d)) => text::digits_value(s.push(c), base) == Some(base * n + d),
            _ => text::digits_value(s.push(c), base) is None,
        },
{
    assert(s.push(c).drop_last() =~= s);
    match text::digits_value(s, base) {
        Some(n) => {
            assert(n * base == base * n) by (nonlinear_arith);
        },
        None => {},
    }
}

/// A numeral may have one plus sign in front, and is refused beyond the largest value.
pub proof fn law_read_numeral(s: Seq<char>, base: nat, max: nat)
    requires
        s.len() > 0,
        s[0] != '+',
    ensures
        text::bounded_value(seq!['+'] + s, base, max) == text::bounded_value(s, base, max),
        match text::digits_value(s, base) {
            Some(n) => text::bounded_value(s, base, max) == if n <= max {
                Some(n)
            } else {
                None
            },
            None => text::bounded_value(s, base, max) is None,
        },
        text::bounded_value(Seq::empty(), base, max) is None,
        text::bounded_value(seq!['+'], base, max) is None,
{
    assert((seq!['+'] + s).skip(1) =~= s);
    assert(seq!['+'].skip(1) =~= Seq::<char>::empty());
}

/// The characters that count as white space.
pub proof fn law_white_space(c: char)
    ensures
        text::is_white(c) <==> {
            ||| c == ' '
            ||| 9 <= c as int <= 13
            ||| c as int == 0x85
            ||| c as int == 0xa0
            ||| c as int == 0x1680
            ||| 0x2000 <= c as int <= 0x200a
            ||| c as int == 0x2028
            ||| c as int == 0x2029
            ||| c as int == 0x202f
            ||| c as int == 0x205f
            ||| c as int == 0x3000
        },
{
}

proof fn lemma_trim_start(s: Seq<char>, k: int)
    requires
        0 <= k <= s.len(),
        forall|i: int| 0 <= i < k ==> text::is_white(#[trigger] s[i]),
        k < s.len() ==> !text::is_white(s[k]),
    ensures
        text::trim_start(s) == s.skip(k),
    decreases s.len(),
{
    if k == 0 {
        assert(s.skip(0) =~= s);
    } else {
        let t = s.skip(1);
        assert(forall|i: int| 0 <= i < t.len() ==> t[i] == s[i + 1]);
        lemma_trim_start(t, k - 1);
        assert(t.skip(k - 1) =~= s.skip(k));
    }
}

proof fn lemma_trim_end(s: Seq<char>, k: int)
    requires
        0 <= k <= s.len(),
        forall|i: int| k <= i < s.len() ==> text::is_white(#[trigger] s[i]),
        k > 0 ==> !text::is_white(s[k - 1]),
    ensures
        text::trim_end(s) == s.take(k),
    decreases s.len(),
{
    if k == s.len() {
        assert(s.take(k) =~= s);
    } else {
        let t = s.drop_last();
        assert(forall|i: int| 0 <= i < t.len() ==> t[i] == s[i]);
        lemma_trim_end(t, k);
        assert(t.take(k) =~= s.take(k));
    }
}

/// Trimming takes away the white space at both ends and nothing else: of white space, a text whose
/// ends are not white, and white space again, the middle is left.
pub proof fn law_trimmed_middle(front: Seq<char>, middle: Seq<char>, back: Seq<char>)
    requires
        forall|i: int| 0 <= i < front.len() ==> text::is_white(#[trigger] front[i]),
        forall|i: int| 0 <= i < back.len() ==> text::is_white(#[trigger] back[i]),
        middle.len() > 0 ==> !text::is_white(middle[0]) && !text::is_white(middle.last()),
    ensures
        text::trimmed(front + middle + back) == middle,
        text::trim_start(front + middle) == middle,
        text::trim_end(middle + back) == middle,
{
    let s = front + middle + back;
    let n = front.len() as int;
    lemma_trim_start(front + middle, n);
    assert((front + middle).skip(n) =~= middle);
    lemma_trim_end(middle + back, middle.len() as int);
    assert((middle + back).take(middle.len() as int) =~= middle);
    if middle.len() > 0 {
        lemma_trim_start(s, n);
        assert(s.skip(n) =~= middle + back);
    } else {
        lemma_trim_start(s, s.len() as int);
        assert(s.skip(s.len() as int) =~= Seq::<char>::empty());
        assert(text::trim_end(Seq::<char>::empty()) =~= middle);
    }
}

/// Joined texts: the separator stands between two neighbours and nowhere else, and the texts keep
/// their order.
pub proof fn law_joined(a: Seq<Seq<char>>, b: Seq<Seq<char>>, one: Seq<char>, sep: Seq<char>)
    ensures
        text::joined(Seq::empty(), sep) == Seq::<char>::empty(),
        text::joined(seq![one], sep) == one,
        a.len() > 0 && b.len() > 0 ==> text::joined(a + b, sep) == text::joined(a, sep) + sep
            + text::joined(b, sep),
    decreases b.len(),
{
    if a.len() > 0 && b.len() > 0 {
        assert((a + b).drop_last() =~= a + b.drop_last());
        assert((a + b).last() == b.last());
        if b.len() == 1 {
            assert(a + b.drop_last() =~= a);
        } else {
            law_joined(a, b.drop_last(), one, sep);
            assert(text::joined(a + b, sep) =~= text::joined(a, sep) + sep + text::joined(b, sep));
        }
    }
}

/// Bytes in hexadecimal: two digits for each, in their order, with the separator between
/// neighbours.
pub proof fn law_bytes_text(a: Seq<u8>, b: Seq<u8>, one: u8, sep: Seq<char>)
    ensures
        report::hex_join(Seq::empty(), sep) == Seq::<char>::empty(),
        report::hex_join(seq![one], sep).len() == 2,
        is_numeral(report::hex_join(seq![one], sep), 16),
        stands_for(report::hex_join(seq![one], sep), 16) == one,
        a.len() > 0 && b.len() > 0 ==> report::hex_join(a + b, sep) == report::hex_join(a, sep)
            + sep + report::hex_join(b, sep),
    decreases b.len(),
{
    law_numeral(one as nat, 16);
    lemma_padded(text::numeral(one as nat, 16), 16, 2);
    assert(text::numeral(one as nat, 16).len() <= 2) by {
        reveal_with_fuel(text::numeral, 3);
    }
    if a.len() > 0 && b.len() > 0 {
        assert((a + b).drop_last() =~= a + b.drop_last());
        assert((a + b).last() == b.last());
        if b.len() == 1 {
            assert(a + b.drop_last() =~= a);
        } else {
            law_bytes_text(a, b.drop_last(), one, sep);
            assert(report::hex_join(a + b, sep) =~= report::hex_join(a, sep) + sep
                + report::hex_join(b, sep));
        }
    }
}

/// A preview tells as many bytes as it may and how many it leaves out.
pub proof fn law_preview(shown: Seq<u8>, rest: Seq<u8>)
    ensures
        report::preview_text(shown, shown.len()) == report::hex_join(shown, " "@),
        rest.len() > 0 ==> report::preview_text(shown + rest, shown.len()) == report::hex_join(
            shown,
            " "@,
        ) + " ... +"@ + text::dec(rest.len()) + "B"@,
{
    assert((shown + rest).take(shown.len() as int) =~= shown);
}

/// The name of a kind is that of the first entry of that kind; a kind without one is told by its
/// number.
pub proof fn law_kind_label(names: Seq<(u32, String)>, kind: u32, k: int)
    ensures
        0 <= k < names.len() && names[k].0 == kind && (forall|j: int|
            0 <= j < k ==> (#[trigger] names[j]).0 != kind) ==> report::kind_label(names, kind)
            == names[k].1@ && report::kind_name(names, kind) == Some(names[k].1@),
        (forall|j: int| 0 <= j < names.len() ==> (#[trigger] names[j]).0 != kind)
            ==> report::kind_label(names, kind) == "kind=0x"@ + text::hex(kind as nat, 1)
            && report::kind_name(names, kind) is None,
    decreases names.len(),
{
    if names.len() > 0 {
        let less = names.drop_last();
        assert(forall|j: int| 0 <= j < less.len() ==> less[j] == names[j]);
        law_kind_label(less, kind, k);
        law_kind_label(less, kind, 0);
    }
}

/// The first number and the first bytes among the arguments of a report.
pub proof fn law_first_arguments(args: Seq<ArgView>, k: int)
    requires
        0 <= k < args.len(),
    ensures
        args[k] is U32 && (forall|j: int| 0 <= j < k ==> !(#[trigger] args[j] is U32))
            ==> report::first_u32(args) == Some(args[k]->U32_0),
        args[k] is Bytes && (forall|j: int| 0 <= j < k ==> !(#[trigger] args[j] is Bytes))
            ==> report::first_bytes(args) == Some(args[k]->Bytes_0),
        (forall|j: int| 0 <= j < args.len() ==> !(#[trigger] args[j] is U32)) ==> report::first_u32(
            args,
        ) is None,
        (forall|j: int| 0 <= j < args.len() ==> !(#[trigger] args[j] is Bytes))
            ==> report::first_bytes(args) is None,
    decreases args.len(),
{
    let rest = args.skip(1);
    assert(forall|j: int| 0 <= j < rest.len() ==> rest[j] == args[j + 1]);
    if rest.len() > 0 {
        law_first_arguments(
            rest,
            if k > 0 {
                k - 1
            } else {
                0
            },
        );
    } else {
        assert(rest =~= Seq::<ArgView>::empty());
    }
}

/// The metadata of a report as text: its frame number, and its time where the flag in the lowest bit
/// says that it is valid.
pub proof fn law_meta_text(m: ReportMeta)
    ensures
        report::meta_text(None) == Seq::<char>::empty(),
        m.flags % 2 == 0 ==> report::meta_text(Some(m)) == " frame_id="@ + text::dec(
            m.frame_id as nat,
        ),
        m.flags % 2 == 1 ==> report::meta_text(Some(m)) == " frame_id="@ + text::dec(
            m.frame_id as nat,
        ) + " ts_us="@ + text::dec(m.timestamp_us as nat),
{
}

/// How the arguments of a report are told: numbers in hexadecimal, bytes by their number and the
/// first sixteen of them.
pub proof fn law_argument_texts(v: u32, b: Seq<u8>, a: Seq<ArgView>, c: Seq<ArgView>)
    ensures
        report::arg_text(ArgView::U32(v)) == "u32=0x"@ + text::hex(v as nat, 8),
        report::arg_text(ArgView::Bytes(b)) == "bytes["@ + text::dec(b.len()) + "]=["@
            + report::preview_text(b, 16) + "]"@,
        report::args_text(Seq::empty()).len() == 0,
        a.len() > 0 && c.len() > 0 ==> report::args_text(a + c) == report::args_text(a) + ", "@
            + report::args_text(c),
        report::args_text(seq![ArgView::U32(v)]) == report::arg_text(ArgView::U32(v)),
{
    let f = |x: ArgView| report::arg_text(x);
    assert((a + c).map_values(f) =~= a.map_values(f) + c.map_values(f));
    law_joined(a.map_values(f), c.map_values(f), Seq::empty(), ", "@);
    assert(seq![ArgView::U32(v)].map_values(f) =~= seq![report::arg_text(ArgView::U32(v))]);
}

} // verus!
