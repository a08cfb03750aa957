//! Numbers and lists as they are typed in.
use crate::split;
use crate::split::{split_on, split_words, strip, strip_prefix};
use crate::text;
use crate::text::{chars_of, digit_of, parse_number, push_chars, string_of, trim};
use vstd::prelude::*;
use vstd::slice::slice_subrange;

verus! {

/// Why digits from position `at` on denote no number up to `max`, where those before
/// denote `n`: the first that is no digit, or the first that makes the number too large.
pub open spec fn digits_fault(s: Seq<char>, at: int, n: nat, base: nat, max: nat) -> Option<
    Seq<char>,
>
    decreases s.len() - at,
{
    if at < 0 || at >= s.len() {
        None
    } else {
        match text::digit_value(s[at], base) {
            None => Some("invalid digit found in string"@),
            Some(d) => if n * base + d > max {
                Some("number too large to fit in target type"@)
            } else {
                digits_fault(s, at + 1, n * base + d, base, max)
            },
        }
    }
}

/// Why a text is no numeral for a number up to `max`.
pub open spec fn number_fault(s: Seq<char>, base: nat, max: nat) -> Option<Seq<char>> {
    if s.len() == 0 {
        Some("cannot parse integer from empty string"@)
    } else if s == seq!['+'] {
        Some("invalid digit found in string"@)
    } else if s[0] == '+' {
        digits_fault(s, 1, 0, base, max)
    } else {
        digits_fault(s, 0, 0, base, max)
    }
}

/// What a number or a reason against it stands for.
pub open spec fn number_result(r: Result<u64, String>) -> Result<nat, Seq<char>> {
    match r {
        Ok(n) => Ok(n as nat),
        Err(e) => Err(e@),
    }
}

/// The number up to `max` that a text denotes, or why it denotes none.
pub open spec fn number_of(s: Seq<char>, base: nat, max: nat) -> Result<nat, Seq<char>> {
    match text::bounded_value(s, base, max) {
        Some(n) => Ok(n),
        None => Err(number_fault(s, base, max)->Some_0),
    }
}

/// The value that digits from position `at` on give, where those before denote `n`.
spec fn value_from(s: Seq<char>, at: int, n: nat, base: nat) -> Option<nat>
    decreases s.len() - at,
{
    if at < 0 || at >= s.len() {
        Some(n)
    } else {
        match text::digit_value(s[at], base) {
            None => None,
            Some(d) => value_from(s, at + 1, n * base + d, base),
        }
    }
}

proof fn lemma_value_from(s: Seq<char>, from: int, at: int, base: nat)
    requires
        0 <= from <= at <= s.len(),
        text::digits_value(s.subrange(from, at), base) is Some,
    ensures
        value_from(s, at, text::digits_value(s.subrange(from, at), base)->Some_0, base)
            == text::digits_value(s.subrange(from, s.len() as int), base),
    decreases s.len() - at,
{
    if at < s.len() {
        let next = s.subrange(from, at + 1);
        assert(next.drop_last() =~= s.subrange(from, at));
        assert(next.last() == s[at]);
        if text::digit_value(s[at], base) is Some {
            lemma_value_from(s, from, at + 1, base);
        } else {
            lemma_no_digit(s.subrange(from, s.len() as int), at - from, base);
        }
    }
}

proof fn lemma_no_digit(s: Seq<char>, i: int, base: nat)
    requires
        0 <= i < s.len(),
        text::digit_value(s[i], base) is None,
    ensures
        text::digits_value(s, base) is None,
    decreases s.len() - i,
{
    if i < s.len() - 1 {
        lemma_no_digit(s.drop_last(), i, base);
    }
}

proof fn lemma_fault_of(s: Seq<char>, at: int, n: nat, base: nat, max: nat)
    requires
        0 <= at <= s.len(),
        base >= 1,
    ensures
        digits_fault(s, at, n, base, max) is None ==> value_from(s, at, n, base) is Some && (
        n <= max ==> value_from(s, at, n, base)->Some_0 <= max),
        digits_fault(s, at, n, base, max) is Some ==> (value_from(s, at, n, base) matches Some(v)
            ==> v > max),
        value_from(s, at, n, base) matches Some(v) ==> v >= n,
    decreases s.len() - at,
{
    if at < s.len() {
        match text::digit_value(s[at], base) {
            None => {},
            Some(d) => {
                assert(n * base >= n) by (nonlinear_arith)
                    requires
                        base >= 1,
                ;
                lemma_fault_of(s, at + 1, n * base + d, base, max);
            },
        }
    }
}

/// A text denotes a number up to `max` where nothing is wrong with it, and only there.
pub proof fn law_number_fault(s: Seq<char>, base: nat, max: nat)
    requires
        base >= 1,
    ensures
        text::bounded_value(s, base, max) is Some <==> number_fault(s, base, max) is None,
{
    if s.len() > 0 && s != seq!['+'] {
        let from: int = if s[0] == '+' {
            1
        } else {
            0
        };
        assert(s.len() == 1 && s[0] == '+' ==> s =~= seq!['+']);
        assert(s.subrange(from, from) =~= Seq::<char>::empty());
        lemma_value_from(s, from, from, base);
        lemma_fault_of(s, from, 0, base, max);
        assert(s.subrange(from, s.len() as int) =~= (if s[0] == '+' {
            s.skip(1)
        } else {
            s
        }));
    } else if s.len() == 0 {
    } else {
        assert(s.skip(1).len() == 0);
    }
}

fn fault_text(s: &[char], base: u32, max: u64) -> (e: String)
    requires
        2 <= base <= 16,
        number_fault(s@, base as nat, max as nat) is Some,
    ensures
        Some(e@) == number_fault(s@, base as nat, max as nat),
{
    if s.len() == 0 {
        return "cannot parse integer from empty string".to_owned();
    }
    if s.len() == 1 && s[0] == '+' {
        assert(s@ =~= seq!['+']);
        return "invalid digit found in string".to_owned();
    }
    let mut at: usize = if s[0] == '+' {
        1
    } else {
        0
    };
    let mut n: u64 = 0;
    let ghost whole = number_fault(s@, base as nat, max as nat);
    assert(s@ != seq!['+']);
    while at < s.len()
        invariant
            at <= s.len(),
            2 <= base <= 16,
            n <= max,
            whole == digits_fault(s@, at as int, n as nat, base as nat, max as nat),
            whole is Some,
            whole == number_fault(s@, base as nat, max as nat),
        decreases s.len() - at,
    {
        match digit_of(s[at], base) {
            None => {
                return "invalid digit found in string".to_owned();
            },
            Some(d) => {
                assert(0 <= n * base <= 0xffff_ffff_ffff_ffff * 16) by (nonlinear_arith)
                    requires
                        0 <= n <= 0xffff_ffff_ffff_ffff,
                        2 <= base <= 16,
                ;
                let wide: u128 = n as u128 * base as u128 + d as u128;
                if wide > max as u128 {
                    return "number too large to fit in target type".to_owned();
                }
                n = wide as u64;
            },
        }
        at += 1;
    }
    String::new()
}

/// The number up to `max` that a text denotes.
pub fn read_number(s: &[char], base: u32, max: u64) -> (r: Result<u64, String>)
    requires
        2 <= base <= 16,
    ensures
        number_result(r) == number_of(s@, base as nat, max as nat),
{
    proof {
        law_number_fault(s@, base as nat, max as nat);
    }
    match parse_number(s, base, max) {
        Some(n) => Ok(n),
        None => Err(fault_text(s, base, max)),
    }
}

/// The number that an argument denotes: hexadecimal behind `0x`, else decimal.
pub open spec fn u32_arg(s: Seq<char>) -> Result<nat, Seq<char>> {
    let t = text::trimmed(s);
    match split::behind_prefix(t, 'x', 'X') {
        Some(h) => number_of(h, 16, u32::MAX as nat),
        None => number_of(t, 10, u32::MAX as nat),
    }
}

/// The number that an argument denotes.
pub fn parse_u32_arg(s: &[char]) -> (r: Result<u32, String>)
    ensures
        (match r {
            Ok(n) => Ok(n as nat),
            Err(e) => Err(e@),
        }) == u32_arg(s@),
{
    let t = trim(s);
    let n = match strip_prefix(t, 'x', 'X') {
        Some(h) => read_number(h, 16, u32::MAX as u64),
        None => read_number(t, 10, u32::MAX as u64),
    };
    match n {
        Ok(n) => Ok(n as u32),
        Err(e) => Err(e),
    }
}

/// The position of the first `c`, or the length.
pub open spec fn first_of(s: Seq<char>, c: char) -> int {
    split::first_sep(s, 0, seq![c])
}

/// A pin and a status as `pin=status`, or why there are none.
pub open spec fn fire_spec(spec: Seq<char>) -> Result<(Seq<char>, nat), Seq<char>> {
    let k = first_of(spec, '=');
    if k >= spec.len() {
        Err("invalid --fire '"@ + spec + "', expected <pin>=<status>"@)
    } else if k == 0 {
        Err("invalid --fire '"@ + spec + "', pin is empty"@)
    } else {
        match u32_arg(spec.skip(k + 1)) {
            Ok(n) => Ok((spec.take(k), n)),
            Err(e) => Err("invalid --fire status in '"@ + spec + "': "@ + e),
        }
    }
}

/// A pin and a status as `pin=status`.
pub fn parse_fire_spec(input: &str) -> (r: Result<(String, u32), String>)
    ensures
        (match r {
            Ok((pin, status)) => Ok((pin@, status as nat)),
            Err(e) => Err(e@),
        }) == fire_spec(input@),
{
    let chars = chars_of(input);
    let mut k: usize = 0;
    while k < chars.len() && chars[k] != '='
        invariant
            k <= chars.len(),
            first_of(chars@, '=') == split::first_sep(chars@, k as int, seq!['=']),
        decreases chars.len() - k,
    {
        assert(!seq!['='].contains(chars@[k as int]));
        k += 1;
    }
    proof {
        if k < chars.len() {
            assert(seq!['='][0] == '=');
            assert(seq!['='].contains(chars@[k as int]));
        }
    }
    if k >= chars.len() {
        let mut e: String = "invalid --fire '".to_owned();
        e.push_str(input);
        e.push_str("', expected <pin>=<status>");
        return Err(e);
    }
    if k == 0 {
        let mut e: String = "invalid --fire '".to_owned();
        e.push_str(input);
        e.push_str("', pin is empty");
        return Err(e);
    }
    assert(chars@.subrange(k + 1, chars@.len() as int) =~= chars@.skip(k + 1));
    assert(chars@.subrange(0, k as int) =~= chars@.take(k as int));
    match parse_u32_arg(slice_subrange(&chars, k + 1, chars.len())) {
        Ok(n) => Ok((string_of(slice_subrange(&chars, 0, k)), n)),
        Err(reason) => {
            let mut e: String = "invalid --fire status in '".to_owned();
            e.push_str(input);
            e.push_str("': ");
            e.push_str(reason.as_str());
            Err(e)
        },
    }
}

/// The bytes that words of hexadecimal digits denote, one each, or the first that does not.
pub open spec fn hex_words(words: Seq<Seq<char>>) -> Result<Seq<u8>, Seq<char>>
    decreases words.len(),
{
    if words.len() == 0 {
        Ok(Seq::empty())
    } else {
        match hex_words(words.drop_last()) {
            Err(e) => Err(e),
            Ok(done) => match number_of(words.last(), 16, 255) {
                Ok(n) => Ok(done.push(n as u8)),
                Err(e) => Err("Failed to parse hex byte '"@ + words.last() + "': "@ + e),
            },
        }
    }
}

proof fn lemma_hex_words_fail(words: Seq<Seq<char>>, i: int)
    requires
        0 <= i <= words.len(),
        hex_words(words.take(i)) is Err,
    ensures
        hex_words(words) == hex_words(words.take(i)),
    decreases words.len() - i,
{
    if i < words.len() {
        assert(words.take(i + 1).drop_last() =~= words.take(i));
        lemma_hex_words_fail(words, i + 1);
    } else {
        assert(words.take(i) =~= words);
    }
}

/// The bytes that words of hexadecimal digits denote.
pub fn parse_hex_string(input: &str) -> (r: Result<Vec<u8>, String>)
    ensures
        (match r {
            Ok(b) => Ok(b@),
            Err(e) => Err(e@),
        }) == hex_words(split::words(input@)),
{
    let chars = chars_of(input);
    let words = split_words(&chars);
    let ghost all = split::words(input@);
    let mut out: Vec<u8> = Vec::new();
    let mut k: usize = 0;
    while k < words.len()
        invariant
            k <= words.len(),
            all == split::char_lists(words@),
            all == split::words(input@),
            hex_words(all.take(k as int)) == Ok::<Seq<u8>, Seq<char>>(out@),
        decreases words.len() - k,
    {
        assert(all.take(k + 1).drop_last() =~= all.take(k as int));
        assert(all[k as int] == words@[k as int]@);
        match read_number(&words[k], 16, 255) {
            Ok(n) => {
                out.push(n as u8);
            },
            Err(reason) => {
                proof {
                    lemma_hex_words_fail(all, k + 1);
                }
                let mut e: String = "Failed to parse hex byte '".to_owned();
                push_chars(&mut e, &words[k]);
                e.push_str("': ");
                e.push_str(reason.as_str());
                return Err(e);
            },
        }
        k += 1;
    }
    assert(all.take(all.len() as int) =~= all);
    Ok(out)
}

/// The speed of a serial line, which is not zero.
pub open spec fn serial_baud(s: Seq<char>) -> Result<nat, Seq<char>> {
    let t = text::trimmed(s);
    if t.len() == 0 {
        Err("serial baud is required"@)
    } else {
        match text::bounded_value(t, 10, u32::MAX as nat) {
            Some(n) => if n > 0 {
                Ok(n)
            } else {
                Err("invalid serial baud: "@ + t)
            },
            None => Err("invalid serial baud: "@ + t),
        }
    }
}

/// The speed of a serial line, which is not zero.
pub fn parse_serial_baud(value: &str) -> (r: Result<u32, String>)
    ensures
        (match r {
            Ok(n) => Ok(n as nat),
            Err(e) => Err(e@),
        }) == serial_baud(value@),
{
    let chars = chars_of(value);
    let t = trim(&chars);
    if t.len() == 0 {
        return Err("serial baud is required".to_owned());
    }
    match parse_number(t, 10, u32::MAX as u64) {
        Some(n) => {
            if n > 0 {
                return Ok(n as u32);
            }
        },
        None => {},
    }
    let mut e: String = "invalid serial baud: ".to_owned();
    push_chars(&mut e, t);
    Err(e)
}

/// A count, where nothing counts as none.
pub open spec fn nonnegative(s: Seq<char>, label: Seq<char>) -> Result<nat, Seq<char>> {
    let t = text::trimmed(s);
    if t.len() == 0 {
        Ok(0)
    } else {
        match text::bounded_value(t, 10, usize::MAX as nat) {
            Some(n) => Ok(n),
            None => Err("invalid "@ + label + ": "@ + t),
        }
    }
}

/// A count, where nothing counts as none.
pub fn parse_nonnegative_usize(value: &str, label: &str) -> (r: Result<usize, String>)
    ensures
        (match r {
            Ok(n) => Ok(n as nat),
            Err(e) => Err(e@),
        }) == nonnegative(value@, label@),
{
    let chars = chars_of(value);
    let t = trim(&chars);
    if t.len() == 0 {
        return Ok(0);
    }
    match parse_number(t, 10, usize::MAX as u64) {
        Some(n) => Ok(n as usize),
        None => {
            let mut e: String = "invalid ".to_owned();
            e.push_str(label);
            e.push_str(": ");
            push_chars(&mut e, t);
            Err(e)
        },
    }
}

// ---- lists of paths

/// A part of a path list without white space and quotation marks around it.
pub open spec fn path_part(s: Seq<char>) -> Seq<char> {
    split::stripped(split::stripped(text::trimmed(s), '"'), '\'')
}

/// Whether a text is not empty.
pub open spec fn filled() -> spec_fn(Seq<char>) -> bool {
    |s: Seq<char>| s.len() > 0
}

/// The paths of a list: the parts between semicolons and line ends that are not empty.
pub open spec fn path_list(value: Seq<char>) -> Seq<Seq<char>> {
    split::pieces(value, seq![';', '\n']).map_values(|s: Seq<char>| path_part(s)).filter(filled())
}

/// The paths of a list.
pub fn parse_path_list(value: &str) -> (paths: Vec<String>)
    ensures
        text::texts(paths@) == path_list(value@),
{
    let chars = chars_of(value);
    let mut seps: Vec<char> = Vec::new();
    seps.push(';');
    seps.push('\n');
    assert(seps@ =~= seq![';', '\n']);
    let parts = split_on(&chars, &seps);
    let ghost all = split::pieces(value@, seq![';', '\n']).map_values(|s: Seq<char>| path_part(s));
    let mut paths: Vec<String> = Vec::new();
    let mut i: usize = 0;
    proof {
        reveal(Seq::filter);
        assert(text::texts(paths@) =~= all.take(0).filter(filled()));
    }
    while i < parts.len()
        invariant
            i <= parts.len(),
            all == split::char_lists(parts@).map_values(|s: Seq<char>| path_part(s)),
            text::texts(paths@) == all.take(i as int).filter(filled()),
        decreases parts.len() - i,
    {
        proof {
            reveal(Seq::filter);
            assert(all.take(i + 1).drop_last() =~= all.take(i as int));
            assert(all[i as int] == path_part(parts@[i as int]@));
        }
        let part = strip(strip(trim(&parts[i]), '"'), '\'');
        if part.len() > 0 {
            let ghost before = text::texts(paths@);
            let path = string_of(part);
            paths.push(path);
            assert(text::texts(paths@) =~= before.push(path@));
        }
        i += 1;
    }
    assert(all.take(all.len() as int) =~= all);
    paths
}

/// Paths as one list.
pub fn path_list_value(paths: &[String]) -> (s: String)
    ensures
        s@ == text::joined(text::texts(paths@), "; "@),
{
    text::join(paths, "; ")
}

} // verus!
