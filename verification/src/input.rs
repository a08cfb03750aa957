//! Bytes, numbers and lists as they are typed in.
use crate::split;
use crate::split::{split_words, strip_prefix, without};
use crate::text;
use crate::text::{chars_of, digit_of, push_chars, trim};
use vstd::prelude::*;

verus! {

// ---- bytes

/// Whether all characters are hexadecimal digits.
pub open spec fn all_hex(s: Seq<char>) -> bool {
    forall|i: int| 0 <= i < s.len() ==> text::digit_value(#[trigger] s[i], 16) is Some
}

/// The byte that two hexadecimal digits denote.
pub open spec fn hex_pair(a: char, b: char) -> u8 {
    (text::digit_value(a, 16)->Some_0 * 16 + text::digit_value(b, 16)->Some_0) as u8
}

/// The bytes that hexadecimal digits denote, two digits a byte. An odd number of digits
/// starts with one digit for the first byte.
pub open spec fn hex_value(s: Seq<char>) -> Seq<u8> {
    let p = if s.len() % 2 == 0 {
        s
    } else {
        seq!['0'] + s
    };
    Seq::new(p.len() / 2, |i: int| hex_pair(p[2 * i], p[2 * i + 1]))
}

/// Why a token denotes no bytes.
pub open spec fn bad_byte(token: Seq<char>) -> Seq<char> {
    "invalid hex byte '"@ + token + "'"@
}

/// The bytes that a token denotes: hexadecimal digits behind an optional `0x`, with
/// underscores anywhere among them.
pub open spec fn token_bytes(token: Seq<char>) -> Result<Seq<u8>, Seq<char>> {
    let t = text::trimmed(token);
    let digits = match split::behind_prefix(t, 'x', 'X') {
        Some(d) => d,
        None => t,
    };
    let compact = digits.filter(split::other_than('_'));
    if t.len() == 0 {
        Ok(Seq::empty())
    } else if compact.len() == 0 || !all_hex(compact) {
        Err(bad_byte(token))
    } else {
        Ok(hex_value(compact))
    }
}

/// What bytes or a reason against them stand for.
pub open spec fn byte_result(r: Result<Vec<u8>, String>) -> Result<Seq<u8>, Seq<char>> {
    match r {
        Ok(b) => Ok(b@),
        Err(e) => Err(e@),
    }
}

fn pair_value(a: char, b: char) -> (v: u8)
    requires
        text::digit_value(a, 16) is Some,
        text::digit_value(b, 16) is Some,
    ensures
        v == hex_pair(a, b),
{
    let high: u32 = match digit_of(a, 16) {
        Some(d) => d,
        None => 0,
    };
    let low: u32 = match digit_of(b, 16) {
        Some(d) => d,
        None => 0,
    };
    (high * 16 + low) as u8
}

fn is_all_hex(s: &[char]) -> (r: bool)
    ensures
        r == all_hex(s@),
{
    let mut i: usize = 0;
    while i < s.len()
        invariant
            i <= s.len(),
            forall|k: int| 0 <= k < i ==> text::digit_value(#[trigger] s@[k], 16) is Some,
        decreases s.len() - i,
    {
        if digit_of(s[i], 16).is_none() {
            assert(text::digit_value(s@[i as int], 16) is None);
            return false;
        }
        i += 1;
    }
    true
}

fn hex_bytes_of(s: &[char]) -> (b: Vec<u8>)
    requires
        all_hex(s@),
    ensures
        b@ == hex_value(s@),
{
    let mut p: Vec<char> = Vec::new();
    if s.len() % 2 == 1 {
        p.push('0');
    }
    let mut i: usize = 0;
    let ghost start = p@;
    while i < s.len()
        invariant
            i <= s.len(),
            p@ == start + s@.take(i as int),
        decreases s.len() - i,
    {
        p.push(s[i]);
        i += 1;
        assert(p@ =~= start + s@.take(i as int));
    }
    assert(s@.take(s@.len() as int) =~= s@);
    assert(p@ =~= (if s@.len() % 2 == 0 {
        s@
    } else {
        seq!['0'] + s@
    }));
    assert(all_hex(p@)) by {
        assert(text::digit_value('0', 16) is Some);
        assert forall|k: int| 0 <= k < p@.len() implies text::digit_value(
            #[trigger] p@[k],
            16,
        ) is Some by {
            if k >= start.len() {
                assert(p@[k] == s@[k - start.len()]);
            }
        }
    }
    let mut b: Vec<u8> = Vec::new();
    let n: usize = p.len() / 2;
    let mut k: usize = 0;
    while k < n
        invariant
            k <= n,
            n == p.len() / 2,
            all_hex(p@),
            b@.len() == k,
            forall|m: int| 0 <= m < k ==> #[trigger] b@[m] == hex_pair(p@[2 * m], p@[2 * m + 1]),
        decreases n - k,
    {
        assert(text::digit_value(p@[2 * k as int], 16) is Some);
        assert(text::digit_value(p@[2 * k + 1], 16) is Some);
        b.push(pair_value(p[2 * k], p[2 * k + 1]));
        k += 1;
    }
    assert(b@ =~= hex_value(s@));
    b
}

/// The bytes that a token denotes.
pub fn parse_register_write_token(token: &[char]) -> (r: Result<Vec<u8>, String>)
    ensures
        byte_result(r) == token_bytes(token@),
{
    let t = trim(token);
    if t.len() == 0 {
        let none: Vec<u8> = Vec::new();
        assert(none@ =~= Seq::<u8>::empty());
        return Ok(none);
    }
    let digits: &[char] = match strip_prefix(t, 'x', 'X') {
        Some(d) => d,
        None => t,
    };
    let compact = without(digits, '_');
    if compact.len() == 0 || !is_all_hex(&compact) {
        let mut e: String = "invalid hex byte '".to_owned();
        push_chars(&mut e, token);
        e.push_str("'");
        return Err(e);
    }
    Ok(hex_bytes_of(&compact))
}

/// A character of a byte list: brackets, braces and separators count as spaces.
pub open spec fn spaced(c: char) -> char {
    if c == ',' || c == ';' || c == '[' || c == ']' || c == '{' || c == '}' {
        ' '
    } else {
        c
    }
}

/// The bytes that tokens denote, one byte each.
pub open spec fn single_bytes(tokens: Seq<Seq<char>>) -> Result<Seq<u8>, Seq<char>>
    decreases tokens.len(),
{
    if tokens.len() == 0 {
        Ok(Seq::empty())
    } else {
        match single_bytes(tokens.drop_last()) {
            Err(e) => Err(e),
            Ok(done) => match token_bytes(tokens.last()) {
                Err(e) => Err(e),
                Ok(b) => if b.len() == 1 {
                    Ok(done + b)
                } else {
                    Err("token '"@ + tokens.last() + "' expands to more than one byte"@)
                },
            },
        }
    }
}

/// The tokens of a byte list.
pub open spec fn byte_tokens(input: Seq<char>) -> Seq<Seq<char>> {
    split::words(text::trimmed(input).map_values(|c: char| spaced(c)))
}

/// The bytes that are to be written to a register: one token of any length, or tokens of
/// one byte each.
pub open spec fn write_bytes(input: Seq<char>) -> Result<Seq<u8>, Seq<char>> {
    if text::trimmed(input).len() == 0 {
        Err("enter at least one byte"@)
    } else if byte_tokens(input).len() == 1 {
        token_bytes(byte_tokens(input)[0])
    } else {
        single_bytes(byte_tokens(input))
    }
}

proof fn lemma_single_bytes_fail(tokens: Seq<Seq<char>>, i: int)
    requires
        0 <= i <= tokens.len(),
        single_bytes(tokens.take(i)) is Err,
    ensures
        single_bytes(tokens) == single_bytes(tokens.take(i)),
    decreases tokens.len() - i,
{
    if i < tokens.len() {
        assert(tokens.take(i + 1).drop_last() =~= tokens.take(i));
        lemma_single_bytes_fail(tokens, i + 1);
    } else {
        assert(tokens.take(i) =~= tokens);
    }
}

/// The bytes that are to be written to a register.
pub fn parse_register_write_bytes(input: &str) -> (r: Result<Vec<u8>, String>)
    ensures
        byte_result(r) == write_bytes(input@),
{
    let chars = chars_of(input);
    let trimmed = trim(&chars);
    if trimmed.len() == 0 {
        return Err("enter at least one byte".to_owned());
    }
    let mut normal: Vec<char> = Vec::new();
    let mut i: usize = 0;
    while i < trimmed.len()
        invariant
            i <= trimmed.len(),
            normal@ == trimmed@.take(i as int).map_values(|c: char| spaced(c)),
        decreases trimmed.len() - i,
    {
        let c = trimmed[i];
        if c == ',' || c == ';' || c == '[' || c == ']' || c == '{' || c == '}' {
            normal.push(' ');
        } else {
            normal.push(c);
        }
        i += 1;
        assert(normal@ =~= trimmed@.take(i as int).map_values(|c: char| spaced(c)));
    }
    assert(trimmed@.take(trimmed@.len() as int) =~= trimmed@);
    let tokens = split_words(&normal);
    let ghost all = byte_tokens(input@);
    assert(split::char_lists(tokens@) == all);
    if tokens.len() == 1 {
        assert(all[0] == tokens@[0]@);
        return parse_register_write_token(&tokens[0]);
    }
    let mut out: Vec<u8> = Vec::new();
    let mut k: usize = 0;
    while k < tokens.len()
        invariant
            k <= tokens.len(),
            all == split::char_lists(tokens@),
            single_bytes(all.take(k as int)) == Ok::<Seq<u8>, Seq<char>>(out@),
            all.len() != 1,
            text::trimmed(input@).len() != 0,
            all == byte_tokens(input@),
        decreases tokens.len() - k,
    {
        assert(all.take(k + 1).drop_last() =~= all.take(k as int));
        assert(all[k as int] == tokens@[k as int]@);
        match parse_register_write_token(&tokens[k]) {
            Err(e) => {
                proof {
                    lemma_single_bytes_fail(all, k + 1);
                }
                return Err(e);
            },
            Ok(b) => {
                if b.len() != 1 {
                    proof {
                        lemma_single_bytes_fail(all, k + 1);
                    }
                    let mut e: String = "token '".to_owned();
                    push_chars(&mut e, &tokens[k]);
                    e.push_str("' expands to more than one byte");
                    return Err(e);
                }
                let ghost done = out@;
                out.push(b[0]);
                assert(out@ =~= done + b@);
            },
        }
        k += 1;
    }
    assert(all.take(all.len() as int) =~= all);
    Ok(out)
}

} // verus!
