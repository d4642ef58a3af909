//! The textual grammars of the primitive values: decimal integers, the two
//! boolean literals, and the shape of a floating-point literal.
//!
//! Floating-point literals are only recognised here. The library does no
//! floating-point arithmetic, so it never computes the number that such a
//! literal denotes.

use crate::text::{
    is_digit, lemma_run_len, lemma_run_len_is, lower, lower_char, run_len, scan, to_lower, CharClass,
};
use vstd::prelude::*;

verus! {

/// The value of an ASCII digit; `0` for any other character.
pub open spec fn digit_value(c: char) -> nat {
    if is_digit(c) {
        (c as int - 48) as nat
    } else {
        0
    }
}

/// The number that `s` denotes when read as a string of decimal digits.
pub open spec fn decimal(s: Seq<char>) -> nat
    decreases s.len(),
{
    if s.len() == 0 {
        0
    } else {
        10 * decimal(s.drop_last()) + digit_value(s.last())
    }
}

/// `s` is one or more ASCII digits.
pub open spec fn is_digits(s: Seq<char>) -> bool {
    s.len() > 0 && forall|i: int| 0 <= i < s.len() ==> is_digit(#[trigger] s[i])
}

/// `s` starts with `+` or `-`.
pub open spec fn has_sign(s: Seq<char>) -> bool {
    s.len() > 0 && (s[0] == '+' || s[0] == '-')
}

/// `s` starts with `-`.
pub open spec fn is_negative(s: Seq<char>) -> bool {
    s.len() > 0 && s[0] == '-'
}

/// `s` without its sign, if it has one.
pub open spec fn unsigned_part(s: Seq<char>) -> Seq<char> {
    if has_sign(s) {
        s.skip(1)
    } else {
        s
    }
}

/// The integer that `s` denotes in base ten: an optional sign followed by
/// one or more digits, and nothing else. `None` for any other text.
pub open spec fn integer_of(s: Seq<char>) -> Option<int> {
    if is_digits(unsigned_part(s)) {
        if is_negative(s) {
            Some(-(decimal(unsigned_part(s)) as int))
        } else {
            Some(decimal(unsigned_part(s)) as int)
        }
    } else {
        None
    }
}

/// The `i64` that `s` denotes; `None` if `s` is no integer or does not fit.
pub open spec fn i64_of(s: Seq<char>) -> Option<i64> {
    match integer_of(s) {
        Some(v) => if i64::MIN <= v <= i64::MAX {
            Some(v as i64)
        } else {
            None
        },
        None => None,
    }
}

/// The `usize` that `s` denotes; `None` if `s` is no integer, carries a minus
/// sign, or does not fit.
pub open spec fn usize_of(s: Seq<char>) -> Option<usize> {
    match integer_of(s) {
        Some(v) => if !is_negative(s) && v <= usize::MAX {
            Some(v as usize)
        } else {
            None
        },
        None => None,
    }
}

/// The boolean that `s` denotes: exactly `true` or `false`.
pub open spec fn bool_of(s: Seq<char>) -> Option<bool> {
    if s == seq!['t', 'r', 'u', 'e'] {
        Some(true)
    } else if s == seq!['f', 'a', 'l', 's', 'e'] {
        Some(false)
    } else {
        None
    }
}

/// `s` is `inf`, `infinity` or `nan`, in any mix of upper and lower case.
pub open spec fn is_float_word(s: Seq<char>) -> bool {
    let l = to_lower(s);
    l == seq!['i', 'n', 'f'] || l == seq!['n', 'a', 'n'] || l == seq![
        'i',
        'n',
        'f',
        'i',
        'n',
        'i',
        't',
        'y',
    ]
}

/// `s` is empty or an exponent: `e` or `E`, an optional sign, and digits.
pub open spec fn is_exponent_or_empty(s: Seq<char>) -> bool {
    s.len() == 0 || ((s[0] == 'e' || s[0] == 'E') && is_digits(unsigned_part(s.skip(1))))
}

/// `s` is an unsigned decimal number: digits, optionally a point and more
/// digits, with at least one digit before or after the point, optionally
/// followed by an exponent.
pub open spec fn is_decimal_float(s: Seq<char>) -> bool {
    let whole = run_len(s, CharClass::Digit);
    let rest = s.skip(whole as int);
    if rest.len() > 0 && rest[0] == '.' {
        let fraction = run_len(rest.skip(1), CharClass::Digit);
        whole + fraction > 0 && is_exponent_or_empty(rest.skip(1 + fraction as int))
    } else {
        whole > 0 && is_exponent_or_empty(rest)
    }
}

/// `s` has the shape of a floating-point literal: an optional sign followed
/// by a decimal number or by one of the words for infinity and not-a-number.
pub open spec fn is_float(s: Seq<char>) -> bool {
    is_float_word(unsigned_part(s)) || is_decimal_float(unsigned_part(s))
}

/// Reading more digits never gives a smaller number.
pub proof fn lemma_decimal_prefix(s: Seq<char>, k: int)
    requires
        0 <= k <= s.len(),
    ensures
        decimal(s.take(k)) <= decimal(s),
    decreases s.len() - k,
{
    if k == s.len() {
        assert(s.take(k) == s);
    } else {
        lemma_decimal_prefix(s.drop_last(), k);
        assert(s.drop_last().take(k) == s.take(k));
    }
}

/// A sequence lies within a class exactly if its run of that class covers it.
pub proof fn lemma_run_covers(s: Seq<char>, class: CharClass)
    ensures
        run_len(s, class) == s.len() <==> forall|i: int|
            0 <= i < s.len() ==> class.has(#[trigger] s[i]),
{
    lemma_run_len(s, class);
    if forall|i: int| 0 <= i < s.len() ==> class.has(#[trigger] s[i]) {
        lemma_run_len_is(s, class, s.len());
    }
}

/// The number that the digits `s` denote, if it is at most `limit`.
fn digits_value(s: &[char], limit: u64) -> (r: Option<u64>)
    requires
        limit >= 9,
    ensures
        r == if is_digits(s@) && decimal(s@) <= limit {
            Some(decimal(s@) as u64)
        } else {
            None::<u64>
        },
{
    if s.len() == 0 {
        return None;
    }
    let mut acc: u64 = 0;
    let mut i: usize = 0;
    while i < s.len()
        invariant
            i <= s.len(),
            limit >= 9,
            acc == decimal(s@.take(i as int)),
            acc <= limit,
            forall|j: int| 0 <= j < i ==> is_digit(#[trigger] s@[j]),
        decreases s.len() - i,
    {
        let c = s[i];
        if !('0' <= c && c <= '9') {
            return None;
        }
        let d: u64 = (c as u8 - 48) as u64;
        proof {
            let next = s@.take(i + 1);
            assert(next.drop_last() == s@.take(i as int));
            assert(decimal(next) == 10 * acc + d);
            lemma_decimal_prefix(s@, i + 1);
        }
        if acc > (limit - d) / 10 {
            return None;
        }
        acc = acc * 10 + d;
        i += 1;
    }
    assert(s@.take(s.len() as int) == s@);
    Some(acc)
}

/// `s` without its sign, if it has one.
fn without_sign(s: &[char]) -> (r: &[char])
    ensures
        r@ == unsigned_part(s@),
{
    if s.len() > 0 && (s[0] == '+' || s[0] == '-') {
        &s[1..s.len()]
    } else {
        s
    }
}

/// Reads `s` as an `i64` in base ten.
pub fn parse_i64(s: &[char]) -> (r: Option<i64>)
    ensures
        r == i64_of(s@),
{
    let negative = s.len() > 0 && s[0] == '-';
    let limit: u64 = if negative {
        0x8000_0000_0000_0000
    } else {
        0x7fff_ffff_ffff_ffff
    };
    match digits_value(without_sign(s), limit) {
        None => None,
        Some(m) => {
            if !negative {
                Some(m as i64)
            } else if m == 0x8000_0000_0000_0000 {
                Some(i64::MIN)
            } else {
                Some(-(m as i64))
            }
        },
    }
}

/// Reads `s` as a `usize` in base ten.
pub fn parse_usize(s: &[char]) -> (r: Option<usize>)
    ensures
        r == usize_of(s@),
{
    if s.len() > 0 && s[0] == '-' {
        return None;
    }
    match digits_value(without_sign(s), usize::MAX as u64) {
        None => None,
        Some(m) => Some(m as usize),
    }
}

/// Reads `s` as a boolean literal.
pub fn parse_bool(s: &[char]) -> (r: Option<bool>)
    ensures
        r == bool_of(s@),
{
    if s.len() == 4 && s[0] == 't' && s[1] == 'r' && s[2] == 'u' && s[3] == 'e' {
        assert(s@ =~= seq!['t', 'r', 'u', 'e']);
        Some(true)
    } else if s.len() == 5 && s[0] == 'f' && s[1] == 'a' && s[2] == 'l' && s[3] == 's' && s[4]
        == 'e' {
        assert(s@ =~= seq!['f', 'a', 'l', 's', 'e']);
        Some(false)
    } else {
        None
    }
}

/// Whether `s` reads `word` when its ASCII letters are put in lower case.
pub fn eq_ignore_ascii_case(s: &[char], word: &[char]) -> (r: bool)
    ensures
        r == (to_lower(s@) == word@),
{
    if s.len() != word.len() {
        return false;
    }
    let mut i: usize = 0;
    while i < s.len()
        invariant
            i <= s.len(),
            s.len() == word.len(),
            forall|j: int| 0 <= j < i ==> lower(s@[j]) == #[trigger] word@[j],
        decreases s.len() - i,
    {
        if lower_char(s[i]) != word[i] {
            assert(to_lower(s@)[i as int] != word@[i as int]);
            return false;
        }
        i += 1;
    }
    assert(to_lower(s@) =~= word@);
    true
}

/// Whether `s` is one or more digits.
fn all_digits(s: &[char]) -> (r: bool)
    ensures
        r == is_digits(s@),
{
    let n: usize = scan(s, CharClass::Digit);
    proof {
        lemma_run_covers(s@, CharClass::Digit);
    }
    s.len() > 0 && n == s.len()
}

/// Whether `s` is empty or an exponent.
fn exponent_or_empty(s: &[char]) -> (r: bool)
    ensures
        r == is_exponent_or_empty(s@),
{
    if s.len() == 0 {
        true
    } else if s[0] == 'e' || s[0] == 'E' {
        all_digits(without_sign(&s[1..s.len()]))
    } else {
        false
    }
}

/// Whether `s` is an unsigned decimal number.
fn decimal_float(s: &[char]) -> (r: bool)
    ensures
        r == is_decimal_float(s@),
{
    let whole: usize = scan(s, CharClass::Digit);
    proof {
        lemma_run_len(s@, CharClass::Digit);
    }
    let rest = &s[whole..s.len()];
    if rest.len() > 0 && rest[0] == '.' {
        let tail = &rest[1..rest.len()];
        let fraction: usize = scan(tail, CharClass::Digit);
        proof {
            lemma_run_len(tail@, CharClass::Digit);
            assert(tail@.skip(fraction as int) == rest@.skip(1 + fraction));
        }
        (whole > 0 || fraction > 0) && exponent_or_empty(&tail[fraction..tail.len()])
    } else {
        whole > 0 && exponent_or_empty(rest)
    }
}

/// Whether `s` has the shape of a floating-point literal.
pub fn is_float_text(s: &[char]) -> (r: bool)
    ensures
        r == is_float(s@),
{
    let body = without_sign(s);
    let inf: [char; 3] = ['i', 'n', 'f'];
    let nan: [char; 3] = ['n', 'a', 'n'];
    let infinity: [char; 8] = ['i', 'n', 'f', 'i', 'n', 'i', 't', 'y'];
    assert(inf@ =~= seq!['i', 'n', 'f']);
    assert(nan@ =~= seq!['n', 'a', 'n']);
    assert(infinity@ =~= seq!['i', 'n', 'f', 'i', 'n', 'i', 't', 'y']);
    eq_ignore_ascii_case(body, inf.as_slice()) || eq_ignore_ascii_case(body, nan.as_slice())
        || eq_ignore_ascii_case(body, infinity.as_slice()) || decimal_float(body)
}

} // verus!
