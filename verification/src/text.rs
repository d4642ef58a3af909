//! Character classes and the text primitives built on them: runs of
//! characters, trimming, whitespace-separated tokens, ASCII case mapping, and
//! the conversions between strings and character slices.
//!
//! All functions work on characters, never on bytes, so an index is always a
//! position in the `Seq<char>` that a string denotes.

use vstd::prelude::*;

verus! {

/// `String::push` appends the character to the end of the string; nothing
/// else of the string changes.
pub assume_specification[ String::push ](s: &mut String, c: char)
    ensures
        final(s)@ == old(s)@.push(c),
;

/// White space in the sense of Unicode: the characters with the
/// `White_Space` property.
pub open spec fn is_space(c: char) -> bool {
    ||| '\u{9}' <= c <= '\u{d}'
    ||| c == ' '
    ||| c == '\u{85}'
    ||| c == '\u{a0}'
    ||| c == '\u{1680}'
    ||| '\u{2000}' <= c <= '\u{200a}'
    ||| c == '\u{2028}'
    ||| c == '\u{2029}'
    ||| c == '\u{202f}'
    ||| c == '\u{205f}'
    ||| c == '\u{3000}'
}

/// The ASCII digits.
pub open spec fn is_digit(c: char) -> bool {
    '0' <= c <= '9'
}

/// A set of characters over which a scan can run.
#[derive(Clone, Copy, Debug)]
pub enum CharClass {
    /// Unicode white space.
    Space,
    /// Everything but white space.
    Word,
    /// The ASCII digits `0` to `9`.
    Digit,
    /// Every character but the given one.
    Except(char),
}

impl CharClass {
    /// Whether `c` belongs to the class.
    pub open spec fn has(self, c: char) -> bool {
        match self {
            CharClass::Space => is_space(c),
            CharClass::Word => !is_space(c),
            CharClass::Digit => is_digit(c),
            CharClass::Except(x) => c != x,
        }
    }

    /// Whether `c` belongs to the class.
    pub fn contains(&self, c: char) -> (r: bool)
        ensures
            r == self.has(c),
    {
        match self {
            CharClass::Space => is_whitespace(c),
            CharClass::Word => !is_whitespace(c),
            CharClass::Digit => '0' <= c && c <= '9',
            CharClass::Except(x) => c != *x,
        }
    }
}

/// Whether `c` is Unicode white space.
pub fn is_whitespace(c: char) -> (r: bool)
    ensures
        r == is_space(c),
{
    ('\u{9}' <= c && c <= '\u{d}') || c == ' ' || c == '\u{85}' || c == '\u{a0}' || c
        == '\u{1680}' || ('\u{2000}' <= c && c <= '\u{200a}') || c == '\u{2028}' || c
        == '\u{2029}' || c == '\u{202f}' || c == '\u{205f}' || c == '\u{3000}'
}

/// Length of the longest prefix of `s` whose characters all belong to `class`.
pub open spec fn run_len(s: Seq<char>, class: CharClass) -> nat
    decreases s.len(),
{
    if s.len() > 0 && class.has(s[0]) {
        1 + run_len(s.skip(1), class)
    } else {
        0
    }
}

/// Length of the longest suffix of `s` whose characters all belong to `class`.
pub open spec fn tail_len(s: Seq<char>, class: CharClass) -> nat
    decreases s.len(),
{
    if s.len() > 0 && class.has(s.last()) {
        1 + tail_len(s.drop_last(), class)
    } else {
        0
    }
}

/// A run stays inside the sequence, holds only characters of the class, and
/// ends at the first character outside of it.
pub proof fn lemma_run_len(s: Seq<char>, class: CharClass)
    ensures
        run_len(s, class) <= s.len(),
        forall|i: int| 0 <= i < run_len(s, class) ==> class.has(#[trigger] s[i]),
        run_len(s, class) < s.len() ==> !class.has(s[run_len(s, class) as int]),
    decreases s.len(),
{
    if s.len() > 0 && class.has(s[0]) {
        let t = s.skip(1);
        lemma_run_len(t, class);
        assert forall|i: int| 0 <= i < run_len(s, class) implies class.has(#[trigger] s[i]) by {
            if i > 0 {
                assert(s[i] == t[i - 1]);
            }
        }
        if run_len(s, class) < s.len() {
            assert(s[run_len(s, class) as int] == t[run_len(t, class) as int]);
        }
    }
}

/// The run is the only length with the properties of `lemma_run_len`.
pub proof fn lemma_run_len_is(s: Seq<char>, class: CharClass, n: nat)
    requires
        n <= s.len(),
        forall|i: int| 0 <= i < n ==> class.has(#[trigger] s[i]),
        n < s.len() ==> !class.has(s[n as int]),
    ensures
        run_len(s, class) == n,
    decreases n,
{
    if n > 0 {
        let t = s.skip(1);
        assert forall|i: int| 0 <= i < n - 1 implies class.has(#[trigger] t[i]) by {
            assert(t[i] == s[i + 1]);
        }
        lemma_run_len_is(t, class, (n - 1) as nat);
    }
}

/// The counterpart of `lemma_run_len` for the run at the end.
pub proof fn lemma_tail_len(s: Seq<char>, class: CharClass)
    ensures
        tail_len(s, class) <= s.len(),
        forall|i: int| s.len() - tail_len(s, class) <= i < s.len() ==> class.has(#[trigger] s[i]),
        tail_len(s, class) < s.len() ==> !class.has(s[s.len() - tail_len(s, class) - 1]),
    decreases s.len(),
{
    if s.len() > 0 && class.has(s.last()) {
        let t = s.drop_last();
        lemma_tail_len(t, class);
        assert forall|i: int| s.len() - tail_len(s, class) <= i < s.len() implies class.has(
            #[trigger] s[i],
        ) by {
            if i < s.len() - 1 {
                assert(s[i] == t[i]);
            }
        }
        if tail_len(s, class) < s.len() {
            assert(s[s.len() - tail_len(s, class) - 1] == t[t.len() - tail_len(t, class) - 1]);
        }
    }
}

/// The counterpart of `lemma_run_len_is` for the run at the end.
pub proof fn lemma_tail_len_is(s: Seq<char>, class: CharClass, n: nat)
    requires
        n <= s.len(),
        forall|i: int| s.len() - n <= i < s.len() ==> class.has(#[trigger] s[i]),
        n < s.len() ==> !class.has(s[s.len() - n - 1]),
    ensures
        tail_len(s, class) == n,
    decreases n,
{
    if n > 0 {
        let t = s.drop_last();
        assert forall|i: int| t.len() - (n - 1) <= i < t.len() implies class.has(
            #[trigger] t[i],
        ) by {
            assert(t[i] == s[i]);
        }
        lemma_tail_len_is(t, class, (n - 1) as nat);
    }
}

/// Length of the run of `class` at the start of `s`.
pub fn scan(s: &[char], class: CharClass) -> (n: usize)
    ensures
        n == run_len(s@, class),
{
    let mut i: usize = 0;
    while i < s.len() && class.contains(s[i])
        invariant
            i <= s.len(),
            forall|j: int| 0 <= j < i ==> class.has(#[trigger] s@[j]),
        decreases s.len() - i,
    {
        i += 1;
    }
    proof {
        lemma_run_len_is(s@, class, i as nat);
    }
    i
}

/// Length of the run of `class` at the end of `s`.
pub fn scan_back(s: &[char], class: CharClass) -> (n: usize)
    ensures
        n == tail_len(s@, class),
{
    let mut i: usize = s.len();
    while i > 0 && class.contains(s[i - 1])
        invariant
            i <= s.len(),
            forall|j: int| i <= j < s.len() ==> class.has(#[trigger] s@[j]),
        decreases i,
    {
        i -= 1;
    }
    proof {
        lemma_tail_len_is(s@, class, (s.len() - i) as nat);
    }
    s.len() - i
}

/// `s` without its leading white space.
pub open spec fn trim_start(s: Seq<char>) -> Seq<char> {
    s.skip(run_len(s, CharClass::Space) as int)
}

/// `s` without its trailing white space.
pub open spec fn trim_end(s: Seq<char>) -> Seq<char> {
    s.take(s.len() - tail_len(s, CharClass::Space))
}

/// `s` without its leading and trailing white space.
pub open spec fn trim(s: Seq<char>) -> Seq<char> {
    trim_end(trim_start(s))
}

/// The part of `s` between its leading and its trailing white space.
pub fn trim_chars(s: &[char]) -> (t: &[char])
    ensures
        t@ == trim(s@),
{
    let a: usize = scan(s, CharClass::Space);
    proof {
        lemma_run_len(s@, CharClass::Space);
    }
    let rest = &s[a..s.len()];
    let b: usize = scan_back(rest, CharClass::Space);
    proof {
        lemma_tail_len(rest@, CharClass::Space);
    }
    &rest[0..rest.len() - b]
}

/// The whitespace-separated words of `s`, in order. No word is empty and none
/// holds white space.
pub open spec fn tokens(s: Seq<char>) -> Seq<Seq<char>>
    decreases s.len(),
{
    if s.len() == 0 {
        Seq::empty()
    } else if is_space(s[0]) {
        tokens(s.skip(1))
    } else {
        proof {
            lemma_run_len(s, CharClass::Word);
        }
        let n = run_len(s, CharClass::Word);
        seq![s.take(n as int)] + tokens(s.skip(n as int))
    }
}

/// Leading white space holds no token.
pub proof fn lemma_tokens_trim_start(s: Seq<char>)
    ensures
        tokens(s) == tokens(s.skip(run_len(s, CharClass::Space) as int)),
    decreases s.len(),
{
    if s.len() > 0 && is_space(s[0]) {
        let t = s.skip(1);
        lemma_tokens_trim_start(t);
        lemma_run_len(t, CharClass::Space);
        assert(t.skip(run_len(t, CharClass::Space) as int) =~= s.skip(
            run_len(s, CharClass::Space) as int,
        ));
    } else {
        assert(s.skip(0) == s);
    }
}

/// White space at either end is all that trimming takes away: what is left
/// is a part of `s` that neither starts nor ends with white space.
pub proof fn lemma_trim(s: Seq<char>)
    ensures
        trim(s).len() <= s.len(),
        trim(s).len() > 0 ==> !is_space(trim(s).first()) && !is_space(trim(s).last()),
        trim(s).len() == 0 <==> run_len(s, CharClass::Space) == s.len(),
{
    lemma_run_len(s, CharClass::Space);
    let t = trim_start(s);
    lemma_tail_len(t, CharClass::Space);
    if t.len() > 0 {
        assert(t[0] == s[run_len(s, CharClass::Space) as int]);
        if tail_len(t, CharClass::Space) == t.len() {
            assert(is_space(t[0]));
        }
        assert(trim(s).first() == t[0]);
        assert(trim(s).last() == t[t.len() - tail_len(t, CharClass::Space) - 1]);
    }
}

/// Text that neither starts nor ends with white space is its own trimmed
/// form.
pub proof fn lemma_trim_unchanged(s: Seq<char>)
    requires
        s.len() > 0 ==> !is_space(s.first()) && !is_space(s.last()),
    ensures
        trim(s) == s,
{
    assert(trim_start(s) =~= s);
    assert(trim_end(s) =~= s);
}

/// A line is blank exactly if it holds no token.
pub proof fn lemma_blank_no_tokens(s: Seq<char>)
    ensures
        trim(s).len() == 0 <==> tokens(s).len() == 0,
{
    lemma_trim(s);
    lemma_tokens_trim_start(s);
    lemma_run_len(s, CharClass::Space);
    let t = trim_start(s);
    if t.len() > 0 {
        assert(t[0] == s[run_len(s, CharClass::Space) as int]);
        lemma_run_len(t, CharClass::Word);
    }
}

/// White space added at the end is trimmed away again.
pub proof fn lemma_trim_add_space(s: Seq<char>, end: Seq<char>)
    requires
        forall|i: int| 0 <= i < end.len() ==> is_space(#[trigger] end[i]),
    ensures
        trim(s + end) == trim(s),
{
    let whole = s + end;
    lemma_run_len(s, CharClass::Space);
    let a = run_len(s, CharClass::Space);
    if a == s.len() {
        assert forall|i: int| 0 <= i < whole.len() implies CharClass::Space.has(
            #[trigger] whole[i],
        ) by {
            if i < s.len() {
                assert(whole[i] == s[i]);
            } else {
                assert(whole[i] == end[i - s.len()]);
            }
        }
        lemma_run_len_is(whole, CharClass::Space, whole.len());
        assert(trim(whole) =~= trim(s));
    } else {
        assert forall|i: int| 0 <= i < a implies CharClass::Space.has(#[trigger] whole[i]) by {
            assert(whole[i] == s[i]);
        }
        assert(whole[a as int] == s[a as int]);
        lemma_run_len_is(whole, CharClass::Space, a);
        let t = trim_start(s);
        let u = trim_start(whole);
        assert(u =~= t + end);
        lemma_tail_len(t, CharClass::Space);
        let n = tail_len(t, CharClass::Space);
        assert(t[0] == s[a as int]);
        if n == t.len() {
            assert(is_space(t[0]));
        }
        assert forall|i: int| u.len() - (n + end.len()) <= i < u.len() implies CharClass::Space.has(
            #[trigger] u[i],
        ) by {
            if i < t.len() {
                assert(u[i] == t[i]);
            } else {
                assert(u[i] == end[i - t.len()]);
            }
        }
        assert(u[u.len() - (n + end.len()) - 1] == t[t.len() - n - 1]);
        lemma_tail_len_is(u, CharClass::Space, n + end.len());
        assert(trim_end(u) =~= trim_end(t));
    }
}

/// White space added at the end adds no token.
pub proof fn lemma_tokens_add_space(s: Seq<char>, end: Seq<char>)
    requires
        forall|i: int| 0 <= i < end.len() ==> is_space(#[trigger] end[i]),
    ensures
        tokens(s + end) == tokens(s),
    decreases s.len(),
{
    let whole = s + end;
    if s.len() == 0 {
        assert(whole =~= end);
        assert forall|i: int| 0 <= i < end.len() implies CharClass::Space.has(
            #[trigger] end[i],
        ) by {}
        lemma_run_len_is(end, CharClass::Space, end.len());
        lemma_tokens_trim_start(end);
        assert(end.skip(end.len() as int) =~= Seq::<char>::empty());
    } else if is_space(s[0]) {
        assert(whole.skip(1) =~= s.skip(1) + end);
        lemma_tokens_add_space(s.skip(1), end);
    } else {
        lemma_run_len(s, CharClass::Word);
        let n = run_len(s, CharClass::Word);
        assert forall|i: int| 0 <= i < n implies CharClass::Word.has(#[trigger] whole[i]) by {
            assert(whole[i] == s[i]);
        }
        if n < s.len() {
            assert(whole[n as int] == s[n as int]);
        } else if end.len() > 0 {
            assert(whole[n as int] == end[0]);
        }
        lemma_run_len_is(whole, CharClass::Word, n);
        assert(whole.take(n as int) =~= s.take(n as int));
        assert(whole.skip(n as int) =~= s.skip(n as int) + end);
        lemma_tokens_add_space(s.skip(n as int), end);
    }
}

/// The upper-case form of an ASCII letter; any other character unchanged.
pub open spec fn upper(c: char) -> char {
    if 'a' <= c <= 'z' {
        ((c as u8 - 32) as u8) as char
    } else {
        c
    }
}

/// The lower-case form of an ASCII letter; any other character unchanged.
pub open spec fn lower(c: char) -> char {
    if 'A' <= c <= 'Z' {
        ((c as u8 + 32) as u8) as char
    } else {
        c
    }
}

/// `s` with every ASCII letter in upper case.
pub open spec fn to_upper(s: Seq<char>) -> Seq<char> {
    Seq::new(s.len(), |i: int| upper(s[i]))
}

/// `s` with every ASCII letter in lower case.
pub open spec fn to_lower(s: Seq<char>) -> Seq<char> {
    Seq::new(s.len(), |i: int| lower(s[i]))
}

/// The upper-case form of an ASCII letter; any other character unchanged.
pub fn upper_char(c: char) -> (r: char)
    ensures
        r == upper(c),
{
    if 'a' <= c && c <= 'z' {
        let b: u8 = c as u8;
        (b - 32) as char
    } else {
        c
    }
}

/// The lower-case form of an ASCII letter; any other character unchanged.
pub fn lower_char(c: char) -> (r: char)
    ensures
        r == lower(c),
{
    if 'A' <= c && c <= 'Z' {
        let b: u8 = c as u8;
        (b + 32) as char
    } else {
        c
    }
}

/// The characters of `s`.
pub fn chars_of(s: &str) -> (v: Vec<char>)
    ensures
        v@ == s@,
{
    let mut v: Vec<char> = Vec::new();
    for c in it: s.chars()
        invariant
            v@ == it.seq().take(it.index() as int),
            it.seq() == s@,
    {
        v.push(c);
    }
    v
}

/// The string made of the characters of `s`.
pub fn string_of(s: &[char]) -> (r: String)
    ensures
        r@ == s@,
{
    let mut r = String::new();
    let mut i: usize = 0;
    while i < s.len()
        invariant
            i <= s.len(),
            r@ == s@.take(i as int),
        decreases s.len() - i,
    {
        r.push(s[i]);
        i += 1;
        assert(s@.take(i as int) == s@.take(i - 1).push(s@[i - 1]));
    }
    assert(s@.take(s.len() as int) == s@);
    r
}

/// The string made of the characters of `s`, ASCII letters in upper case.
pub fn upper_string_of(s: &[char]) -> (r: String)
    ensures
        r@ == to_upper(s@),
{
    let mut r = String::new();
    let mut i: usize = 0;
    while i < s.len()
        invariant
            i <= s.len(),
            r@ == to_upper(s@.take(i as int)),
        decreases s.len() - i,
    {
        r.push(upper_char(s[i]));
        i += 1;
        assert(to_upper(s@.take(i as int)) == to_upper(s@.take(i - 1)).push(upper(s@[i - 1])));
    }
    assert(s@.take(s.len() as int) == s@);
    r
}

} // verus!
