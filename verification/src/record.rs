//! The pieces of a record line: key and value, the shape of an array, and
//! text in angle brackets.

use crate::number::{parse_usize, usize_of};
use crate::text::{
    chars_of, lemma_run_len, run_len, scan, string_of, to_upper, trim, trim_chars,
    upper_string_of, CharClass,
};
use vstd::prelude::*;
use vstd::string::StrSliceExecFns;

verus! {

/// `s` cut at the first `=`: what stands before it and what stands after
/// it. Without a `=`, all of `s` and the empty text.
pub open spec fn key_value(s: Seq<char>) -> (Seq<char>, Seq<char>) {
    let i = run_len(s, CharClass::Except('='));
    if i < s.len() {
        (s.take(i as int), s.skip(i as int + 1))
    } else {
        (s, Seq::empty())
    }
}

/// The key of a meta record: without the white space around it, ASCII
/// letters in upper case.
pub open spec fn normalized_key(k: Seq<char>) -> Seq<char> {
    to_upper(trim(k))
}

/// The text between the angle brackets, where `s`, white space around it
/// aside, starts with `<` and ends with `>`.
pub open spec fn angle_text(s: Seq<char>) -> Option<Seq<char>> {
    let t = trim(s);
    if t.len() >= 2 && t.first() == '<' && t.last() == '>' {
        Some(t.subrange(1, t.len() - 1))
    } else {
        None
    }
}

/// `dims` in front of `rest`, where there is a `rest`.
pub open spec fn prepend(dims: Seq<usize>, rest: Option<Seq<usize>>) -> Option<Seq<usize>> {
    match rest {
        Some(r) => Some(dims + r),
        None => None,
    }
}

/// The numbers of a comma-separated list. White space around an item does
/// not count and an empty item is passed over. `None` if an item is no
/// `usize`.
pub open spec fn dims_list(s: Seq<char>) -> Option<Seq<usize>>
    decreases s.len(),
{
    let i = run_len(s, CharClass::Except(','));
    let head = trim(s.take(i as int));
    let tail = if i < s.len() {
        dims_list(s.skip(i as int + 1))
    } else {
        Some(Seq::empty())
    };
    if head.len() == 0 {
        tail
    } else if usize_of(head) is Some {
        prepend(seq![usize_of(head).unwrap()], tail)
    } else {
        None
    }
}

/// The shape that `v` declares: `v`, white space around it aside, is a
/// list of at least one number in parentheses. `None` for any other text.
pub open spec fn dims_of(v: Seq<char>) -> Option<Seq<usize>> {
    let t = trim(v);
    if t.len() >= 2 && t.first() == '(' && t.last() == ')' {
        match dims_list(t.subrange(1, t.len() - 1)) {
            Some(d) => if d.len() > 0 {
                Some(d)
            } else {
                None
            },
            None => None,
        }
    } else {
        None
    }
}

/// Cuts `s` at the first `=`.
pub fn key_value_chars(s: &[char]) -> (kv: (&[char], &[char]))
    ensures
        kv.0@ == key_value(s@).0,
        kv.1@ == key_value(s@).1,
{
    let i: usize = scan(s, CharClass::Except('='));
    proof {
        lemma_run_len(s@, CharClass::Except('='));
    }
    if i < s.len() {
        (&s[0..i], &s[i + 1..s.len()])
    } else {
        assert(s@.subrange(0, 0) == Seq::<char>::empty());
        (s, &s[0..0])
    }
}

/// The text between the angle brackets around `s`, if `s` has them.
pub fn angle_chars(s: &[char]) -> (r: Option<&[char]>)
    ensures
        match r {
            Some(t) => angle_text(s@) == Some(t@),
            None => angle_text(s@) is None,
        },
{
    let t = trim_chars(s);
    if t.len() >= 2 && t[0] == '<' && t[t.len() - 1] == '>' {
        Some(&t[1..t.len() - 1])
    } else {
        None
    }
}

/// The numbers of the comma-separated list `s`.
fn dims_list_chars(s: &[char]) -> (r: Option<Vec<usize>>)
    ensures
        match r {
            Some(d) => dims_list(s@) == Some(d@),
            None => dims_list(s@) is None,
        },
{
    let mut out: Vec<usize> = Vec::new();
    let mut rest: &[char] = s;
    let mut more: bool = true;
    proof {
        assert(Seq::<usize>::empty() + dims_list(s@).unwrap() =~= dims_list(s@).unwrap());
    }
    while more
        invariant
            more ==> dims_list(s@) == prepend(out@, dims_list(rest@)),
            !more ==> dims_list(s@) == Some(out@),
        decreases
                rest@.len() + if more {
                    1int
                } else {
                    0int
                },
    {
        let i: usize = scan(rest, CharClass::Except(','));
        proof {
            lemma_run_len(rest@, CharClass::Except(','));
        }
        let head = trim_chars(&rest[0..i]);
        let ghost before = out@;
        let ghost tail = if i < rest@.len() {
            dims_list(rest@.skip(i + 1))
        } else {
            Some(Seq::<usize>::empty())
        };
        if head.len() > 0 {
            match parse_usize(head) {
                Some(d) => {
                    out.push(d);
                    proof {
                        if tail is Some {
                            assert(before + (seq![d] + tail.unwrap()) =~= out@ + tail.unwrap());
                        }
                    }
                },
                None => {
                    return None;
                },
            }
        }
        assert(dims_list(s@) == prepend(out@, tail));
        if i < rest.len() {
            rest = &rest[i + 1..rest.len()];
        } else {
            more = false;
            assert(out@ + Seq::<usize>::empty() =~= out@);
        }
    }
    Some(out)
}

/// The shape that `s` declares, if it declares one.
pub fn dims_of_chars(s: &[char]) -> (r: Option<Vec<usize>>)
    ensures
        match r {
            Some(d) => dims_of(s@) == Some(d@),
            None => dims_of(s@) is None,
        },
{
    let t = trim_chars(s);
    if t.len() >= 2 && t[0] == '(' && t[t.len() - 1] == ')' {
        match dims_list_chars(&t[1..t.len() - 1]) {
            Some(d) => {
                if d.len() > 0 {
                    Some(d)
                } else {
                    None
                }
            },
            None => None,
        }
    } else {
        None
    }
}

/// Cuts `s` at the first `=` into key and value. Where `s` has no `=`, the
/// key is all of `s` and the value is empty.
pub fn split_key_value(s: &str) -> (kv: (&str, &str))
    ensures
        kv.0@ == key_value(s@).0,
        kv.1@ == key_value(s@).1,
{
    let cs = chars_of(s);
    let i: usize = scan(cs.as_slice(), CharClass::Except('='));
    proof {
        lemma_run_len(s@, CharClass::Except('='));
    }
    if i < cs.len() {
        (s.substring_char(0, i), s.substring_char(i + 1, cs.len()))
    } else {
        proof {
            reveal_strlit("");
        }
        assert(""@ =~= Seq::<char>::empty());
        (s, "")
    }
}

/// The key of a meta record in its normal form: trimmed, ASCII letters in
/// upper case.
pub fn normalize_key(k: &str) -> (r: String)
    ensures
        r@ == normalized_key(k@),
{
    let cs = chars_of(k);
    upper_string_of(trim_chars(cs.as_slice()))
}

/// The shape that a header value declares, such as `( 10, 2 )`; `None` if
/// the value is no list of numbers in parentheses.
pub fn parse_dims(v: &str) -> (r: Option<Vec<usize>>)
    ensures
        match r {
            Some(d) => dims_of(v@) == Some(d@),
            None => dims_of(v@) is None,
        },
{
    let cs = chars_of(v);
    dims_of_chars(cs.as_slice())
}

/// The text between the angle brackets of `s`; `None` if `s` is not
/// wrapped in a pair of them.
pub fn parse_angle_brackets(s: &str) -> (r: Option<String>)
    ensures
        match r {
            Some(t) => angle_text(s@) == Some(t@),
            None => angle_text(s@) is None,
        },
{
    let cs = chars_of(s);
    match angle_chars(cs.as_slice()) {
        Some(t) => Some(string_of(t)),
        None => None,
    }
}

} // verus!
