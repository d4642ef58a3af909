//! Atoms: the smallest typed values that a token resolves to.

use crate::number::{
    bool_of, eq_ignore_ascii_case, i64_of, is_float, is_float_text, parse_bool, parse_i64,
    parse_usize, usize_of,
};
use crate::text::{chars_of, string_of, to_lower, trim, trim_chars};
use vstd::prelude::*;

verus! {

/// What an atom is: the most specific type that the text of a token supports.
pub enum Atom {
    /// One of the keywords `yes`, `true`, `no`, `false`.
    Bool(bool),
    /// A base-ten integer that fits in 64 bits.
    Int(i64),
    /// A floating-point literal, kept as the text that was read.
    Float(Seq<char>),
    /// Anything else, as it was read.
    Text(Seq<char>),
}

/// An atom as it is held in memory. A float atom holds the text of its
/// literal: the library recognises such a literal but does no floating-point
/// arithmetic on it.
#[derive(Debug, Clone, PartialEq, Eq)]
pub enum PvAtom {
    Bool(bool),
    Int(i64),
    Float(String),
    Text(String),
}

impl View for PvAtom {
    type V = Atom;

    open spec fn view(&self) -> Atom {
        match self {
            PvAtom::Bool(b) => Atom::Bool(*b),
            PvAtom::Int(i) => Atom::Int(*i),
            PvAtom::Float(s) => Atom::Float(s@),
            PvAtom::Text(s) => Atom::Text(s@),
        }
    }
}

/// `t` is `yes` or `true`, in any mix of upper and lower case.
pub open spec fn is_true_word(t: Seq<char>) -> bool {
    to_lower(t) == seq!['y', 'e', 's'] || to_lower(t) == seq!['t', 'r', 'u', 'e']
}

/// `t` is `no` or `false`, in any mix of upper and lower case.
pub open spec fn is_false_word(t: Seq<char>) -> bool {
    to_lower(t) == seq!['n', 'o'] || to_lower(t) == seq!['f', 'a', 'l', 's', 'e']
}

/// The atom that a token denotes. White space around the token does not
/// count. The boolean keywords come first, then the integers, then the
/// floating-point literals; what is none of these is text.
pub open spec fn atom_of(s: Seq<char>) -> Atom {
    let t = trim(s);
    if is_true_word(t) {
        Atom::Bool(true)
    } else if is_false_word(t) {
        Atom::Bool(false)
    } else if i64_of(t) is Some {
        Atom::Int(i64_of(t).unwrap())
    } else if is_float(t) {
        Atom::Float(t)
    } else {
        Atom::Text(t)
    }
}

impl Atom {
    /// The atom as a `usize`: a boolean gives 1 or 0, an integer is taken
    /// modulo the width of `usize`, text is read as a decimal `usize`.
    /// `None` for text that is no such number, and for a float atom, whose
    /// value the library does not compute.
    pub open spec fn as_usize(self) -> Option<usize> {
        match self {
            Atom::Bool(b) => Some(
                if b {
                    1usize
                } else {
                    0usize
                },
            ),
            Atom::Int(i) => Some(i as usize),
            Atom::Float(_) => None,
            Atom::Text(t) => usize_of(t),
        }
    }

    /// The atom as an `i64`: a boolean gives 1 or 0, an integer is itself,
    /// text is read as a decimal `i64`. `None` for text that is no such
    /// number, and for a float atom, whose value the library does not
    /// compute.
    pub open spec fn as_i64(self) -> Option<i64> {
        match self {
            Atom::Bool(b) => Some(
                if b {
                    1i64
                } else {
                    0i64
                },
            ),
            Atom::Int(i) => Some(i),
            Atom::Float(_) => None,
            Atom::Text(t) => i64_of(t),
        }
    }

    /// The atom as a boolean: an integer is true unless it is zero, text is
    /// read as one of the literals `true` and `false`. `None` for any other
    /// text, and for a float atom, whose value the library does not compute.
    pub open spec fn as_bool(self) -> Option<bool> {
        match self {
            Atom::Bool(b) => Some(b),
            Atom::Int(i) => Some(i != 0),
            Atom::Float(_) => None,
            Atom::Text(t) => bool_of(t),
        }
    }
}

/// The atom that the characters `s` denote.
pub fn atom_of_chars(s: &[char]) -> (a: PvAtom)
    ensures
        a@ == atom_of(s@),
{
    let t = trim_chars(s);
    let yes: [char; 3] = ['y', 'e', 's'];
    let truth: [char; 4] = ['t', 'r', 'u', 'e'];
    let no: [char; 2] = ['n', 'o'];
    let falsity: [char; 5] = ['f', 'a', 'l', 's', 'e'];
    assert(yes@ =~= seq!['y', 'e', 's']);
    assert(truth@ =~= seq!['t', 'r', 'u', 'e']);
    assert(no@ =~= seq!['n', 'o']);
    assert(falsity@ =~= seq!['f', 'a', 'l', 's', 'e']);
    if eq_ignore_ascii_case(t, yes.as_slice()) || eq_ignore_ascii_case(t, truth.as_slice()) {
        return PvAtom::Bool(true);
    }
    if eq_ignore_ascii_case(t, no.as_slice()) || eq_ignore_ascii_case(t, falsity.as_slice()) {
        return PvAtom::Bool(false);
    }
    match parse_i64(t) {
        Some(i) => PvAtom::Int(i),
        None => {
            if is_float_text(t) {
                PvAtom::Float(string_of(t))
            } else {
                PvAtom::Text(string_of(t))
            }
        },
    }
}

/// The atom that a token denotes.
pub fn parse_atom(tok: &str) -> (a: PvAtom)
    ensures
        a@ == atom_of(tok@),
{
    let cs = chars_of(tok);
    atom_of_chars(cs.as_slice())
}

impl PvAtom {
    /// The atom as a `usize`, where it has one.
    pub fn to_usize(&self) -> (r: Option<usize>)
        ensures
            r == self@.as_usize(),
    {
        match self {
            PvAtom::Bool(b) => Some(
                if *b {
                    1
                } else {
                    0
                },
            ),
            PvAtom::Int(i) => Some(#[verifier::truncate] (*i as usize)),
            PvAtom::Float(_) => None,
            PvAtom::Text(s) => {
                let cs = chars_of(s.as_str());
                parse_usize(cs.as_slice())
            },
        }
    }

    /// The atom as an `i64`, where it has one.
    pub fn to_i64(&self) -> (r: Option<i64>)
        ensures
            r == self@.as_i64(),
    {
        match self {
            PvAtom::Bool(b) => Some(
                if *b {
                    1
                } else {
                    0
                },
            ),
            PvAtom::Int(i) => Some(*i),
            PvAtom::Float(_) => None,
            PvAtom::Text(s) => {
                let cs = chars_of(s.as_str());
                parse_i64(cs.as_slice())
            },
        }
    }

    /// The atom as a boolean, where it has one.
    pub fn to_bool(&self) -> (r: Option<bool>)
        ensures
            r == self@.as_bool(),
    {
        match self {
            PvAtom::Bool(b) => Some(*b),
            PvAtom::Int(i) => Some(*i != 0),
            PvAtom::Float(_) => None,
            PvAtom::Text(s) => {
                let cs = chars_of(s.as_str());
                parse_bool(cs.as_slice())
            },
        }
    }
}

} // verus!
