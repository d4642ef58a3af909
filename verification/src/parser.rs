//! The line-by-line reader.
//!
//! A parameter file is read one line at a time. Most records end on the line
//! on which they begin. A record whose value is a shape, such as `( 4, 2 )`,
//! is finished by the lines that follow: either by one line of text in angle
//! brackets, or by as many whitespace-separated atoms as the shape declares,
//! spread over any number of lines. Nothing marks the end of such an array
//! but the count of its atoms.
//!
//! `step` says what one line does to the state of the reader, `run` what a
//! sequence of lines does, and `parse` what a whole text gives. The functions
//! of `Parser` and `parse_paravision_params` are proved against them.

use crate::atom::{atom_of, atom_of_chars, Atom, PvAtom};
use crate::laws::law_parse_wf;
use crate::record::{
    angle_chars, angle_text, dims_of, dims_of_chars, key_value, key_value_chars, normalized_key,
};
use crate::table::{upsert, Table};
use crate::text::{
    chars_of, lemma_run_len, lemma_tokens_trim_start, run_len, scan, string_of, tokens, trim,
    trim_chars, upper_string_of, CharClass,
};
use crate::value::{atoms_view, element_count, product, PvValue, Value};
use vstd::prelude::*;

verus! {

/// What the reader is waiting for.
pub enum Pending {
    /// No record is open.
    Idle,
    /// A shape was declared under `key`; the next line decides whether the
    /// value is text in angle brackets or an array.
    AwaitingKind { key: Seq<char>, dims: Seq<usize> },
    /// An array is being filled and still has fewer items than its shape
    /// declares.
    AwaitingItems { key: Seq<char>, dims: Seq<usize>, items: Seq<Atom> },
}

/// The state of the reader between two lines.
pub struct State {
    /// The meta records read so far, under their normalised keys.
    pub meta: Seq<(Seq<char>, Seq<char>)>,
    /// The parameters completed so far.
    pub params: Seq<(Seq<char>, Value)>,
    /// The record that is still open, if any.
    pub pending: Pending,
}

/// What a parameter file holds.
pub struct Params {
    /// The meta records, under their normalised keys.
    pub meta: Seq<(Seq<char>, Seq<char>)>,
    /// The parameters.
    pub params: Seq<(Seq<char>, Value)>,
}

/// A record that the end of the text left open.
pub struct Incomplete {
    /// The key of the record.
    pub key: Seq<char>,
    /// The shape that it declared.
    pub dims: Seq<usize>,
}

/// The state before the first line.
pub open spec fn initial() -> State {
    State { meta: Seq::empty(), params: Seq::empty(), pending: Pending::Idle }
}

/// A line that starts with `$$` is a comment.
pub open spec fn is_comment(content: Seq<char>) -> bool {
    content.len() >= 2 && content[0] == '$' && content[1] == '$'
}

/// A line that starts with `##` is a record.
pub open spec fn is_record(content: Seq<char>) -> bool {
    content.len() >= 2 && content[0] == '#' && content[1] == '#'
}

/// The atoms that the given tokens denote.
pub open spec fn atoms_of(toks: Seq<Seq<char>>) -> Seq<Atom> {
    Seq::new(toks.len(), |i: int| atom_of(toks[i]))
}

/// The atoms that the whitespace-separated tokens of a line denote.
pub open spec fn atoms_of_line(line: Seq<char>) -> Seq<Atom> {
    atoms_of(tokens(line))
}

/// The state once the array under `key` holds `items`. With as many items
/// as the shape declares, or more, the array is complete: it is written
/// under its key with exactly the declared number of items, and what is in
/// excess is dropped. With fewer, the reader goes on waiting.
pub open spec fn absorb(state: State, key: Seq<char>, dims: Seq<usize>, items: Seq<Atom>) -> State {
    if items.len() >= product(dims) {
        State {
            meta: state.meta,
            params: upsert(
                state.params,
                key,
                Value::Array { dims, items: items.take(product(dims) as int) },
            ),
            pending: Pending::Idle,
        }
    } else {
        State {
            meta: state.meta,
            params: state.params,
            pending: Pending::AwaitingItems { key, dims, items },
        }
    }
}

/// What a line does when no record is open. `content` is the line without
/// the white space around it. A line that is no record is passed over. A
/// record without `$` after the marker is a meta record. A record with it is
/// a parameter: either its value is a scalar, or it declares a shape and the
/// following lines give the value.
pub open spec fn classify(state: State, content: Seq<char>) -> State {
    if !is_record(content) {
        state
    } else if content.len() >= 3 && content[2] == '$' {
        let kv = key_value(content.skip(3));
        let key = trim(kv.0);
        match dims_of(kv.1) {
            Some(dims) => State {
                meta: state.meta,
                params: state.params,
                pending: Pending::AwaitingKind { key, dims },
            },
            None => State {
                meta: state.meta,
                params: upsert(state.params, key, Value::Scalar(atom_of(kv.1))),
                pending: Pending::Idle,
            },
        }
    } else {
        let kv = key_value(content.skip(2));
        State {
            meta: upsert(state.meta, normalized_key(kv.0), trim(kv.1)),
            params: state.params,
            pending: Pending::Idle,
        }
    }
}

/// What one line does to the state. Blank lines and comments are passed
/// over, whatever the reader is waiting for. Any other line goes to the
/// record that is open, or, if none is, is taken as a record of its own.
pub open spec fn step(state: State, line: Seq<char>) -> State {
    let content = trim(line);
    if content.len() == 0 || is_comment(content) {
        state
    } else {
        match state.pending {
            Pending::Idle => classify(state, content),
            Pending::AwaitingKind { key, dims } => match angle_text(content) {
                Some(text) => State {
                    meta: state.meta,
                    params: upsert(state.params, key, Value::Str(text)),
                    pending: Pending::Idle,
                },
                None => absorb(state, key, dims, atoms_of_line(line)),
            },
            Pending::AwaitingItems { key, dims, items } => absorb(
                state,
                key,
                dims,
                items + atoms_of_line(line),
            ),
        }
    }
}

/// What a sequence of lines does to the state, one after the other.
pub open spec fn run(state: State, lines: Seq<Seq<char>>) -> State
    decreases lines.len(),
{
    if lines.len() == 0 {
        state
    } else {
        run(step(state, lines[0]), lines.skip(1))
    }
}

/// The lines of a text: the parts between its line feeds.
pub open spec fn lines_of(text: Seq<char>) -> Seq<Seq<char>>
    decreases text.len(),
{
    let i = run_len(text, CharClass::Except('\n'));
    if i < text.len() {
        seq![text.take(i as int)] + lines_of(text.skip(i as int + 1))
    } else {
        seq![text]
    }
}

/// What the end of the text makes of the state: the parameters, or, with a
/// record still open, the key and the shape of that record.
pub open spec fn finish(state: State) -> Result<Params, Incomplete> {
    match state.pending {
        Pending::Idle => Ok(Params { meta: state.meta, params: state.params }),
        Pending::AwaitingKind { key, dims } => Err(Incomplete { key, dims }),
        Pending::AwaitingItems { key, dims, items } => Err(Incomplete { key, dims }),
    }
}

/// What a whole text gives.
pub open spec fn parse(text: Seq<char>) -> Result<Params, Incomplete> {
    finish(run(initial(), lines_of(text)))
}

/// The parameters of a file, as read.
#[derive(Debug, Clone, PartialEq, Eq)]
pub struct PvParams {
    /// The meta records, such as `TITLE` or `JCAMPDX`, under their
    /// upper-case keys.
    pub meta: Table<String>,
    /// The parameters, under their keys as written.
    pub params: Table<PvValue>,
}

impl View for PvParams {
    type V = Params;

    open spec fn view(&self) -> Params {
        Params { meta: self.meta@, params: self.params@ }
    }
}

/// `std::io::Error`, the error of a stream that could not be read. The
/// library carries such an error through and never looks inside it.
#[verifier::external_type_specification]
#[verifier::external_body]
pub struct ExIoError(std::io::Error);

/// Why reading failed.
#[derive(Debug)]
pub enum PvError {
    /// The underlying stream could not be read.
    Io(std::io::Error),
    /// The text ended while the record under `key`, declared with the
    /// shape `dims`, was still open.
    Incomplete { key: String, dims: Vec<usize> },
}

impl From<std::io::Error> for PvError {
    /// An error of the stream, as an error of reading.
    fn from(e: std::io::Error) -> (r: PvError) {
        PvError::Io(e)
    }
}

impl vstd::std_specs::convert::FromSpecImpl<std::io::Error> for PvError {
    open spec fn obeys_from_spec() -> bool {
        true
    }

    open spec fn from_spec(e: std::io::Error) -> PvError {
        PvError::Io(e)
    }
}

/// The record that the reader has open.
enum PvPending {
    Idle,
    AwaitingKind { key: String, dims: Vec<usize> },
    AwaitingItems { key: String, dims: Vec<usize>, items: Vec<PvAtom> },
}

impl View for PvPending {
    type V = Pending;

    closed spec fn view(&self) -> Pending {
        match self {
            PvPending::Idle => Pending::Idle,
            PvPending::AwaitingKind { key, dims } => Pending::AwaitingKind {
                key: key@,
                dims: dims@,
            },
            PvPending::AwaitingItems { key, dims, items } => Pending::AwaitingItems {
                key: key@,
                dims: dims@,
                items: atoms_view(items@),
            },
        }
    }
}

/// Appends to `out` the atoms of the whitespace-separated tokens of `line`.
pub fn push_atoms_from_line(line: &[char], out: &mut Vec<PvAtom>)
    ensures
        atoms_view(final(out)@) == atoms_view(old(out)@) + atoms_of_line(line@),
{
    let mut rest: &[char] = line;
    let mut more: bool = true;
    assert(atoms_view(out@) + atoms_of_line(rest@) == atoms_view(old(out)@) + atoms_of_line(
        line@,
    ));
    while more
        invariant
            more ==> atoms_view(out@) + atoms_of_line(rest@) == atoms_view(old(out)@)
                + atoms_of_line(line@),
            !more ==> atoms_view(out@) == atoms_view(old(out)@) + atoms_of_line(line@),
        decreases
                rest@.len() + if more {
                    1int
                } else {
                    0int
                },
    {
        let skipped: usize = scan(rest, CharClass::Space);
        proof {
            lemma_run_len(rest@, CharClass::Space);
            lemma_tokens_trim_start(rest@);
        }
        let word_on = &rest[skipped..rest.len()];
        if word_on.len() == 0 {
            more = false;
            assert(atoms_of_line(word_on@) =~= Seq::<Atom>::empty());
            assert(atoms_view(out@) + Seq::<Atom>::empty() =~= atoms_view(out@));
        } else {
            let n: usize = scan(word_on, CharClass::Word);
            proof {
                lemma_run_len(word_on@, CharClass::Word);
            }
            let ghost before = atoms_view(out@);
            let ghost word = word_on@.take(n as int);
            let ghost after = word_on@.skip(n as int);
            out.push(atom_of_chars(&word_on[0..n]));
            rest = &word_on[n..word_on.len()];
            proof {
                assert(tokens(word_on@) == seq![word] + tokens(after));
                assert(atoms_of_line(word_on@) =~= seq![atom_of(word)] + atoms_of_line(after));
                assert(atoms_view(out@) =~= before.push(atom_of(word)));
                assert(before.push(atom_of(word)) + atoms_of_line(after) =~= before + (seq![
                    atom_of(word),
                ] + atoms_of_line(after)));
            }
        }
    }
}

/// A reader in the middle of a text. Lines go in one at a time; `finish`
/// gives the parameters once the last line has gone in.
pub struct Parser {
    meta: Table<String>,
    params: Table<PvValue>,
    pending: PvPending,
}

impl View for Parser {
    type V = State;

    closed spec fn view(&self) -> State {
        State { meta: self.meta@, params: self.params@, pending: self.pending@ }
    }
}

impl Parser {
    /// A reader that has seen no line.
    pub fn new() -> (p: Self)
        ensures
            p@ == initial(),
    {
        Parser { meta: Table::new(), params: Table::new(), pending: PvPending::Idle }
    }

    /// Whether no record is open.
    pub fn is_idle(&self) -> (r: bool)
        ensures
            r == (self@.pending is Idle),
    {
        match &self.pending {
            PvPending::Idle => true,
            _ => false,
        }
    }

    /// Takes the items read so far for the array under `key`.
    fn absorb(
        meta: Table<String>,
        params: Table<PvValue>,
        key: String,
        dims: Vec<usize>,
        items: Vec<PvAtom>,
    ) -> (next: Self)
        ensures
            next@ == absorb(
                State { meta: meta@, params: params@, pending: Pending::Idle },
                key@,
                dims@,
                atoms_view(items@),
            ),
    {
        let mut params = params;
        let mut items = items;
        let have: usize = items.len();
        match element_count(&dims) {
            Some(needed) => {
                if have >= needed {
                    let ghost all = atoms_view(items@);
                    items.truncate(needed);
                    assert(atoms_view(items@) =~= all.take(needed as int));
                    params.insert(key, PvValue::Array { dims, items });
                    return Parser { meta, params, pending: PvPending::Idle };
                }
            },
            None => {},
        }
        Parser { meta, params, pending: PvPending::AwaitingItems { key, dims, items } }
    }

    /// Takes a line as a record of its own. `content` is the line without
    /// the white space around it.
    fn classify(meta: Table<String>, params: Table<PvValue>, content: &[char]) -> (next: Self)
        ensures
            next@ == classify(
                State { meta: meta@, params: params@, pending: Pending::Idle },
                content@,
            ),
    {
        let mut meta = meta;
        let mut params = params;
        if !(content.len() >= 2 && content[0] == '#' && content[1] == '#') {
            return Parser { meta, params, pending: PvPending::Idle };
        }
        if content.len() >= 3 && content[2] == '$' {
            let (k, v) = key_value_chars(&content[3..content.len()]);
            let key = string_of(trim_chars(k));
            match dims_of_chars(v) {
                Some(dims) => Parser {
                    meta,
                    params,
                    pending: PvPending::AwaitingKind { key, dims },
                },
                None => {
                    params.insert(key, PvValue::Scalar(atom_of_chars(v)));
                    Parser { meta, params, pending: PvPending::Idle }
                },
            }
        } else {
            let (k, v) = key_value_chars(&content[2..content.len()]);
            meta.insert(upper_string_of(trim_chars(k)), string_of(trim_chars(v)));
            Parser { meta, params, pending: PvPending::Idle }
        }
    }

    /// Reads one line, given as its characters. A line feed or carriage
    /// return at its end does not matter.
    pub fn feed_chars(self, line: &[char]) -> (next: Self)
        ensures
            next@ == step(self@, line@),
    {
        let content = trim_chars(line);
        if content.len() == 0 || (content.len() >= 2 && content[0] == '$' && content[1] == '$') {
            return self;
        }
        let Parser { meta, params, pending } = self;
        match pending {
            PvPending::Idle => Self::classify(meta, params, content),
            PvPending::AwaitingKind { key, dims } => {
                match angle_chars(content) {
                    Some(text) => {
                        let mut params = params;
                        params.insert(key, PvValue::Str(string_of(text)));
                        Parser { meta, params, pending: PvPending::Idle }
                    },
                    None => {
                        let mut items: Vec<PvAtom> = Vec::new();
                        push_atoms_from_line(line, &mut items);
                        assert(Seq::<Atom>::empty() + atoms_of_line(line@) =~= atoms_of_line(
                            line@,
                        ));
                        Self::absorb(meta, params, key, dims, items)
                    },
                }
            },
            PvPending::AwaitingItems { key, dims, items } => {
                let mut items = items;
                push_atoms_from_line(line, &mut items);
                Self::absorb(meta, params, key, dims, items)
            },
        }
    }

    /// Reads one line.
    pub fn feed_line(self, line: &str) -> (next: Self)
        ensures
            next@ == step(self@, line@),
    {
        let cs = chars_of(line);
        self.feed_chars(cs.as_slice())
    }

    /// Ends the text. With no record open, this gives the parameters. With
    /// a record still open, it gives the error that names it: no part of
    /// an unfinished record is ever handed out.
    pub fn finish(self) -> (r: Result<PvParams, PvError>)
        ensures
            match r {
                Ok(p) => finish(self@) == Ok::<Params, Incomplete>(p@),
                Err(PvError::Incomplete { key, dims }) => finish(self@) == Err::<
                    Params,
                    Incomplete,
                >(Incomplete { key: key@, dims: dims@ }),
                Err(PvError::Io(_)) => false,
            },
    {
        let Parser { meta, params, pending } = self;
        match pending {
            PvPending::Idle => Ok(PvParams { meta, params }),
            PvPending::AwaitingKind { key, dims } => Err(PvError::Incomplete { key, dims }),
            PvPending::AwaitingItems { key, dims, items } => Err(
                PvError::Incomplete { key, dims },
            ),
        }
    }
}

/// Reads a whole parameter file, given as its text. The result is the
/// parameters, or the error that names the record that the end of the text
/// left open.
pub fn parse_paravision_params(text: &str) -> (r: Result<PvParams, PvError>)
    ensures
        match r {
            Ok(p) => parse(text@) == Ok::<Params, Incomplete>(p@),
            Err(PvError::Incomplete { key, dims }) => parse(text@) == Err::<Params, Incomplete>(
                Incomplete { key: key@, dims: dims@ },
            ),
            Err(PvError::Io(_)) => false,
        },
        r matches Ok(p) ==> p@.wf(),
{
    proof {
        law_parse_wf(text@);
    }
    let cs = chars_of(text);
    let mut parser = Parser::new();
    let mut rest: &[char] = cs.as_slice();
    let mut more: bool = true;
    while more
        invariant
            more ==> run(initial(), lines_of(text@)) == run(parser@, lines_of(rest@)),
            !more ==> run(initial(), lines_of(text@)) == parser@,
        decreases
                rest@.len() + if more {
                    1int
                } else {
                    0int
                },
    {
        let i: usize = scan(rest, CharClass::Except('\n'));
        proof {
            lemma_run_len(rest@, CharClass::Except('\n'));
        }
        let ghost lines = lines_of(rest@);
        parser = parser.feed_chars(&rest[0..i]);
        if i < rest.len() {
            proof {
                assert(lines[0] == rest@.take(i as int));
                assert(lines.skip(1) =~= lines_of(rest@.skip(i + 1)));
            }
            rest = &rest[i + 1..rest.len()];
        } else {
            proof {
                assert(rest@.take(i as int) == rest@);
                assert(lines[0] == rest@);
                assert(lines.skip(1) =~= Seq::<Seq<char>>::empty());
                assert(run(parser@, lines.skip(1)) == parser@);
            }
            more = false;
        }
    }
    parser.finish()
}

} // verus!
