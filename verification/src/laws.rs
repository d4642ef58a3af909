//! What holds of the reader on every input.
//!
//! Each law is a proof about `step`, `run` and `parse`, the functions
//! against which the reader itself is proved.

use crate::atom::{atom_of, Atom};
use crate::parser::{
    atoms_of, atoms_of_line, finish, initial, is_comment, lines_of, parse, run, step, Incomplete,
    Params, Pending, State,
};
use crate::record::{angle_text, dims_of, key_value, normalized_key};
use crate::table::{
    distinct_keys, lemma_lookup_written, lemma_upsert_entries, lemma_upsert_order, lookup, upsert,
};
use crate::text::{
    is_space, lemma_blank_no_tokens, lemma_run_len, lemma_run_len_is, lemma_tail_len,
    lemma_tokens_add_space, lemma_tokens_trim_start, lemma_trim, lemma_trim_add_space,
    lemma_trim_unchanged, tail_len, to_upper, tokens, trim, trim_start, upper, CharClass,
};
use crate::value::{product, Value};
use vstd::prelude::*;

verus! {

/// The tokens of the given lines, in the order in which they are read.
pub open spec fn tokens_of_lines(lines: Seq<Seq<char>>) -> Seq<Seq<char>>
    decreases lines.len(),
{
    if lines.len() == 0 {
        Seq::empty()
    } else {
        tokens(lines[0]) + tokens_of_lines(lines.skip(1))
    }
}

/// The first of the given lines that is not blank, without the white space
/// around it.
pub open spec fn first_content(lines: Seq<Seq<char>>) -> Option<Seq<char>>
    decreases lines.len(),
{
    if lines.len() == 0 {
        None
    } else if trim(lines[0]).len() == 0 {
        first_content(lines.skip(1))
    } else {
        Some(trim(lines[0]))
    }
}

/// The given lines can carry the items of an array: none of them is a
/// comment, and the first that is not blank is not wrapped in angle brackets.
pub open spec fn carries_items(lines: Seq<Seq<char>>) -> bool {
    &&& forall|i: int| 0 <= i < lines.len() ==> !is_comment(trim(#[trigger] lines[i]))
    &&& first_content(lines) matches Some(c) ==> angle_text(c) is None
}

impl State {
    /// What holds of every state that the reader can reach: no key occurs
    /// twice, every array has the number of items that its shape declares,
    /// and an array that is still open has fewer.
    pub open spec fn wf(self) -> bool {
        &&& distinct_keys(self.meta)
        &&& distinct_keys(self.params)
        &&& forall|i: int| 0 <= i < self.params.len() ==> (#[trigger] self.params[i]).1.wf()
        &&& match self.pending {
            Pending::Idle => true,
            Pending::AwaitingKind { key, dims } => dims.len() > 0,
            Pending::AwaitingItems { key, dims, items } => dims.len() > 0 && items.len()
                < product(dims),
        }
    }
}

impl Params {
    /// No key occurs twice, and every array has the number of items that
    /// its shape declares.
    pub open spec fn wf(self) -> bool {
        &&& distinct_keys(self.meta)
        &&& distinct_keys(self.params)
        &&& forall|i: int| 0 <= i < self.params.len() ==> (#[trigger] self.params[i]).1.wf()
    }
}

/// A parameter line `##$key=value` whose value declares no shape is a
/// scalar: with no record open, it writes the atom of the value under the
/// key, and the parameter then reads as that atom.
pub proof fn law_scalar_parameter(
    state: State,
    line: Seq<char>,
    key: Seq<char>,
    value: Seq<char>,
)
    requires
        state.pending is Idle,
        trim(line) == seq!['#', '#', '$'] + key + seq!['='] + value,
        !key.contains('='),
        dims_of(value) is None,
    ensures
        step(state, line) == (State {
            meta: state.meta,
            params: upsert(state.params, trim(key), Value::Scalar(atom_of(value))),
            pending: Pending::Idle,
        }),
        lookup(step(state, line).params, trim(key)) == Some(Value::Scalar(atom_of(value))),
{
    let content = trim(line);
    let rest = content.skip(3);
    assert(content[0] == '#' && content[1] == '#' && content[2] == '$');
    assert(rest =~= key + seq!['='] + value);
    assert forall|i: int| 0 <= i < key.len() implies CharClass::Except('=').has(
        #[trigger] rest[i],
    ) by {
        assert(rest[i] == key[i]);
        assert(key.contains(key[i]));
    }
    assert(rest[key.len() as int] == '=');
    lemma_run_len_is(rest, CharClass::Except('='), key.len());
    assert(key_value(rest).0 =~= key);
    assert(key_value(rest).1 =~= value);
    lemma_lookup_written(state.params, trim(key), Value::Scalar(atom_of(value)));
}

/// A line `##key=value` whose key does not start with `$` is a meta record:
/// with no record open, it writes the trimmed value, as text, under the
/// normalised key.
pub proof fn law_meta_record(state: State, line: Seq<char>, key: Seq<char>, value: Seq<char>)
    requires
        state.pending is Idle,
        trim(line) == seq!['#', '#'] + key + seq!['='] + value,
        !key.contains('='),
        key.len() > 0 ==> key[0] != '$',
    ensures
        step(state, line) == (State {
            meta: upsert(state.meta, normalized_key(key), trim(value)),
            params: state.params,
            pending: Pending::Idle,
        }),
        lookup(step(state, line).meta, normalized_key(key)) == Some(trim(value)),
{
    let content = trim(line);
    let rest = content.skip(2);
    assert(content[0] == '#' && content[1] == '#');
    assert(rest =~= key + seq!['='] + value);
    if key.len() > 0 {
        assert(content[2] == key[0]);
    } else {
        assert(content[2] == '=');
    }
    assert forall|i: int| 0 <= i < key.len() implies CharClass::Except('=').has(
        #[trigger] rest[i],
    ) by {
        assert(rest[i] == key[i]);
        assert(key.contains(key[i]));
    }
    assert(rest[key.len() as int] == '=');
    lemma_run_len_is(rest, CharClass::Except('='), key.len());
    assert(key_value(rest).0 =~= key);
    assert(key_value(rest).1 =~= value);
    lemma_lookup_written(state.meta, normalized_key(key), trim(value));
}

/// A normalised key is its own normal form: a key that is already trimmed
/// and in upper case is stored as it is.
pub proof fn law_normalized_key_stable(key: Seq<char>)
    ensures
        normalized_key(normalized_key(key)) == normalized_key(key),
{
    let t = trim(key);
    let u = to_upper(t);
    lemma_trim(key);
    if u.len() > 0 {
        assert(u.first() == upper(t.first()));
        assert(u.last() == upper(t.last()));
    }
    lemma_trim_unchanged(u);
    assert(to_upper(u) =~= u);
}

/// After a header that declares a shape, a line that reads `<text>` gives
/// the string `text`, and ends the record: the line after it starts afresh.
pub proof fn law_bracketed_string(
    state: State,
    key: Seq<char>,
    dims: Seq<usize>,
    line: Seq<char>,
    text: Seq<char>,
)
    requires
        state.pending == (Pending::AwaitingKind { key, dims }),
        trim(line) == seq!['<'] + text + seq!['>'],
    ensures
        step(state, line) == (State {
            meta: state.meta,
            params: upsert(state.params, key, Value::Str(text)),
            pending: Pending::Idle,
        }),
        lookup(step(state, line).params, key) == Some(Value::Str(text)),
{
    let content = trim(line);
    assert(content.first() == '<' && content.last() == '>');
    lemma_trim_unchanged(content);
    assert(content.subrange(1, content.len() - 1) =~= text);
    lemma_lookup_written(state.params, key, Value::Str(text));
}

/// Blank lines change nothing.
proof fn lemma_run_blank(state: State, lines: Seq<Seq<char>>)
    requires
        tokens_of_lines(lines).len() == 0,
    ensures
        run(state, lines) == state,
    decreases lines.len(),
{
    if lines.len() > 0 {
        lemma_blank_no_tokens(lines[0]);
        lemma_run_blank(state, lines.skip(1));
    }
}

/// The atoms of two runs of tokens, one after the other.
proof fn lemma_atoms_of_add(a: Seq<Seq<char>>, b: Seq<Seq<char>>)
    ensures
        atoms_of(a + b) == atoms_of(a) + atoms_of(b),
{
    assert(atoms_of(a + b) =~= atoms_of(a) + atoms_of(b));
}

/// An open array that lacks as many items as the lines hold tokens is
/// completed by them, whatever the lines are on which the tokens stand.
proof fn lemma_fill(
    state: State,
    key: Seq<char>,
    dims: Seq<usize>,
    have: Seq<Atom>,
    lines: Seq<Seq<char>>,
)
    requires
        state.pending == (Pending::AwaitingItems { key, dims, items: have }) || (state.pending == (
        Pending::AwaitingKind { key, dims }) && have.len() == 0 && (first_content(
            lines,
        ) matches Some(c) ==> angle_text(c) is None)),
        forall|i: int| 0 <= i < lines.len() ==> !is_comment(trim(#[trigger] lines[i])),
        have.len() < product(dims),
        have.len() + tokens_of_lines(lines).len() == product(dims),
    ensures
        run(state, lines) == (State {
            meta: state.meta,
            params: upsert(
                state.params,
                key,
                Value::Array { dims, items: have + atoms_of(tokens_of_lines(lines)) },
            ),
            pending: Pending::Idle,
        }),
    decreases lines.len(),
{
    if lines.len() > 0 {
        let line = lines[0];
        let rest = lines.skip(1);
        let toks = tokens(line);
        let later = tokens_of_lines(rest);
        assert forall|i: int| 0 <= i < rest.len() implies !is_comment(
            trim(#[trigger] rest[i]),
        ) by {
            assert(rest[i] == lines[i + 1]);
        }
        lemma_blank_no_tokens(line);
        lemma_atoms_of_add(toks, later);
        if trim(line).len() == 0 {
            assert(tokens_of_lines(lines) =~= later);
            lemma_fill(state, key, dims, have, rest);
        } else {
            let all = have + atoms_of(toks);
            let next = step(state, line);
            if all.len() >= product(dims) {
                assert(all.take(product(dims) as int) =~= all);
                assert(tokens_of_lines(lines) =~= toks);
                lemma_run_blank(next, rest);
            } else {
                lemma_fill(next, key, dims, all, rest);
                assert(all + atoms_of(later) =~= have + atoms_of(tokens_of_lines(lines)));
            }
        }
    }
}

/// After a header that declares a shape of `n` elements, with `n` at least
/// one, lines that hold `n` tokens give the array of the atoms of these
/// tokens, in order. Where the lines end and how many tokens each of them
/// holds does not matter.
pub proof fn law_array_from_lines(
    state: State,
    key: Seq<char>,
    dims: Seq<usize>,
    lines: Seq<Seq<char>>,
)
    requires
        state.pending == (Pending::AwaitingKind { key, dims }),
        product(dims) >= 1,
        carries_items(lines),
        tokens_of_lines(lines).len() == product(dims),
    ensures
        run(state, lines) == (State {
            meta: state.meta,
            params: upsert(
                state.params,
                key,
                Value::Array { dims, items: atoms_of(tokens_of_lines(lines)) },
            ),
            pending: Pending::Idle,
        }),
        lookup(run(state, lines).params, key) == Some(
            Value::Array { dims, items: atoms_of(tokens_of_lines(lines)) },
        ),
{
    let items = atoms_of(tokens_of_lines(lines));
    lemma_fill(state, key, dims, Seq::empty(), lines);
    assert(Seq::<Atom>::empty() + items =~= items);
    lemma_lookup_written(state.params, key, Value::Array { dims, items });
}

/// The reader is split-invariant: two ways of spreading the same tokens
/// over lines, after the same header, leave the reader in the same state.
pub proof fn law_split_invariance(
    state: State,
    key: Seq<char>,
    dims: Seq<usize>,
    first: Seq<Seq<char>>,
    second: Seq<Seq<char>>,
)
    requires
        state.pending == (Pending::AwaitingKind { key, dims }),
        product(dims) >= 1,
        carries_items(first),
        carries_items(second),
        tokens_of_lines(first) == tokens_of_lines(second),
        tokens_of_lines(first).len() == product(dims),
    ensures
        run(state, first) == run(state, second),
{
    law_array_from_lines(state, key, dims, first);
    law_array_from_lines(state, key, dims, second);
}

/// The line that brings an open array to the number of items that its
/// shape declares completes it. The array gets exactly that number of
/// items; the atoms that the line holds beyond them are dropped.
pub proof fn law_excess_dropped(
    state: State,
    key: Seq<char>,
    dims: Seq<usize>,
    items: Seq<Atom>,
    line: Seq<char>,
)
    requires
        state.pending == (Pending::AwaitingItems { key, dims, items }) || (state.pending == (
        Pending::AwaitingKind { key, dims }) && items.len() == 0 && angle_text(trim(line))
            is None),
        trim(line).len() > 0,
        !is_comment(trim(line)),
        items.len() + tokens(line).len() >= product(dims),
    ensures
        step(state, line) == (State {
            meta: state.meta,
            params: upsert(
                state.params,
                key,
                Value::Array {
                    dims,
                    items: (items + atoms_of_line(line)).take(product(dims) as int),
                },
            ),
            pending: Pending::Idle,
        }),
        (items + atoms_of_line(line)).take(product(dims) as int).len() == product(dims),
{
    assert(Seq::<Atom>::empty() + atoms_of_line(line) =~= atoms_of_line(line));
}

/// Reading two runs of lines one after the other is reading them as one.
pub proof fn law_run_append(state: State, first: Seq<Seq<char>>, second: Seq<Seq<char>>)
    ensures
        run(state, first + second) == run(run(state, first), second),
    decreases first.len(),
{
    if first.len() == 0 {
        assert(first + second =~= second);
    } else {
        assert((first + second)[0] == first[0]);
        assert((first + second).skip(1) =~= first.skip(1) + second);
        law_run_append(step(state, first[0]), first.skip(1), second);
    }
}

/// The white space around a line holds no atom: a line and its content
/// give the same atoms.
pub proof fn law_atoms_of_content(line: Seq<char>)
    ensures
        atoms_of_line(trim(line)) == atoms_of_line(line),
{
    let start = trim_start(line);
    lemma_run_len(line, CharClass::Space);
    lemma_tail_len(start, CharClass::Space);
    let end = start.skip(start.len() - tail_len(start, CharClass::Space));
    assert(start =~= trim(line) + end);
    lemma_tokens_trim_start(line);
    lemma_tokens_add_space(trim(line), end);
}

/// How a line ends does not matter: with or without a line feed, a
/// carriage return or any other white space at its end, a line does the same.
pub proof fn law_line_ending(state: State, line: Seq<char>, end: Seq<char>)
    requires
        forall|i: int| 0 <= i < end.len() ==> is_space(#[trigger] end[i]),
    ensures
        step(state, line + end) == step(state, line),
{
    lemma_trim_add_space(line, end);
    lemma_tokens_add_space(line, end);
}

/// The end of the text is an error exactly if a record is open, and the
/// error names the key and the shape of that record.
pub proof fn law_open_record_is_error(state: State)
    ensures
        finish(state) is Err <==> !(state.pending is Idle),
        state.pending matches Pending::AwaitingKind { key, dims } ==> finish(state) == Err::<
            Params,
            Incomplete,
        >(Incomplete { key, dims }),
        state.pending matches Pending::AwaitingItems { key, dims, items } ==> finish(state)
            == Err::<Params, Incomplete>(Incomplete { key, dims }),
{
}

/// A line that leaves a record open writes nothing: no part of an
/// unfinished record is ever among the parameters.
pub proof fn law_no_partial_entry(state: State, line: Seq<char>)
    ensures
        !(step(state, line).pending is Idle) ==> step(state, line).params == state.params && step(
            state,
            line,
        ).meta == state.meta,
{
}

/// No line takes the reader out of the states described by `State::wf`.
pub proof fn law_step_keeps_wf(state: State, line: Seq<char>)
    requires
        state.wf(),
    ensures
        step(state, line).wf(),
{
    let next = step(state, line);
    if next.meta != state.meta {
        let kv = key_value(trim(line).skip(2));
        lemma_upsert_order(state.meta, normalized_key(kv.0), trim(kv.1));
    }
    if next.params != state.params {
        lemma_written_value(state, line);
        let (k, v) = choose|k: Seq<char>, v: Value|
            next.params == upsert(state.params, k, v) && v.wf();
        lemma_upsert_order(state.params, k, v);
        lemma_upsert_entries(state.params, k, v);
    }
}

/// Where a line changes the parameters, it writes one well-formed value.
proof fn lemma_written_value(state: State, line: Seq<char>)
    requires
        state.wf(),
        step(state, line).params != state.params,
    ensures
        exists|k: Seq<char>, v: Value|
            step(state, line).params == upsert(state.params, k, v) && v.wf(),
{
    let next = step(state, line);
    let content = trim(line);
    match state.pending {
        Pending::Idle => {
            let kv = key_value(content.skip(3));
            let v = Value::Scalar(atom_of(kv.1));
            assert(next.params == upsert(state.params, trim(kv.0), v) && v.wf());
        },
        Pending::AwaitingKind { key, dims } => {
            match angle_text(content) {
                Some(text) => {
                    let v = Value::Str(text);
                    assert(next.params == upsert(state.params, key, v) && v.wf());
                },
                None => {
                    let v = Value::Array {
                        dims,
                        items: atoms_of_line(line).take(product(dims) as int),
                    };
                    assert(next.params == upsert(state.params, key, v) && v.wf());
                },
            }
        },
        Pending::AwaitingItems { key, dims, items } => {
            let v = Value::Array {
                dims,
                items: (items + atoms_of_line(line)).take(product(dims) as int),
            };
            assert(next.params == upsert(state.params, key, v) && v.wf());
        },
    }
}

/// No sequence of lines takes the reader out of the states described by
/// `State::wf`.
pub proof fn law_run_keeps_wf(state: State, lines: Seq<Seq<char>>)
    requires
        state.wf(),
    ensures
        run(state, lines).wf(),
    decreases lines.len(),
{
    if lines.len() > 0 {
        law_step_keeps_wf(state, lines[0]);
        law_run_keeps_wf(step(state, lines[0]), lines.skip(1));
    }
}

/// What a text gives is well formed: no key occurs twice, and every array
/// has a shape of at least one dimension and exactly the number of items
/// that its shape declares.
pub proof fn law_parse_wf(text: Seq<char>)
    ensures
        parse(text) matches Ok(p) ==> p.wf(),
{
    law_run_keeps_wf(initial(), lines_of(text));
}

} // verus!
