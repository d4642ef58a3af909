//! Values: what a parameter holds, and the typed sequences read out of it.

use crate::atom::{Atom, PvAtom};
use vstd::pervasive::unreached;
use vstd::prelude::*;

verus! {

/// What a parameter value is.
pub enum Value {
    /// A single atom.
    Scalar(Atom),
    /// An array of the declared shape, its items in the order read.
    Array { dims: Seq<usize>, items: Seq<Atom> },
    /// The text found between one pair of angle brackets.
    Str(Seq<char>),
}

/// A parameter value as it is held in memory.
#[derive(Debug, Clone, PartialEq, Eq)]
pub enum PvValue {
    Scalar(PvAtom),
    Array { dims: Vec<usize>, items: Vec<PvAtom> },
    Str(String),
}

/// The atoms that the items stand for, in order.
pub open spec fn atoms_view(items: Seq<PvAtom>) -> Seq<Atom> {
    Seq::new(items.len(), |i: int| items[i]@)
}

impl View for PvValue {
    type V = Value;

    open spec fn view(&self) -> Value {
        match self {
            PvValue::Scalar(a) => Value::Scalar(a@),
            PvValue::Array { dims, items } => Value::Array {
                dims: dims@,
                items: atoms_view(items@),
            },
            PvValue::Str(s) => Value::Str(s@),
        }
    }
}

/// The number of elements that an array of the given shape holds.
pub open spec fn product(dims: Seq<usize>) -> nat
    decreases dims.len(),
{
    if dims.len() == 0 {
        1
    } else {
        product(dims.drop_last()) * (dims.last() as nat)
    }
}

/// The atoms `a` read as numbers of type `usize`.
pub open spec fn usizes_of(a: Seq<Atom>) -> Seq<usize> {
    Seq::new(a.len(), |i: int| a[i].as_usize().unwrap())
}

/// The atoms `a` read as numbers of type `i64`.
pub open spec fn i64s_of(a: Seq<Atom>) -> Seq<i64> {
    Seq::new(a.len(), |i: int| a[i].as_i64().unwrap())
}

/// The atoms `a` read as booleans.
pub open spec fn bools_of(a: Seq<Atom>) -> Seq<bool> {
    Seq::new(a.len(), |i: int| a[i].as_bool().unwrap())
}

impl Value {
    /// An array has a shape of at least one dimension and exactly as many
    /// items as its shape declares.
    pub open spec fn wf(self) -> bool {
        match self {
            Value::Array { dims, items } => dims.len() > 0 && items.len() == product(dims),
            _ => true,
        }
    }

    /// The atoms of a value: the one atom of a scalar, the items of an
    /// array. A string has none.
    pub open spec fn atoms(self) -> Option<Seq<Atom>> {
        match self {
            Value::Scalar(a) => Some(seq![a]),
            Value::Array { dims, items } => Some(items),
            Value::Str(_) => None,
        }
    }

    /// Every atom of the value reads as a `usize`.
    pub open spec fn reads_as_usize(self) -> bool {
        self.atoms() matches Some(a) ==> forall|i: int|
            0 <= i < a.len() ==> (#[trigger] a[i]).as_usize() is Some
    }

    /// Every atom of the value reads as an `i64`.
    pub open spec fn reads_as_i64(self) -> bool {
        self.atoms() matches Some(a) ==> forall|i: int|
            0 <= i < a.len() ==> (#[trigger] a[i]).as_i64() is Some
    }

    /// Every atom of the value reads as a boolean.
    pub open spec fn reads_as_bool(self) -> bool {
        self.atoms() matches Some(a) ==> forall|i: int|
            0 <= i < a.len() ==> (#[trigger] a[i]).as_bool() is Some
    }
}

/// The number of elements of an array of shape `dims`, if a `usize` can
/// hold it.
pub fn element_count(dims: &Vec<usize>) -> (r: Option<usize>)
    ensures
        r == if product(dims@) <= usize::MAX {
            Some(product(dims@) as usize)
        } else {
            None::<usize>
        },
{
    let mut i: usize = 0;
    while i < dims.len()
        invariant
            i <= dims.len(),
            forall|j: int| 0 <= j < i ==> dims@[j] != 0,
        decreases dims.len() - i,
    {
        if dims[i] == 0 {
            proof {
                lemma_product_zero(dims@, i as int);
            }
            return Some(0);
        }
        i += 1;
    }
    let mut acc: usize = 1;
    let mut k: usize = 0;
    while k < dims.len()
        invariant
            k <= dims.len(),
            forall|j: int| 0 <= j < dims.len() ==> dims@[j] != 0,
            acc == product(dims@.take(k as int)),
        decreases dims.len() - k,
    {
        proof {
            assert(dims@.take(k + 1).drop_last() == dims@.take(k as int));
            lemma_product_prefix(dims@, k + 1);
        }
        match acc.checked_mul(dims[k]) {
            Some(next) => {
                acc = next;
            },
            None => {
                return None;
            },
        }
        k += 1;
    }
    assert(dims@.take(dims.len() as int) == dims@);
    Some(acc)
}

/// A shape with a zero in it has no elements.
pub proof fn lemma_product_zero(dims: Seq<usize>, i: int)
    requires
        0 <= i < dims.len(),
        dims[i] == 0,
    ensures
        product(dims) == 0,
    decreases dims.len(),
{
    if i < dims.len() - 1 {
        lemma_product_zero(dims.drop_last(), i);
        assert(product(dims.drop_last()) * (dims.last() as nat) == 0) by (nonlinear_arith)
            requires
                product(dims.drop_last()) == 0,
        ;
    } else {
        assert(product(dims.drop_last()) * (dims.last() as nat) == 0) by (nonlinear_arith)
            requires
                dims.last() == 0,
        ;
    }
}

/// Without a zero in the shape, a part of it never has more elements than
/// the whole.
pub proof fn lemma_product_prefix(dims: Seq<usize>, k: int)
    requires
        0 <= k <= dims.len(),
        forall|j: int| 0 <= j < dims.len() ==> dims[j] != 0,
    ensures
        product(dims.take(k)) <= product(dims),
    decreases dims.len() - k,
{
    if k == dims.len() {
        assert(dims.take(k) == dims);
    } else {
        let front = dims.drop_last();
        lemma_product_prefix(front, k);
        assert(front.take(k) == dims.take(k));
        assert(product(front) <= product(front) * (dims.last() as nat)) by (nonlinear_arith)
            requires
                dims.last() >= 1,
        ;
    }
}

impl PvValue {
    /// The value of a scalar as a `usize`; `None` for an array and for a
    /// string.
    pub fn to_usize(&self) -> (r: Option<usize>)
        requires
            self@ is Scalar ==> self@.reads_as_usize(),
        ensures
            r == match self@ {
                Value::Scalar(a) => a.as_usize(),
                _ => None,
            },
            r is Some <==> self@ is Scalar,
    {
        match self {
            PvValue::Scalar(atom) => {
                assert(seq![atom@][0] == atom@);
                atom.to_usize()
            },
            PvValue::Array { .. } => None,
            PvValue::Str(_) => None,
        }
    }

    /// The atoms of the value as numbers of type `usize`; `None` for a
    /// string.
    pub fn to_vec_usize(&self) -> (r: Option<Vec<usize>>)
        requires
            self@.reads_as_usize(),
        ensures
            match self@.atoms() {
                Some(a) => r matches Some(v) && v@ == usizes_of(a),
                None => r is None,
            },
    {
        match self {
            PvValue::Scalar(atom) => {
                assert(seq![atom@][0] == atom@);
                let mut out: Vec<usize> = Vec::new();
                match atom.to_usize() {
                    Some(x) => out.push(x),
                    None => unreached(),
                }
                assert(out@ =~= usizes_of(seq![atom@]));
                Some(out)
            },
            PvValue::Array { items, .. } => {
                let ghost a = atoms_view(items@);
                let mut out: Vec<usize> = Vec::new();
                let mut i: usize = 0;
                while i < items.len()
                    invariant
                        i <= items.len(),
                        a == atoms_view(items@),
                        forall|j: int| 0 <= j < a.len() ==> (#[trigger] a[j]).as_usize() is Some,
                        out@ == usizes_of(a.take(i as int)),
                    decreases items.len() - i,
                {
                    assert(a[i as int] == items@[i as int]@);
                    match items[i].to_usize() {
                        Some(x) => out.push(x),
                        None => unreached(),
                    }
                    i += 1;
                    assert(out@ =~= usizes_of(a.take(i as int)));
                }
                assert(a.take(items.len() as int) == a);
                Some(out)
            },
            PvValue::Str(_) => None,
        }
    }

    /// The atoms of the value as numbers of type `i64`; `None` for a string.
    pub fn to_vec_i64(&self) -> (r: Option<Vec<i64>>)
        requires
            self@.reads_as_i64(),
        ensures
            match self@.atoms() {
                Some(a) => r matches Some(v) && v@ == i64s_of(a),
                None => r is None,
            },
    {
        match self {
            PvValue::Scalar(atom) => {
                assert(seq![atom@][0] == atom@);
                let mut out: Vec<i64> = Vec::new();
                match atom.to_i64() {
                    Some(x) => out.push(x),
                    None => unreached(),
                }
                assert(out@ =~= i64s_of(seq![atom@]));
                Some(out)
            },
            PvValue::Array { items, .. } => {
                let ghost a = atoms_view(items@);
                let mut out: Vec<i64> = Vec::new();
                let mut i: usize = 0;
                while i < items.len()
                    invariant
                        i <= items.len(),
                        a == atoms_view(items@),
                        forall|j: int| 0 <= j < a.len() ==> (#[trigger] a[j]).as_i64() is Some,
                        out@ == i64s_of(a.take(i as int)),
                    decreases items.len() - i,
                {
                    assert(a[i as int] == items@[i as int]@);
                    match items[i].to_i64() {
                        Some(x) => out.push(x),
                        None => unreached(),
                    }
                    i += 1;
                    assert(out@ =~= i64s_of(a.take(i as int)));
                }
                assert(a.take(items.len() as int) == a);
                Some(out)
            },
            PvValue::Str(_) => None,
        }
    }

    /// The atoms of the value as booleans; `None` for a string.
    pub fn to_vec_bool(&self) -> (r: Option<Vec<bool>>)
        requires
            self@.reads_as_bool(),
        ensures
            match self@.atoms() {
                Some(a) => r matches Some(v) && v@ == bools_of(a),
                None => r is None,
            },
    {
        match self {
            PvValue::Scalar(atom) => {
                assert(seq![atom@][0] == atom@);
                let mut out: Vec<bool> = Vec::new();
                match atom.to_bool() {
                    Some(x) => out.push(x),
                    None => unreached(),
                }
                assert(out@ =~= bools_of(seq![atom@]));
                Some(out)
            },
            PvValue::Array { items, .. } => {
                let ghost a = atoms_view(items@);
                let mut out: Vec<bool> = Vec::new();
                let mut i: usize = 0;
                while i < items.len()
                    invariant
                        i <= items.len(),
                        a == atoms_view(items@),
                        forall|j: int| 0 <= j < a.len() ==> (#[trigger] a[j]).as_bool() is Some,
                        out@ == bools_of(a.take(i as int)),
                    decreases items.len() - i,
                {
                    assert(a[i as int] == items@[i as int]@);
                    match items[i].to_bool() {
                        Some(x) => out.push(x),
                        None => unreached(),
                    }
                    i += 1;
                    assert(out@ =~= bools_of(a.take(i as int)));
                }
                assert(a.take(items.len() as int) == a);
                Some(out)
            },
            PvValue::Str(_) => None,
        }
    }
}

} // verus!
