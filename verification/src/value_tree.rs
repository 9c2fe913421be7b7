//! The in-memory representation of a parsed document: a tagged variant over
//! null, boolean, number, string, array and object values, together with its
//! mathematical model.
use vstd::prelude::*;

verus! {

broadcast use vstd::seq::axiom_seq_index_decreases, vstd::seq::axiom_seq_subrange_decreases, vstd::std_specs::vec::axiom_vec_decreases_to_view;

/// A parsed document value. Objects are association vectors from keys to
/// values; well-formed objects have no repeated key (`wf`).
///
/// Numbers are carried as their decimal literal text: the engine never reads
/// into a number, it only moves scalars around, and the literal form keeps
/// every value exactly.
#[derive(Debug, PartialEq, Eq)]
pub enum ValueTree {
    Null,
    Bool(bool),
    Number(String),
    Text(String),
    Array(Vec<ValueTree>),
    Object(Vec<(String, ValueTree)>),
}

/// The mathematical model of a `ValueTree`: keys and text become character
/// sequences, vectors become sequences.
pub enum Val {
    Null,
    Bool(bool),
    Number(Seq<char>),
    Text(Seq<char>),
    Array(Seq<Val>),
    Object(Seq<(Seq<char>, Val)>),
}

/// Model of one document value.
pub open spec fn val(t: ValueTree) -> Val
    decreases t,
{
    match t {
        ValueTree::Null => Val::Null,
        ValueTree::Bool(b) => Val::Bool(b),
        ValueTree::Number(n) => Val::Number(n@),
        ValueTree::Text(s) => Val::Text(s@),
        ValueTree::Array(a) => Val::Array(elems_val(a@)),
        ValueTree::Object(o) => Val::Object(entries_val(o@)),
    }
}

/// Model of a sequence of array elements.
pub open spec fn elems_val(s: Seq<ValueTree>) -> Seq<Val>
    decreases s,
{
    if s.len() == 0 {
        Seq::empty()
    } else {
        seq![val(s[0])] + elems_val(s.subrange(1, s.len() as int))
    }
}

/// Model of a sequence of object entries.
pub open spec fn entries_val(s: Seq<(String, ValueTree)>) -> Seq<(Seq<char>, Val)>
    decreases s,
{
    if s.len() == 0 {
        Seq::empty()
    } else {
        seq![(s[0].0@, val(s[0].1))] + entries_val(s.subrange(1, s.len() as int))
    }
}

impl View for ValueTree {
    type V = Val;

    open spec fn view(&self) -> Val {
        val(*self)
    }
}

/// Does the association sequence hold the key?
pub open spec fn ahas(s: Seq<(Seq<char>, Val)>, k: Seq<char>) -> bool {
    exists|i: int| 0 <= i < s.len() && s[i].0 == k
}

/// The value at a key of an association sequence (the first hit).
pub open spec fn aget(s: Seq<(Seq<char>, Val)>, k: Seq<char>) -> Val
    decreases s,
{
    if s.len() == 0 {
        Val::Null
    } else if s[0].0 == k {
        s[0].1
    } else {
        aget(s.subrange(1, s.len() as int), k)
    }
}

/// No key occurs twice at this level.
pub open spec fn keys_unique(s: Seq<(Seq<char>, Val)>) -> bool {
    forall|i: int, j: int| 0 <= i < j < s.len() ==> s[i].0 != s[j].0
}

/// Every object at every level of the value has unique keys.
pub open spec fn val_wf(v: Val) -> bool
    decreases v,
{
    match v {
        Val::Array(a) => forall|i: int| 0 <= i < a.len() ==> val_wf(#[trigger] a[i]),
        Val::Object(o) => keys_unique(o) && forall|i: int|
            0 <= i < o.len() ==> val_wf(#[trigger] o[i].1),
        _ => true,
    }
}

} // verus!
