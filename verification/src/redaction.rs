//! The meaning of hiding and showing, stated over the mathematical model:
//! recursive definitions that the iterative engine is proved to follow.
use vstd::prelude::*;
use crate::value_tree::{Val, ahas, aget};
use crate::sensitive_keys::sensitive_key;

verus! {

broadcast use vstd::seq::axiom_seq_index_decreases, vstd::seq::axiom_seq_subrange_decreases;

/// Replace the value at the first position of the key, or append the entry.
pub open spec fn aupsert(
    s: Seq<(Seq<char>, Val)>,
    k: Seq<char>,
    v: Val,
) -> Seq<(Seq<char>, Val)>
    decreases s,
{
    if s.len() == 0 {
        seq![(k, v)]
    } else if s[0].0 == k {
        seq![(k, v)] + s.subrange(1, s.len() as int)
    } else {
        seq![s[0]] + aupsert(s.subrange(1, s.len() as int), k, v)
    }
}

/// The congruent hidden sub-object for a key: the object already held there,
/// if any, else an empty placeholder.
pub open spec fn congruent(h: Seq<(Seq<char>, Val)>, k: Seq<char>) -> Seq<(Seq<char>, Val)> {
    if ahas(h, k) && aget(h, k) is Object {
        aget(h, k)->Object_0
    } else {
        Seq::empty()
    }
}

/// What hiding does to one object level: entries whose key is sensitive move
/// into the hidden side; object-valued entries stay shown but are descended
/// into, pairing each with its congruent hidden sub-object; everything else
/// is untouched. Returns (shown, hidden) after the call.
pub open spec fn hide_v(
    s: Seq<(Seq<char>, Val)>,
    h: Seq<(Seq<char>, Val)>,
    ex: Seq<Seq<char>>,
) -> (Seq<(Seq<char>, Val)>, Seq<(Seq<char>, Val)>)
    decreases s,
{
    if s.len() == 0 {
        (Seq::empty(), h)
    } else {
        let k = s[0].0;
        let v = s[0].1;
        let rest = s.subrange(1, s.len() as int);
        if sensitive_key(k, ex) {
            hide_v(rest, aupsert(h, k, v), ex)
        } else if v is Object {
            let c = hide_v(v->Object_0, congruent(h, k), ex);
            let r = hide_v(rest, aupsert(h, k, Val::Object(c.1)), ex);
            (seq![(k, Val::Object(c.0))] + r.0, r.1)
        } else {
            let r = hide_v(rest, h, ex);
            (seq![(k, v)] + r.0, r.1)
        }
    }
}

/// What showing does to one object level: every hidden entry whose key is
/// absent from the shown side moves back; a hidden object paired with a shown
/// object is descended into, the drained placeholder remaining; on any other
/// conflict the shown value wins and the hidden entry is discarded. Returns
/// (hidden, shown) after the call.
pub open spec fn show_v(
    h: Seq<(Seq<char>, Val)>,
    s: Seq<(Seq<char>, Val)>,
) -> (Seq<(Seq<char>, Val)>, Seq<(Seq<char>, Val)>)
    decreases h,
{
    if h.len() == 0 {
        (Seq::empty(), s)
    } else {
        let k = h[0].0;
        let v = h[0].1;
        let rest = h.subrange(1, h.len() as int);
        if !ahas(s, k) {
            show_v(rest, aupsert(s, k, v))
        } else if v is Object && aget(s, k) is Object {
            let c = show_v(v->Object_0, aget(s, k)->Object_0);
            let r = show_v(rest, aupsert(s, k, Val::Object(c.1)));
            (seq![(k, Val::Object(c.0))] + r.0, r.1)
        } else {
            show_v(rest, s)
        }
    }
}

/// Upserting the same key twice keeps only the second value.
pub proof fn lemma_aupsert_twice(s: Seq<(Seq<char>, Val)>, k: Seq<char>, v1: Val, v2: Val)
    ensures
        aupsert(aupsert(s, k, v1), k, v2) == aupsert(s, k, v2),
    decreases s,
{
    if s.len() == 0 {
        assert(aupsert(aupsert(s, k, v1), k, v2) =~= aupsert(s, k, v2));
    } else if s[0].0 == k {
        let rest = s.subrange(1, s.len() as int);
        assert((seq![(k, v1)] + rest).subrange(1, (seq![(k, v1)] + rest).len() as int) =~= rest);
        assert(aupsert(aupsert(s, k, v1), k, v2) =~= aupsert(s, k, v2));
    } else {
        let rest = s.subrange(1, s.len() as int);
        lemma_aupsert_twice(rest, k, v1, v2);
        let inner = seq![s[0]] + aupsert(rest, k, v1);
        assert(inner[0] == s[0]);
        assert(inner.subrange(1, inner.len() as int) =~= aupsert(rest, k, v1));
        assert(aupsert(aupsert(s, k, v1), k, v2) =~= aupsert(s, k, v2));
    }
}

} // verus!
