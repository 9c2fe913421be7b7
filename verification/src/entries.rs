//! Executable operations on one object level — an association vector of
//! (key, value) entries — and their correspondence with the model.
use vstd::prelude::*;
use crate::value_tree::{ValueTree, Val, val, entries_val, ahas, aget};
use crate::redaction::{aupsert, congruent};

verus! {

/// The model of an entry vector is the entry-wise model.
pub broadcast proof fn lemma_entries_val_props(s: Seq<(String, ValueTree)>)
    ensures
        (#[trigger] entries_val(s)).len() == s.len(),
        forall|i: int|
            0 <= i < s.len() ==> entries_val(s)[i] == (s[i].0@, val(s[i].1)),
    decreases s.len(),
{
    if s.len() > 0 {
        lemma_entries_val_props(s.subrange(1, s.len() as int));
    }
}

/// `aupsert` on a present key updates the first position that holds it.
pub proof fn lemma_aupsert_at(s: Seq<(Seq<char>, Val)>, k: Seq<char>, v: Val, i: int)
    requires
        0 <= i < s.len(),
        s[i].0 == k,
        forall|j: int| 0 <= j < i ==> s[j].0 != k,
    ensures
        aupsert(s, k, v) == s.update(i, (k, v)),
    decreases s.len(),
{
    if i == 0 {
        assert(aupsert(s, k, v) =~= s.update(0, (k, v)));
    } else {
        let rest = s.subrange(1, s.len() as int);
        lemma_aupsert_at(rest, k, v, i - 1);
        assert(aupsert(s, k, v) =~= s.update(i, (k, v)));
    }
}

/// `aupsert` on an absent key appends the entry.
pub proof fn lemma_aupsert_absent(s: Seq<(Seq<char>, Val)>, k: Seq<char>, v: Val)
    requires
        forall|j: int| 0 <= j < s.len() ==> s[j].0 != k,
    ensures
        aupsert(s, k, v) == s.push((k, v)),
    decreases s.len(),
{
    if s.len() == 0 {
        assert(aupsert(s, k, v) =~= s.push((k, v)));
    } else {
        let rest = s.subrange(1, s.len() as int);
        lemma_aupsert_absent(rest, k, v);
        assert(aupsert(s, k, v) =~= s.push((k, v)));
    }
}

/// `aget` on a present key returns the value at the first position holding it.
pub proof fn lemma_aget_at(s: Seq<(Seq<char>, Val)>, k: Seq<char>, i: int)
    requires
        0 <= i < s.len(),
        s[i].0 == k,
        forall|j: int| 0 <= j < i ==> s[j].0 != k,
    ensures
        aget(s, k) == s[i].1,
        ahas(s, k),
    decreases s.len(),
{
    if i > 0 {
        let rest = s.subrange(1, s.len() as int);
        lemma_aget_at(rest, k, i - 1);
    }
}

/// Equality of two keys.
pub fn string_eq(a: &String, b: &String) -> (r: bool)
    ensures
        r == (a@ == b@),
{
    *a == *b
}

/// The first position holding the key, if any.
pub fn find_key(v: &Vec<(String, ValueTree)>, k: &String) -> (r: Option<usize>)
    ensures
        match r {
            Some(i) => i < v@.len() && v@[i as int].0@ == k@ && forall|j: int|
                0 <= j < i ==> v@[j].0@ != k@,
            None => forall|j: int| 0 <= j < v@.len() ==> v@[j].0@ != k@,
        },
{
    let mut i: usize = 0;
    while i < v.len()
        invariant
            0 <= i <= v@.len(),
            forall|j: int| 0 <= j < i ==> v@[j].0@ != k@,
        decreases v@.len() - i,
    {
        if string_eq(&v[i].0, k) {
            return Some(i);
        }
        i += 1;
    }
    None
}

/// Replace the value at the key, or append the entry.
pub fn upsert(v: &mut Vec<(String, ValueTree)>, k: String, t: ValueTree)
    ensures
        entries_val(final(v)@) == aupsert(entries_val(old(v)@), k@, val(t)),
{
    broadcast use lemma_entries_val_props;

    let ghost es = entries_val(old(v)@);
    match find_key(v, &k) {
        Some(i) => {
            v.remove(i);
            v.insert(i, (k, t));
            proof {
                lemma_aupsert_at(es, k@, val(t), i as int);
                assert(v@ =~= old(v)@.update(i as int, (k, t)));
                assert(entries_val(v@) =~= es.update(i as int, (k@, val(t))));
            }
        },
        None => {
            v.push((k, t));
            proof {
                lemma_aupsert_absent(es, k@, val(t));
                assert(entries_val(v@) =~= es.push((k@, val(t))));
            }
        },
    }
}

/// Take the congruent hidden sub-object for a key out of a level, leaving an
/// empty placeholder object in its position (appended when the key was
/// absent).
pub fn take_congruent(h: &mut Vec<(String, ValueTree)>, k: &String) -> (out: Vec<
    (String, ValueTree),
>)
    ensures
        entries_val(out@) == congruent(entries_val(old(h)@), k@),
        entries_val(final(h)@) == aupsert(entries_val(old(h)@), k@, Val::Object(Seq::empty())),
{
    broadcast use lemma_entries_val_props;

    let ghost es = entries_val(old(h)@);
    match find_key(h, k) {
        Some(i) => {
            let (k0, t) = h.remove(i);
            h.insert(i, (k0, ValueTree::Object(Vec::new())));
            proof {
                lemma_aget_at(es, k@, i as int);
                lemma_aupsert_at(es, k@, Val::Object(Seq::empty()), i as int);
                assert(h@ =~= old(h)@.update(i as int, (old(h)@[i as int].0, h@[i as int].1)));
                assert(val(h@[i as int].1) == Val::Object(Seq::empty()));
                assert(entries_val(h@) =~= es.update(i as int, (k@, Val::Object(Seq::empty()))));
            }
            match t {
                ValueTree::Object(cv) => {
                    proof {
                        assert(entries_val(Seq::<(String, ValueTree)>::empty()) =~= Seq::<(
                            Seq<char>,
                            Val,
                        )>::empty());
                    }
                    cv
                },
                _ => {
                    proof {
                        assert(entries_val(Seq::<(String, ValueTree)>::empty()) =~= Seq::<(
                            Seq<char>,
                            Val,
                        )>::empty());
                    }
                    Vec::new()
                },
            }
        },
        None => {
            proof {
                assert(!ahas(es, k@));
                lemma_aupsert_absent(es, k@, Val::Object(Seq::empty()));
            }
            h.push((k.clone(), ValueTree::Object(Vec::new())));
            proof {
                assert(entries_val(h@) =~= es.push((k@, Val::Object(Seq::empty()))));
                assert(entries_val(Seq::<(String, ValueTree)>::empty()) =~= Seq::<(
                    Seq<char>,
                    Val,
                )>::empty());
            }
            Vec::new()
        },
    }
}

} // verus!
