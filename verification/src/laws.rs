//! The guarantees of the redaction engine, stated over the model and proved
//! once and for all: hiding partitions a document, showing restores it, and
//! showing twice changes nothing more.
use vstd::prelude::*;
use crate::value_tree::{Val, ahas, aget, keys_unique, val_wf};
use crate::redaction::{aupsert, congruent, hide_v, show_v};
use crate::entries::{lemma_aget_at, lemma_aupsert_at};
use crate::sensitive_keys::sensitive_key;

verus! {

/// Key-order-insensitive equality of two values: objects hold the same keys
/// with pairwise equal entries whatever their order, everything else is equal
/// outright. (The engine moves array values whole, so no looser comparison is
/// needed below an array.)
pub open spec fn val_equiv(a: Val, b: Val) -> bool
    decreases a,
{
    match (a, b) {
        (Val::Object(x), Val::Object(y)) => {
            &&& keys_unique(x)
            &&& keys_unique(y)
            &&& forall|i: int|
                0 <= i < x.len() ==> ahas(y, #[trigger] x[i].0) && val_equiv(
                    x[i].1,
                    aget(y, x[i].0),
                )
            &&& forall|j: int| 0 <= j < y.len() ==> ahas(x, #[trigger] y[j].0)
        },
        (av, bv) => av == bv,
    }
}

/// A well-formed value is equivalent to itself.
pub proof fn lemma_val_equiv_refl(a: Val)
    requires
        val_wf(a),
    ensures
        val_equiv(a, a),
    decreases a,
{
    match a {
        Val::Object(x) => {
            assert forall|i: int| 0 <= i < x.len() implies ahas(x, #[trigger] x[i].0)
                && val_equiv(x[i].1, aget(x, x[i].0)) by {
                lemma_val_equiv_refl(x[i].1);
                lemma_aget_unique(x, i);
            }
        },
        _ => {},
    }
}

/// With unique keys, any occurrence of a key is the one `aget` returns.
pub proof fn lemma_aget_unique(s: Seq<(Seq<char>, Val)>, j: int)
    requires
        keys_unique(s),
        0 <= j < s.len(),
    ensures
        aget(s, s[j].0) == s[j].1,
        ahas(s, s[j].0),
{
    lemma_aget_at(s, s[j].0, j);
}

/// How `aupsert` changes lookups and preserves unique keys.
pub proof fn lemma_aupsert_props(s: Seq<(Seq<char>, Val)>, k: Seq<char>, v: Val)
    ensures
        ahas(aupsert(s, k, v), k),
        aget(aupsert(s, k, v), k) == v,
        forall|k2: Seq<char>|
            k2 != k ==> (#[trigger] ahas(aupsert(s, k, v), k2)) == ahas(s, k2),
        forall|k2: Seq<char>|
            k2 != k ==> (#[trigger] aget(aupsert(s, k, v), k2)) == aget(s, k2),
        keys_unique(s) ==> keys_unique(aupsert(s, k, v)),
    decreases s,
{
    let r = aupsert(s, k, v);
    if s.len() == 0 {
        assert(r == seq![(k, v)]);
        assert(r[0].0 == k);
        assert forall|k2: Seq<char>| k2 != k implies !(#[trigger] ahas(r, k2)) by {
            assert(forall|i: int| 0 <= i < r.len() ==> r[i].0 == k);
        }
        assert(forall|k2: Seq<char>| k2 != k ==> !ahas(s, k2));
        assert forall|k2: Seq<char>| k2 != k implies (#[trigger] aget(r, k2)) == aget(s, k2) by {
            assert(r.subrange(1, r.len() as int) =~= Seq::<(Seq<char>, Val)>::empty());
            assert(aget(r, k2) == aget(Seq::<(Seq<char>, Val)>::empty(), k2));
        }
        assert(keys_unique(r));
    } else if s[0].0 == k {
        let rest = s.subrange(1, s.len() as int);
        assert(r == seq![(k, v)] + rest);
        assert(r[0] == (k, v));
        assert(r.subrange(1, r.len() as int) =~= rest);
        assert forall|k2: Seq<char>| k2 != k implies (#[trigger] ahas(r, k2)) == ahas(s, k2) by {
            assert forall|i: int| 0 <= i < r.len() && r[i].0 == k2 implies ahas(s, k2) by {
                assert(r[i] == s[i]);
            }
            assert forall|i: int| 0 <= i < s.len() && s[i].0 == k2 implies ahas(r, k2) by {
                assert(i != 0);
                assert(r[i] == s[i]);
            }
        }
        assert forall|k2: Seq<char>| k2 != k implies (#[trigger] aget(r, k2)) == aget(s, k2) by {
            assert(aget(r, k2) == aget(rest, k2));
            assert(aget(s, k2) == aget(rest, k2));
        }
        if keys_unique(s) {
            assert forall|i: int, j: int| 0 <= i < j < r.len() implies r[i].0 != r[j].0 by {
                assert(r[j] == s[j]);
                if i > 0 {
                    assert(r[i] == s[i]);
                }
            }
        }
    } else {
        let rest = s.subrange(1, s.len() as int);
        lemma_aupsert_props(rest, k, v);
        assert(r == seq![s[0]] + aupsert(rest, k, v));
        assert(r[0] == s[0]);
        assert(r.subrange(1, r.len() as int) =~= aupsert(rest, k, v));
        assert(ahas(r, k)) by {
            let j = choose|j: int|
                0 <= j < aupsert(rest, k, v).len() && aupsert(rest, k, v)[j].0 == k;
            assert(r[j + 1].0 == k);
        }
        assert(aget(r, k) == aget(aupsert(rest, k, v), k));
        assert forall|k2: Seq<char>| k2 != k implies (#[trigger] ahas(r, k2)) == ahas(s, k2) by {
            assert forall|i: int| 0 <= i < r.len() && r[i].0 == k2 implies ahas(s, k2) by {
                if i == 0 {
                    assert(s[0].0 == k2);
                } else {
                    assert(aupsert(rest, k, v)[i - 1].0 == k2);
                    assert(ahas(aupsert(rest, k, v), k2));
                    assert(ahas(rest, k2));
                    let j = choose|j: int| 0 <= j < rest.len() && rest[j].0 == k2;
                    assert(s[j + 1].0 == k2);
                }
            }
            assert forall|i: int| 0 <= i < s.len() && s[i].0 == k2 implies ahas(r, k2) by {
                if i == 0 {
                    assert(r[0].0 == k2);
                } else {
                    assert(rest[i - 1].0 == k2);
                    assert(ahas(rest, k2));
                    assert(ahas(aupsert(rest, k, v), k2));
                    let j = choose|j: int|
                        0 <= j < aupsert(rest, k, v).len() && aupsert(rest, k, v)[j].0 == k2;
                    assert(r[j + 1].0 == k2);
                }
            }
        }
        assert forall|k2: Seq<char>| k2 != k implies (#[trigger] aget(r, k2)) == aget(s, k2) by {
            if s[0].0 == k2 {
                assert(aget(r, k2) == r[0].1);
                assert(aget(s, k2) == s[0].1);
            } else {
                assert(aget(r, k2) == aget(aupsert(rest, k, v), k2));
                assert(aget(s, k2) == aget(rest, k2));
            }
        }
        if keys_unique(s) {
            assert(keys_unique(rest)) by {
                assert(forall|i: int, j: int|
                    0 <= i < j < rest.len() ==> rest[i] == s[i + 1] && rest[j] == s[j + 1]);
            }
            let rr = aupsert(rest, k, v);
            assert forall|i: int, j: int| 0 <= i < j < r.len() implies r[i].0 != r[j].0 by {
                if i == 0 {
                    assert(r[0] == s[0]);
                    assert(r[j] == rr[j - 1]);
                    if r[j].0 == k {
                        assert(s[0].0 != k);
                    } else {
                        assert(ahas(rr, r[j].0));
                        assert(ahas(rest, r[j].0));
                        let m = choose|m: int| 0 <= m < rest.len() && rest[m].0 == r[j].0;
                        assert(s[m + 1].0 == r[j].0);
                        assert(s[0].0 != s[m + 1].0);
                    }
                } else {
                    assert(r[i] == rr[i - 1] && r[j] == rr[j - 1]);
                }
            }
        }
    }
}


/// Lookup in a level that starts with one entry.
pub proof fn lemma_cons_lookup(e: (Seq<char>, Val), rest: Seq<(Seq<char>, Val)>, k: Seq<char>)
    ensures
        ahas(seq![e] + rest, k) <==> (e.0 == k || ahas(rest, k)),
        e.0 == k ==> aget(seq![e] + rest, k) == e.1,
        e.0 != k ==> aget(seq![e] + rest, k) == aget(rest, k),
{
    let s = seq![e] + rest;
    assert(s[0] == e);
    assert(s.subrange(1, s.len() as int) =~= rest);
    if e.0 != k {
        assert forall|i: int| 0 <= i < s.len() && s[i].0 == k implies ahas(rest, k) by {
            assert(s[i] == rest[i - 1]);
        }
        if ahas(rest, k) {
            let j = choose|j: int| 0 <= j < rest.len() && rest[j].0 == k;
            assert(s[j + 1].0 == k);
        }
    }
}

/// Lookup of the tail of a level, when the head key differs.
pub proof fn lemma_tail_lookup(s: Seq<(Seq<char>, Val)>, k: Seq<char>)
    requires
        s.len() > 0,
        s[0].0 != k,
    ensures
        ahas(s, k) <==> ahas(s.subrange(1, s.len() as int), k),
        aget(s, k) == aget(s.subrange(1, s.len() as int), k),
{
    let rest = s.subrange(1, s.len() as int);
    assert(seq![s[0]] + rest =~= s);
    lemma_cons_lookup(s[0], rest, k);
}

/// The tail of a well-formed level is well-formed.
pub proof fn lemma_tail_wf(s: Seq<(Seq<char>, Val)>)
    requires
        s.len() > 0,
        val_wf(Val::Object(s)),
    ensures
        val_wf(Val::Object(s.subrange(1, s.len() as int))),
        val_wf(s[0].1),
{
    let rest = s.subrange(1, s.len() as int);
    assert(forall|i: int| 0 <= i < rest.len() ==> #[trigger] rest[i] == s[i + 1]);
}

/// The value a well-formed level holds at a key is well-formed.
pub proof fn lemma_wf_aget(s: Seq<(Seq<char>, Val)>, k: Seq<char>)
    requires
        val_wf(Val::Object(s)),
        ahas(s, k),
    ensures
        val_wf(aget(s, k)),
    decreases s,
{
    if s.len() > 0 {
        if s[0].0 == k {
        } else {
            lemma_tail_lookup(s, k);
            lemma_tail_wf(s);
            lemma_wf_aget(s.subrange(1, s.len() as int), k);
        }
    }
}

/// `aupsert` of a well-formed value into a well-formed level is well-formed.
pub proof fn lemma_aupsert_wf(s: Seq<(Seq<char>, Val)>, k: Seq<char>, v: Val)
    requires
        val_wf(Val::Object(s)),
        val_wf(v),
    ensures
        val_wf(Val::Object(aupsert(s, k, v))),
    decreases s,
{
    let r = aupsert(s, k, v);
    lemma_aupsert_props(s, k, v);
    if s.len() == 0 {
        assert(forall|i: int| 0 <= i < r.len() ==> #[trigger] r[i] == (k, v));
    } else if s[0].0 == k {
        let rest = s.subrange(1, s.len() as int);
        lemma_tail_wf(s);
        assert forall|i: int| 0 <= i < r.len() implies val_wf(#[trigger] r[i].1) by {
            if i == 0 {
                assert(r[0] == (k, v));
            } else {
                assert(r[i] == rest[i - 1]);
            }
        }
    } else {
        let rest = s.subrange(1, s.len() as int);
        lemma_tail_wf(s);
        lemma_aupsert_wf(rest, k, v);
        assert forall|i: int| 0 <= i < r.len() implies val_wf(#[trigger] r[i].1) by {
            if i == 0 {
                assert(r[0] == s[0]);
            } else {
                assert(r[i] == aupsert(rest, k, v)[i - 1]);
            }
        }
    }
}

/// The congruent hidden sub-object of a well-formed level is well-formed.
pub proof fn lemma_congruent_wf(h: Seq<(Seq<char>, Val)>, k: Seq<char>)
    requires
        val_wf(Val::Object(h)),
    ensures
        val_wf(Val::Object(congruent(h, k))),
{
    if ahas(h, k) && aget(h, k) is Object {
        lemma_wf_aget(h, k);
    } else {
        assert(congruent(h, k) =~= Seq::<(Seq<char>, Val)>::empty());
    }
}

/// What hiding does, read off key by key: sensitive entries leave the shown
/// side and land in the hidden side; object entries stay, transformed
/// congruently; everything else is untouched; well-formedness is preserved.
pub proof fn lemma_hide_at(
    s: Seq<(Seq<char>, Val)>,
    h: Seq<(Seq<char>, Val)>,
    ex: Seq<Seq<char>>,
    k: Seq<char>,
)
    requires
        val_wf(Val::Object(s)),
        val_wf(Val::Object(h)),
    ensures
        ({
            let s2 = hide_v(s, h, ex).0;
            let h2 = hide_v(s, h, ex).1;
            &&& val_wf(Val::Object(s2))
            &&& val_wf(Val::Object(h2))
            &&& (ahas(s2, k) <==> (ahas(s, k) && !sensitive_key(k, ex)))
            &&& (ahas(s, k) && sensitive_key(k, ex) ==> ahas(h2, k) && aget(h2, k) == aget(s, k))
            &&& (ahas(s, k) && !sensitive_key(k, ex) && aget(s, k) is Object ==> aget(s2, k)
                == Val::Object(hide_v(aget(s, k)->Object_0, congruent(h, k), ex).0) && ahas(h2, k)
                && aget(h2, k) == Val::Object(hide_v(aget(s, k)->Object_0, congruent(h, k), ex).1))
            &&& (ahas(s, k) && !sensitive_key(k, ex) && !(aget(s, k) is Object) ==> aget(s2, k)
                == aget(s, k) && (ahas(h2, k) <==> ahas(h, k)) && (ahas(h, k) ==> aget(h2, k)
                == aget(h, k)))
            &&& (!ahas(s, k) ==> !ahas(s2, k) && (ahas(h2, k) <==> ahas(h, k)) && (ahas(h, k)
                ==> aget(h2, k) == aget(h, k)))
        }),
    decreases s,
{
    let s2 = hide_v(s, h, ex).0;
    let h2 = hide_v(s, h, ex).1;
    if s.len() == 0 {
        assert(s2 =~= Seq::<(Seq<char>, Val)>::empty());
        assert(!ahas(s, k) && !ahas(s2, k));
    } else {
        let k0 = s[0].0;
        let v0 = s[0].1;
        let rest = s.subrange(1, s.len() as int);
        lemma_tail_wf(s);
        assert(ahas(s, k0)) by {
            assert(s[0].0 == k0);
        }
        assert(aget(s, k0) == v0);
        assert(!ahas(rest, k0)) by {
            if ahas(rest, k0) {
                let j = choose|j: int| 0 <= j < rest.len() && rest[j].0 == k0;
                assert(s[j + 1].0 == k0);
            }
        }
        if k != k0 {
            lemma_tail_lookup(s, k);
        }
        if sensitive_key(k0, ex) {
            let h1 = aupsert(h, k0, v0);
            lemma_aupsert_props(h, k0, v0);
            lemma_aupsert_wf(h, k0, v0);
            lemma_hide_at(rest, h1, ex, k);
            lemma_hide_at(rest, h1, ex, k0);
        } else if v0 is Object {
            let cv = v0->Object_0;
            let hv = congruent(h, k0);
            let c = hide_v(cv, hv, ex);
            let h1 = aupsert(h, k0, Val::Object(c.1));
            let r = hide_v(rest, h1, ex);
            assert(s2 == seq![(k0, Val::Object(c.0))] + r.0 && h2 == r.1);
            lemma_congruent_wf(h, k0);
            lemma_hide_at(cv, hv, ex, k);
            lemma_aupsert_props(h, k0, Val::Object(c.1));
            lemma_aupsert_wf(h, k0, Val::Object(c.1));
            lemma_hide_at(rest, h1, ex, k);
            lemma_hide_at(rest, h1, ex, k0);
            lemma_cons_lookup((k0, Val::Object(c.0)), r.0, k);
            if k != k0 {
                lemma_cons_lookup((k0, Val::Object(c.0)), r.0, k0);
            }
            assert(val_wf(Val::Object(s2))) by {
                assert(keys_unique(s2)) by {
                    assert(!ahas(r.0, k0));
                    assert forall|i: int, j: int| 0 <= i < j < s2.len() implies s2[i].0
                        != s2[j].0 by {
                        if i == 0 {
                            assert(s2[j] == r.0[j - 1]);
                            if s2[j].0 == k0 {
                                assert(ahas(r.0, k0));
                            }
                        } else {
                            assert(s2[i] == r.0[i - 1] && s2[j] == r.0[j - 1]);
                        }
                    }
                }
                assert forall|i: int| 0 <= i < s2.len() implies val_wf(#[trigger] s2[i].1) by {
                    if i == 0 {
                        assert(s2[0] == (k0, Val::Object(c.0)));
                    } else {
                        assert(s2[i] == r.0[i - 1]);
                    }
                }
            }
        } else {
            let r = hide_v(rest, h, ex);
            assert(s2 == seq![(k0, v0)] + r.0 && h2 == r.1);
            lemma_hide_at(rest, h, ex, k);
            lemma_hide_at(rest, h, ex, k0);
            lemma_cons_lookup((k0, v0), r.0, k);
            if k != k0 {
                lemma_cons_lookup((k0, v0), r.0, k0);
            }
            assert(val_wf(Val::Object(s2))) by {
                assert(keys_unique(s2)) by {
                    assert(!ahas(r.0, k0));
                    assert forall|i: int, j: int| 0 <= i < j < s2.len() implies s2[i].0
                        != s2[j].0 by {
                        if i == 0 {
                            assert(s2[j] == r.0[j - 1]);
                            if s2[j].0 == k0 {
                                assert(ahas(r.0, k0));
                            }
                        } else {
                            assert(s2[i] == r.0[i - 1] && s2[j] == r.0[j - 1]);
                        }
                    }
                }
                assert forall|i: int| 0 <= i < s2.len() implies val_wf(#[trigger] s2[i].1) by {
                    if i == 0 {
                        assert(s2[0] == (k0, v0));
                    } else {
                        assert(s2[i] == r.0[i - 1]);
                    }
                }
            }
        }
    }
}


/// What showing does, read off key by key: hidden entries whose key is free
/// move back; hidden objects paired with shown objects are restored
/// congruently, the placeholder remaining; on any other conflict the shown
/// value wins; well-formedness is preserved.
pub proof fn lemma_show_at(h: Seq<(Seq<char>, Val)>, s: Seq<(Seq<char>, Val)>, k: Seq<char>)
    requires
        val_wf(Val::Object(h)),
        val_wf(Val::Object(s)),
    ensures
        ({
            let h2 = show_v(h, s).0;
            let s2 = show_v(h, s).1;
            &&& val_wf(Val::Object(h2))
            &&& val_wf(Val::Object(s2))
            &&& (ahas(s2, k) <==> (ahas(s, k) || ahas(h, k)))
            &&& (ahas(h, k) && !ahas(s, k) ==> aget(s2, k) == aget(h, k) && !ahas(h2, k))
            &&& (ahas(h, k) && ahas(s, k) && aget(h, k) is Object && aget(s, k) is Object
                ==> aget(s2, k) == Val::Object(
                show_v(aget(h, k)->Object_0, aget(s, k)->Object_0).1,
            ) && ahas(h2, k) && aget(h2, k) == Val::Object(
                show_v(aget(h, k)->Object_0, aget(s, k)->Object_0).0,
            ))
            &&& (ahas(h, k) && ahas(s, k) && !(aget(h, k) is Object && aget(s, k) is Object)
                ==> aget(s2, k) == aget(s, k) && !ahas(h2, k))
            &&& (!ahas(h, k) ==> !ahas(h2, k) && (ahas(s, k) ==> aget(s2, k) == aget(s, k)))
        }),
    decreases h,
{
    let h2 = show_v(h, s).0;
    let s2 = show_v(h, s).1;
    if h.len() == 0 {
        assert(h2 =~= Seq::<(Seq<char>, Val)>::empty());
        assert(!ahas(h, k) && !ahas(h2, k));
    } else {
        let k0 = h[0].0;
        let v0 = h[0].1;
        let rest = h.subrange(1, h.len() as int);
        lemma_tail_wf(h);
        assert(ahas(h, k0)) by {
            assert(h[0].0 == k0);
        }
        assert(aget(h, k0) == v0);
        assert(!ahas(rest, k0)) by {
            if ahas(rest, k0) {
                let j = choose|j: int| 0 <= j < rest.len() && rest[j].0 == k0;
                assert(h[j + 1].0 == k0);
            }
        }
        if k != k0 {
            lemma_tail_lookup(h, k);
        }
        if !ahas(s, k0) {
            let s1 = aupsert(s, k0, v0);
            lemma_aupsert_props(s, k0, v0);
            lemma_aupsert_wf(s, k0, v0);
            lemma_show_at(rest, s1, k);
            lemma_show_at(rest, s1, k0);
        } else if v0 is Object && aget(s, k0) is Object {
            let hv = v0->Object_0;
            let sv = aget(s, k0)->Object_0;
            let c = show_v(hv, sv);
            let s1 = aupsert(s, k0, Val::Object(c.1));
            let r = show_v(rest, s1);
            assert(h2 == seq![(k0, Val::Object(c.0))] + r.0 && s2 == r.1);
            lemma_wf_aget(s, k0);
            lemma_show_at(hv, sv, k);
            lemma_aupsert_props(s, k0, Val::Object(c.1));
            lemma_aupsert_wf(s, k0, Val::Object(c.1));
            lemma_show_at(rest, s1, k);
            lemma_show_at(rest, s1, k0);
            lemma_cons_lookup((k0, Val::Object(c.0)), r.0, k);
            if k != k0 {
                lemma_cons_lookup((k0, Val::Object(c.0)), r.0, k0);
            }
            assert(val_wf(Val::Object(h2))) by {
                assert(keys_unique(h2)) by {
                    assert(!ahas(r.0, k0));
                    assert forall|i: int, j: int| 0 <= i < j < h2.len() implies h2[i].0
                        != h2[j].0 by {
                        if i == 0 {
                            assert(h2[j] == r.0[j - 1]);
                            if h2[j].0 == k0 {
                                assert(ahas(r.0, k0));
                            }
                        } else {
                            assert(h2[i] == r.0[i - 1] && h2[j] == r.0[j - 1]);
                        }
                    }
                }
                assert forall|i: int| 0 <= i < h2.len() implies val_wf(#[trigger] h2[i].1) by {
                    if i == 0 {
                        assert(h2[0] == (k0, Val::Object(c.0)));
                    } else {
                        assert(h2[i] == r.0[i - 1]);
                    }
                }
            }
        } else {
            lemma_show_at(rest, s, k);
            lemma_show_at(rest, s, k0);
        }
    }
}


/// Round trip: hiding and then showing restores the document, under
/// key-order-insensitive equality. `hide_v(s, h, ex)` returns (shown, hidden);
/// `show_v(h, s)` returns (hidden, shown).
pub proof fn lemma_round_trip(s: Seq<(Seq<char>, Val)>, ex: Seq<Seq<char>>)
    requires
        val_wf(Val::Object(s)),
    ensures
        ({
            let p = hide_v(s, Seq::empty(), ex);
            let q = show_v(p.1, p.0);
            val_equiv(Val::Object(s), Val::Object(q.1))
        }),
    decreases s,
{
    let e0 = Seq::<(Seq<char>, Val)>::empty();
    let p = hide_v(s, e0, ex);
    let q = show_v(p.1, p.0);
    assert(val_wf(Val::Object(e0)));
    assert forall|i: int| 0 <= i < s.len() implies ahas(q.1, #[trigger] s[i].0) && val_equiv(
        s[i].1,
        aget(q.1, s[i].0),
    ) by {
        let k = s[i].0;
        lemma_aget_unique(s, i);
        lemma_hide_at(s, e0, ex, k);
        lemma_show_at(p.1, p.0, k);
        assert(!ahas(e0, k));
        if sensitive_key(k, ex) {
            assert(aget(q.1, k) == s[i].1);
            lemma_val_equiv_refl(s[i].1);
        } else if s[i].1 is Object {
            let cv = s[i].1->Object_0;
            assert(congruent(e0, k) =~= e0);
            let cp = hide_v(cv, e0, ex);
            assert(aget(p.0, k) == Val::Object(cp.0));
            assert(aget(p.1, k) == Val::Object(cp.1));
            assert(aget(q.1, k) == Val::Object(show_v(cp.1, cp.0).1));
            lemma_round_trip(s[i].1->Object_0, ex);
            assert(val_equiv(s[i].1, aget(q.1, k)));
        } else {
            assert(!ahas(p.1, k));
            assert(aget(q.1, k) == s[i].1);
            lemma_val_equiv_refl(s[i].1);
        }
    }
    assert forall|j: int| 0 <= j < q.1.len() implies ahas(s, #[trigger] q.1[j].0) by {
        let k = q.1[j].0;
        assert(ahas(q.1, k)) by {
            assert(q.1[j].0 == k);
        }
        lemma_hide_at(s, e0, ex, k);
        lemma_show_at(p.1, p.0, k);
        assert(!ahas(e0, k));
    }
    assert(keys_unique(q.1)) by {
        lemma_hide_at(s, e0, ex, Seq::empty());
        lemma_show_at(p.1, p.0, Seq::empty());
    }
}

/// A fresh engine over an empty object: hiding and showing move nothing and
/// cannot fail.
pub proof fn lemma_empty_document(ex: Seq<Seq<char>>)
    ensures
        hide_v(Seq::empty(), Seq::empty(), ex) == (
            Seq::<(Seq<char>, Val)>::empty(),
            Seq::<(Seq<char>, Val)>::empty(),
        ),
        show_v(Seq::empty(), Seq::empty()) == (
            Seq::<(Seq<char>, Val)>::empty(),
            Seq::<(Seq<char>, Val)>::empty(),
        ),
{
}


/// A hidden tree fully drained against a shown tree: nothing but congruent
/// placeholder objects, themselves drained, remains.
pub open spec fn drained(h: Seq<(Seq<char>, Val)>, s: Seq<(Seq<char>, Val)>) -> bool
    decreases h,
{
    &&& keys_unique(h)
    &&& keys_unique(s)
    &&& forall|i: int|
        0 <= i < h.len() ==> (#[trigger] h[i].1) is Object && ahas(s, h[i].0) && aget(s, h[i].0)
            is Object && drained(h[i].1->Object_0, aget(s, h[i].0)->Object_0)
}

/// After a show, the hidden tree is drained against the shown tree.
pub proof fn lemma_show_drains(h: Seq<(Seq<char>, Val)>, s: Seq<(Seq<char>, Val)>)
    requires
        val_wf(Val::Object(h)),
        val_wf(Val::Object(s)),
    ensures
        drained(show_v(h, s).0, show_v(h, s).1),
    decreases h,
{
    let h2 = show_v(h, s).0;
    let s2 = show_v(h, s).1;
    lemma_show_at(h, s, Seq::empty());
    if h.len() == 0 {
        assert(h2 =~= Seq::<(Seq<char>, Val)>::empty());
    } else {
        let k0 = h[0].0;
        let v0 = h[0].1;
        let rest = h.subrange(1, h.len() as int);
        lemma_tail_wf(h);
        assert(!ahas(rest, k0)) by {
            if ahas(rest, k0) {
                let j = choose|j: int| 0 <= j < rest.len() && rest[j].0 == k0;
                assert(h[j + 1].0 == k0);
            }
        }
        if !ahas(s, k0) {
            let s1 = aupsert(s, k0, v0);
            lemma_aupsert_wf(s, k0, v0);
            lemma_show_drains(rest, s1);
        } else if v0 is Object && aget(s, k0) is Object {
            let hv = v0->Object_0;
            let sv = aget(s, k0)->Object_0;
            let c = show_v(hv, sv);
            let s1 = aupsert(s, k0, Val::Object(c.1));
            let r = show_v(rest, s1);
            assert(h2 == seq![(k0, Val::Object(c.0))] + r.0 && s2 == r.1);
            lemma_wf_aget(s, k0);
            lemma_show_at(hv, sv, Seq::empty());
            lemma_show_drains(hv, sv);
            lemma_aupsert_props(s, k0, Val::Object(c.1));
            lemma_aupsert_wf(s, k0, Val::Object(c.1));
            lemma_show_drains(rest, s1);
            lemma_show_at(rest, s1, k0);
            assert(!ahas(r.0, k0));
            assert(keys_unique(h2)) by {
                assert forall|i: int, j: int| 0 <= i < j < h2.len() implies h2[i].0 != h2[j].0 by {
                    if i == 0 {
                        assert(h2[j] == r.0[j - 1]);
                        if h2[j].0 == k0 {
                            assert(ahas(r.0, k0));
                        }
                    } else {
                        assert(h2[i] == r.0[i - 1] && h2[j] == r.0[j - 1]);
                    }
                }
            }
            assert(ahas(s2, k0) && aget(s2, k0) == Val::Object(c.1));
            assert forall|i: int| 0 <= i < h2.len() implies (#[trigger] h2[i].1) is Object && ahas(
                s2,
                h2[i].0,
            ) && aget(s2, h2[i].0) is Object && drained(
                h2[i].1->Object_0,
                aget(s2, h2[i].0)->Object_0,
            ) by {
                if i == 0 {
                    assert(h2[0] == (k0, Val::Object(c.0)));
                } else {
                    assert(h2[i] == r.0[i - 1]);
                    assert(drained(r.0, r.1));
                }
            }
        } else {
            lemma_show_drains(rest, s);
        }
    }
}

/// Showing a drained pair changes nothing.
pub proof fn lemma_drained_noop(h: Seq<(Seq<char>, Val)>, s: Seq<(Seq<char>, Val)>)
    requires
        drained(h, s),
    ensures
        show_v(h, s) == (h, s),
    decreases h,
{
    if h.len() == 0 {
        assert(show_v(h, s).0 =~= h);
    } else {
        let k0 = h[0].0;
        let v0 = h[0].1;
        let rest = h.subrange(1, h.len() as int);
        assert(h[0].1 is Object && ahas(s, h[0].0) && aget(s, h[0].0) is Object && drained(
            h[0].1->Object_0,
            aget(s, h[0].0)->Object_0,
        ));
        let hv = v0->Object_0;
        let sv = aget(s, k0)->Object_0;
        lemma_drained_noop(hv, sv);
        let c = show_v(hv, sv);
        assert(c == (hv, sv));
        // re-inserting the value a level already holds leaves it unchanged
        let j = choose|j: int| 0 <= j < s.len() && s[j].0 == k0;
        assert(forall|m: int| 0 <= m < j ==> s[m].0 != k0);
        lemma_aupsert_at(s, k0, Val::Object(sv), j);
        assert(s[j].1 == aget(s, k0)) by {
            lemma_aget_unique(s, j);
        }
        assert(s[j] == (k0, Val::Object(sv)));
        assert(aupsert(s, k0, Val::Object(sv)) =~= s);
        assert(drained(rest, s)) by {
            assert(keys_unique(rest)) by {
                assert(forall|i: int, m: int|
                    0 <= i < m < rest.len() ==> rest[i] == h[i + 1] && rest[m] == h[m + 1]);
            }
            assert forall|i: int| 0 <= i < rest.len() implies (#[trigger] rest[i].1) is Object
                && ahas(s, rest[i].0) && aget(s, rest[i].0) is Object && drained(
                rest[i].1->Object_0,
                aget(s, rest[i].0)->Object_0,
            ) by {
                assert(rest[i] == h[i + 1]);
            }
        }
        lemma_drained_noop(rest, s);
        assert(show_v(h, s).0 =~= h) by {
            assert(show_v(h, s).0 == seq![(k0, Val::Object(hv))] + rest);
            assert(h[0] == (k0, Val::Object(hv)));
        }
        assert(show_v(h, s).1 == s);
    }
}

/// Idempotent show: a second show with no intervening hide is a no-op.
pub proof fn lemma_show_idempotent(h: Seq<(Seq<char>, Val)>, s: Seq<(Seq<char>, Val)>)
    requires
        val_wf(Val::Object(h)),
        val_wf(Val::Object(s)),
    ensures
        show_v(show_v(h, s).0, show_v(h, s).1) == show_v(h, s),
{
    lemma_show_drains(h, s);
    lemma_drained_noop(show_v(h, s).0, show_v(h, s).1);
}


/// Is the key-chain a valid object-only descent in the level?
pub open spec fn path_ok(o: Seq<(Seq<char>, Val)>, p: Seq<Seq<char>>) -> bool
    decreases p.len(),
{
    p.len() == 0 || (ahas(o, p[0]) && aget(o, p[0]) is Object && path_ok(
        aget(o, p[0])->Object_0,
        p.subrange(1, p.len() as int),
    ))
}

/// The object level reached by an object-only descent.
pub open spec fn path_obj(o: Seq<(Seq<char>, Val)>, p: Seq<Seq<char>>) -> Seq<(Seq<char>, Val)>
    decreases p.len(),
{
    if p.len() == 0 {
        o
    } else {
        path_obj(aget(o, p[0])->Object_0, p.subrange(1, p.len() as int))
    }
}

/// Partition: after hiding a fresh document, at every level reachable by
/// descending into objects along non-sensitive keys, every sensitive key is
/// absent from the shown side and holds its original value at the congruent
/// hidden position, and every other entry is unchanged in the shown side
/// (object entries remaining objects, transformed congruently below).
pub proof fn lemma_hide_partition(
    s: Seq<(Seq<char>, Val)>,
    ex: Seq<Seq<char>>,
    p: Seq<Seq<char>>,
    k: Seq<char>,
)
    requires
        val_wf(Val::Object(s)),
        path_ok(s, p),
        forall|i: int| 0 <= i < p.len() ==> !sensitive_key(#[trigger] p[i], ex),
    ensures
        ({
            let r = hide_v(s, Seq::empty(), ex);
            let m = path_obj(s, p);
            &&& path_ok(r.0, p)
            &&& path_ok(r.1, p)
            &&& (sensitive_key(k, ex) ==> !ahas(path_obj(r.0, p), k) && (ahas(m, k) ==> ahas(
                path_obj(r.1, p),
                k,
            ) && aget(path_obj(r.1, p), k) == aget(m, k)))
            &&& (!sensitive_key(k, ex) ==> (ahas(path_obj(r.0, p), k) <==> ahas(m, k)) && (ahas(
                m,
                k,
            ) && !(aget(m, k) is Object) ==> aget(path_obj(r.0, p), k) == aget(m, k)) && (ahas(
                m,
                k,
            ) ==> (aget(path_obj(r.0, p), k) is Object <==> aget(m, k) is Object)))
        }),
    decreases p.len(),
{
    let e0 = Seq::<(Seq<char>, Val)>::empty();
    let r = hide_v(s, e0, ex);
    assert(val_wf(Val::Object(e0)));
    if p.len() == 0 {
        lemma_hide_at(s, e0, ex, k);
    } else {
        let k0 = p[0];
        assert(!sensitive_key(k0, ex));
        lemma_hide_at(s, e0, ex, k0);
        lemma_wf_aget(s, k0);
        let cv = aget(s, k0)->Object_0;
        assert(congruent(e0, k0) =~= e0);
        let pr = p.subrange(1, p.len() as int);
        assert(forall|i: int| 0 <= i < pr.len() ==> #[trigger] pr[i] == p[i + 1]);
        lemma_hide_partition(cv, ex, pr, k);
        assert(aget(r.0, k0) == Val::Object(hide_v(cv, e0, ex).0));
        assert(aget(r.1, k0) == Val::Object(hide_v(cv, e0, ex).1));
        assert(path_obj(r.0, p) == path_obj(hide_v(cv, e0, ex).0, pr));
        assert(path_obj(r.1, p) == path_obj(hide_v(cv, e0, ex).1, pr));
        assert(path_obj(s, p) == path_obj(cv, pr));
    }
}

} // verus!
