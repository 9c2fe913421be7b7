//! The redaction engine: two congruent object trees, Shown and Hidden.
//! `conceal` moves every sensitively-keyed entry from Shown into the
//! congruent position of Hidden; `show` moves every hidden entry back. Both
//! walk the trees with an explicit work stack — never by call recursion — so
//! adversarially deep input cannot exhaust the call stack.
use vstd::prelude::*;
use crate::value_tree::{ValueTree, Val, val, entries_val, ahas, aget};
use crate::sensitive_keys::{key_views, sensitive_key, is_sensitive};
use crate::redaction::{aupsert, congruent, hide_v, show_v, lemma_aupsert_twice};
use crate::entries::{lemma_entries_val_props, lemma_aget_at, upsert, take_congruent, find_key};

verus! {

broadcast use crate::entries::lemma_entries_val_props;

/// One node of the traversal: the entries of this level still to process —
/// held in reverse order, so popping from the end yields the next one in
/// constant time — the opposite side being built by upserts, and the
/// processed entries.
struct Frame {
    key: String,
    input: Vec<(String, ValueTree)>,
    acc: Vec<(String, ValueTree)>,
    out: Vec<(String, ValueTree)>,
}

/// The model of a frame.
pub ghost struct FrameV {
    pub key: Seq<char>,
    pub input: Seq<(Seq<char>, Val)>,
    pub acc: Seq<(Seq<char>, Val)>,
    pub out: Seq<(Seq<char>, Val)>,
}

spec fn frame_v(f: Frame) -> FrameV {
    FrameV {
        key: f.key@,
        input: entries_val(f.input@.reverse()),
        acc: entries_val(f.acc@),
        out: entries_val(f.out@),
    }
}

spec fn stack_v(fs: Seq<Frame>) -> Seq<FrameV> {
    fs.map_values(|f: Frame| frame_v(f))
}

/// The size of a subtree, counting entries of objects at every level.
pub open spec fn tsize(t: ValueTree) -> nat
    decreases t,
{
    match t {
        ValueTree::Object(o) => 1 + esize(o@),
        _ => 1,
    }
}

/// The size of one level's entries.
pub open spec fn esize(s: Seq<(String, ValueTree)>) -> nat
    decreases s,
{
    if s.len() == 0 {
        0
    } else {
        1 + tsize(s[0].1) + esize(s.subrange(1, s.len() as int))
    }
}

proof fn lemma_tsize_pos(t: ValueTree)
    ensures
        tsize(t) >= 1,
{
    match t {
        ValueTree::Object(o) => {},
        _ => {},
    }
}

proof fn lemma_esize_drop_last(s: Seq<(String, ValueTree)>)
    requires
        s.len() > 0,
    ensures
        esize(s) == esize(s.drop_last()) + 1 + tsize(s.last().1),
    decreases s.len(),
{
    if s.len() == 1 {
        assert(s.drop_last() =~= Seq::<(String, ValueTree)>::empty());
        assert(s.subrange(1, s.len() as int) =~= Seq::<(String, ValueTree)>::empty());
    } else {
        let rest = s.subrange(1, s.len() as int);
        lemma_esize_drop_last(rest);
        assert(rest.last() == s.last());
        assert(s.drop_last()[0] == s[0]);
        assert(s.drop_last().subrange(1, s.drop_last().len() as int) =~= rest.drop_last());
        assert(esize(s.drop_last()) == 1 + tsize(s.drop_last()[0].1) + esize(rest.drop_last()));
    }
}

proof fn lemma_esize_reverse(s: Seq<(String, ValueTree)>)
    ensures
        esize(s.reverse()) == esize(s),
    decreases s.len(),
{
    if s.len() > 0 {
        lemma_esize_drop_last(s);
        lemma_esize_reverse(s.drop_last());
        assert(s.reverse()[0] == s.last());
        assert(s.reverse().subrange(1, s.reverse().len() as int) =~= s.drop_last().reverse());
        assert(esize(s.reverse()) == 1 + tsize(s.last().1) + esize(s.drop_last().reverse()));
    } else {
        assert(s.reverse() =~= s);
    }
}

/// The entries in reverse order, moved, not copied.
fn reversed(v: Vec<(String, ValueTree)>) -> (r: Vec<(String, ValueTree)>)
    ensures
        r@ == v@.reverse(),
{
    let ghost v0 = v@;
    let mut src = v;
    let mut out: Vec<(String, ValueTree)> = Vec::new();
    proof {
        assert(v0.subrange(0, v0.len() as int) =~= v0);
        assert(out@ =~= v0.subrange(v0.len() as int, v0.len() as int).reverse());
    }
    while src.len() > 0
        invariant
            src@.len() <= v0.len(),
            src@ == v0.subrange(0, src@.len() as int),
            out@ == v0.subrange(src@.len() as int, v0.len() as int).reverse(),
        decreases src@.len(),
    {
        let ghost k = src@.len() as int;
        let e = src.pop().unwrap();
        let ghost ev = e;
        proof {
            assert(src@ =~= v0.subrange(0, k - 1));
            assert(ev == v0[k - 1]);
        }
        out.push(e);
        proof {
            assert(out@ =~= v0.subrange(k - 1, v0.len() as int).reverse());
        }
    }
    proof {
        assert(out@ =~= v0.reverse());
    }
    out
}

proof fn proof_esize_step(s: Seq<(String, ValueTree)>, ke: String, ve: ValueTree)
    requires
        s.len() > 0,
        (ke, ve) == s.last(),
    ensures
        esize(s) == 1 + tsize(ve) + esize(s.drop_last()),
{
    lemma_esize_drop_last(s);
}

/// The measure of the remaining work on a stack of frames.
spec fn stack_size(fs: Seq<Frame>) -> nat
    decreases fs.len(),
{
    if fs.len() == 0 {
        0
    } else {
        1 + esize(fs.last().input@) + stack_size(fs.drop_last())
    }
}

/// What a frame will have produced once its remaining input is processed.
spec fn hfinish(f: FrameV, ex: Seq<Seq<char>>) -> (Seq<(Seq<char>, Val)>, Seq<(Seq<char>, Val)>) {
    let r = hide_v(f.input, f.acc, ex);
    (f.out + r.0, r.1)
}

/// What the whole stack will have produced: each finished frame becomes an
/// object entry of its parent under its key.
spec fn hdenote(fs: Seq<FrameV>, ex: Seq<Seq<char>>) -> (
    Seq<(Seq<char>, Val)>,
    Seq<(Seq<char>, Val)>,
)
    decreases fs.len(),
{
    if fs.len() == 0 {
        (Seq::empty(), Seq::empty())
    } else if fs.len() == 1 {
        hfinish(fs[0], ex)
    } else {
        let c = hfinish(fs.last(), ex);
        let n = fs.len() - 2;
        let p = fs[n];
        let p2 = FrameV {
            key: p.key,
            input: p.input,
            acc: aupsert(p.acc, fs.last().key, Val::Object(c.1)),
            out: p.out.push((fs.last().key, Val::Object(c.0))),
        };
        hdenote(fs.drop_last().update(n, p2), ex)
    }
}

/// Two stacks that agree below the top and whose top frames finish alike
/// denote the same result.
proof fn lemma_hdenote_eq(fs1: Seq<FrameV>, fs2: Seq<FrameV>, ex: Seq<Seq<char>>)
    requires
        fs1.len() == fs2.len(),
        fs1.len() >= 1,
        fs1.drop_last() == fs2.drop_last(),
        fs1.last().key == fs2.last().key,
        hfinish(fs1.last(), ex) == hfinish(fs2.last(), ex),
    ensures
        hdenote(fs1, ex) == hdenote(fs2, ex),
{
    if fs1.len() == 1 {
        assert(fs1[0] == fs1.last());
        assert(fs2[0] == fs2.last());
    } else {
        let n = fs1.len() - 2;
        assert(fs1[n] == fs1.drop_last()[n]);
        assert(fs2[n] == fs2.drop_last()[n]);
        assert(fs1.drop_last().update(n, hdenote_amend(fs1, ex)) =~= fs2.drop_last().update(
            n,
            hdenote_amend(fs2, ex),
        ));
    }
}

/// The amended parent used by `hdenote`.
spec fn hdenote_amend(fs: Seq<FrameV>, ex: Seq<Seq<char>>) -> FrameV {
    let c = hfinish(fs.last(), ex);
    let p = fs[fs.len() - 2];
    FrameV {
        key: p.key,
        input: p.input,
        acc: aupsert(p.acc, fs.last().key, Val::Object(c.1)),
        out: p.out.push((fs.last().key, Val::Object(c.0))),
    }
}

/// A caller-supplied payload with the entries whose keys are on the
/// effective sensitive set evicted into a congruent hidden tree, and back.
pub struct SensitiveData {
    hidden_value: Vec<(String, ValueTree)>,
    shown_value: Vec<(String, ValueTree)>,
    extra_sensitive_keys: Vec<String>,
}

impl SensitiveData {
    /// The model of the shown tree.
    pub closed spec fn shown(self) -> Seq<(Seq<char>, Val)> {
        entries_val(self.shown_value@)
    }

    /// The model of the hidden tree.
    pub closed spec fn hidden(self) -> Seq<(Seq<char>, Val)> {
        entries_val(self.hidden_value@)
    }

    /// The models of the extra sensitive keys.
    pub closed spec fn extras(self) -> Seq<Seq<char>> {
        key_views(self.extra_sensitive_keys@)
    }

    /// A fresh engine: everything shown, nothing hidden yet.
    pub fn new(value: Vec<(String, ValueTree)>, extra_sensitive_keys: Vec<String>) -> (r: Self)
        ensures
            r.shown() == entries_val(value@),
            r.hidden() == Seq::<(Seq<char>, Val)>::empty(),
            r.extras() == key_views(extra_sensitive_keys@),
    {
        let r = Self { hidden_value: Vec::new(), shown_value: value, extra_sensitive_keys };
        proof {
            assert(r.hidden() =~= Seq::<(Seq<char>, Val)>::empty());
        }
        r
    }

    /// The shown tree, as it stands.
    pub fn get(&self) -> (r: &Vec<(String, ValueTree)>)
        ensures
            entries_val(r@) == self.shown(),
    {
        &self.shown_value
    }

    /// Surrender the shown tree.
    pub fn into_data(self) -> (r: Vec<(String, ValueTree)>)
        ensures
            entries_val(r@) == self.shown(),
    {
        self.shown_value
    }

    /// Move every entry whose key is on the effective sensitive set, at every
    /// level reachable by descending into object-valued entries only, from
    /// the shown tree into the congruent position of the hidden tree.
    pub fn conceal(&mut self)
        ensures
            final(self).shown() == hide_v(old(self).shown(), old(self).hidden(), old(self).extras()).0,
            final(self).hidden() == hide_v(old(self).shown(), old(self).hidden(), old(self).extras()).1,
            final(self).extras() == old(self).extras(),
    {
        let ghost ex = old(self).extras();
        let ghost target = hide_v(old(self).shown(), old(self).hidden(), ex);

        let mut s0: Vec<(String, ValueTree)> = Vec::new();
        core::mem::swap(&mut s0, &mut self.shown_value);
        let mut h0: Vec<(String, ValueTree)> = Vec::new();
        core::mem::swap(&mut h0, &mut self.hidden_value);

        let ghost s0v = s0@;
        let rin = reversed(s0);
        let mut stack: Vec<Frame> = Vec::new();
        stack.push(Frame { key: String::new(), input: rin, acc: h0, out: Vec::new() });
        let mut done_s: Vec<(String, ValueTree)> = Vec::new();
        let mut done_h: Vec<(String, ValueTree)> = Vec::new();

        proof {
            assert(stack@[0].input@.reverse() =~= s0v);
            assert(stack_v(stack@) =~= seq![frame_v(stack@[0])]);
            assert(entries_val(stack@[0].out@) + hide_v(
                entries_val(stack@[0].input@.reverse()),
                entries_val(stack@[0].acc@),
                ex,
            ).0 =~= target.0);
        }

        while stack.len() > 0
            invariant
                self.extra_sensitive_keys == old(self).extra_sensitive_keys,
                ex == key_views(self.extra_sensitive_keys@),
                stack@.len() > 0 ==> hdenote(stack_v(stack@), ex) == target,
                stack@.len() == 0 ==> entries_val(done_s@) == target.0 && entries_val(done_h@)
                    == target.1,
            decreases stack_size(stack@),
        {
            let ghost stack0 = stack@;
            let ghost sv = stack_v(stack0);
            let ghost n = stack0.len() as int;
            let mut f = stack.pop().unwrap();
            let ghost f0 = f;
            let ghost fv = frame_v(f);
            proof {
                assert(sv.last() == fv);
                assert(sv.drop_last() =~= stack_v(stack@));
            }
            if f.input.len() > 0 {
                let ghost ev = entries_val(f.input@.reverse());
                let ghost av = entries_val(f.acc@);
                let (k, v) = f.input.pop().unwrap();
                let ghost ke = k;
                let ghost ve = v;
                proof {
                    assert(f.input@ =~= f0.input@.drop_last());
                    assert((ke, ve) == f0.input@.last());
                    assert(f0.input@.reverse()[0] == f0.input@.last());
                    assert(f.input@.reverse() =~= f0.input@.reverse().subrange(
                        1,
                        f0.input@.len() as int,
                    ));
                    assert(entries_val(f.input@.reverse()) =~= ev.subrange(1, ev.len() as int));
                    assert(ev[0] == (ke@, val(ve)));
                    lemma_tsize_pos(ve);
                }
                if is_sensitive(&k, &self.extra_sensitive_keys) {
                    upsert(&mut f.acc, k, v);
                    let ghost f2 = frame_v(f);
                    proof {
                        assert(sensitive_key(ev[0].0, ex));
                        assert(f2.input == ev.subrange(1, ev.len() as int));
                        assert(f2.acc == aupsert(av, ev[0].0, ev[0].1));
                        assert(f2.out == fv.out);
                        assert(hide_v(ev, av, ex) == hide_v(
                            ev.subrange(1, ev.len() as int),
                            aupsert(av, ev[0].0, ev[0].1),
                            ex,
                        ));
                        assert(hfinish(f2, ex) == hfinish(fv, ex));
                    }
                    stack.push(f);
                    let ghost f2e = f;
                    proof {
                        assert(stack@ =~= stack0.drop_last().push(f2e));
                        assert(stack_v(stack@) =~= sv.drop_last().push(f2));
                        assert(stack_v(stack@).drop_last() =~= sv.drop_last());
                        lemma_hdenote_eq(sv, stack_v(stack@), ex);
                        assert(stack@.last() == f2e);
                        assert(stack@.drop_last() =~= stack0.drop_last());
                        assert(stack_size(stack@) == 1 + esize(f2e.input@) + stack_size(
                            stack0.drop_last(),
                        ));
                        assert(stack_size(stack0) == 1 + esize(f0.input@) + stack_size(
                            stack0.drop_last(),
                        ));
                        proof_esize_step(f0.input@, ke, ve);
                        assert(esize(f0.input@) == 1 + tsize(ve) + esize(f2e.input@));
                        assert(stack_size(stack@) < stack_size(stack0));
                    }
                } else {
                    let is_obj = match &v {
                        ValueTree::Object(_) => true,
                        _ => false,
                    };
                    if is_obj {
                        let cv = match v {
                            ValueTree::Object(cv) => cv,
                            _ => Vec::new(),
                        };
                        let ghost cvv0 = cv@;
                        let rcv = reversed(cv);
                        let hv = take_congruent(&mut f.acc, &k);
                        let ghost f2 = frame_v(f);
                        let child = Frame { key: k, input: rcv, acc: hv, out: Vec::new() };
                        let ghost ce = child;
                        let ghost cvv = frame_v(child);
                        stack.push(f);
                        let ghost f2e = f;
                        stack.push(child);
                        proof {
                            let sv2 = stack_v(stack@);
                            assert(stack@ =~= stack0.drop_last().push(f2e).push(ce));
                            assert(sv2 =~= sv.drop_last().push(f2).push(cvv));
                            assert(sv2.len() == n + 1);
                            let c = hfinish(cvv, ex);
                            let ch = hide_v(cvv.input, cvv.acc, ex);
                            assert(cvv.out + ch.0 =~= ch.0);
                            assert(c == (ch.0, ch.1));
                            let p2 = hdenote_amend(sv2, ex);
                            assert(sv2.last() == cvv);
                            assert(sv2[n - 1] == f2);
                            assert(sv2.drop_last() =~= sv.drop_last().push(f2));
                            assert(hdenote(sv2, ex) == hdenote(
                                sv2.drop_last().update(n - 1, p2),
                                ex,
                            ));
                            // the amended parent finishes exactly like the
                            // unprocessed one
                            lemma_aupsert_twice(
                                av,
                                cvv.key,
                                Val::Object(Seq::empty()),
                                Val::Object(ch.1),
                            );
                            assert(f2.acc == aupsert(av, ke@, Val::Object(Seq::empty())));
                            assert(p2.acc == aupsert(av, cvv.key, Val::Object(ch.1)));
                            assert(ce.input@.reverse() =~= cvv0);
                            assert(cvv.input == entries_val(cvv0));
                            assert(ev[0].1 == val(ve));
                            assert(ev[0].1->Object_0 == cvv.input);
                            assert(congruent(av, cvv.key) == cvv.acc);
                            let r = hide_v(p2.input, p2.acc, ex);
                            assert(hide_v(ev, av, ex) == (
                                seq![(cvv.key, Val::Object(ch.0))] + r.0,
                                r.1,
                            ));
                            assert(fv.out + (seq![(cvv.key, Val::Object(ch.0))] + r.0) =~= p2.out
                                + r.0);
                            assert(hfinish(p2, ex) == hfinish(fv, ex));
                            assert(p2.key == fv.key);
                            let amended = sv2.drop_last().update(n - 1, p2);
                            assert(amended.drop_last() =~= sv.drop_last());
                            lemma_hdenote_eq(sv, amended, ex);
                            // the measure drops: the child entry left the
                            // parent's input
                            assert(stack@.last() == ce);
                            assert(stack@.drop_last() =~= stack0.drop_last().push(f2e));
                            assert(stack_size(stack@) == 1 + esize(ce.input@) + stack_size(
                                stack0.drop_last().push(f2e),
                            ));
                            assert(stack0.drop_last().push(f2e).drop_last() =~= stack0.drop_last());
                            assert(stack_size(stack0.drop_last().push(f2e)) == 1 + esize(
                                f2e.input@,
                            ) + stack_size(stack0.drop_last()));
                            assert(stack_size(stack0) == 1 + esize(f0.input@) + stack_size(
                                stack0.drop_last(),
                            ));
                            lemma_esize_reverse(cvv0);
                            assert(ce.input@ =~= cvv0.reverse());
                            assert(esize(ce.input@) == esize(cvv0));
                            assert(tsize(ve) == 1 + esize(ce.input@));
                            proof_esize_step(f0.input@, ke, ve);
                            assert(esize(f0.input@) == 1 + tsize(ve) + esize(f2e.input@));
                            assert(stack_size(stack@) < stack_size(stack0));
                        }
                    } else {
                        f.out.push((k, v));
                        let ghost f2 = frame_v(f);
                        proof {
                            assert(f.out@ =~= f0.out@.push((ke, ve)));
                            assert(entries_val(f.out@) =~= fv.out.push((ke@, val(ve))));
                            assert(f2.out == fv.out.push((ev[0].0, ev[0].1)));
                            let r = hide_v(entries_val(f.input@.reverse()), av, ex);
                            assert(hide_v(ev, av, ex) == (seq![(ev[0].0, ev[0].1)] + r.0, r.1));
                            assert(fv.out + (seq![(ev[0].0, ev[0].1)] + r.0) =~= f2.out + r.0);
                            assert(hfinish(f2, ex) == hfinish(fv, ex));
                        }
                        stack.push(f);
                        let ghost f2e = f;
                        proof {
                            assert(stack@ =~= stack0.drop_last().push(f2e));
                            assert(stack_v(stack@) =~= sv.drop_last().push(f2));
                            assert(stack_v(stack@).drop_last() =~= sv.drop_last());
                            lemma_hdenote_eq(sv, stack_v(stack@), ex);
                            assert(stack@.last() == f2e);
                            assert(stack@.drop_last() =~= stack0.drop_last());
                            assert(stack_size(stack@) == 1 + esize(f2e.input@) + stack_size(
                                stack0.drop_last(),
                            ));
                            assert(stack_size(stack0) == 1 + esize(f0.input@) + stack_size(
                                stack0.drop_last(),
                            ));
                            proof_esize_step(f0.input@, ke, ve);
                        assert(esize(f0.input@) == 1 + tsize(ve) + esize(f2e.input@));
                            assert(stack_size(stack@) < stack_size(stack0));
                        }
                    }
                }
            } else {
                proof {
                    assert(entries_val(f.input@.reverse()) =~= Seq::<(Seq<char>, Val)>::empty());
                    assert(hide_v(fv.input, fv.acc, ex) == (
                        Seq::<(Seq<char>, Val)>::empty(),
                        fv.acc,
                    ));
                    assert(fv.out + Seq::<(Seq<char>, Val)>::empty() =~= fv.out);
                    assert(hfinish(fv, ex) == (fv.out, fv.acc));
                }
                if stack.len() > 0 {
                    let mut p = stack.pop().unwrap();
                    let ghost p0 = p;
                    let ghost pv = frame_v(p);
                    let ghost fe = f;
                    let kc = f.key.clone();
                    p.out.push((f.key, ValueTree::Object(f.out)));
                    upsert(&mut p.acc, kc, ValueTree::Object(f.acc));
                    let ghost p2 = frame_v(p);
                    proof {
                        assert(sv[n - 2] == pv);
                        assert(p.out@ =~= p0.out@.push((fe.key, ValueTree::Object(fe.out))));
                        assert(val(ValueTree::Object(fe.out)) == Val::Object(fv.out));
                        assert(entries_val(p.out@) =~= pv.out.push((fv.key, Val::Object(fv.out))));
                        assert(p2.out == pv.out.push((fv.key, Val::Object(fv.out))));
                        assert(val(ValueTree::Object(fe.acc)) == Val::Object(fv.acc));
                        assert(p2.acc == aupsert(pv.acc, fv.key, Val::Object(fv.acc)));
                        assert(p2 == hdenote_amend(sv, ex));
                        assert(hdenote(sv, ex) == hdenote(sv.drop_last().update(n - 2, p2), ex));
                    }
                    stack.push(p);
                    let ghost pe = p;
                    proof {
                        assert(stack@ =~= stack0.drop_last().drop_last().push(pe));
                        assert(stack_v(stack@) =~= sv.drop_last().update(n - 2, p2));
                        assert(stack@.last() == pe);
                        assert(stack@.drop_last() =~= stack0.drop_last().drop_last());
                        assert(stack_size(stack@) == 1 + esize(pe.input@) + stack_size(
                            stack0.drop_last().drop_last(),
                        ));
                        assert(stack0.drop_last().last() == p0);
                        assert(stack_size(stack0.drop_last()) == 1 + esize(p0.input@)
                            + stack_size(stack0.drop_last().drop_last()));
                        assert(stack_size(stack0) == 1 + esize(f0.input@) + stack_size(
                            stack0.drop_last(),
                        ));
                        assert(esize(f0.input@) == 0);
                        assert(pe.input == p0.input);
                        assert(stack_size(stack@) < stack_size(stack0));
                    }
                } else {
                    done_s = f.out;
                    done_h = f.acc;
                    proof {
                        assert(hdenote(sv, ex) == hfinish(fv, ex));
                    }
                }
            }
        }
        self.shown_value = done_s;
        self.hidden_value = done_h;
    }
}

} // verus!

verus! {

/// What a frame of the restoring walk will have produced once its remaining
/// hidden input is processed.
spec fn sfinish(f: FrameV) -> (Seq<(Seq<char>, Val)>, Seq<(Seq<char>, Val)>) {
    let r = show_v(f.input, f.acc);
    (f.out + r.0, r.1)
}

/// The amended parent used by `sdenote`.
spec fn sdenote_amend(fs: Seq<FrameV>) -> FrameV {
    let c = sfinish(fs.last());
    let p = fs[fs.len() - 2];
    FrameV {
        key: p.key,
        input: p.input,
        acc: aupsert(p.acc, fs.last().key, Val::Object(c.1)),
        out: p.out.push((fs.last().key, Val::Object(c.0))),
    }
}

/// What the whole stack of the restoring walk will have produced.
spec fn sdenote(fs: Seq<FrameV>) -> (Seq<(Seq<char>, Val)>, Seq<(Seq<char>, Val)>)
    decreases fs.len(),
{
    if fs.len() == 0 {
        (Seq::empty(), Seq::empty())
    } else if fs.len() == 1 {
        sfinish(fs[0])
    } else {
        sdenote(fs.drop_last().update(fs.len() - 2, sdenote_amend(fs)))
    }
}

/// Two stacks that agree below the top and whose top frames finish alike
/// denote the same result.
proof fn lemma_sdenote_eq(fs1: Seq<FrameV>, fs2: Seq<FrameV>)
    requires
        fs1.len() == fs2.len(),
        fs1.len() >= 1,
        fs1.drop_last() == fs2.drop_last(),
        fs1.last().key == fs2.last().key,
        sfinish(fs1.last()) == sfinish(fs2.last()),
    ensures
        sdenote(fs1) == sdenote(fs2),
{
    if fs1.len() == 1 {
        assert(fs1[0] == fs1.last());
        assert(fs2[0] == fs2.last());
    } else {
        let n = fs1.len() - 2;
        assert(fs1[n] == fs1.drop_last()[n]);
        assert(fs2[n] == fs2.drop_last()[n]);
        assert(fs1.drop_last().update(n, sdenote_amend(fs1)) =~= fs2.drop_last().update(
            n,
            sdenote_amend(fs2),
        ));
    }
}

/// Does the level hold an object value at the key?
fn has_object_at(v: &Vec<(String, ValueTree)>, k: &String) -> (r: bool)
    ensures
        r == (ahas(entries_val(v@), k@) && aget(entries_val(v@), k@) is Object),
{
    match find_key(v, k) {
        Some(i) => {
            proof {
                lemma_aget_at(entries_val(v@), k@, i as int);
            }
            match &v[i].1 {
                ValueTree::Object(_) => true,
                _ => false,
            }
        },
        None => {
            proof {
                assert(!ahas(entries_val(v@), k@));
            }
            false
        },
    }
}

impl SensitiveData {
    /// Move every hidden entry back into the congruent shown position; a
    /// value already shown at a key wins, and the hidden entry for it is
    /// discarded. Placeholder objects remain, drained.
    pub fn show(&mut self)
        ensures
            final(self).hidden() == show_v(old(self).hidden(), old(self).shown()).0,
            final(self).shown() == show_v(old(self).hidden(), old(self).shown()).1,
            final(self).extras() == old(self).extras(),
    {
        let ghost target = show_v(old(self).hidden(), old(self).shown());

        let mut s0: Vec<(String, ValueTree)> = Vec::new();
        core::mem::swap(&mut s0, &mut self.shown_value);
        let mut h0: Vec<(String, ValueTree)> = Vec::new();
        core::mem::swap(&mut h0, &mut self.hidden_value);

        let ghost h0v = h0@;
        let rin = reversed(h0);
        let mut stack: Vec<Frame> = Vec::new();
        stack.push(Frame { key: String::new(), input: rin, acc: s0, out: Vec::new() });
        let mut done_h: Vec<(String, ValueTree)> = Vec::new();
        let mut done_s: Vec<(String, ValueTree)> = Vec::new();

        proof {
            assert(stack@[0].input@.reverse() =~= h0v);
            assert(stack_v(stack@) =~= seq![frame_v(stack@[0])]);
            assert(entries_val(stack@[0].out@) + show_v(
                entries_val(stack@[0].input@.reverse()),
                entries_val(stack@[0].acc@),
            ).0 =~= target.0);
        }

        while stack.len() > 0
            invariant
                self.extra_sensitive_keys == old(self).extra_sensitive_keys,
                stack@.len() > 0 ==> sdenote(stack_v(stack@)) == target,
                stack@.len() == 0 ==> entries_val(done_h@) == target.0 && entries_val(done_s@)
                    == target.1,
            decreases stack_size(stack@),
        {
            let ghost stack0 = stack@;
            let ghost sv = stack_v(stack0);
            let ghost n = stack0.len() as int;
            let mut f = stack.pop().unwrap();
            let ghost f0 = f;
            let ghost fv = frame_v(f);
            proof {
                assert(sv.last() == fv);
                assert(sv.drop_last() =~= stack_v(stack@));
            }
            if f.input.len() > 0 {
                let ghost ev = entries_val(f.input@.reverse());
                let ghost av = entries_val(f.acc@);
                let (k, v) = f.input.pop().unwrap();
                let ghost ke = k;
                let ghost ve = v;
                proof {
                    assert(f.input@ =~= f0.input@.drop_last());
                    assert((ke, ve) == f0.input@.last());
                    assert(f0.input@.reverse()[0] == f0.input@.last());
                    assert(f.input@.reverse() =~= f0.input@.reverse().subrange(
                        1,
                        f0.input@.len() as int,
                    ));
                    assert(entries_val(f.input@.reverse()) =~= ev.subrange(1, ev.len() as int));
                    assert(ev[0] == (ke@, val(ve)));
                    lemma_tsize_pos(ve);
                }
                let fk = find_key(&f.acc, &k);
                let present = match fk {
                    Some(_) => true,
                    None => false,
                };
                let is_obj = match &v {
                    ValueTree::Object(_) => true,
                    _ => false,
                };
                if !present {
                    proof {
                        assert(!ahas(av, ev[0].0));
                    }
                    upsert(&mut f.acc, k, v);
                    let ghost f2 = frame_v(f);
                    proof {
                        assert(f2.input == ev.subrange(1, ev.len() as int));
                        assert(f2.acc == aupsert(av, ev[0].0, ev[0].1));
                        assert(f2.out == fv.out);
                        assert(show_v(ev, av) == show_v(
                            ev.subrange(1, ev.len() as int),
                            aupsert(av, ev[0].0, ev[0].1),
                        ));
                        assert(sfinish(f2) == sfinish(fv));
                    }
                    stack.push(f);
                    let ghost f2e = f;
                    proof {
                        assert(stack@ =~= stack0.drop_last().push(f2e));
                        assert(stack_v(stack@) =~= sv.drop_last().push(f2));
                        assert(stack_v(stack@).drop_last() =~= sv.drop_last());
                        lemma_sdenote_eq(sv, stack_v(stack@));
                        assert(stack@.last() == f2e);
                        assert(stack@.drop_last() =~= stack0.drop_last());
                        assert(stack_size(stack@) == 1 + esize(f2e.input@) + stack_size(
                            stack0.drop_last(),
                        ));
                        assert(stack_size(stack0) == 1 + esize(f0.input@) + stack_size(
                            stack0.drop_last(),
                        ));
                        proof_esize_step(f0.input@, ke, ve);
                        assert(esize(f0.input@) == 1 + tsize(ve) + esize(f2e.input@));
                        assert(stack_size(stack@) < stack_size(stack0));
                    }
                } else if is_obj && has_object_at(&f.acc, &k) {
                    let cv = match v {
                        ValueTree::Object(cv) => cv,
                        _ => Vec::new(),
                    };
                    let ghost cvv0 = cv@;
                    let rcv = reversed(cv);
                    let sv_child = take_congruent(&mut f.acc, &k);
                    let ghost f2 = frame_v(f);
                    let child = Frame { key: k, input: rcv, acc: sv_child, out: Vec::new() };
                    let ghost ce = child;
                    let ghost cvv = frame_v(child);
                    stack.push(f);
                    let ghost f2e = f;
                    stack.push(child);
                    proof {
                        let sv2 = stack_v(stack@);
                        assert(stack@ =~= stack0.drop_last().push(f2e).push(ce));
                        assert(sv2 =~= sv.drop_last().push(f2).push(cvv));
                        assert(sv2.len() == n + 1);
                        let c = sfinish(cvv);
                        let ch = show_v(cvv.input, cvv.acc);
                        assert(cvv.out + ch.0 =~= ch.0);
                        assert(c == (ch.0, ch.1));
                        let p2 = sdenote_amend(sv2);
                        assert(sv2.last() == cvv);
                        assert(sv2[n - 1] == f2);
                        assert(sv2.drop_last() =~= sv.drop_last().push(f2));
                        assert(sdenote(sv2) == sdenote(sv2.drop_last().update(n - 1, p2)));
                        // the amended parent finishes exactly like the
                        // unprocessed one
                        lemma_aupsert_twice(
                            av,
                            cvv.key,
                            Val::Object(Seq::empty()),
                            Val::Object(ch.1),
                        );
                        assert(f2.acc == aupsert(av, ke@, Val::Object(Seq::empty())));
                        assert(p2.acc == aupsert(av, cvv.key, Val::Object(ch.1)));
                        assert(ce.input@.reverse() =~= cvv0);
                        assert(cvv.input == entries_val(cvv0));
                        assert(ev[0].1 == val(ve));
                        assert(ev[0].1->Object_0 == cvv.input);
                        assert(ahas(av, cvv.key) && aget(av, cvv.key) is Object);
                        assert(aget(av, cvv.key)->Object_0 == cvv.acc);
                        let r = show_v(p2.input, p2.acc);
                        assert(show_v(ev, av) == (seq![(cvv.key, Val::Object(ch.0))] + r.0, r.1));
                        assert(fv.out + (seq![(cvv.key, Val::Object(ch.0))] + r.0) =~= p2.out
                            + r.0);
                        assert(sfinish(p2) == sfinish(fv));
                        assert(p2.key == fv.key);
                        let amended = sv2.drop_last().update(n - 1, p2);
                        assert(amended.drop_last() =~= sv.drop_last());
                        lemma_sdenote_eq(sv, amended);
                        // the measure drops: the child entry left the
                        // parent's input
                        assert(stack@.last() == ce);
                        assert(stack@.drop_last() =~= stack0.drop_last().push(f2e));
                        assert(stack_size(stack@) == 1 + esize(ce.input@) + stack_size(
                            stack0.drop_last().push(f2e),
                        ));
                        assert(stack0.drop_last().push(f2e).drop_last() =~= stack0.drop_last());
                        assert(stack_size(stack0.drop_last().push(f2e)) == 1 + esize(f2e.input@)
                            + stack_size(stack0.drop_last()));
                        assert(stack_size(stack0) == 1 + esize(f0.input@) + stack_size(
                            stack0.drop_last(),
                        ));
                        lemma_esize_reverse(cvv0);
                        assert(ce.input@ =~= cvv0.reverse());
                        assert(esize(ce.input@) == esize(cvv0));
                        assert(tsize(ve) == 1 + esize(ce.input@));
                        proof_esize_step(f0.input@, ke, ve);
                        assert(esize(f0.input@) == 1 + tsize(ve) + esize(f2e.input@));
                        assert(stack_size(stack@) < stack_size(stack0));
                    }
                } else {
                    // conflict: the shown value wins, the hidden entry is
                    // discarded
                    let ghost f2 = frame_v(f);
                    proof {
                        match fk {
                            Some(i) => {
                                assert(av[i as int].0 == ev[0].0);
                                assert(ahas(av, ev[0].0));
                            },
                            None => {},
                        }
                        assert(f2.input == ev.subrange(1, ev.len() as int));
                        assert(f2.acc == av);
                        assert(f2.out == fv.out);
                        assert(show_v(ev, av) == show_v(ev.subrange(1, ev.len() as int), av));
                        assert(sfinish(f2) == sfinish(fv));
                    }
                    stack.push(f);
                    let ghost f2e = f;
                    proof {
                        assert(stack@ =~= stack0.drop_last().push(f2e));
                        assert(stack_v(stack@) =~= sv.drop_last().push(f2));
                        assert(stack_v(stack@).drop_last() =~= sv.drop_last());
                        lemma_sdenote_eq(sv, stack_v(stack@));
                        assert(stack@.last() == f2e);
                        assert(stack@.drop_last() =~= stack0.drop_last());
                        assert(stack_size(stack@) == 1 + esize(f2e.input@) + stack_size(
                            stack0.drop_last(),
                        ));
                        assert(stack_size(stack0) == 1 + esize(f0.input@) + stack_size(
                            stack0.drop_last(),
                        ));
                        proof_esize_step(f0.input@, ke, ve);
                        assert(esize(f0.input@) == 1 + tsize(ve) + esize(f2e.input@));
                        assert(stack_size(stack@) < stack_size(stack0));
                    }
                }
            } else {
                proof {
                    assert(entries_val(f.input@.reverse()) =~= Seq::<(Seq<char>, Val)>::empty());
                    assert(show_v(fv.input, fv.acc) == (
                        Seq::<(Seq<char>, Val)>::empty(),
                        fv.acc,
                    ));
                    assert(fv.out + Seq::<(Seq<char>, Val)>::empty() =~= fv.out);
                    assert(sfinish(fv) == (fv.out, fv.acc));
                }
                if stack.len() > 0 {
                    let mut p = stack.pop().unwrap();
                    let ghost p0 = p;
                    let ghost pv = frame_v(p);
                    let ghost fe = f;
                    let kc = f.key.clone();
                    p.out.push((f.key, ValueTree::Object(f.out)));
                    upsert(&mut p.acc, kc, ValueTree::Object(f.acc));
                    let ghost p2 = frame_v(p);
                    proof {
                        assert(sv[n - 2] == pv);
                        assert(p.out@ =~= p0.out@.push((fe.key, ValueTree::Object(fe.out))));
                        assert(val(ValueTree::Object(fe.out)) == Val::Object(fv.out));
                        assert(entries_val(p.out@) =~= pv.out.push((fv.key, Val::Object(fv.out))));
                        assert(p2.out == pv.out.push((fv.key, Val::Object(fv.out))));
                        assert(val(ValueTree::Object(fe.acc)) == Val::Object(fv.acc));
                        assert(p2.acc == aupsert(pv.acc, fv.key, Val::Object(fv.acc)));
                        assert(p2 == sdenote_amend(sv));
                        assert(sdenote(sv) == sdenote(sv.drop_last().update(n - 2, p2)));
                    }
                    stack.push(p);
                    let ghost pe = p;
                    proof {
                        assert(stack@ =~= stack0.drop_last().drop_last().push(pe));
                        assert(stack_v(stack@) =~= sv.drop_last().update(n - 2, p2));
                        assert(stack@.last() == pe);
                        assert(stack@.drop_last() =~= stack0.drop_last().drop_last());
                        assert(stack_size(stack@) == 1 + esize(pe.input@) + stack_size(
                            stack0.drop_last().drop_last(),
                        ));
                        assert(stack0.drop_last().last() == p0);
                        assert(stack_size(stack0.drop_last()) == 1 + esize(p0.input@)
                            + stack_size(stack0.drop_last().drop_last()));
                        assert(stack_size(stack0) == 1 + esize(f0.input@) + stack_size(
                            stack0.drop_last(),
                        ));
                        assert(esize(f0.input@) == 0);
                        assert(pe.input == p0.input);
                        assert(stack_size(stack@) < stack_size(stack0));
                    }
                } else {
                    done_h = f.out;
                    done_s = f.acc;
                    proof {
                        assert(sdenote(sv) == sfinish(fv));
                    }
                }
            }
        }
        self.hidden_value = done_h;
        self.shown_value = done_s;
    }
}

} // verus!
