//! The variables of a hierarchy with their qualified names.
use crate::hiers::{qualified_name, ScopeRec};
use crate::types::Hier;
use vstd::prelude::*;

verus! {

/// The scopes open after the entries `hs`, outermost first; closing with no
/// scope open changes nothing.
pub open spec fn open_scopes(hs: Seq<Hier>) -> Seq<ScopeRec>
    decreases hs.len(),
{
    if hs.len() == 0 {
        Seq::empty()
    } else {
        let st = open_scopes(hs.drop_last());
        match hs.last() {
            Hier::Scope(sc) => st.push(ScopeRec { ty: sc.ty, name: sc.name@, component: sc.component@ }),
            Hier::Upscope => if st.len() > 0 {
                st.drop_last()
            } else {
                st
            },
            _ => st,
        }
    }
}

/// The positions of the variables among the entries `hs`, in order.
pub open spec fn var_positions(hs: Seq<Hier>) -> Seq<int>
    decreases hs.len(),
{
    if hs.len() == 0 {
        Seq::empty()
    } else {
        match hs.last() {
            Hier::Var(_) => var_positions(hs.drop_last()).push(hs.len() - 1),
            _ => var_positions(hs.drop_last()),
        }
    }
}

/// The qualified name of the variable at position `i` of `hs`.
pub open spec fn var_name_at(hs: Seq<Hier>, i: int) -> Seq<char> {
    match hs[i] {
        Hier::Var(v) => qualified_name(open_scopes(hs.take(i)), v.name@),
        _ => Seq::empty(),
    }
}

proof fn lemma_positions_prefix(hs: Seq<Hier>, i: int)
    requires
        0 <= i <= hs.len(),
    ensures
        var_positions(hs.take(i)).len() <= var_positions(hs).len(),
        forall|k: int| 0 <= k < var_positions(hs.take(i)).len() ==> #[trigger] var_positions(hs)[k] == var_positions(hs.take(i))[k],
    decreases hs.len() - i,
{
    if i < hs.len() {
        assert(hs.take(i + 1).drop_last() =~= hs.take(i));
        lemma_positions_prefix(hs, i + 1);
    } else {
        assert(hs.take(i) =~= hs);
    }
}

/// Returns, for each variable of `hiers` in order, its qualified name (the
/// names of the enclosing scopes and its own, joined by dots) and its
/// position in `hiers`.
pub fn var_names(hiers: &Vec<Hier>) -> (r: Vec<(String, usize)>)
    ensures
        r@.len() == var_positions(hiers@).len(),
        forall|k: int| 0 <= k < r@.len() ==> {
            &&& (#[trigger] r@[k]).1 == var_positions(hiers@)[k]
            &&& r@[k].0@ == var_name_at(hiers@, r@[k].1 as int)
        },
{
    let mut paths: Vec<String> = Vec::new();
    let mut out: Vec<(String, usize)> = Vec::new();
    let mut i: usize = 0;
    while i < hiers.len()
        invariant
            0 <= i <= hiers.len(),
            paths@.len() == open_scopes(hiers@.take(i as int)).len(),
            forall|k: int| 0 <= k < paths@.len() ==> (#[trigger] paths@[k])@ == qualified_name(
                open_scopes(hiers@.take(i as int)).take(k),
                open_scopes(hiers@.take(i as int))[k].name,
            ),
            out@.len() == var_positions(hiers@.take(i as int)).len(),
            forall|k: int| 0 <= k < out@.len() ==> {
                &&& (#[trigger] out@[k]).1 == var_positions(hiers@.take(i as int))[k]
                &&& out@[k].1 < i
                &&& out@[k].0@ == var_name_at(hiers@, out@[k].1 as int)
            },
        decreases hiers.len() - i,
    {
        let ghost st = open_scopes(hiers@.take(i as int));
        assert(hiers@.take(i + 1).drop_last() =~= hiers@.take(i as int));
        assert(hiers@.take(i + 1).last() == hiers@[i as int]);
        proof {
            lemma_positions_prefix(hiers@.take(i + 1), i as int);
            assert(hiers@.take(i + 1).take(i as int) =~= hiers@.take(i as int));
        }
        match &hiers[i] {
            Hier::Scope(sc) => {
                let n = paths.len();
                let mut p = String::new();
                if n > 0 {
                    p.append(paths[n - 1].as_str());
                    p.append(".");
                }
                p.append(sc.name.as_str());
                proof {
                    reveal_strlit(".");
                    let nst = st.push(ScopeRec { ty: sc.ty, name: sc.name@, component: sc.component@ });
                    assert(nst.take(n as int) =~= st);
                    if n > 0 {
                        assert(st.take(n as int) =~= st);
                        assert(st.take(n - 1).push(st[n - 1]) =~= st);
                        assert(st.drop_last() =~= st.take(n - 1));
                        assert("."@ =~= seq!['.']);
                        assert(dotted_step(st));
                    } else {
                        assert(st =~= Seq::<ScopeRec>::empty());
                    }
                    assert forall|k: int| 0 <= k < n implies nst.take(k) =~= st.take(k) && nst[k] == st[k] by {}
                }
                paths.push(p);
            },
            Hier::Upscope => {
                if paths.len() > 0 {
                    paths.pop();
                    proof {
                        assert forall|k: int| 0 <= k < paths@.len() implies st.drop_last().take(k) =~= st.take(k) by {}
                    }
                }
            },
            Hier::Var(v) => {
                let n = paths.len();
                let mut q = String::new();
                if n > 0 {
                    q.append(paths[n - 1].as_str());
                    q.append(".");
                }
                q.append(v.name.as_str());
                proof {
                    reveal_strlit(".");
                    if n > 0 {
                        assert(st.take(n as int) =~= st);
                        assert(st.drop_last() =~= st.take(n - 1));
                        assert("."@ =~= seq!['.']);
                        assert(dotted_step(st));
                    } else {
                        assert(st =~= Seq::<ScopeRec>::empty());
                    }
                }
                out.push((q, i));
            },
            _ => {},
        }
        i = i + 1;
    }
    assert(hiers@.take(i as int) =~= hiers@);
    out
}

/// The names of `st` joined with dots, then a dot: the last scope's qualified
/// name followed by a dot.
spec fn dotted_step(st: Seq<ScopeRec>) -> bool {
    st.len() > 0 ==> crate::hiers::dotted(st) == qualified_name(st.drop_last(), st.last().name) + seq!['.']
}

} // verus!
