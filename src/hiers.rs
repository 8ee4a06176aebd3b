//! The hierarchy pass of a clip: which scopes, variables and attributes of
//! the source reach the output, and the map from source handles to output
//! handles.
use crate::error::Error;
use crate::filter::{regex_accepts, SignalFilter};
use crate::types::{Handle, Hier, ScopeType};
use crate::writer::{Record, Writer};
use std::collections::HashMap;
use vstd::prelude::*;

verus! {

broadcast use vstd::std_specs::hash::group_hash_axioms;

/// A scope of the source, as held while its contents are scanned.
pub struct ScopeRec {
    pub ty: ScopeType,
    pub name: Seq<char>,
    pub component: Seq<char>,
}

/// The state of the hierarchy pass after a prefix of the source hierarchy.
///
/// `stack` holds the open scopes, outermost first; the first `emitted` of them
/// have been written to the output, the others wait for a selected variable.
/// `declared` lists, for each variable written, its source and output handle.
pub struct BuildState {
    pub stack: Seq<ScopeRec>,
    pub emitted: nat,
    pub handles: Map<u32, u32>,
    pub num_vars: u32,
    pub declared: Seq<(u32, u32)>,
    pub out: Seq<Record>,
    pub err: Option<Error>,
}

pub open spec fn scope_record(s: ScopeRec) -> Record {
    Record::Scope { ty: s.ty, name: s.name, component: s.component }
}

/// The records that open the scopes `s`, in order.
pub open spec fn scope_records(s: Seq<ScopeRec>) -> Seq<Record> {
    s.map_values(|x: ScopeRec| scope_record(x))
}

/// The names of the scopes `s`, each followed by a dot.
pub open spec fn dotted(s: Seq<ScopeRec>) -> Seq<char>
    decreases s.len(),
{
    if s.len() == 0 {
        Seq::empty()
    } else {
        dotted(s.drop_last()) + s.last().name + seq!['.']
    }
}

/// The name of a variable `name` declared inside the open scopes `stack`.
pub open spec fn qualified_name(stack: Seq<ScopeRec>, name: Seq<char>) -> Seq<char> {
    dotted(stack) + name
}

/// Whether a variable `name` inside `stack` is selected: always without a
/// pattern, else when the pattern matches its qualified name.
pub open spec fn selects(pattern: Option<Seq<char>>, stack: Seq<ScopeRec>, name: Seq<char>) -> bool {
    match pattern {
        None => true,
        Some(p) => regex_accepts(p, qualified_name(stack, name)),
    }
}

pub open spec fn build_start(num_vars: u32) -> BuildState {
    BuildState {
        stack: Seq::empty(),
        emitted: 0,
        handles: Map::empty(),
        num_vars,
        declared: Seq::empty(),
        out: Seq::empty(),
        err: None,
    }
}

/// One entry of the source hierarchy processed.
pub open spec fn build_step(
    pattern: Option<Seq<char>>,
    strip_attrs: bool,
    s: BuildState,
    h: Hier,
) -> BuildState {
    if s.err is Some {
        s
    } else {
        match h {
            Hier::Scope(sc) => {
                let r = ScopeRec { ty: sc.ty, name: sc.name@, component: sc.component@ };
                if pattern is None {
                    BuildState {
                        stack: s.stack.push(r),
                        emitted: s.emitted + 1,
                        out: s.out.push(scope_record(r)),
                        ..s
                    }
                } else {
                    BuildState { stack: s.stack.push(r), ..s }
                }
            },
            Hier::Upscope => {
                if s.stack.len() == 0 {
                    BuildState { err: Some(Error::UnbalancedScopes), ..s }
                } else if s.emitted == s.stack.len() {
                    BuildState {
                        stack: s.stack.drop_last(),
                        emitted: (s.emitted - 1) as nat,
                        out: s.out.push(Record::Upscope),
                        ..s
                    }
                } else {
                    BuildState { stack: s.stack.drop_last(), ..s }
                }
            },
            Hier::Var(v) => {
                let id = v.handle.id();
                if !selects(pattern, s.stack, v.name@) {
                    s
                } else if !s.handles.contains_key(id) && s.num_vars == u32::MAX {
                    BuildState { err: Some(Error::TooManyVars), ..s }
                } else {
                    let known = s.handles.contains_key(id);
                    let h: u32 = if known {
                        s.handles[id]
                    } else {
                        (s.num_vars + 1) as u32
                    };
                    BuildState {
                        emitted: s.stack.len(),
                        handles: s.handles.insert(id, h),
                        num_vars: if known {
                            s.num_vars
                        } else {
                            h
                        },
                        declared: s.declared.push((id, h)),
                        out: s.out + scope_records(s.stack.subrange(s.emitted as int, s.stack.len() as int))
                            + seq![
                            Record::Var {
                                ty: v.ty,
                                direction: v.direction,
                                length: v.length,
                                name: v.name@,
                                handle: h,
                            },
                        ],
                        ..s
                    }
                }
            },
            Hier::AttrBegin(a) => {
                if strip_attrs {
                    s
                } else {
                    BuildState {
                        out: s.out.push(
                            Record::AttrBegin {
                                ty: a.ty,
                                subtype: a.subtype as i32,
                                name: a.name@,
                                arg: a.arg,
                            },
                        ),
                        ..s
                    }
                }
            },
            Hier::AttrEnd => {
                if strip_attrs {
                    s
                } else {
                    BuildState { out: s.out.push(Record::AttrEnd), ..s }
                }
            },
        }
    }
}

/// The source hierarchy `hs` processed entry by entry from `s0`.
pub open spec fn build_run(
    pattern: Option<Seq<char>>,
    strip_attrs: bool,
    s0: BuildState,
    hs: Seq<Hier>,
) -> BuildState
    decreases hs.len(),
{
    if hs.len() == 0 {
        s0
    } else {
        build_step(pattern, strip_attrs, build_run(pattern, strip_attrs, s0, hs.drop_last()), hs.last())
    }
}

/// The pattern of an optional filter.
pub open spec fn pattern_of(re: Option<SignalFilter>) -> Option<Seq<char>> {
    match re {
        None => None,
        Some(f) => Some(f.pattern()),
    }
}

/// The outcome of the hierarchy pass over `hs` into a writer that has given
/// out `num_vars` handles: the final state, and the error if any.
pub open spec fn build_result(
    pattern: Option<Seq<char>>,
    strip_attrs: bool,
    num_vars: u32,
    hs: Seq<Hier>,
) -> BuildState {
    let s = build_run(pattern, strip_attrs, build_start(num_vars), hs);
    if s.err is None && s.stack.len() > 0 {
        BuildState { err: Some(Error::UnbalancedScopes), ..s }
    } else {
        s
    }
}

/// Once the pass has failed, the rest of the hierarchy changes nothing.
proof fn lemma_err_kept(
    pattern: Option<Seq<char>>,
    strip_attrs: bool,
    s0: BuildState,
    hs: Seq<Hier>,
    i: int,
)
    requires
        0 <= i <= hs.len(),
        build_run(pattern, strip_attrs, s0, hs.take(i)).err is Some,
    ensures
        build_run(pattern, strip_attrs, s0, hs) == build_run(pattern, strip_attrs, s0, hs.take(i)),
    decreases hs.len() - i,
{
    if i < hs.len() {
        assert(hs.take(i + 1).drop_last() =~= hs.take(i));
        lemma_err_kept(pattern, strip_attrs, s0, hs, i + 1);
    } else {
        assert(hs.take(i) =~= hs);
    }
}

struct ScopeStorage {
    ty: ScopeType,
    name: String,
    component: String,
}

impl View for ScopeStorage {
    type V = ScopeRec;

    closed spec fn view(&self) -> ScopeRec {
        ScopeRec { ty: self.ty, name: self.name@, component: self.component@ }
    }
}

spec fn stack_view(v: Seq<ScopeStorage>) -> Seq<ScopeRec> {
    v.map_values(|s: ScopeStorage| s@)
}

/// The qualified name of `name` inside the open scopes `scopes`.
fn qualify(scopes: &Vec<ScopeStorage>, name: &str) -> (r: String)
    ensures
        r@ == qualified_name(stack_view(scopes@), name@),
{
    let ghost st = stack_view(scopes@);
    let mut q = String::new();
    let mut k: usize = 0;
    while k < scopes.len()
        invariant
            0 <= k <= scopes.len(),
            st == stack_view(scopes@),
            q@ == dotted(st.take(k as int)),
        decreases scopes.len() - k,
    {
        assert(st.take(k + 1).drop_last() =~= st.take(k as int));
        assert(st[k as int] == scopes@[k as int]@);
        proof {
            reveal_strlit(".");
        }
        assert("."@ =~= seq!['.']);
        q.append(scopes[k].name.as_str());
        q.append(".");
        k = k + 1;
    }
    assert(st.take(k as int) =~= st);
    q.append(name);
    q
}

/// Writes the hierarchy `hiers` of the source to `writer`, keeping the
/// variables that `re` selects (all of them without `re`) with the scopes
/// that enclose them, and the attributes unless `strip_attrs`.
///
/// Returns the map from source handles to output handles.
pub fn build(
    hiers: &Vec<Hier>,
    writer: &mut Writer,
    re: Option<SignalFilter>,
    strip_attrs: bool,
) -> (r: Result<HashMap<u32, u32>, Error>)
    ensures
        ({
            let s = build_result(pattern_of(re), strip_attrs, old(writer).num_vars(), hiers@);
            match r {
                Ok(m) => {
                    &&& s.err is None
                    &&& m@ == s.handles
                    &&& final(writer).records() == old(writer).records() + s.out
                    &&& final(writer).num_vars() == s.num_vars
                },
                Err(e) => {
                    &&& s.err == Some(e)
                    &&& final(writer).records() == old(writer).records() + s.out
                },
            }
        }),
        final(writer).header() == old(writer).header(),
{
    let ghost pattern = pattern_of(re);
    let ghost s0 = build_start(writer.num_vars());
    let ghost base = writer.records();
    let mut scopes: Vec<ScopeStorage> = Vec::new();
    let mut emitted: usize = 0;
    let mut handles: HashMap<u32, u32> = HashMap::new();
    let mut i: usize = 0;
    assert(hiers@.take(0) =~= Seq::<Hier>::empty());
    assert(stack_view(scopes@) =~= Seq::<ScopeRec>::empty());
    assert(base + s0.out =~= base);
    while i < hiers.len()
        invariant
            0 <= i <= hiers.len(),
            pattern == pattern_of(re),
            s0 == build_start(old(writer).num_vars()),
            base == old(writer).records(),
            writer.header() == old(writer).header(),
            ({
                let s = build_run(pattern, strip_attrs, s0, hiers@.take(i as int));
                &&& s.err is None
                &&& stack_view(scopes@) == s.stack
                &&& emitted == s.emitted
                &&& emitted <= scopes.len()
                &&& re is None ==> emitted == scopes.len()
                &&& handles@ == s.handles
                &&& writer.num_vars() == s.num_vars
                &&& writer.records() == base + s.out
                &&& forall|k: u32| #[trigger] s.handles.contains_key(k) ==> 1 <= s.handles[k] <= s.num_vars
            }),
        decreases hiers.len() - i,
    {
        let ghost s = build_run(pattern, strip_attrs, s0, hiers@.take(i as int));
        assert(hiers@.take(i + 1).drop_last() =~= hiers@.take(i as int));
        assert(hiers@.take(i + 1).last() == hiers@[i as int]);
        match &hiers[i] {
            Hier::Scope(sc) => {
                let st = ScopeStorage {
                    ty: sc.ty,
                    name: sc.name.as_str().to_owned(),
                    component: sc.component.as_str().to_owned(),
                };
                if re.is_none() {
                    writer.set_scope(sc.ty, sc.name.as_str(), sc.component.as_str());
                }
                scopes.push(st);
                if re.is_none() {
                    emitted = scopes.len();
                }
                assert(stack_view(scopes@) =~= s.stack.push(st@));
            },
            Hier::Upscope => {
                let n = scopes.len();
                if n == 0 {
                    proof {
                        assert(s.stack.len() == 0);
                        assert(build_run(pattern, strip_attrs, s0, hiers@.take(i + 1)).err == Some(Error::UnbalancedScopes));
                        lemma_err_kept(pattern, strip_attrs, s0, hiers@, i + 1);
                    }
                    return Err(Error::UnbalancedScopes);
                }
                scopes.pop();
                assert(stack_view(scopes@) =~= s.stack.drop_last());
                if emitted == n {
                    writer.set_upscope();
                    emitted = emitted - 1;
                }
            },
            Hier::Var(v) => {
                let selected = match &re {
                    None => true,
                    Some(f) => {
                        let q = qualify(&scopes, v.name.as_str());
                        f.is_match(q.as_str())
                    },
                };
                if selected {
                    let id = v.handle.get();
                    let alias = match handles.get(&id) {
                        Some(h) => Some(Handle::from_non_zero(*h)),
                        None => None,
                    };
                    if alias.is_none() && writer.var_count() == u32::MAX {
                        proof {
                            lemma_err_kept(pattern, strip_attrs, s0, hiers@, i + 1);
                        }
                        return Err(Error::TooManyVars);
                    }
                    let ghost before = writer.records();
                    let mut k: usize = emitted;
                    while k < scopes.len()
                        invariant
                            emitted <= k <= scopes.len(),
                            stack_view(scopes@) == s.stack,
                            writer.num_vars() == s.num_vars,
                            writer.header() == old(writer).header(),
                            writer.records() == before + scope_records(
                                s.stack.subrange(emitted as int, k as int),
                            ),
                        decreases scopes.len() - k,
                    {
                        let sk = &scopes[k];
                        assert(s.stack[k as int] == sk@);
                        writer.set_scope(sk.ty, sk.name.as_str(), sk.component.as_str());
                        assert(scope_records(s.stack.subrange(emitted as int, k + 1)) =~= scope_records(
                            s.stack.subrange(emitted as int, k as int),
                        ).push(scope_record(sk@)));
                        k = k + 1;
                    }
                    emitted = scopes.len();
                    let h = match writer.create_var(
                        v.ty,
                        v.direction,
                        v.length,
                        v.name.as_str(),
                        alias,
                    ) {
                        Ok(h) => h,
                        Err(e) => {
                            proof {
                                lemma_err_kept(pattern, strip_attrs, s0, hiers@, i + 1);
                            }
                            return Err(e);
                        },
                    };
                    handles.insert(id, h.get());
                }
            },
            Hier::AttrBegin(a) => {
                if !strip_attrs {
                    writer.set_attr_begin(a.ty, #[verifier::truncate] (a.subtype as i32), a.name.as_str(), a.arg);
                }
            },
            Hier::AttrEnd => {
                if !strip_attrs {
                    writer.set_attr_end();
                }
            },
        }
        i = i + 1;
    }
    assert(hiers@.take(i as int) =~= hiers@);
    if scopes.len() > 0 {
        return Err(Error::UnbalancedScopes);
    }
    Ok(handles)
}

} // verus!
