//! Properties of a clip that hold of every input, stated over the models of
//! the two passes and proved from them.
use crate::error::Error;
use crate::clip::{clip_result, clip_window, Reader};
use crate::hiers::{
    build_result, build_run, build_start, build_step, scope_records, BuildState,
    ScopeRec,
};
use crate::types::{Event, Hier};
use crate::vcd::{fill_output, fill_run, fill_start, fill_step, held_records, FillState};
use crate::writer::Record;
use vstd::prelude::*;

verus! {

/// The nesting depth after reading `s` from depth `d`: `None` when a scope is
/// closed while none is open.
pub open spec fn nesting(s: Seq<Record>, d: nat) -> Option<nat>
    decreases s.len(),
{
    if s.len() == 0 {
        Some(d)
    } else {
        match s[0] {
            Record::Scope { .. } => nesting(s.drop_first(), d + 1),
            Record::Upscope => if d == 0 {
                None
            } else {
                nesting(s.drop_first(), (d - 1) as nat)
            },
            _ => nesting(s.drop_first(), d),
        }
    }
}

/// Every scope closed in `s` was opened before in `s`, and every scope
/// opened is closed: as many closes as opens.
pub open spec fn balanced(s: Seq<Record>) -> bool {
    nesting(s, 0) == Some(0nat)
}

/// The handles of the variables declared in `s`, in order.
pub open spec fn var_handles(s: Seq<Record>) -> Seq<u32>
    decreases s.len(),
{
    if s.len() == 0 {
        Seq::empty()
    } else {
        match s.last() {
            Record::Var { handle, .. } => var_handles(s.drop_last()).push(handle),
            _ => var_handles(s.drop_last()),
        }
    }
}

pub proof fn lemma_nesting_concat(a: Seq<Record>, b: Seq<Record>, d: nat)
    ensures
        nesting(a + b, d) == match nesting(a, d) {
            None => None,
            Some(e) => nesting(b, e),
        },
    decreases a.len(),
{
    if a.len() == 0 {
        assert(a + b =~= b);
    } else {
        assert((a + b).drop_first() =~= a.drop_first() + b);
        assert((a + b)[0] == a[0]);
        match a[0] {
            Record::Scope { .. } => lemma_nesting_concat(a.drop_first(), b, d + 1),
            Record::Upscope => if d > 0 {
                lemma_nesting_concat(a.drop_first(), b, (d - 1) as nat);
            },
            _ => lemma_nesting_concat(a.drop_first(), b, d),
        }
    }
}

pub proof fn lemma_nesting_scopes(s: Seq<ScopeRec>, d: nat)
    ensures
        nesting(scope_records(s), d) == Some((d + s.len()) as nat),
    decreases s.len(),
{
    if s.len() > 0 {
        assert(scope_records(s).drop_first() =~= scope_records(s.drop_first()));
        lemma_nesting_scopes(s.drop_first(), d + 1);
    }
}

pub proof fn lemma_var_handles_concat(a: Seq<Record>, b: Seq<Record>)
    ensures
        var_handles(a + b) == var_handles(a) + var_handles(b),
    decreases b.len(),
{
    if b.len() == 0 {
        assert(a + b =~= a);
        assert(var_handles(a) + var_handles(b) =~= var_handles(a));
    } else {
        assert((a + b).drop_last() =~= a + b.drop_last());
        assert((a + b).last() == b.last());
        lemma_var_handles_concat(a, b.drop_last());
        match b.last() {
            Record::Var { handle, .. } => {
                assert(var_handles(a) + var_handles(b.drop_last()).push(handle) =~= (var_handles(a)
                    + var_handles(b.drop_last())).push(handle));
            },
            _ => {},
        }
    }
}

pub proof fn lemma_var_handles_scopes(s: Seq<ScopeRec>)
    ensures
        var_handles(scope_records(s)) == Seq::<u32>::empty(),
    decreases s.len(),
{
    if s.len() > 0 {
        assert(scope_records(s).drop_last() =~= scope_records(s.drop_last()));
        lemma_var_handles_scopes(s.drop_last());
    }
}

proof fn lemma_single(r: Record, d: nat)
    ensures
        nesting(seq![r], d) == match r {
            Record::Scope { .. } => Some(d + 1),
            Record::Upscope => if d == 0 {
                None
            } else {
                Some((d - 1) as nat)
            },
            _ => Some(d),
        },
        var_handles(seq![r]) == match r {
            Record::Var { handle, .. } => seq![handle],
            _ => Seq::<u32>::empty(),
        },
{
    assert(seq![r].drop_first() =~= Seq::<Record>::empty());
    assert(seq![r].drop_last() =~= Seq::<Record>::empty());
    assert(seq![r][0] == r);
    assert(seq![r].last() == r);
    assert(nesting(Seq::<Record>::empty(), (d + 1) as nat) == Some((d + 1) as nat));
    assert(nesting(Seq::<Record>::empty(), d) == Some(d));
    if d > 0 {
        assert(nesting(Seq::<Record>::empty(), (d - 1) as nat) == Some((d - 1) as nat));
    }
    assert(var_handles(Seq::<Record>::empty()) =~= Seq::<u32>::empty());
    assert(Seq::<u32>::empty().push(0u32) =~= seq![0u32]);
    match r {
        Record::Var { handle, .. } => {
            assert(Seq::<u32>::empty().push(handle) =~= seq![handle]);
        },
        _ => {},
    }
}

/// A record of the hierarchy: neither a time step nor a value change.
pub open spec fn is_declaration(r: Record) -> bool {
    !(r is TimeChange) && !(r is ValueChange)
}

pub open spec fn second(p: (u32, u32)) -> u32 {
    p.1
}

/// What holds of the hierarchy pass after any prefix of the source.
pub open spec fn build_inv(s: BuildState) -> bool {
    s.err is None ==> {
        &&& s.emitted <= s.stack.len()
        &&& nesting(s.out, 0) == Some(s.emitted)
        &&& forall|key: u32| #[trigger] s.handles.contains_key(key) ==> s.handles[key] != 0
        &&& forall|k: int| 0 <= k < s.out.len() ==> is_declaration(#[trigger] s.out[k])
        &&& var_handles(s.out) == s.declared.map_values(|p: (u32, u32)| second(p))
        &&& forall|k: int|
            0 <= k < s.declared.len() ==> #[trigger] s.handles.contains_key(s.declared[k].0)
                && s.handles[s.declared[k].0] == s.declared[k].1
        &&& forall|key: u32| #[trigger]
            s.handles.contains_key(key) ==> exists|k: int|
                0 <= k < s.declared.len() && #[trigger] s.declared[k] == (key, s.handles[key])
    }
}

proof fn lemma_build_step_inv(pattern: Option<Seq<char>>, strip_attrs: bool, p: BuildState, h: Hier)
    requires
        build_inv(p),
    ensures
        build_inv(build_step(pattern, strip_attrs, p, h)),
{
    let s = build_step(pattern, strip_attrs, p, h);
    if p.err is None && s.err is None {
        let delta = s.out.subrange(p.out.len() as int, s.out.len() as int);
        match h {
            Hier::Var(v) => {
                if s.declared.len() > p.declared.len() {
                    let sub = p.stack.subrange(p.emitted as int, p.stack.len() as int);
                    let vr = Record::Var {
                        ty: v.ty,
                        direction: v.direction,
                        length: v.length,
                        name: v.name@,
                        handle: s.declared.last().1,
                    };
                    assert(s.out =~= p.out + (scope_records(sub) + seq![vr]));
                    lemma_nesting_concat(p.out, scope_records(sub) + seq![vr], 0);
                    lemma_nesting_concat(scope_records(sub), seq![vr], p.emitted);
                    lemma_nesting_scopes(sub, p.emitted);
                    assert(nesting(seq![vr], p.stack.len() as nat) == Some(p.stack.len() as nat)) by {
                        assert(seq![vr].drop_first() =~= Seq::<Record>::empty());
                        assert(seq![vr][0] == vr);
                        assert(nesting(Seq::<Record>::empty(), p.stack.len() as nat) == Some(p.stack.len() as nat));
                    }
                    lemma_var_handles_concat(p.out, scope_records(sub) + seq![vr]);
                    lemma_var_handles_concat(scope_records(sub), seq![vr]);
                    lemma_var_handles_scopes(sub);
                    assert(var_handles(seq![vr]) =~= seq![s.declared.last().1]) by {
                        assert(seq![vr].drop_last() =~= Seq::<Record>::empty());
                        assert(seq![vr].last() == vr);
                        assert(var_handles(Seq::<Record>::empty()) =~= Seq::<u32>::empty());
                    }
                    assert(s.declared.map_values(|q: (u32, u32)| second(q)) =~= p.declared.map_values(
                        |q: (u32, u32)| second(q),
                    ).push(s.declared.last().1));
                    assert(var_handles(s.out) =~= s.declared.map_values(|q: (u32, u32)| second(q)));
                    assert forall|k: int| 0 <= k < s.out.len() implies is_declaration(#[trigger] s.out[k]) by {
                        if k < p.out.len() {
                            assert(s.out[k] == p.out[k]);
                        } else if k < p.out.len() + sub.len() {
                            assert(s.out[k] == scope_records(sub)[k - p.out.len()]);
                        }
                    }
                    let id = v.handle.id();
                    assert forall|k: int| 0 <= k < s.declared.len() implies #[trigger] s.handles.contains_key(s.declared[k].0)
                        && s.handles[s.declared[k].0] == s.declared[k].1 by {
                        if k < p.declared.len() {
                            assert(s.declared[k] == p.declared[k]);
                            assert(p.handles.contains_key(p.declared[k].0));
                        }
                    }
                    assert forall|key: u32| #[trigger]
                        s.handles.contains_key(key) implies exists|k: int|
                            0 <= k < s.declared.len() && #[trigger] s.declared[k] == (
                                key,
                                s.handles[key],
                            ) by {
                        if key == id {
                            assert(s.declared[p.declared.len() as int] == (key, s.handles[key]));
                        } else {
                            let k = choose|k: int|
                                0 <= k < p.declared.len() && #[trigger] p.declared[k] == (
                                    key,
                                    p.handles[key],
                                );
                            assert(s.declared[k] == (key, s.handles[key]));
                        }
                    }
                }
            },
            _ => {
                assert(s.declared == p.declared);
                assert(s.handles == p.handles);
                if s.out.len() > p.out.len() {
                    assert(s.out =~= p.out + seq![s.out.last()]);
                    lemma_nesting_concat(p.out, seq![s.out.last()], 0);
                    lemma_var_handles_concat(p.out, seq![s.out.last()]);
                    lemma_single(s.out.last(), p.emitted);
                    assert forall|k: int| 0 <= k < s.out.len() implies is_declaration(#[trigger] s.out[k]) by {
                        if k < p.out.len() {
                            assert(s.out[k] == p.out[k]);
                        }
                    }
                } else {
                    assert(s.out == p.out);
                }
            },
        }
    }
}

proof fn lemma_build_run_inv(pattern: Option<Seq<char>>, strip_attrs: bool, n: u32, hs: Seq<Hier>)
    ensures
        build_inv(build_run(pattern, strip_attrs, build_start(n), hs)),
    decreases hs.len(),
{
    if hs.len() == 0 {
        assert(var_handles(Seq::<Record>::empty()) =~= Seq::<(u32, u32)>::empty().map_values(
            |p: (u32, u32)| second(p),
        ));
    } else {
        lemma_build_run_inv(pattern, strip_attrs, n, hs.drop_last());
        lemma_build_step_inv(
            pattern,
            strip_attrs,
            build_run(pattern, strip_attrs, build_start(n), hs.drop_last()),
            hs.last(),
        );
    }
}

/// The hierarchy written by a successful pass is balanced: every scope it
/// closes was opened in it, and it closes as many scopes as it opens.
pub proof fn lemma_hierarchy_balanced(
    pattern: Option<Seq<char>>,
    strip_attrs: bool,
    n: u32,
    hs: Seq<Hier>,
)
    requires
        build_result(pattern, strip_attrs, n, hs).err is None,
    ensures
        balanced(build_result(pattern, strip_attrs, n, hs).out),
{
    lemma_build_run_inv(pattern, strip_attrs, n, hs);
}

/// Every variable written for one source handle is written with one output
/// handle, the one that the map holds for the source handle; the handles of
/// the written variables are those listed, in order.
pub proof fn lemma_alias_sharing(pattern: Option<Seq<char>>, strip_attrs: bool, n: u32, hs: Seq<Hier>)
    requires
        build_result(pattern, strip_attrs, n, hs).err is None,
    ensures
        ({
            let s = build_result(pattern, strip_attrs, n, hs);
            &&& var_handles(s.out) == s.declared.map_values(|p: (u32, u32)| second(p))
            &&& forall|k: int|
                0 <= k < s.declared.len() ==> #[trigger] s.handles.contains_key(s.declared[k].0)
                    && s.handles[s.declared[k].0] == s.declared[k].1
            &&& forall|i: int, j: int|
                0 <= i < s.declared.len() && 0 <= j < s.declared.len() && #[trigger] s.declared[i].0
                    == #[trigger] s.declared[j].0 ==> s.declared[i].1 == s.declared[j].1
        }),
{
    lemma_build_run_inv(pattern, strip_attrs, n, hs);
    let s = build_result(pattern, strip_attrs, n, hs);
    assert forall|i: int, j: int|
        0 <= i < s.declared.len() && 0 <= j < s.declared.len() && #[trigger] s.declared[i].0
            == #[trigger] s.declared[j].0 implies s.declared[i].1 == s.declared[j].1 by {
        assert(s.handles.contains_key(s.declared[i].0));
        assert(s.handles.contains_key(s.declared[j].0));
    }
}

/// Every output handle in the map of a successful pass is non-zero.
pub proof fn lemma_map_targets_nonzero(
    pattern: Option<Seq<char>>,
    strip_attrs: bool,
    n: u32,
    hs: Seq<Hier>,
)
    requires
        build_result(pattern, strip_attrs, n, hs).err is None,
    ensures
        ({
            let s = build_result(pattern, strip_attrs, n, hs);
            forall|key: u32| #[trigger] s.handles.contains_key(key) ==> s.handles[key] != 0
        }),
{
    lemma_build_run_inv(pattern, strip_attrs, n, hs);
}

/// Every output handle in the map of a successful pass is declared in the
/// hierarchy it wrote.
pub proof fn lemma_map_targets_declared(
    pattern: Option<Seq<char>>,
    strip_attrs: bool,
    n: u32,
    hs: Seq<Hier>,
)
    requires
        build_result(pattern, strip_attrs, n, hs).err is None,
    ensures
        ({
            let s = build_result(pattern, strip_attrs, n, hs);
            forall|key: u32| #[trigger]
                s.handles.contains_key(key) ==> var_handles(s.out).contains(s.handles[key])
        }),
{
    lemma_build_run_inv(pattern, strip_attrs, n, hs);
    let s = build_result(pattern, strip_attrs, n, hs);
    assert forall|key: u32| #[trigger]
        s.handles.contains_key(key) implies var_handles(s.out).contains(s.handles[key]) by {
        let k = choose|k: int|
            0 <= k < s.declared.len() && #[trigger] s.declared[k] == (key, s.handles[key]);
        assert(var_handles(s.out)[k] == s.handles[key]);
    }
}

/// The time of the current step after `s`: that of its last time change,
/// or zero.
pub open spec fn current_time(s: Seq<Record>) -> u64
    decreases s.len(),
{
    if s.len() == 0 {
        0
    } else {
        match s.last() {
            Record::TimeChange(t) => t,
            _ => current_time(s.drop_last()),
        }
    }
}

pub open spec fn is_time_change(r: Record) -> bool {
    r is TimeChange
}

proof fn lemma_current_time_values(a: Seq<Record>, b: Seq<Record>)
    requires
        forall|k: int| 0 <= k < b.len() ==> !is_time_change(#[trigger] b[k]),
    ensures
        current_time(a + b) == current_time(a),
    decreases b.len(),
{
    if b.len() == 0 {
        assert(a + b =~= a);
    } else {
        assert((a + b).drop_last() =~= a + b.drop_last());
        assert((a + b).last() == b.last());
        assert(!is_time_change(b[b.len() - 1]));
        lemma_current_time_values(a, b.drop_last());
    }
}

/// What holds of the value change pass after any prefix of the events.
pub open spec fn fill_inv(map: Map<u32, u32>, start: u64, end: u64, base: Seq<Record>, s: FillState) -> bool {
    &&& start <= s.last_time <= end
    &&& current_time(base + s.out) == s.last_time - start
    &&& forall|k: int| 0 <= k < s.order.len() ==> #[trigger] map.contains_key(s.order[k])
    &&& forall|k: int| 0 <= k < s.out.len() ==> (#[trigger] s.out[k] matches Record::TimeChange(t) ==> t <= end - start)
    &&& forall|k: int| 0 <= k < s.out.len() ==> (#[trigger] s.out[k] matches Record::ValueChange { handle, .. } ==> exists|src: u32| map.contains_key(src) && #[trigger] map[src] == handle)
}

proof fn lemma_fill_step_inv(map: Map<u32, u32>, start: u64, end: u64, base: Seq<Record>, p: FillState, e: Event)
    requires
        fill_inv(map, start, end, base, p),
    ensures
        fill_inv(map, start, end, base, fill_step(map, start, end, p, e)),
{
    let s = fill_step(map, start, end, p, e);
    if !p.stopped && map.contains_key(e.handle) {
        if e.time < start {
            assert forall|k: int| 0 <= k < s.order.len() implies #[trigger] map.contains_key(s.order[k]) by {
                if k < p.order.len() {
                    assert(s.order[k] == p.order[k]);
                }
            }
        } else if e.time <= end {
            let hr = held_records(map, p.order, p.held);
            let tc = if e.time != p.last_time {
                seq![Record::TimeChange((e.time - start) as u64)]
            } else {
                Seq::<Record>::empty()
            };
            let vc = Record::ValueChange { handle: map[e.handle], value: e.value, var_len: e.var_len };
            assert(s.out =~= p.out + hr + tc + seq![vc]);
            assert forall|k: int| 0 <= k < hr.len() implies !is_time_change(#[trigger] hr[k]) by {}
            lemma_current_time_values(base + p.out, hr);
            assert(base + s.out =~= (base + p.out + hr + tc).push(vc));
            assert((base + s.out).drop_last() =~= base + p.out + hr + tc);
            assert((base + s.out).last() == vc);
            if e.time != p.last_time {
                assert(base + p.out + hr + tc =~= (base + p.out + hr).push(tc[0]));
                assert((base + p.out + hr + tc).drop_last() =~= base + p.out + hr);
                assert((base + p.out + hr + tc).last() == tc[0]);
                assert(current_time(base + p.out + hr + tc) == e.time - start);
            } else {
                assert(base + p.out + hr + tc =~= base + p.out + hr);
                assert(current_time(base + p.out + hr + tc) == e.time - start);
            }
            assert(current_time(base + s.out) == s.last_time - start);
            assert forall|k: int| 0 <= k < s.out.len() implies (#[trigger] s.out[k] matches Record::ValueChange { handle, .. } ==> exists|src: u32| map.contains_key(src) && #[trigger] map[src] == handle) by {
                if k < p.out.len() {
                    assert(s.out[k] == p.out[k]);
                } else if k < p.out.len() + hr.len() {
                    let src = p.order[k - p.out.len()];
                    assert(map.contains_key(src));
                    assert(s.out[k] == hr[k - p.out.len()]);
                } else if k == s.out.len() - 1 {
                    assert(map.contains_key(e.handle));
                }
            }
            assert forall|k: int| 0 <= k < s.out.len() implies (#[trigger] s.out[k] matches Record::TimeChange(t) ==> t <= end - start) by {
                if k < p.out.len() {
                    assert(s.out[k] == p.out[k]);
                } else if k < p.out.len() + hr.len() {
                    assert(s.out[k] == hr[k - p.out.len()]);
                }
            }
        }
    }
}

proof fn lemma_fill_run_inv(map: Map<u32, u32>, start: u64, end: u64, base: Seq<Record>, es: Seq<Event>)
    requires
        start <= end,
        current_time(base) == 0,
    ensures
        fill_inv(map, start, end, base, fill_run(map, start, end, fill_start(start), es)),
    decreases es.len(),
{
    if es.len() == 0 {
        assert(base + Seq::<Record>::empty() =~= base);
    } else {
        lemma_fill_run_inv(map, start, end, base, es.drop_last());
        lemma_fill_step_inv(map, start, end, base, fill_run(map, start, end, fill_start(start), es.drop_last()), es.last());
    }
}

/// After the value change pass, the current time step of the trace is the
/// length of the window, whether or not an event fell on its end: the
/// written trace ends at the window's end.
pub proof fn lemma_end_time(map: Map<u32, u32>, start: u64, end: u64, base: Seq<Record>, es: Seq<Event>)
    requires
        start <= end,
        current_time(base) == 0,
    ensures
        current_time(base + fill_output(map, start, end, fill_start(start), es)) == end - start,
{
    lemma_fill_run_inv(map, start, end, base, es);
    let s = fill_run(map, start, end, fill_start(start), es);
    let hr = held_records(map, s.order, s.held);
    assert forall|k: int| 0 <= k < hr.len() implies !is_time_change(#[trigger] hr[k]) by {}
    lemma_current_time_values(base + s.out, hr);
    assert(base + (s.out + hr) =~= base + s.out + hr);
    if end != s.last_time {
        assert(base + (s.out + hr).push(Record::TimeChange((end - start) as u64)) =~= (base + s.out + hr).push(Record::TimeChange((end - start) as u64)));
    }
}

/// Every time step written by the value change pass lies inside the window:
/// none before its start (time zero of the output) or after its end.
pub proof fn lemma_window_inclusion(map: Map<u32, u32>, start: u64, end: u64, es: Seq<Event>)
    requires
        start <= end,
    ensures
        ({
            let out = fill_output(map, start, end, fill_start(start), es);
            forall|k: int| 0 <= k < out.len() ==> (#[trigger] out[k] matches Record::TimeChange(t) ==> t <= end - start)
        }),
{
    lemma_fill_run_inv(map, start, end, Seq::empty(), es);
    let s = fill_run(map, start, end, fill_start(start), es);
    let out = fill_output(map, start, end, fill_start(start), es);
    let hr = held_records(map, s.order, s.held);
    assert forall|k: int| 0 <= k < out.len() implies (#[trigger] out[k] matches Record::TimeChange(t) ==> t <= end - start) by {
        if k < s.out.len() {
            assert(out[k] == s.out[k]);
        } else if k < s.out.len() + hr.len() {
            assert(out[k] == hr[k - s.out.len()]);
        }
    }
}

/// What holds of the time steps after a prefix of time-ordered events.
spec fn positive_inv(start: u64, end: u64, es: Seq<Event>, m: int, s: FillState) -> bool {
    &&& start <= s.last_time
    &&& s.last_time == start || exists|j: int| 0 <= j < m && #[trigger] es[j].time == s.last_time
    &&& forall|q: int| 0 <= q < s.out.len() ==> (#[trigger] s.out[q] matches Record::TimeChange(t) ==> 0 < t)
}

proof fn lemma_positive_run(map: Map<u32, u32>, start: u64, end: u64, es: Seq<Event>, m: int)
    requires
        start <= end,
        0 <= m <= es.len(),
        forall|a: int, b: int| 0 <= a < b < es.len() ==> (#[trigger] es[a]).time <= (#[trigger] es[b]).time,
    ensures
        positive_inv(start, end, es, m, fill_run(map, start, end, fill_start(start), es.take(m))),
    decreases m,
{
    if m > 0 {
        lemma_positive_run(map, start, end, es, m - 1);
        assert(es.take(m).drop_last() =~= es.take(m - 1));
        assert(es.take(m).last() == es[m - 1]);
        let p = fill_run(map, start, end, fill_start(start), es.take(m - 1));
        let s = fill_run(map, start, end, fill_start(start), es.take(m));
        let e = es[m - 1];
        if !p.stopped && map.contains_key(e.handle) && start <= e.time <= end {
            let hr = held_records(map, p.order, p.held);
            let tc = if e.time != p.last_time {
                seq![Record::TimeChange((e.time - start) as u64)]
            } else {
                Seq::<Record>::empty()
            };
            let vc = Record::ValueChange { handle: map[e.handle], value: e.value, var_len: e.var_len };
            assert(s.out =~= p.out + hr + tc + seq![vc]);
            if e.time != p.last_time && p.last_time != start {
                let j = choose|j: int| 0 <= j < m - 1 && #[trigger] es[j].time == p.last_time;
                assert(es[j].time <= es[m - 1].time);
            }
            assert forall|q: int| 0 <= q < s.out.len() implies (#[trigger] s.out[q] matches Record::TimeChange(t) ==> 0 < t) by {
                if q < p.out.len() {
                    assert(s.out[q] == p.out[q]);
                } else if q < p.out.len() + hr.len() {
                    assert(s.out[q] == hr[q - p.out.len()]);
                } else if q < p.out.len() + hr.len() + tc.len() {
                    assert(s.out[q] == tc[q - p.out.len() - hr.len()]);
                }
            }
            assert(es[m - 1].time == s.last_time);
        } else {
            if s.last_time != start {
                let j = choose|j: int| 0 <= j < m - 1 && #[trigger] es[j].time == p.last_time;
                assert(es[j].time == s.last_time);
            }
        }
    } else {
        assert(es.take(0) =~= Seq::<Event>::empty());
    }
}

/// Where the events come in order of time, every time step written by the
/// value change pass moves forward from the window's start: each is greater
/// than zero and at most the window's length.
pub proof fn lemma_steps_positive(map: Map<u32, u32>, start: u64, end: u64, es: Seq<Event>)
    requires
        start <= end,
        forall|a: int, b: int| 0 <= a < b < es.len() ==> (#[trigger] es[a]).time <= (#[trigger] es[b]).time,
    ensures
        ({
            let out = fill_output(map, start, end, fill_start(start), es);
            forall|k: int| 0 <= k < out.len() ==> (#[trigger] out[k] matches Record::TimeChange(t) ==> 0 < t <= end - start)
        }),
{
    lemma_positive_run(map, start, end, es, es.len() as int);
    assert(es.take(es.len() as int) =~= es);
    lemma_window_inclusion(map, start, end, es);
    lemma_fill_run_inv(map, start, end, Seq::empty(), es);
    let s = fill_run(map, start, end, fill_start(start), es);
    let hr = held_records(map, s.order, s.held);
    let out = fill_output(map, start, end, fill_start(start), es);
    assert forall|k: int| 0 <= k < out.len() implies (#[trigger] out[k] matches Record::TimeChange(t) ==> 0 < t <= end - start) by {
        if k < s.out.len() {
            assert(out[k] == s.out[k]);
        } else if k < s.out.len() + hr.len() {
            assert(out[k] == hr[k - s.out.len()]);
        }
    }
}

/// Every value change written by the value change pass is for an output
/// handle that the map gives to some source handle.
pub proof fn lemma_changes_mapped(map: Map<u32, u32>, start: u64, end: u64, es: Seq<Event>)
    requires
        start <= end,
    ensures
        ({
            let out = fill_output(map, start, end, fill_start(start), es);
            forall|k: int| 0 <= k < out.len() ==> (#[trigger] out[k] matches Record::ValueChange { handle, .. } ==> exists|src: u32| map.contains_key(src) && #[trigger] map[src] == handle)
        }),
{
    lemma_fill_run_inv(map, start, end, Seq::empty(), es);
    let s = fill_run(map, start, end, fill_start(start), es);
    let out = fill_output(map, start, end, fill_start(start), es);
    let hr = held_records(map, s.order, s.held);
    assert forall|k: int| 0 <= k < out.len() implies (#[trigger] out[k] matches Record::ValueChange { handle, .. } ==> exists|src: u32| map.contains_key(src) && #[trigger] map[src] == handle) by {
        if k < s.out.len() {
            assert(out[k] == s.out[k]);
        } else if k < s.out.len() + hr.len() {
            assert(out[k] == hr[k - s.out.len()]);
            let src = s.order[k - s.out.len()];
            assert(map.contains_key(src));
        }
    }
}

proof fn lemma_current_time_decls(s: Seq<Record>)
    requires
        forall|k: int| 0 <= k < s.len() ==> is_declaration(#[trigger] s[k]),
    ensures
        current_time(s) == 0,
    decreases s.len(),
{
    if s.len() > 0 {
        assert(is_declaration(s[s.len() - 1]));
        lemma_current_time_decls(s.drop_last());
    }
}

/// The output of the value change pass only grows as events come.
proof fn lemma_fill_out_prefix(map: Map<u32, u32>, start: u64, end: u64, s0: FillState, es: Seq<Event>, m: int)
    requires
        0 <= m <= es.len(),
    ensures
        fill_run(map, start, end, s0, es.take(m)).out.len() <= fill_run(map, start, end, s0, es).out.len(),
        fill_run(map, start, end, s0, es).out.subrange(0, fill_run(map, start, end, s0, es.take(m)).out.len() as int)
            == fill_run(map, start, end, s0, es.take(m)).out,
    decreases es.len() - m,
{
    if m < es.len() {
        lemma_fill_out_prefix(map, start, end, s0, es, m + 1);
        assert(es.take(m + 1).drop_last() =~= es.take(m));
        let a = fill_run(map, start, end, s0, es.take(m)).out;
        let b = fill_run(map, start, end, s0, es.take(m + 1)).out;
        let c = fill_run(map, start, end, s0, es).out;
        assert(b.subrange(0, a.len() as int) =~= a);
        assert(c.subrange(0, a.len() as int) =~= b.subrange(0, a.len() as int));
    } else {
        assert(es.take(m) =~= es);
        let c = fill_run(map, start, end, s0, es).out;
        assert(c.subrange(0, c.len() as int) =~= c);
    }
}

/// Whether no event of `es` after `j` and before `m` is for the signal of
/// event `j`.
pub open spec fn last_before(es: Seq<Event>, j: int, m: int) -> bool {
    forall|k: int| j < k < m ==> (#[trigger] es[k]).handle != es[j].handle
}

/// What holds before the first event inside the window: nothing written
/// yet, and the last value of each mapped signal held.
spec fn before_window_inv(map: Map<u32, u32>, start: u64, es: Seq<Event>, m: int, s: FillState) -> bool {
    &&& s.out.len() == 0
    &&& s.last_time == start
    &&& !s.stopped
    &&& forall|h: u32| #[trigger] s.held.contains_key(h) ==> s.order.contains(h)
    &&& forall|j: int|
        0 <= j < m && map.contains_key(es[j].handle) && last_before(es, j, m) ==> {
            &&& #[trigger] s.held.contains_key(es[j].handle)
            &&& s.held[es[j].handle] == (es[j].value, es[j].var_len)
        }
}

proof fn lemma_before_window(map: Map<u32, u32>, start: u64, end: u64, es: Seq<Event>, m: int)
    requires
        0 <= m <= es.len(),
        forall|j: int| 0 <= j < m && map.contains_key(#[trigger] es[j].handle) ==> es[j].time < start,
    ensures
        before_window_inv(map, start, es, m, fill_run(map, start, end, fill_start(start), es.take(m))),
    decreases m,
{
    if m > 0 {
        lemma_before_window(map, start, end, es, m - 1);
        assert(es.take(m).drop_last() =~= es.take(m - 1));
        assert(es.take(m).last() == es[m - 1]);
        let p = fill_run(map, start, end, fill_start(start), es.take(m - 1));
        let s = fill_run(map, start, end, fill_start(start), es.take(m));
        let e = es[m - 1];
        assert forall|j: int|
            0 <= j < m && map.contains_key(es[j].handle) && last_before(es, j, m) implies {
                &&& #[trigger] s.held.contains_key(es[j].handle)
                &&& s.held[es[j].handle] == (es[j].value, es[j].var_len)
            } by {
            if j < m - 1 {
                assert(es[m - 1].handle != es[j].handle);
                assert(last_before(es, j, m - 1));
                assert(p.held.contains_key(es[j].handle));
                assert(p.held[es[j].handle] == (es[j].value, es[j].var_len));
                if map.contains_key(e.handle) {
                    assert(e.time < start);
                    assert(s.held == p.held.insert(e.handle, (e.value, e.var_len)));
                } else {
                    assert(s == p);
                }
            } else {
                assert(e.time < start);
                assert(s.held == p.held.insert(e.handle, (e.value, e.var_len)));
            }
        }
        assert forall|h: u32| #[trigger] s.held.contains_key(h) implies s.order.contains(h) by {
            if map.contains_key(e.handle) && h != e.handle {
                assert(p.held.contains_key(h));
                let k = choose|k: int| 0 <= k < p.order.len() && p.order[k] == h;
                assert(s.order[k] == h);
            } else if map.contains_key(e.handle) && !p.held.contains_key(h) {
                assert(s.order[s.order.len() - 1] == h);
            }
        }
    } else {
        assert(es.take(0) =~= Seq::<Event>::empty());
    }
}

/// Forward fill: let `i0` be the first event of a mapped signal at or after
/// the window's start (or the end of the events if there is none), every
/// earlier event of a mapped signal coming before the window. Then, for
/// every mapped signal that changed before `i0`, the output holds its last
/// value before the window ahead of any time step, that is at time zero of
/// the output, whether or not any event falls inside the window.
pub proof fn lemma_forward_fill(map: Map<u32, u32>, start: u64, end: u64, es: Seq<Event>, i0: int)
    requires
        start <= end,
        0 <= i0 <= es.len(),
        i0 < es.len() ==> map.contains_key(es[i0].handle) && start <= es[i0].time,
        forall|j: int| 0 <= j < i0 && map.contains_key(#[trigger] es[j].handle) ==> es[j].time < start,
    ensures
        ({
            let out = fill_output(map, start, end, fill_start(start), es);
            forall|j: int|
                0 <= j < i0 && map.contains_key(#[trigger] es[j].handle) && last_before(es, j, i0) ==> exists|p: int|
                    0 <= p < out.len() && out[p] == Record::ValueChange {
                        handle: map[es[j].handle],
                        value: es[j].value,
                        var_len: es[j].var_len,
                    } && forall|q: int| 0 <= q < p ==> !is_time_change(#[trigger] out[q])
        }),
{
    lemma_before_window(map, start, end, es, i0);
    let p0 = fill_run(map, start, end, fill_start(start), es.take(i0));
    let hr = held_records(map, p0.order, p0.held);
    let run = fill_run(map, start, end, fill_start(start), es);
    let out = fill_output(map, start, end, fill_start(start), es);
    assert(p0.out =~= Seq::<Record>::empty());
    if i0 < es.len() && es[i0].time <= end {
        lemma_fill_out_prefix(map, start, end, fill_start(start), es, i0 + 1);
        assert(es.take(i0 + 1).drop_last() =~= es.take(i0));
        assert(es.take(i0 + 1).last() == es[i0]);
        let s1 = fill_run(map, start, end, fill_start(start), es.take(i0 + 1));
        assert(s1.out.subrange(0, hr.len() as int) =~= hr);
        assert forall|j: int|
            0 <= j < i0 && map.contains_key(#[trigger] es[j].handle) && last_before(es, j, i0) implies exists|p: int|
                0 <= p < out.len() && out[p] == Record::ValueChange {
                    handle: map[es[j].handle],
                    value: es[j].value,
                    var_len: es[j].var_len,
                } && forall|q: int| 0 <= q < p ==> !is_time_change(#[trigger] out[q]) by {
            let h = es[j].handle;
            assert(p0.held.contains_key(h));
            assert(p0.order.contains(h));
            let p = choose|p: int| 0 <= p < p0.order.len() && p0.order[p] == h;
            assert(hr[p] == s1.out[p]);
            assert(run.out[p] == s1.out[p]);
            assert(out[p] == run.out[p]);
            assert forall|q: int| 0 <= q < p implies !is_time_change(#[trigger] out[q]) by {
                assert(out[q] == run.out[q]);
                assert(run.out[q] == s1.out[q]);
                assert(s1.out[q] == hr[q]);
            }
        }
    } else {
        if i0 < es.len() {
            assert(es.take(i0 + 1).drop_last() =~= es.take(i0));
            assert(es.take(i0 + 1).last() == es[i0]);
            crate::vcd::lemma_fill_stopped(map, start, end, fill_start(start), es, i0 + 1);
        } else {
            assert(es.take(i0) =~= es);
        }
        assert(run.out == p0.out && run.order == p0.order && run.held == p0.held);
        assert(out.subrange(0, hr.len() as int) =~= hr);
        assert forall|j: int|
            0 <= j < i0 && map.contains_key(#[trigger] es[j].handle) && last_before(es, j, i0) implies exists|p: int|
                0 <= p < out.len() && out[p] == Record::ValueChange {
                    handle: map[es[j].handle],
                    value: es[j].value,
                    var_len: es[j].var_len,
                } && forall|q: int| 0 <= q < p ==> !is_time_change(#[trigger] out[q]) by {
            let h = es[j].handle;
            assert(p0.held.contains_key(h));
            assert(p0.order.contains(h));
            let p = choose|p: int| 0 <= p < p0.order.len() && p0.order[p] == h;
            assert(out[p] == hr[p]);
            assert forall|q: int| 0 <= q < p implies !is_time_change(#[trigger] out[q]) by {
                assert(out[q] == hr[q]);
            }
        }
    }
}

/// What holds while the events reach no later than the window's start.
spec fn at_start_inv(start: u64, s: FillState) -> bool {
    &&& !s.stopped
    &&& s.last_time == start
    &&& forall|q: int| 0 <= q < s.out.len() ==> !is_time_change(#[trigger] s.out[q])
}

proof fn lemma_at_start(map: Map<u32, u32>, start: u64, end: u64, es: Seq<Event>, m: int)
    requires
        start <= end,
        0 <= m <= es.len(),
        forall|i: int| 0 <= i < m ==> (#[trigger] es[i]).time <= start,
    ensures
        at_start_inv(start, fill_run(map, start, end, fill_start(start), es.take(m))),
    decreases m,
{
    if m > 0 {
        lemma_at_start(map, start, end, es, m - 1);
        assert(es.take(m).drop_last() =~= es.take(m - 1));
        assert(es.take(m).last() == es[m - 1]);
        let p = fill_run(map, start, end, fill_start(start), es.take(m - 1));
        let s = fill_run(map, start, end, fill_start(start), es.take(m));
        let e = es[m - 1];
        if map.contains_key(e.handle) && e.time >= start {
            let hr = held_records(map, p.order, p.held);
            let vc = Record::ValueChange { handle: map[e.handle], value: e.value, var_len: e.var_len };
            assert(s.out =~= p.out + hr + seq![vc]);
            assert forall|q: int| 0 <= q < s.out.len() implies !is_time_change(#[trigger] s.out[q]) by {
                if q < p.out.len() {
                    assert(s.out[q] == p.out[q]);
                } else if q < p.out.len() + hr.len() {
                    assert(s.out[q] == hr[q - p.out.len()]);
                }
            }
        }
    } else {
        assert(es.take(0) =~= Seq::<Event>::empty());
    }
}

/// Forward fill at the window's start: where the events come in order of
/// time, the value of a mapped signal changed exactly at the window's start
/// is written ahead of any time step, at time zero of the output.
pub proof fn lemma_start_values_at_zero(map: Map<u32, u32>, start: u64, end: u64, es: Seq<Event>, j: int)
    requires
        start <= end,
        forall|a: int, b: int| 0 <= a < b < es.len() ==> (#[trigger] es[a]).time <= (#[trigger] es[b]).time,
        0 <= j < es.len(),
        map.contains_key(es[j].handle),
        es[j].time == start,
    ensures
        ({
            let out = fill_output(map, start, end, fill_start(start), es);
            exists|p: int|
                0 <= p < out.len() && out[p] == Record::ValueChange {
                    handle: map[es[j].handle],
                    value: es[j].value,
                    var_len: es[j].var_len,
                } && forall|q: int| 0 <= q < p ==> !is_time_change(#[trigger] out[q])
        }),
{
    assert forall|i: int| 0 <= i < j + 1 implies (#[trigger] es[i]).time <= start by {
        if i < j {
            assert(es[i].time <= es[j].time);
        }
    }
    lemma_at_start(map, start, end, es, j + 1);
    lemma_fill_out_prefix(map, start, end, fill_start(start), es, j + 1);
    let s = fill_run(map, start, end, fill_start(start), es.take(j + 1));
    let run = fill_run(map, start, end, fill_start(start), es);
    let out = fill_output(map, start, end, fill_start(start), es);
    assert(es.take(j + 1).drop_last() =~= es.take(j));
    assert(es.take(j + 1).last() == es[j]);
    let p = s.out.len() - 1;
    assert(s.out[p] == Record::ValueChange { handle: map[es[j].handle], value: es[j].value, var_len: es[j].var_len });
    assert(out[p] == run.out[p]);
    assert(run.out[p] == s.out[p]);
    assert forall|q: int| 0 <= q < p implies !is_time_change(#[trigger] out[q]) by {
        assert(out[q] == run.out[q]);
        assert(run.out[q] == s.out[q]);
    }
}

/// Each value change of `s` with the time step it falls in.
pub open spec fn timed_changes(s: Seq<Record>) -> Seq<(u64, Record)>
    decreases s.len(),
{
    if s.len() == 0 {
        Seq::empty()
    } else {
        match s.last() {
            Record::ValueChange { .. } => timed_changes(s.drop_last()).push(
                (current_time(s.drop_last()), s.last()),
            ),
            _ => timed_changes(s.drop_last()),
        }
    }
}

/// The value change that the event `e` is written as, with its time.
pub open spec fn timed_event(map: Map<u32, u32>, e: Event) -> (u64, Record) {
    (e.time, Record::ValueChange { handle: map[e.handle], value: e.value, var_len: e.var_len })
}

spec fn reclip_inv(map: Map<u32, u32>, end: u64, es: Seq<Event>, s: FillState) -> bool {
    &&& s.order.len() == 0
    &&& s.held == Map::<u32, (Seq<u8>, bool)>::empty()
    &&& !s.stopped
    &&& timed_changes(s.out) == es.map_values(|e: Event| timed_event(map, e))
}

proof fn lemma_reclip_run(map: Map<u32, u32>, end: u64, es: Seq<Event>)
    requires
        forall|i: int| 0 <= i < es.len() ==> map.contains_key((#[trigger] es[i]).handle) && es[i].time <= end,
    ensures
        reclip_inv(map, end, es, fill_run(map, 0, end, fill_start(0), es)),
    decreases es.len(),
{
    if es.len() == 0 {
        assert(timed_changes(Seq::<Record>::empty()) =~= es.map_values(|e: Event| timed_event(map, e)));
        assert(fill_start(0).held =~= Map::<u32, (Seq<u8>, bool)>::empty());
    } else {
        let es0 = es.drop_last();
        assert forall|i: int| 0 <= i < es0.len() implies map.contains_key((#[trigger] es0[i]).handle) && es0[i].time <= end by {
            assert(es0[i] == es[i]);
        }
        lemma_reclip_run(map, end, es0);
        lemma_fill_run_inv(map, 0, end, Seq::empty(), es0);
        let p = fill_run(map, 0, end, fill_start(0), es0);
        let e = es.last();
        assert(map.contains_key(es[es.len() - 1].handle));
        let s = fill_run(map, 0, end, fill_start(0), es);
        let hr = held_records(map, p.order, p.held);
        assert(hr =~= Seq::<Record>::empty());
        let tc = if e.time != p.last_time {
            seq![Record::TimeChange((e.time - 0) as u64)]
        } else {
            Seq::<Record>::empty()
        };
        let vc = Record::ValueChange { handle: map[e.handle], value: e.value, var_len: e.var_len };
        assert(s.out =~= (p.out + tc).push(vc));
        assert((p.out + tc).push(vc).drop_last() =~= p.out + tc);
        assert(Seq::<Record>::empty() + p.out =~= p.out);
        if e.time != p.last_time {
            assert((p.out + tc).drop_last() =~= p.out);
            assert((p.out + tc).last() == tc[0]);
        } else {
            assert(p.out + tc =~= p.out);
        }
        assert(current_time(p.out + tc) == e.time);
        assert(timed_changes(p.out + tc) == timed_changes(p.out));
        assert(es.map_values(|x: Event| timed_event(map, x)) =~= es0.map_values(|x: Event| timed_event(map, x)).push(timed_event(map, e)));
        assert(s.held =~= Map::<u32, (Seq<u8>, bool)>::empty());
    }
}

/// Clipping again, to its whole window `[0, end]`, a trace whose events all
/// lie in that window and are all mapped writes each event back, in order,
/// as a value change at its own time: the same sequence of value changes
/// on the same time axis.
pub proof fn lemma_reclip_changes(map: Map<u32, u32>, end: u64, es: Seq<Event>)
    requires
        forall|i: int| 0 <= i < es.len() ==> map.contains_key((#[trigger] es[i]).handle) && es[i].time <= end,
    ensures
        timed_changes(fill_output(map, 0, end, fill_start(0), es)) == es.map_values(|e: Event| timed_event(map, e)),
{
    lemma_reclip_run(map, end, es);
    let s = fill_run(map, 0, end, fill_start(0), es);
    assert(held_records(map, s.order, s.held) =~= Seq::<Record>::empty());
    assert(s.out + held_records(map, s.order, s.held) =~= s.out);
    if end != s.last_time {
        assert(s.out.push(Record::TimeChange((end - 0) as u64)).drop_last() =~= s.out);
    }
}

/// Whether the output record `r` declares the same thing as the source
/// entry `h`.
pub open spec fn same_entry(h: Hier, r: Record) -> bool {
    match (h, r) {
        (Hier::Scope(sc), Record::Scope { ty, name, component }) => ty == sc.ty && name == sc.name@ && component == sc.component@,
        (Hier::Upscope, Record::Upscope) => true,
        (Hier::Var(v), Record::Var { ty, direction, length, name, .. }) => ty == v.ty && direction == v.direction && length == v.length && name == v.name@,
        (Hier::AttrBegin(a), Record::AttrBegin { ty, subtype, name, arg }) => ty == a.ty && subtype == a.subtype as i32 && name == a.name@ && arg == a.arg,
        (Hier::AttrEnd, Record::AttrEnd) => true,
        _ => false,
    }
}

proof fn lemma_unfiltered_run(n: u32, hs: Seq<Hier>)
    ensures
        ({
            let s = build_run(None, false, build_start(n), hs);
            &&& s.err is None ==> {
                &&& s.emitted == s.stack.len()
                &&& s.out.len() == hs.len()
                &&& forall|i: int| 0 <= i < hs.len() ==> same_entry(#[trigger] hs[i], s.out[i])
                &&& forall|i: int| 0 <= i < hs.len() && #[trigger] hs[i] is Var ==> s.handles.contains_key((hs[i]->Var_0).handle.id())
                &&& forall|key: u32| #[trigger] s.handles.contains_key(key) ==> exists|i: int|
                    0 <= i < hs.len() && #[trigger] hs[i] is Var && (hs[i]->Var_0).handle.id() == key
            }
            &&& s.err is Some ==> s.err == Some(Error::UnbalancedScopes) || s.err == Some(Error::TooManyVars)
        }),
    decreases hs.len(),
{
    if hs.len() > 0 {
        lemma_unfiltered_run(n, hs.drop_last());
        let p = build_run(None, false, build_start(n), hs.drop_last());
        let s = build_run(None, false, build_start(n), hs);
        if s.err is None {
            assert(p.err is None);
            let sub = p.stack.subrange(p.emitted as int, p.stack.len() as int);
            assert(sub =~= Seq::<ScopeRec>::empty());
            assert(scope_records(sub) =~= Seq::<Record>::empty());
            assert(p.out + scope_records(sub) =~= p.out);
            assert forall|i: int| 0 <= i < hs.len() implies same_entry(#[trigger] hs[i], s.out[i]) by {
                if i < hs.len() - 1 {
                    assert(hs[i] == hs.drop_last()[i]);
                    assert(s.out[i] == p.out[i]);
                }
            }
            assert forall|i: int| 0 <= i < hs.len() && #[trigger] hs[i] is Var implies s.handles.contains_key((hs[i]->Var_0).handle.id()) by {
                if i < hs.len() - 1 {
                    assert(hs[i] == hs.drop_last()[i]);
                }
            }
            assert forall|key: u32| #[trigger] s.handles.contains_key(key) implies exists|i: int|
                0 <= i < hs.len() && #[trigger] hs[i] is Var && (hs[i]->Var_0).handle.id() == key by {
                if p.handles.contains_key(key) {
                    let i = choose|i: int| 0 <= i < hs.drop_last().len() && #[trigger] hs.drop_last()[i] is Var && (hs.drop_last()[i]->Var_0).handle.id() == key;
                    assert(hs[i] == hs.drop_last()[i]);
                } else {
                    assert(hs[hs.len() - 1] is Var);
                }
            }
        }
    }
}

/// Clipping again with no pattern and no stripping fails only on unbalanced
/// scopes or for want of handles; when it succeeds it writes the hierarchy
/// back entry for entry (one record per source entry, declaring the same
/// scope, variable or attribute, in the same order) and maps exactly the
/// handles of the source's variables: the signal set is kept.
pub proof fn lemma_reclip_hierarchy(n: u32, hs: Seq<Hier>)
    ensures
        ({
            let s = build_result(None, false, n, hs);
            &&& s.err is Some ==> s.err == Some(Error::UnbalancedScopes) || s.err == Some(Error::TooManyVars)
            &&& s.err is None ==> {
                &&& s.out.len() == hs.len()
                &&& forall|i: int| 0 <= i < hs.len() ==> same_entry(#[trigger] hs[i], s.out[i])
                &&& forall|i: int| 0 <= i < hs.len() && #[trigger] hs[i] is Var ==> s.handles.contains_key((hs[i]->Var_0).handle.id())
                &&& forall|key: u32| #[trigger] s.handles.contains_key(key) ==> exists|i: int|
                    0 <= i < hs.len() && #[trigger] hs[i] is Var && (hs[i]->Var_0).handle.id() == key
            }
        }),
{
    lemma_unfiltered_run(n, hs);
}

/// Of a successful clip: the hierarchy it writes is balanced; every value
/// change it writes is for a variable declared in that hierarchy; its last
/// time step is the length of the window, so that the trace ends at the
/// window's end.
pub proof fn lemma_clip_output(
    src: Reader,
    start: Option<u64>,
    end: Option<u64>,
    pattern: Option<Seq<char>>,
    strip_attrs: bool,
)
    requires
        clip_result(src, start, end, pattern, strip_attrs) is Ok,
    ensures
        ({
            let out = clip_result(src, start, end, pattern, strip_attrs)->Ok_0;
            let (s, e) = clip_window(src.start_time, src.end_time, start, end)->Ok_0;
            let hier = build_result(pattern, strip_attrs, 0, src.hiers@).out;
            &&& out.subrange(0, hier.len() as int) == hier
            &&& balanced(hier)
            &&& forall|k: int| 0 <= k < out.len() ==> (#[trigger] out[k] matches Record::ValueChange { handle, .. } ==> var_handles(hier).contains(handle))
            &&& current_time(out) == e - s
        }),
{
    let out = clip_result(src, start, end, pattern, strip_attrs)->Ok_0;
    let (s, e) = clip_window(src.start_time, src.end_time, start, end)->Ok_0;
    let b = build_result(pattern, strip_attrs, 0, src.hiers@);
    let es = crate::vcd::events_view(src.events@);
    let f = fill_output(b.handles, s, e, fill_start(s), es);
    assert(out == b.out + f);
    assert(out.subrange(0, b.out.len() as int) =~= b.out);
    lemma_hierarchy_balanced(pattern, strip_attrs, 0, src.hiers@);
    lemma_map_targets_declared(pattern, strip_attrs, 0, src.hiers@);
    lemma_build_run_inv(pattern, strip_attrs, 0, src.hiers@);
    lemma_changes_mapped(b.handles, s, e, es);
    lemma_current_time_decls(b.out);
    lemma_end_time(b.handles, s, e, b.out, es);
    assert forall|k: int| 0 <= k < out.len() implies (#[trigger] out[k] matches Record::ValueChange { handle, .. } ==> var_handles(b.out).contains(handle)) by {
        if k < b.out.len() {
            assert(out[k] == b.out[k]);
            assert(is_declaration(b.out[k]));
        } else {
            assert(out[k] == f[k - b.out.len()]);
            if let Record::ValueChange { handle, .. } = f[k - b.out.len()] {
                let src_h = choose|src_h: u32| b.handles.contains_key(src_h) && #[trigger] b.handles[src_h] == handle;
                assert(b.handles.contains_key(src_h));
            }
        }
    }
}

} // verus!
