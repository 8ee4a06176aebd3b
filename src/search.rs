//! A value search over the value changes of a trace.
use crate::checker::{
    DenseChecker, DenseOnceChecker, SparseChecker, SparseOnceChecker, VarChecker, VarInfo,
};
use crate::find::{
    bytes_regex_accepts, find_value_callback, hex_digits, MatchInfo, RegexHexMatcher, RegexMatcher,
};
use crate::matcher::{ExactMatcher, ValueMatcher};
use crate::types::{Event, ValueChange};
use vstd::prelude::*;

verus! {

/// One reported hit of a value search: time, signal name and value, and
/// the position of the value change among the events searched.
pub struct Hit {
    pub time: u64,
    pub name: String,
    pub value: Vec<u8>,
    pub event: usize,
}

/// Whether `h` reports the event `e` under the name `name`.
pub open spec fn reports(h: Hit, e: Event, name: Seq<char>) -> bool {
    h.time == e.time && h.name@ == name && h.value@ == e.value
}

/// Whether every hit of `hits` reports an event of `events` whose value
/// `accepts` takes and whose signal `names` names.
pub open spec fn justified(
    accepts: spec_fn(Seq<u8>) -> bool,
    names: Map<u32, Seq<char>>,
    hits: Seq<Hit>,
    events: Seq<ValueChange>,
) -> bool {
    forall|k: int|
        #![trigger hits[k]]
        0 <= k < hits.len() ==> {
            let i = hits[k].event as int;
            &&& 0 <= i < events.len()
            &&& accepts(events[i].value@)
            &&& names.contains_key(events[i].handle.id())
            &&& reports(hits[k], events[i]@, names[events[i].handle.id()])
        }
}

/// Whether the event `i` of `events` is to be reported by a search whose
/// matcher `accepts` values and whose checker starts as `c0`: its value is
/// accepted, its signal is searched and may be checked, and, where each
/// signal is reported once, no earlier accepted value is of its signal.
pub open spec fn wanted<T, C: VarChecker<T>>(
    accepts: spec_fn(Seq<u8>) -> bool,
    c0: C,
    events: Seq<ValueChange>,
    i: int,
) -> bool {
    let h = events[i].handle.id();
    &&& accepts(events[i].value@)
    &&& c0.can_check(h)
    &&& c0.names().contains_key(h)
    &&& c0.pending(h)
    &&& c0.once() ==> forall|j: int| 0 <= j < i ==> !#[trigger] accepted_of(accepts, events, j, h)
}

/// Whether the event `j` of `events` is of the signal `h` and its value
/// accepted.
pub open spec fn accepted_of(accepts: spec_fn(Seq<u8>) -> bool, events: Seq<ValueChange>, j: int, h: u32) -> bool {
    events[j].handle.id() == h && accepts(events[j].value@)
}

/// Whether `h` is still pending after the first `i` events.
spec fn pending_after<T, C: VarChecker<T>>(
    accepts: spec_fn(Seq<u8>) -> bool,
    c0: C,
    events: Seq<ValueChange>,
    i: int,
    h: u32,
) -> bool {
    c0.pending(h) && (c0.once() && c0.can_check(h) ==> forall|j: int|
        0 <= j < i ==> !#[trigger] accepted_of(accepts, events, j, h))
}

/// Runs the search over `events` with a matcher and a checker.
fn find_value_mc<M: ValueMatcher, T, C: VarChecker<T>>(
    events: &Vec<ValueChange>,
    value_matcher: &M,
    var_checker: C,
) -> (r: Vec<Hit>)
    ensures
        justified(|v: Seq<u8>| value_matcher.accepts(v), var_checker.names(), r@, events@),
        forall|k: int|
            0 <= k < r@.len() ==> wanted(
                |v: Seq<u8>| value_matcher.accepts(v),
                var_checker,
                events@,
                (#[trigger] r@[k]).event as int,
            ),
        forall|k1: int, k2: int| 0 <= k1 < k2 < r@.len() ==> (#[trigger] r@[k1]).event < (#[trigger] r@[k2]).event,
        forall|i: int|
            #![trigger events@[i]]
            0 <= i < events@.len() && wanted(|v: Seq<u8>| value_matcher.accepts(v), var_checker, events@, i)
                ==> exists|k: int| 0 <= k < r@.len() && (#[trigger] r@[k]).event == i,
{
    let ghost c0 = var_checker;
    let ghost names = var_checker.names();
    let ghost acc = |v: Seq<u8>| value_matcher.accepts(v);
    let mut checker = var_checker;
    let mut hits: Vec<Hit> = Vec::new();
    let ghost mut slot: Seq<int> = Seq::empty();
    let mut i: usize = 0;
    while i < events.len()
        invariant
            i <= events@.len(),
            checker.names() == names,
            acc == (|v: Seq<u8>| value_matcher.accepts(v)),
            justified(acc, names, hits@, events@),
            forall|k: int| 0 <= k < hits@.len() ==> (#[trigger] hits@[k]).event < i,
            forall|k: int| 0 <= k < hits@.len() ==> wanted(acc, c0, events@, (#[trigger] hits@[k]).event as int),
            forall|k1: int, k2: int| 0 <= k1 < k2 < hits@.len() ==> (#[trigger] hits@[k1]).event < (#[trigger] hits@[k2]).event,
            slot.len() == i,
            forall|j: int| 0 <= j < i && wanted(acc, c0, events@, j) ==> 0 <= #[trigger] slot[j] < hits@.len() && hits@[slot[j]].event == j,
            checker.once() == c0.once(),
            names == c0.names(),
            forall|h: u32| #[trigger] checker.can_check(h) == c0.can_check(h),
            forall|h: u32| #[trigger] checker.pending(h) == pending_after(acc, c0, events@, i as int, h),
        decreases events@.len() - i,
    {
        let e = &events[i];
        let ghost h = e.handle.id();
        let ghost before = checker;
        let ghost n_hits = hits@.len();
        assert(events@[i as int].handle == e.handle);
        if checker.accepts_handle(e.handle) {
            match find_value_callback(value_matcher, &mut checker, e.handle, e.value.as_slice()) {
                Some(name) => {
                    let value = e.value.clone();
                    assert(value@ == e.value@);
                    let hit = Hit { time: e.time, name, value, event: i };
                    let ghost old_hits = hits@;
                    hits.push(hit);
                    assert(events@[i as int].handle == e.handle);
                    assert forall|k: int| 0 <= k < hits@.len() implies (#[trigger] hits@[k]).event < i + 1 by {
                        if k < old_hits.len() {
                            assert(hits@[k] == old_hits[k]);
                        }
                    }
                    assert(justified(acc, names, hits@, events@)) by {
                        assert forall|k: int| 0 <= k < old_hits.len() implies #[trigger] hits@[k] == old_hits[k] by {}
                    }
                },
                None => {},
            }
        }
        proof {
            assert(forall|h2: u32| #[trigger] before.pending(h2) == pending_after(acc, c0, events@, i as int, h2));
            assert(acc(e.value@) == value_matcher.accepts(e.value@));
            assert(events@[i as int].value@ == e.value@);
            if c0.can_check(h) && before.names().contains_key(h) && acc(e.value@) && before.pending(h) {
                assert(wanted(acc, c0, events@, i as int));
            }
            let w = wanted(acc, c0, events@, i as int);
            if w {
                assert(hits@.len() == n_hits + 1);
                slot = slot.push(n_hits as int);
            } else {
                slot = slot.push(-1);
            }
            assert forall|h2: u32| #[trigger] checker.pending(h2) == pending_after(acc, c0, events@, i + 1, h2) by {
                if c0.once() && h2 == h && acc(e.value@) && c0.can_check(h) {
                    assert(accepted_of(acc, events@, i as int, h2));
                }
                if h2 != h {
                    assert(!accepted_of(acc, events@, i as int, h2));
                }
            }
        }
        i = i + 1;
    }
    assert forall|j: int|
        #![trigger events@[j]]
        0 <= j < events@.len() && wanted(acc, c0, events@, j) implies exists|k: int|
            0 <= k < hits@.len() && (#[trigger] hits@[k]).event == j by {
        assert(0 <= slot[j] < hits@.len());
        assert(hits@[slot[j]].event == j);
    }
    hits
}

/// The names of the signals of `vars`, by handle.
pub open spec fn info_names(vars: VarInfo) -> Map<u32, Seq<char>> {
    match vars {
        VarInfo::Sparse(m) => crate::checker::map_names(m@),
        VarInfo::Dense(v) => crate::checker::array_names(v@),
    }
}

/// Whether `value_match` accepts `value`.
pub open spec fn match_accepts(value_match: MatchInfo, value: Seq<u8>) -> bool {
    match value_match {
        MatchInfo::Regex(p, true) => bytes_regex_accepts(p.pattern(), hex_digits(value)),
        MatchInfo::Regex(p, false) => bytes_regex_accepts(p.pattern(), value),
        MatchInfo::Exact(x) => crate::matcher::same_padded(value, x@),
    }
}

/// Whether a search reports the event `i`: its value is accepted, its
/// signal is among `names`, and, unless every hit is reported, no earlier
/// value of its signal was accepted.
pub open spec fn search_wanted(
    accepts: spec_fn(Seq<u8>) -> bool,
    names: Map<u32, Seq<char>>,
    all_matches: bool,
    events: Seq<ValueChange>,
    i: int,
) -> bool {
    let h = events[i].handle.id();
    &&& accepts(events[i].value@)
    &&& names.contains_key(h)
    &&& !all_matches ==> forall|j: int| 0 <= j < i ==> !#[trigger] accepted_of(accepts, events, j, h)
}

/// Whether `r` holds exactly the hits of a search, in the order of the
/// events.
pub open spec fn search_result(
    accepts: spec_fn(Seq<u8>) -> bool,
    names: Map<u32, Seq<char>>,
    all_matches: bool,
    events: Seq<ValueChange>,
    r: Seq<Hit>,
) -> bool {
    &&& justified(accepts, names, r, events)
    &&& forall|k: int| 0 <= k < r.len() ==> search_wanted(accepts, names, all_matches, events, (#[trigger] r[k]).event as int)
    &&& forall|k1: int, k2: int| 0 <= k1 < k2 < r.len() ==> (#[trigger] r[k1]).event < (#[trigger] r[k2]).event
    &&& forall|i: int|
        #![trigger events[i]]
        0 <= i < events.len() && search_wanted(accepts, names, all_matches, events, i) ==> exists|k: int|
            0 <= k < r.len() && (#[trigger] r[k]).event == i
}

/// Searches `events` for the values that `value_match` accepts, on the
/// signals of `vars`: with `all_matches`, every such value; else only the
/// first of each signal. Returns the hits in the order of the events.
pub fn find_value(
    events: &Vec<ValueChange>,
    value_match: MatchInfo,
    vars: VarInfo,
    all_matches: bool,
) -> (r: Vec<Hit>)
    ensures
        search_result(|v: Seq<u8>| match_accepts(value_match, v), info_names(vars), all_matches, events@, r@),
{
    let ghost acc = |v: Seq<u8>| match_accepts(value_match, v);
    match value_match {
        MatchInfo::Regex(p, true) => {
            let m = RegexHexMatcher::new(p);
            assert((|v: Seq<u8>| m.accepts(v)) =~= acc);
            find_value_m(events, &m, vars, all_matches)
        },
        MatchInfo::Regex(p, false) => {
            let m = RegexMatcher::new(p);
            assert((|v: Seq<u8>| m.accepts(v)) =~= acc);
            find_value_m(events, &m, vars, all_matches)
        },
        MatchInfo::Exact(x) => {
            let m = ExactMatcher::new(x);
            assert((|v: Seq<u8>| m.accepts(v)) =~= acc);
            find_value_m(events, &m, vars, all_matches)
        },
    }
}

/// Runs the search with the matcher chosen, choosing the checker.
fn find_value_m<M: ValueMatcher>(events: &Vec<ValueChange>, value_matcher: &M, vars: VarInfo, all_matches: bool) -> (r: Vec<Hit>)
    ensures
        search_result(|v: Seq<u8>| value_matcher.accepts(v), info_names(vars), all_matches, events@, r@),
{
    let ghost acc = |v: Seq<u8>| value_matcher.accepts(v);
    let ghost names = info_names(vars);
    match vars {
        VarInfo::Sparse(m) => {
            if all_matches {
                let c = SparseChecker::new(m);
                let r = find_value_mc(events, value_matcher, c);
                assert(forall|i: int| 0 <= i < events@.len() ==> #[trigger] wanted(acc, c, events@, i) == search_wanted(acc, names, all_matches, events@, i));
                r
            } else {
                let c = SparseOnceChecker::new(m);
                let r = find_value_mc(events, value_matcher, c);
                assert(forall|i: int| 0 <= i < events@.len() ==> #[trigger] wanted(acc, c, events@, i) == search_wanted(acc, names, all_matches, events@, i));
                r
            }
        },
        VarInfo::Dense(v) => {
            if all_matches {
                let c = DenseChecker::new(v);
                let r = find_value_mc(events, value_matcher, c);
                assert(forall|i: int| 0 <= i < events@.len() ==> #[trigger] wanted(acc, c, events@, i) == search_wanted(acc, names, all_matches, events@, i));
                r
            } else {
                let c = DenseOnceChecker::new(v);
                let r = find_value_mc(events, value_matcher, c);
                assert(forall|i: int| 0 <= i < events@.len() ==> #[trigger] wanted(acc, c, events@, i) == search_wanted(acc, names, all_matches, events@, i));
                r
            }
        },
    }
}

} // verus!
