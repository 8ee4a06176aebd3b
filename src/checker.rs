//! Which signals a value search reports on, and how often.
use crate::filter::{regex_accepts, SignalFilter};
use crate::types::{Handle, Hier};
use crate::vars::{var_name_at, var_names, var_positions};
use std::collections::{HashMap, HashSet};
use vstd::prelude::*;

verus! {

broadcast use vstd::std_specs::hash::group_hash_axioms;

/// Names of the searched signals, by handle.
pub type VarMap = HashMap<u32, String>;

/// Names of all signals: the one of handle `h` at `h - 1`.
pub type VarArray = Vec<String>;

/// The names in a [`VarMap`].
pub open spec fn map_names(m: Map<u32, String>) -> Map<u32, Seq<char>> {
    m.map_values(|s: String| s@)
}

/// The names in a [`VarArray`], by handle.
pub open spec fn array_names(v: Seq<String>) -> Map<u32, Seq<char>> {
    Map::new(|h: u32| 1 <= h <= v.len(), |h: u32| v[h - 1]@)
}

/// Tells whether a hit on a signal is to be reported, and under which name.
pub trait VarChecker<T>: Sized {
    /// The names of the searched signals, by handle.
    spec fn names(&self) -> Map<u32, Seq<char>>;

    /// Whether a hit on `h` is still to be reported.
    spec fn pending(&self, h: u32) -> bool;

    /// Whether `h` may be checked.
    spec fn can_check(&self, h: u32) -> bool;

    /// Whether a hit on a signal is reported only once.
    spec fn once(&self) -> bool;

    /// How many signals are searched.
    spec fn size(&self) -> nat;

    /// Whether the checker is the fresh one made of `vars`.
    spec fn made_of(&self, vars: T) -> bool;

    fn new(vars: T) -> (r: Self)
        ensures
            r.made_of(vars),
    ;

    fn num_vars(&self) -> (r: usize)
        ensures
            r == self.size(),
    ;

    /// Whether `handle` may be checked.
    fn accepts_handle(&self, handle: Handle) -> (r: bool)
        ensures
            r == self.can_check(handle.id()),
    ;

    /// The name of `handle` if a hit on it is to be reported.
    fn check(&mut self, handle: Handle) -> (r: Option<String>)
        requires
            old(self).can_check(handle.id()),
        ensures
            final(self).names() == old(self).names(),
            final(self).size() == old(self).size(),
            r is Some <==> old(self).names().contains_key(handle.id()) && old(self).pending(handle.id()),
            r matches Some(n) ==> n@ == old(self).names()[handle.id()],
            forall|h: u32| h != handle.id() ==> final(self).pending(h) == old(self).pending(h),
            forall|h: u32| final(self).can_check(h) == old(self).can_check(h),
            final(self).once() == old(self).once(),
            old(self).once() ==> !final(self).pending(handle.id()),
            !old(self).once() ==> final(self).pending(handle.id()) == old(self).pending(handle.id()),
    ;
}

/// Reports every hit on a signal of a map.
pub struct SparseChecker {
    vars: VarMap,
}

impl VarChecker<VarMap> for SparseChecker {
    open spec fn names(&self) -> Map<u32, Seq<char>> {
        map_names(self.view_vars())
    }

    open spec fn pending(&self, h: u32) -> bool {
        true
    }

    open spec fn can_check(&self, h: u32) -> bool {
        true
    }

    open spec fn once(&self) -> bool {
        false
    }

    open spec fn size(&self) -> nat {
        self.view_vars().dom().len()
    }

    open spec fn made_of(&self, vars: VarMap) -> bool {
        self.view_vars() == vars@
    }

    fn new(vars: VarMap) -> (r: Self) {
        SparseChecker { vars }
    }

    fn num_vars(&self) -> (r: usize) {
        self.vars.len()
    }

    fn accepts_handle(&self, handle: Handle) -> (r: bool) {
        true
    }

    fn check(&mut self, handle: Handle) -> (r: Option<String>) {
        match self.vars.get(&handle.get()) {
            Some(s) => Some(s.clone()),
            None => None,
        }
    }
}

impl SparseChecker {
    /// The map held.
    pub closed spec fn view_vars(&self) -> Map<u32, String> {
        self.vars@
    }
}

/// Reports every hit on any signal, named by an array.
pub struct DenseChecker {
    vars: VarArray,
}

impl DenseChecker {
    /// The names held.
    pub closed spec fn view_vars(&self) -> Seq<String> {
        self.vars@
    }
}

impl VarChecker<VarArray> for DenseChecker {
    open spec fn names(&self) -> Map<u32, Seq<char>> {
        array_names(self.view_vars())
    }

    open spec fn pending(&self, h: u32) -> bool {
        true
    }

    open spec fn can_check(&self, h: u32) -> bool {
        true
    }

    open spec fn once(&self) -> bool {
        false
    }

    open spec fn size(&self) -> nat {
        self.view_vars().len()
    }

    open spec fn made_of(&self, vars: VarArray) -> bool {
        self.view_vars() == vars@
    }

    fn new(vars: VarArray) -> (r: Self) {
        DenseChecker { vars }
    }

    fn num_vars(&self) -> (r: usize) {
        self.vars.len()
    }

    fn accepts_handle(&self, handle: Handle) -> (r: bool) {
        true
    }

    fn check(&mut self, handle: Handle) -> (r: Option<String>) {
        let i = handle.get() as usize;
        if i <= self.vars.len() {
            Some(self.vars[i - 1].clone())
        } else {
            None
        }
    }
}

/// Tells whether a signal is visited for the first time.
pub trait OnceVisitor: Sized {
    /// The handles visited so far.
    spec fn visited(&self) -> Set<u32>;

    /// Whether the handle `h` has room to be visited.
    spec fn room(&self, h: u32) -> bool;

    fn new(num_vars: usize) -> (r: Self)
        ensures
            r.visited() == Set::<u32>::empty(),
            forall|h: u32| 1 <= h <= num_vars ==> #[trigger] r.room(h),
    ;

    /// Whether `handle` has room to be visited.
    fn has_room(&self, handle: Handle) -> (r: bool)
        ensures
            r == self.room(handle.id()),
    ;

    /// Visits `handle`; `true` on its first visit.
    fn visit(&mut self, handle: Handle) -> (r: bool)
        requires
            old(self).room(handle.id()),
        ensures
            r == !old(self).visited().contains(handle.id()),
            final(self).visited() == old(self).visited().insert(handle.id()),
            forall|h: u32| final(self).room(h) == old(self).room(h),
    ;
}

/// Visitor that keeps a set of handles.
pub struct SparseVisitor {
    visited: HashSet<u32>,
}

impl SparseVisitor {
    pub closed spec fn view_set(&self) -> Set<u32> {
        self.visited@
    }
}

impl OnceVisitor for SparseVisitor {
    open spec fn visited(&self) -> Set<u32> {
        self.view_set()
    }

    open spec fn room(&self, h: u32) -> bool {
        true
    }

    fn new(num_vars: usize) -> (r: Self) {
        SparseVisitor { visited: HashSet::new() }
    }

    fn has_room(&self, handle: Handle) -> (r: bool) {
        true
    }

    fn visit(&mut self, handle: Handle) -> (r: bool) {
        self.visited.insert(handle.get())
    }
}

/// Whether bit `i` of `b` is set.
pub open spec fn bit_set(b: u8, i: u8) -> bool {
    (b >> i) & 1u8 == 1u8
}

/// Visitor that keeps one bit per handle, from handle 1 on.
pub struct DenseVisitor {
    visited: Vec<u8>,
}

impl DenseVisitor {
    pub closed spec fn bytes(&self) -> Seq<u8> {
        self.visited@
    }
}

pub open spec fn dense_room(bytes: Seq<u8>, h: u32) -> bool {
    1 <= h && (h - 1) / 8 < bytes.len()
}

pub open spec fn dense_visited(bytes: Seq<u8>) -> Set<u32> {
    Set::new(|h: u32| dense_room(bytes, h) && bit_set(bytes[(h - 1) / 8], ((h - 1) % 8) as u8))
}

impl OnceVisitor for DenseVisitor {
    open spec fn visited(&self) -> Set<u32> {
        dense_visited(self.bytes())
    }

    open spec fn room(&self, h: u32) -> bool {
        dense_room(self.bytes(), h)
    }

    fn new(num_vars: usize) -> (r: Self) {
        let n = num_vars / 8 + if num_vars % 8 == 0 {
            0
        } else {
            1
        };
        let mut visited: Vec<u8> = Vec::new();
        let mut k: usize = 0;
        while k < n
            invariant
                k <= n,
                visited@.len() == k,
                forall|j: int| 0 <= j < k ==> visited@[j] == 0u8,
            decreases n - k,
        {
            visited.push(0u8);
            k = k + 1;
        }
        let r = DenseVisitor { visited };
        assert forall|h: u32| !r.visited().contains(h) by {
            if dense_room(r.bytes(), h) {
                let b: u8 = 0;
                let i = ((h - 1) % 8) as u8;
                assert(i < 8);
                assert((b >> i) & 1u8 == 0u8) by (bit_vector)
                    requires
                        b == 0u8,
                ;
            }
        }
        assert(r.visited() =~= Set::<u32>::empty());
        r
    }

    fn has_room(&self, handle: Handle) -> (r: bool) {
        (handle.get() - 1) as usize / 8 < self.visited.len()
    }

    fn visit(&mut self, handle: Handle) -> (r: bool) {
        let ghost old_bytes = self.visited@;
        let index = (handle.get() - 1) as usize;
        let bi = index / 8;
        let bit_no = (index % 8) as u8;
        let bit: u8 = 1u8 << bit_no;
        let byte = self.visited[bi];
        let ret = (byte & bit) == 0;
        let nb = byte | bit;
        self.visited.set(bi, nb);
        proof {
            assert(bit_no < 8);
            assert(ret == !bit_set(byte, bit_no)) by (bit_vector)
                requires
                    bit == 1u8 << bit_no,
                    bit_no < 8,
                    ret == ((byte & bit) == 0u8),
            ;
            assert(bit_set(nb, bit_no)) by (bit_vector)
                requires
                    bit == 1u8 << bit_no,
                    bit_no < 8,
                    nb == byte | bit,
            ;
            assert forall|j: u8| j < 8 && j != bit_no implies bit_set(nb, j) == bit_set(byte, j) by {
                assert(bit_set(nb, j) == bit_set(byte, j)) by (bit_vector)
                    requires
                        bit == 1u8 << bit_no,
                        bit_no < 8,
                        j < 8,
                        j != bit_no,
                        nb == byte | bit,
                ;
            }
            let id = handle.id();
            assert forall|h: u32| #[trigger] self.visited().contains(h) == old(self).visited().insert(id).contains(h) by {
                if dense_room(old_bytes, h) {
                    let hb = (h - 1) / 8;
                    let hj = ((h - 1) % 8) as u8;
                    if hb as int == bi as int {
                        if hj == bit_no {
                            assert(h == id);
                        } else {
                            assert(h != id);
                        }
                    }
                }
            }
            assert(self.visited() =~= old(self).visited().insert(id));
        }
        ret
    }
}

/// Reports a hit on a signal only the first time.
pub struct OnceChecker<V, C> {
    visitor: V,
    checker: C,
}

impl<V, C> OnceChecker<V, C> {
    pub closed spec fn visitor(&self) -> V {
        self.visitor
    }

    pub closed spec fn checker(&self) -> C {
        self.checker
    }
}

impl<T, V: OnceVisitor, C: VarChecker<T>> VarChecker<T> for OnceChecker<V, C> {
    open spec fn names(&self) -> Map<u32, Seq<char>> {
        self.checker().names()
    }

    open spec fn pending(&self, h: u32) -> bool {
        !self.visitor().visited().contains(h) && self.checker().pending(h)
    }

    open spec fn can_check(&self, h: u32) -> bool {
        self.visitor().room(h) && self.checker().can_check(h)
    }

    open spec fn once(&self) -> bool {
        true
    }

    open spec fn size(&self) -> nat {
        self.checker().size()
    }

    open spec fn made_of(&self, vars: T) -> bool {
        &&& self.checker().made_of(vars)
        &&& self.visitor().visited() == Set::<u32>::empty()
        &&& forall|h: u32| 1 <= h <= self.checker().size() ==> #[trigger] self.visitor().room(h)
    }

    fn new(vars: T) -> (r: Self) {
        let checker = C::new(vars);
        let visitor = V::new(checker.num_vars());
        OnceChecker { visitor, checker }
    }

    fn num_vars(&self) -> (r: usize) {
        self.checker.num_vars()
    }

    fn accepts_handle(&self, handle: Handle) -> (r: bool) {
        self.visitor.has_room(handle) && self.checker.accepts_handle(handle)
    }

    fn check(&mut self, handle: Handle) -> (r: Option<String>) {
        if self.visitor.visit(handle) {
            self.checker.check(handle)
        } else {
            None
        }
    }
}

/// Reports every hit on a signal of a map, the first time only.
pub type SparseOnceChecker = OnceChecker<SparseVisitor, SparseChecker>;

/// Reports every hit on any signal, the first time only.
pub type DenseOnceChecker = OnceChecker<DenseVisitor, DenseChecker>;

/// The signals a value search looks at.
pub enum VarInfo {
    /// Those that a pattern selects, by handle.
    Sparse(VarMap),
    /// All of them, by handle.
    Dense(VarArray),
}

/// Whether the variable at a position of `hs` is no alias.
pub open spec fn non_alias(hs: Seq<Hier>) -> spec_fn(int) -> bool {
    |p: int| !(hs[p]->Var_0).alias
}

/// Whether the `j`-th variable of `hs` is of handle `h` and the pattern `p`
/// matches its qualified name.
pub open spec fn selected_at(p: Seq<char>, hs: Seq<Hier>, j: int, h: u32) -> bool {
    let q = var_positions(hs)[j];
    (hs[q]->Var_0).handle.id() == h && regex_accepts(p, var_name_at(hs, q))
}

/// Whether the `j`-th variable of `hs` is kept for handle `h`: it is
/// selected, and it is no alias or no earlier variable of `h` was selected.
pub open spec fn kept_at(p: Seq<char>, hs: Seq<Hier>, j: int, h: u32) -> bool {
    &&& selected_at(p, hs, j, h)
    &&& (hs[var_positions(hs)[j]]->Var_0).alias ==> !exists|i: int| 0 <= i < j && #[trigger] selected_at(p, hs, i, h)
}

/// The variable at position `i` of `hs`, if there is one.
pub open spec fn is_var_at(hs: Seq<Hier>, i: int) -> bool {
    0 <= i < hs.len() && hs[i] is Var
}

impl VarInfo {
    /// Collects the signals of `hiers` to search: without `re`, the names of
    /// all variables that are no alias, in order; with `re`, the variables
    /// whose qualified name it matches, by handle. A matching variable is
    /// kept if it is no alias, or if no earlier variable of its handle
    /// matched; each handle maps to the name of the last variable kept.
    pub fn new(hiers: &Vec<Hier>, re: Option<SignalFilter>) -> (r: VarInfo)
        ensures
            re is None ==> r is Dense,
            re matches Some(f) ==> r is Sparse,
            r matches VarInfo::Dense(v) ==> {
                let ps = var_positions(hiers@).filter(non_alias(hiers@));
                &&& v@.len() == ps.len()
                &&& forall|k: int| 0 <= k < v@.len() ==> (#[trigger] v@[k])@ == var_name_at(hiers@, ps[k])
            },
            r matches VarInfo::Sparse(m) ==> re matches Some(f) && {
                let p = f.pattern();
                let n = var_positions(hiers@).len();
                &&& forall|h: u32| #[trigger] m@.contains_key(h) <==> exists|k: int| 0 <= k < n && #[trigger] selected_at(p, hiers@, k, h)
                &&& forall|h: u32| #[trigger] m@.contains_key(h) ==> exists|j: int| {
                    &&& 0 <= j < n
                    &&& kept_at(p, hiers@, j, h)
                    &&& m@[h]@ == var_name_at(hiers@, var_positions(hiers@)[j])
                    &&& forall|i: int| j < i < n ==> !#[trigger] kept_at(p, hiers@, i, h)
                }
            },
    {
        let names = var_names(hiers);
        proof {
            lemma_positions_are_vars(hiers@);
        }
        match re {
            Some(f) => {
                let ghost p = f.pattern();
                let ghost ps = var_positions(hiers@);
                let mut vars: VarMap = HashMap::new();
                let ghost mut last: Map<u32, int> = Map::empty();
                let mut k: usize = 0;
                while k < names.len()
                    invariant
                        0 <= k <= names@.len(),
                        p == f.pattern(),
                        ps == var_positions(hiers@),
                        names@.len() == ps.len(),
                        forall|j: int| 0 <= j < names@.len() ==> {
                            &&& (#[trigger] names@[j]).1 == ps[j]
                            &&& names@[j].0@ == var_name_at(hiers@, names@[j].1 as int)
                        },
                        forall|j: int| 0 <= j < ps.len() ==> is_var_at(hiers@, #[trigger] ps[j]),
                        forall|h: u32| #[trigger] vars@.contains_key(h) <==> exists|j: int| 0 <= j < k && #[trigger] selected_at(p, hiers@, j, h),
                        forall|h: u32| #[trigger] vars@.contains_key(h) ==> {
                            &&& last.contains_key(h)
                            &&& 0 <= last[h] < k
                            &&& kept_at(p, hiers@, last[h], h)
                            &&& vars@[h]@ == var_name_at(hiers@, ps[last[h]])
                            &&& forall|i: int| last[h] < i < k ==> !#[trigger] kept_at(p, hiers@, i, h)
                        },
                    decreases names@.len() - k,
                {
                    let idx = names[k].1;
                    assert(is_var_at(hiers@, ps[k as int]));
                    if let Hier::Var(v) = &hiers[idx] {
                        let h = v.handle.get();
                        let ghost old_vars = vars@;
                        let ghost old_last = last;
                        let sel = f.is_match(names[k].0.as_str());
                        assert(sel == selected_at(p, hiers@, k as int, h));
                        let keep = sel && (!v.alias || !vars.contains_key(&h));
                        proof {
                            if keep {
                                assert(kept_at(p, hiers@, k as int, h));
                            } else {
                                assert(!kept_at(p, hiers@, k as int, h));
                            }
                            assert forall|h2: u32| h2 != h implies !#[trigger] kept_at(p, hiers@, k as int, h2) by {}
                        }
                        if keep {
                            vars.insert(h, names[k].0.clone());
                            proof {
                                last = last.insert(h, k as int);
                            }
                        }
                        assert forall|h2: u32| #[trigger] vars@.contains_key(h2) <==> exists|j: int| 0 <= j < k + 1 && #[trigger] selected_at(p, hiers@, j, h2) by {
                            if exists|j: int| 0 <= j < k + 1 && #[trigger] selected_at(p, hiers@, j, h2) {
                                let j = choose|j: int| 0 <= j < k + 1 && #[trigger] selected_at(p, hiers@, j, h2);
                                if j < k {
                                    assert(old_vars.contains_key(h2));
                                }
                            }
                            if old_vars.contains_key(h2) {
                                let j = choose|j: int| 0 <= j < k && #[trigger] selected_at(p, hiers@, j, h2);
                                assert(selected_at(p, hiers@, j, h2));
                            }
                        }
                        assert forall|h2: u32| #[trigger] vars@.contains_key(h2) implies {
                            &&& last.contains_key(h2)
                            &&& 0 <= last[h2] < k + 1
                            &&& kept_at(p, hiers@, last[h2], h2)
                            &&& vars@[h2]@ == var_name_at(hiers@, ps[last[h2]])
                            &&& forall|i: int| last[h2] < i < k + 1 ==> !#[trigger] kept_at(p, hiers@, i, h2)
                        } by {
                            if keep && h2 == h {
                            } else {
                                assert(old_vars.contains_key(h2));
                                assert(last[h2] == old_last[h2]);
                            }
                        }
                    }
                    k = k + 1;
                }
                VarInfo::Sparse(vars)
            },
            None => {
                let ghost ps_all = var_positions(hiers@);
                let mut vars: VarArray = Vec::new();
                let mut k: usize = 0;
                while k < names.len()
                    invariant
                        0 <= k <= names@.len(),
                        names@.len() == ps_all.len(),
                        ps_all == var_positions(hiers@),
                        forall|j: int| 0 <= j < names@.len() ==> {
                            &&& (#[trigger] names@[j]).1 == ps_all[j]
                            &&& names@[j].0@ == var_name_at(hiers@, names@[j].1 as int)
                        },
                        forall|j: int| 0 <= j < ps_all.len() ==> is_var_at(hiers@, #[trigger] ps_all[j]),
                        ({
                            let ps = ps_all.take(k as int).filter(non_alias(hiers@));
                            &&& vars@.len() == ps.len()
                            &&& forall|j: int| 0 <= j < vars@.len() ==> (#[trigger] vars@[j])@ == var_name_at(hiers@, ps[j])
                        }),
                    decreases names@.len() - k,
                {
                    let ghost pred = non_alias(hiers@);
                    proof {
                        reveal(Seq::filter);
                    }
                    let idx = names[k].1;
                    assert(is_var_at(hiers@, ps_all[k as int]));
                    assert(ps_all.take(k + 1).drop_last() =~= ps_all.take(k as int));
                    assert(ps_all.take(k + 1).last() == ps_all[k as int]);
                    if let Hier::Var(v) = &hiers[idx] {
                        if !v.alias {
                            vars.push(names[k].0.clone());
                            assert(ps_all.take(k + 1).filter(pred) == ps_all.take(k as int).filter(pred).push(ps_all[k as int]));
                        } else {
                            assert(ps_all.take(k + 1).filter(pred) == ps_all.take(k as int).filter(pred));
                        }
                    }
                    k = k + 1;
                }
                assert(ps_all.take(k as int) =~= ps_all);
                VarInfo::Dense(vars)
            },
        }
    }
}

pub proof fn lemma_positions_are_vars(hs: Seq<Hier>)
    ensures
        forall|j: int| 0 <= j < var_positions(hs).len() ==> is_var_at(hs, #[trigger] var_positions(hs)[j]),
        forall|j1: int, j2: int|
            0 <= j1 < j2 < var_positions(hs).len() ==> #[trigger] var_positions(hs)[j1] < #[trigger] var_positions(hs)[j2],
    decreases hs.len(),
{
    if hs.len() > 0 {
        lemma_positions_are_vars(hs.drop_last());
        let p = var_positions(hs.drop_last());
        assert forall|j: int| 0 <= j < var_positions(hs).len() implies is_var_at(hs, #[trigger] var_positions(hs)[j]) by {
            if j < p.len() {
                assert(is_var_at(hs.drop_last(), p[j]));
                assert(hs.drop_last()[p[j]] == hs[p[j]]);
            }
        }
        assert forall|j1: int, j2: int|
            0 <= j1 < j2 < var_positions(hs).len() implies #[trigger] var_positions(hs)[j1] < #[trigger] var_positions(hs)[j2] by {
            if j2 >= p.len() {
                assert(is_var_at(hs.drop_last(), p[j1]));
            }
        }
    }
}

} // verus!
