//! The value change pass of a clip: the events of the source inside the
//! time window, moved to a time axis that starts at the window's start, with
//! the values held at the window's start carried into its first step.
use crate::types::{Event, Handle, ValueChange};
use crate::writer::{Record, Writer};
use std::collections::HashMap;
use vstd::prelude::*;

verus! {

broadcast use vstd::std_specs::hash::group_hash_axioms;

/// The state of the value change pass after a prefix of the source events.
///
/// `held` maps each signal whose last change so far came before the window
/// to that change's value and kind; `order` lists those signals in the order
/// in which they were first held. `last_time` is the source time of the last
/// time step written; `stopped` is set by the first event after the window.
pub struct FillState {
    pub last_time: u64,
    pub order: Seq<u32>,
    pub held: Map<u32, (Seq<u8>, bool)>,
    pub stopped: bool,
    pub out: Seq<Record>,
}

/// The changes that write the held values, in the order of `order`.
pub open spec fn held_records(
    map: Map<u32, u32>,
    order: Seq<u32>,
    held: Map<u32, (Seq<u8>, bool)>,
) -> Seq<Record> {
    order.map_values(
        |h: u32| Record::ValueChange { handle: map[h], value: held[h].0, var_len: held[h].1 },
    )
}

/// One source event processed, with window `[start, end]` and the map
/// `map` from source handles to output handles.
pub open spec fn fill_step(map: Map<u32, u32>, start: u64, end: u64, s: FillState, e: Event) -> FillState {
    if s.stopped || !map.contains_key(e.handle) {
        s
    } else if e.time < start {
        FillState {
            order: if s.held.contains_key(e.handle) {
                s.order
            } else {
                s.order.push(e.handle)
            },
            held: s.held.insert(e.handle, (e.value, e.var_len)),
            ..s
        }
    } else if e.time > end {
        FillState { stopped: true, ..s }
    } else {
        FillState {
            last_time: e.time,
            order: Seq::empty(),
            held: Map::empty(),
            stopped: false,
            out: s.out + held_records(map, s.order, s.held) + (if e.time != s.last_time {
                seq![Record::TimeChange((e.time - start) as u64)]
            } else {
                Seq::empty()
            }) + seq![
                Record::ValueChange { handle: map[e.handle], value: e.value, var_len: e.var_len },
            ],
        }
    }
}

/// The events `es` processed one by one from `s0`.
pub open spec fn fill_run(map: Map<u32, u32>, start: u64, end: u64, s0: FillState, es: Seq<Event>) -> FillState
    decreases es.len(),
{
    if es.len() == 0 {
        s0
    } else {
        fill_step(map, start, end, fill_run(map, start, end, s0, es.drop_last()), es.last())
    }
}

/// The close of the pass: the values still held (those of signals with no
/// change inside the window, written at its start), then a time step to the
/// window's end unless it is the current step.
pub open spec fn fill_finish(map: Map<u32, u32>, start: u64, end: u64, s: FillState) -> Seq<Record> {
    let out = s.out + held_records(map, s.order, s.held);
    if end != s.last_time {
        out.push(Record::TimeChange((end - start) as u64))
    } else {
        out
    }
}

/// What the pass writes for the events `es` from the state `s0`.
pub open spec fn fill_output(map: Map<u32, u32>, start: u64, end: u64, s0: FillState, es: Seq<Event>) -> Seq<Record> {
    fill_finish(map, start, end, fill_run(map, start, end, s0, es))
}

/// The state of a pass that has processed nothing.
pub open spec fn fill_start(start: u64) -> FillState {
    FillState {
        last_time: start,
        order: Seq::empty(),
        held: Map::empty(),
        stopped: false,
        out: Seq::empty(),
    }
}

pub open spec fn events_view(es: Seq<ValueChange>) -> Seq<Event> {
    es.map_values(|e: ValueChange| e@)
}

/// Writer of the value changes of a clip.
pub struct VcdWriter {
    writer: Writer,
    start_time: u64,
    end_time: u64,
    handles: HashMap<u32, u32>,
    last_time: u64,
    order: Vec<u32>,
    last_values: HashMap<u32, (Vec<u8>, bool)>,
}

impl VcdWriter {
    /// The trace being written.
    pub closed spec fn writer(&self) -> Writer {
        self.writer
    }

    pub closed spec fn start_time(&self) -> u64 {
        self.start_time
    }

    pub closed spec fn end_time(&self) -> u64 {
        self.end_time
    }

    /// The map from source handles to output handles.
    pub closed spec fn handles(&self) -> Map<u32, u32> {
        self.handles@
    }

    /// The state of the pass, with nothing written yet.
    pub closed spec fn state(&self) -> FillState {
        FillState {
            last_time: self.last_time,
            order: self.order@,
            held: self.last_values@.map_values(|p: (Vec<u8>, bool)| (p.0@, p.1)),
            stopped: false,
            out: Seq::empty(),
        }
    }

    pub closed spec fn inv(&self) -> bool {
        &&& self.start_time <= self.last_time
        &&& self.start_time <= self.end_time
        &&& forall|k: u32| #[trigger] self.handles@.contains_key(k) ==> self.handles@[k] != 0
        &&& forall|i: int, j: int| 0 <= i < j < self.order@.len() ==> #[trigger] self.order@[i] != #[trigger] self.order@[j]
        &&& forall|h: u32| #[trigger] self.last_values@.contains_key(h) ==> self.order@.contains(h)
        &&& forall|i: int|
            0 <= i < self.order@.len() ==> #[trigger] self.last_values@.contains_key(self.order@[i])
        &&& forall|i: int|
            0 <= i < self.order@.len() ==> #[trigger] self.handles@.contains_key(self.order@[i])
    }

    /// Creates the pass over the window `[start, end]`, writing to `writer`
    /// through the map `handles` from source to output handles.
    pub fn new(writer: Writer, start: u64, end: u64, handles: HashMap<u32, u32>) -> (r: Self)
        requires
            start <= end,
            forall|k: u32| #[trigger] handles@.contains_key(k) ==> handles@[k] != 0,
        ensures
            r.inv(),
            r.writer() == writer,
            r.start_time() == start,
            r.end_time() == end,
            r.handles() == handles@,
            r.state() == fill_start(start),
    {
        let r = VcdWriter {
            writer,
            start_time: start,
            end_time: end,
            handles,
            last_time: start,
            order: Vec::new(),
            last_values: HashMap::new(),
        };
        assert(r.state().held =~= Map::<u32, (Seq<u8>, bool)>::empty());
        assert(r.state().order =~= Seq::<u32>::empty());
        r
    }

    /// Gives back the trace written.
    pub fn into_writer(self) -> (r: Writer)
        ensures
            r == self.writer(),
    {
        self.writer
    }

    /// Writes the values held from before the window, then forgets them.
    fn write_prev_value_changes(&mut self)
        requires
            old(self).inv(),
        ensures
            final(self).inv(),
            final(self).writer().records() == old(self).writer().records() + held_records(
                old(self).handles(),
                old(self).state().order,
                old(self).state().held,
            ),
            final(self).writer().num_vars() == old(self).writer().num_vars(),
            final(self).writer().header() == old(self).writer().header(),
            final(self).state() == (FillState {
                order: Seq::empty(),
                held: Map::empty(),
                ..old(self).state()
            }),
            final(self).start_time() == old(self).start_time(),
            final(self).end_time() == old(self).end_time(),
            final(self).handles() == old(self).handles(),
    {
        let ghost s = self.state();
        let ghost base = self.writer.records();
        let mut k: usize = 0;
        while k < self.order.len()
            invariant
                0 <= k <= self.order@.len(),
                self.inv(),
                s == self.state(),
                self.handles@ == old(self).handles@,
                self.start_time == old(self).start_time,
                self.end_time == old(self).end_time,
                self.writer.num_vars() == old(self).writer.num_vars(),
                self.writer.header() == old(self).writer.header(),
                self.writer.records() == base + held_records(self.handles@, s.order.take(k as int), s.held),
            decreases self.order@.len() - k,
        {
            let h = self.order[k];
            assert(self.last_values@.contains_key(h));
            assert(self.handles@.contains_key(h));
            let target = match self.handles.get(&h) {
                Some(t) => *t,
                None => 0,
            };
            let handle = Handle::from_non_zero(target);
            match self.last_values.get(&h) {
                Some(held) => {
                    if held.1 {
                        self.writer.emit_var_len_value_change(handle, &held.0);
                    } else {
                        self.writer.emit_value_change(handle, &held.0);
                    }
                },
                None => {},
            }
            assert(s.order.take(k + 1) =~= s.order.take(k as int).push(h));
            assert(held_records(self.handles@, s.order.take(k + 1), s.held) =~= held_records(
                self.handles@,
                s.order.take(k as int),
                s.held,
            ).push(Record::ValueChange { handle: self.handles@[h], value: s.held[h].0, var_len: s.held[h].1 }));
            k = k + 1;
        }
        assert(s.order.take(k as int) =~= s.order);
        self.order = Vec::new();
        self.last_values = HashMap::new();
        assert(self.state().held =~= Map::<u32, (Seq<u8>, bool)>::empty());
        assert(self.state().order =~= Seq::<u32>::empty());
    }

    /// Moves to the source time `time`, unless it is the current step.
    fn write_time_change(&mut self, time: u64)
        requires
            old(self).inv(),
            old(self).start_time() <= time,
        ensures
            final(self).inv(),
            final(self).writer().records() == old(self).writer().records() + (if time != old(
                self,
            ).state().last_time {
                seq![Record::TimeChange((time - old(self).start_time()) as u64)]
            } else {
                Seq::empty()
            }),
            final(self).writer().num_vars() == old(self).writer().num_vars(),
            final(self).writer().header() == old(self).writer().header(),
            final(self).state() == (FillState { last_time: time, ..old(self).state() }),
            final(self).start_time() == old(self).start_time(),
            final(self).end_time() == old(self).end_time(),
            final(self).handles() == old(self).handles(),
    {
        if time != self.last_time {
            self.writer.emit_time_change(time - self.start_time);
            self.last_time = time;
        } else {
            assert(self.writer.records() + Seq::empty() =~= self.writer.records());
        }
    }

    /// Processes the source events `events` in order, then closes the window:
    /// writes the values still held from before it (when no event fell inside
    /// it) and a time step at its end.
    pub fn write(&mut self, events: &Vec<ValueChange>)
        requires
            old(self).inv(),
        ensures
            final(self).writer().records() == old(self).writer().records() + fill_output(
                old(self).handles(),
                old(self).start_time(),
                old(self).end_time(),
                old(self).state(),
                events_view(events@),
            ),
            final(self).writer().num_vars() == old(self).writer().num_vars(),
            final(self).writer().header() == old(self).writer().header(),
            final(self).handles() == old(self).handles(),
            final(self).start_time() == old(self).start_time(),
            final(self).end_time() == old(self).end_time(),
    {
        let ghost es = events_view(events@);
        let ghost map = self.handles@;
        let ghost start = self.start_time;
        let ghost end = self.end_time;
        let ghost s0 = self.state();
        let ghost base = self.writer.records();
        let mut stopped = false;
        let mut i: usize = 0;
        assert(es.take(0) =~= Seq::<Event>::empty());
        assert(base + s0.out =~= base);
        while i < events.len() && !stopped
            invariant
                0 <= i <= events.len(),
                es == events_view(events@),
                self.inv(),
                self.handles@ == map,
                self.start_time == start,
                self.end_time == end,
                self.writer.num_vars() == old(self).writer.num_vars(),
                self.writer.header() == old(self).writer.header(),
                ({
                    let s = fill_run(map, start, end, s0, es.take(i as int));
                    &&& s.stopped == stopped
                    &&& self.state() == (FillState { out: Seq::empty(), stopped: false, ..s })
                    &&& self.writer.records() == base + s.out
                }),
            decreases events.len() - i,
        {
            let ghost s = fill_run(map, start, end, s0, es.take(i as int));
            assert(es.take(i + 1).drop_last() =~= es.take(i as int));
            assert(es.take(i + 1).last() == events@[i as int]@);
            let e = &events[i];
            let h = e.handle.get();
            let target = match self.handles.get(&h) {
                Some(t) => Some(*t),
                None => None,
            };
            match target {
                None => {},
                Some(t) => {
                    if e.time < self.start_time {
                        let ghost old_order = self.order@;
                        let ghost old_lv = self.last_values@;
                        if !self.last_values.contains_key(&h) {
                            self.order.push(h);
                        }
                        let v = e.value.clone();
                        assert(v@ == e.value@);
                        self.last_values.insert(h, (v, e.var_len));
                        assert(self.state().held =~= s.held.insert(h, (e.value@, e.var_len)));
                        assert forall|a: int, b: int| 0 <= a < b < self.order@.len() implies #[trigger] self.order@[a] != #[trigger] self.order@[b] by {
                            if b == old_order.len() {
                                assert(self.order@[a] == old_order[a]);
                                assert(old_lv.contains_key(old_order[a]));
                                assert(!old_lv.contains_key(h));
                            } else {
                                assert(self.order@[a] == old_order[a]);
                                assert(self.order@[b] == old_order[b]);
                            }
                        }
                        assert forall|h2: u32| #[trigger] self.last_values@.contains_key(h2) implies self.order@.contains(h2) by {
                            if h2 == h {
                                if old_order.len() < self.order@.len() {
                                    assert(self.order@[old_order.len() as int] == h);
                                } else {
                                    assert(old_lv.contains_key(h));
                                    assert(old_order.contains(h));
                                    let j = choose|j: int| 0 <= j < old_order.len() && old_order[j] == h;
                                    assert(self.order@[j] == h);
                                }
                            } else {
                                assert(old_lv.contains_key(h2));
                                assert(old_order.contains(h2));
                                let j = choose|j: int| 0 <= j < old_order.len() && old_order[j] == h2;
                                assert(self.order@[j] == h2);
                            }
                        }
                        assert forall|j: int| 0 <= j < self.order@.len() implies #[trigger] self.last_values@.contains_key(self.order@[j]) by {
                            if j < old_order.len() {
                                assert(self.order@[j] == old_order[j]);
                            }
                        }
                        assert forall|j: int| 0 <= j < self.order@.len() implies #[trigger] self.handles@.contains_key(self.order@[j]) by {
                            if j < old_order.len() {
                                assert(self.order@[j] == old_order[j]);
                            }
                        }
                    } else if e.time > self.end_time {
                        stopped = true;
                    } else {
                        let ghost w0 = self.writer.records();
                        self.write_prev_value_changes();
                        self.write_time_change(e.time);
                        let handle = Handle::from_non_zero(t);
                        if e.var_len {
                            self.writer.emit_var_len_value_change(handle, &e.value);
                        } else {
                            self.writer.emit_value_change(handle, &e.value);
                        }
                        let ghost tc = if e.time != s.last_time {
                            seq![Record::TimeChange((e.time - start) as u64)]
                        } else {
                            Seq::<Record>::empty()
                        };
                        assert(self.writer.records() =~= base + (s.out + held_records(map, s.order, s.held) + tc + seq![
                            Record::ValueChange { handle: map[h], value: e.value@, var_len: e.var_len },
                        ]));
                    }
                },
            }
            i = i + 1;
        }
        proof {
            if stopped {
                lemma_fill_stopped(map, start, end, s0, es, i as int);
            } else {
                assert(es.take(i as int) =~= es);
            }
        }
        let ghost s = fill_run(map, start, end, s0, es);
        self.write_prev_value_changes();
        let end_time = self.end_time;
        self.write_time_change(end_time);
        assert(self.writer.records() =~= base + fill_finish(map, start, end, s));
    }
}

/// Once the pass has stopped, the events that follow change nothing.
pub proof fn lemma_fill_stopped(
    map: Map<u32, u32>,
    start: u64,
    end: u64,
    s0: FillState,
    es: Seq<Event>,
    i: int,
)
    requires
        0 <= i <= es.len(),
        fill_run(map, start, end, s0, es.take(i)).stopped,
    ensures
        fill_run(map, start, end, s0, es) == fill_run(map, start, end, s0, es.take(i)),
    decreases es.len() - i,
{
    if i < es.len() {
        assert(es.take(i + 1).drop_last() =~= es.take(i));
        lemma_fill_stopped(map, start, end, s0, es, i + 1);
    } else {
        assert(es.take(i) =~= es);
    }
}

} // verus!
