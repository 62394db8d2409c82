use vstd::prelude::*;
use crate::action::Action;
use crate::resource::KeyView;

verus! {

/// A key that waits for its turn, and the earliest time at which it may be taken.
pub struct EntryView {
    pub key: KeyView,
    pub ready_at: u64,
}

/// A key whose reconciliation is running, and whether a request for it arrived meanwhile.
pub struct FlightView {
    pub key: KeyView,
    pub dirty: bool,
}

/// The time `secs` seconds after `now`, held at the largest time that can be written.
pub open spec fn later(now: u64, secs: u64) -> u64 {
    if now + secs > u64::MAX {
        u64::MAX
    } else {
        (now + secs) as u64
    }
}

/// The seconds from `now` until `t`; 0 where `t` is not after `now`.
pub open spec fn until(now: u64, t: u64) -> u64 {
    if t > now {
        (t - now) as u64
    } else {
        0
    }
}

/// `i` is the first waiting entry that is ready at `now`.
pub open spec fn first_ready(waiting: Seq<EntryView>, now: u64, i: int) -> bool {
    &&& 0 <= i < waiting.len()
    &&& waiting[i].ready_at <= now
    &&& forall|j: int| 0 <= j < i ==> waiting[j].ready_at > now
}

/// How many of the flights are flights of `key`.
pub open spec fn flights_of(running: Seq<FlightView>, key: KeyView) -> nat
    decreases running.len(),
{
    if running.len() == 0 {
        0
    } else {
        flights_of(running.drop_last(), key) + if running.last().key == key {
            1nat
        } else {
            0nat
        }
    }
}

proof fn lemma_no_flight(running: Seq<FlightView>, key: KeyView)
    requires
        forall|i: int| 0 <= i < running.len() ==> running[i].key != key,
    ensures
        flights_of(running, key) == 0,
    decreases running.len(),
{
    if running.len() > 0 {
        lemma_no_flight(running.drop_last(), key);
    }
}

proof fn lemma_flights_of_distinct(running: Seq<FlightView>, key: KeyView)
    requires
        forall|i: int, j: int|
            0 <= i < running.len() && 0 <= j < running.len() && i != j ==> running[i].key
                != running[j].key,
    ensures
        flights_of(running, key) <= 1,
        flights_of(running, key) == 1 <==> exists|i: int|
            0 <= i < running.len() && running[i].key == key,
    decreases running.len(),
{
    if running.len() > 0 {
        let front = running.drop_last();
        lemma_flights_of_distinct(front, key);
        if running.last().key == key {
            assert forall|i: int| 0 <= i < front.len() implies front[i].key != key by {
                assert(front[i] == running[i]);
            }
            lemma_no_flight(front, key);
            assert(running[running.len() - 1].key == key);
        } else {
            if exists|i: int| 0 <= i < running.len() && running[i].key == key {
                let i = choose|i: int| 0 <= i < running.len() && running[i].key == key;
                assert(front[i].key == key);
            }
            if exists|i: int| 0 <= i < front.len() && front[i].key == key {
                let i = choose|i: int| 0 <= i < front.len() && front[i].key == key;
                assert(running[i].key == key);
            }
        }
    }
}

/// The entries of `waiting` whose key is in `keep`, in their order.
pub open spec fn kept(waiting: Seq<EntryView>, keep: Set<KeyView>) -> Seq<EntryView>
    decreases waiting.len(),
{
    if waiting.len() == 0 {
        Seq::empty()
    } else if keep.contains(waiting.last().key) {
        kept(waiting.drop_last(), keep).push(waiting.last())
    } else {
        kept(waiting.drop_last(), keep)
    }
}

/// The flights, none of them dirty but those of keys in `keep`.
pub open spec fn calmed(running: Seq<FlightView>, keep: Set<KeyView>) -> Seq<FlightView> {
    Seq::new(
        running.len(),
        |i: int|
            if keep.contains(running[i].key) {
                running[i]
            } else {
                FlightView { key: running[i].key, dirty: false }
            },
    )
}

/// Every kept entry is an entry of the list it was kept from, and its key is in `keep`.
pub proof fn lemma_kept_from(waiting: Seq<EntryView>, keep: Set<KeyView>, a: int)
    requires
        0 <= a < kept(waiting, keep).len(),
    ensures
        exists|b: int| 0 <= b < waiting.len() && waiting[b] == kept(waiting, keep)[a],
        keep.contains(kept(waiting, keep)[a].key),
    decreases waiting.len(),
{
    if waiting.len() > 0 {
        let front = waiting.drop_last();
        if keep.contains(waiting.last().key) && a == kept(front, keep).len() {
            assert(waiting[waiting.len() - 1] == kept(waiting, keep)[a]);
        } else {
            lemma_kept_from(front, keep, a);
            let b = choose|b: int| 0 <= b < front.len() && front[b] == kept(front, keep)[a];
            assert(waiting[b] == kept(waiting, keep)[a]);
        }
    }
}

proof fn lemma_kept_distinct(waiting: Seq<EntryView>, keep: Set<KeyView>)
    requires
        forall|i: int, j: int|
            0 <= i < waiting.len() && 0 <= j < waiting.len() && i != j ==> waiting[i].key
                != waiting[j].key,
    ensures
        forall|i: int, j: int|
            0 <= i < kept(waiting, keep).len() && 0 <= j < kept(waiting, keep).len() && i != j
                ==> kept(waiting, keep)[i].key != kept(waiting, keep)[j].key,
    decreases waiting.len(),
{
    if waiting.len() > 0 {
        let front = waiting.drop_last();
        let last = waiting.last();
        assert forall|i: int, j: int|
            0 <= i < front.len() && 0 <= j < front.len() && i != j implies front[i].key
            != front[j].key by {
            assert(front[i] == waiting[i]);
            assert(front[j] == waiting[j]);
        }
        lemma_kept_distinct(front, keep);
        if keep.contains(last.key) {
            let out = kept(waiting, keep);
            let n = kept(front, keep).len() as int;
            assert forall|i: int, j: int|
                0 <= i < out.len() && 0 <= j < out.len() && i != j implies out[i].key
                != out[j].key by {
                if i < n && j == n {
                    lemma_kept_from(front, keep, i);
                    let b = choose|b: int| 0 <= b < front.len() && front[b] == kept(front, keep)[i];
                    assert(waiting[b] == out[i]);
                    assert(waiting[waiting.len() - 1] == out[j]);
                } else if j < n && i == n {
                    lemma_kept_from(front, keep, j);
                    let b = choose|b: int| 0 <= b < front.len() && front[b] == kept(front, keep)[j];
                    assert(waiting[b] == out[j]);
                    assert(waiting[waiting.len() - 1] == out[i]);
                }
            }
        }
    }
}

/// The work queue as a mathematical value: the waiting entries in queue order, the keys in
/// flight in the order they were taken, and the size of the worker pool.
pub struct QueueState {
    pub waiting: Seq<EntryView>,
    pub running: Seq<FlightView>,
    pub workers: nat,
}

/// One operation on the queue.
pub enum Op {
    Enqueue { key: KeyView, ready_at: u64 },
    Dequeue { now: u64 },
    Complete { key: KeyView, action: Action, now: u64 },
    Cancel { key: KeyView },
    Retain { keep: Set<KeyView> },
}

impl QueueState {
    /// The empty queue for a pool of `workers` workers.
    pub open spec fn empty(workers: nat) -> QueueState {
        QueueState { waiting: Seq::empty(), running: Seq::empty(), workers }
    }

    /// The waiting entry at index `i` is the entry of `key`.
    pub open spec fn waits_at(self, key: KeyView, i: int) -> bool {
        0 <= i < self.waiting.len() && self.waiting[i].key == key
    }

    /// The flight at index `i` is the flight of `key`.
    pub open spec fn runs_at(self, key: KeyView, i: int) -> bool {
        0 <= i < self.running.len() && self.running[i].key == key
    }

    /// `key` has a waiting entry.
    pub open spec fn is_waiting(self, key: KeyView) -> bool {
        exists|i: int| self.waits_at(key, i)
    }

    /// A reconciliation of `key` is in flight.
    pub open spec fn is_running(self, key: KeyView) -> bool {
        exists|i: int| self.runs_at(key, i)
    }

    /// The index of the waiting entry of `key`.
    pub open spec fn waiting_index(self, key: KeyView) -> int {
        choose|i: int| self.waits_at(key, i)
    }

    /// The index of `key` among the keys in flight.
    pub open spec fn running_index(self, key: KeyView) -> int {
        choose|i: int| self.runs_at(key, i)
    }

    /// How many reconciliations of `key` are in flight.
    pub open spec fn in_flight(self, key: KeyView) -> nat {
        flights_of(self.running, key)
    }

    /// The queue's invariant: no key waits twice, no key is in flight twice, no key both waits
    /// and is in flight, and the flights fit the pool.
    pub open spec fn wf(self) -> bool {
        &&& forall|i: int, j: int|
            0 <= i < self.waiting.len() && 0 <= j < self.waiting.len() && i != j
                ==> self.waiting[i].key != self.waiting[j].key
        &&& forall|i: int, j: int|
            0 <= i < self.running.len() && 0 <= j < self.running.len() && i != j
                ==> self.running[i].key != self.running[j].key
        &&& forall|i: int, j: int|
            0 <= i < self.waiting.len() && 0 <= j < self.running.len() ==> self.waiting[i].key
                != self.running[j].key
        &&& self.running.len() <= self.workers
    }

    /// A request to reconcile `key` no sooner than `ready_at`. For a key in flight it only marks
    /// the flight dirty. For a key that waits it replaces the time of the entry, which keeps its
    /// place. Any other key is added at the back.
    pub open spec fn enqueue(self, key: KeyView, ready_at: u64) -> QueueState {
        if self.is_running(key) {
            let i = self.running_index(key);
            QueueState {
                running: self.running.update(i, FlightView { key, dirty: true }),
                ..self
            }
        } else if self.is_waiting(key) {
            let i = self.waiting_index(key);
            QueueState { waiting: self.waiting.update(i, EntryView { key, ready_at }), ..self }
        } else {
            QueueState { waiting: self.waiting.push(EntryView { key, ready_at }), ..self }
        }
    }

    /// `t` is the earliest time at which a waiting key is ready.
    pub open spec fn earliest_is(self, t: u64) -> bool {
        &&& exists|i: int| 0 <= i < self.waiting.len() && self.waiting[i].ready_at == t
        &&& forall|j: int| 0 <= j < self.waiting.len() ==> self.waiting[j].ready_at >= t
    }

    /// Whether a worker is free.
    pub open spec fn has_free_worker(self) -> bool {
        self.running.len() < self.workers
    }

    /// The index of the entry that is taken at `now`: the first ready one, where a worker is
    /// free.
    pub open spec fn next_ready(self, now: u64) -> Option<int> {
        if self.has_free_worker() && exists|i: int| first_ready(self.waiting, now, i) {
            Some(choose|i: int| first_ready(self.waiting, now, i))
        } else {
            None
        }
    }

    /// The key that is handed to a worker at `now`, if any.
    pub open spec fn taken(self, now: u64) -> Option<KeyView> {
        match self.next_ready(now) {
            Some(i) => Some(self.waiting[i].key),
            None => None,
        }
    }

    /// The queue after a worker asked for work at `now`: the taken entry leaves the waiting list
    /// and its key is in flight, not dirty.
    pub open spec fn dequeue(self, now: u64) -> QueueState {
        match self.next_ready(now) {
            Some(i) => QueueState {
                waiting: self.waiting.remove(i),
                running: self.running.push(FlightView { key: self.waiting[i].key, dirty: false }),
                ..self
            },
            None => self,
        }
    }

    /// The queue after the reconciliation of `key` ended at `now` with `action`. A dirty key
    /// goes to the front, ready at once, whatever the action. Otherwise the action decides: a
    /// delay puts the key at the back, ready after the delay; no delay puts it nowhere. A key
    /// that is not in flight changes nothing.
    pub open spec fn complete(self, key: KeyView, action: Action, now: u64) -> QueueState {
        if self.is_running(key) {
            let i = self.running_index(key);
            let running = self.running.remove(i);
            if self.running[i].dirty {
                QueueState {
                    waiting: seq![EntryView { key, ready_at: now }] + self.waiting,
                    running,
                    ..self
                }
            } else {
                match action.delay() {
                    Some(secs) => QueueState {
                        waiting: self.waiting.push(EntryView { key, ready_at: later(now, secs) }),
                        running,
                        ..self
                    },
                    None => QueueState { running, ..self },
                }
            }
        } else {
            self
        }
    }

    /// The queue after `key` was withdrawn: its waiting entry is gone, and a flight of it is no
    /// longer dirty. The flight itself goes on.
    pub open spec fn cancel(self, key: KeyView) -> QueueState {
        if self.is_running(key) {
            let i = self.running_index(key);
            QueueState {
                running: self.running.update(i, FlightView { key, dirty: false }),
                ..self
            }
        } else if self.is_waiting(key) {
            QueueState { waiting: self.waiting.remove(self.waiting_index(key)), ..self }
        } else {
            self
        }
    }

    /// The queue after every key outside `keep` was withdrawn.
    pub open spec fn retain(self, keep: Set<KeyView>) -> QueueState {
        QueueState {
            waiting: kept(self.waiting, keep),
            running: calmed(self.running, keep),
            ..self
        }
    }

    /// The queue after one operation.
    pub open spec fn step(self, op: Op) -> QueueState {
        match op {
            Op::Retain { keep } => self.retain(keep),
            Op::Enqueue { key, ready_at } => self.enqueue(key, ready_at),
            Op::Dequeue { now } => self.dequeue(now),
            Op::Complete { key, action, now } => self.complete(key, action, now),
            Op::Cancel { key } => self.cancel(key),
        }
    }

    /// The queue after a sequence of operations, first to last.
    pub open spec fn run(self, ops: Seq<Op>) -> QueueState
        decreases ops.len(),
    {
        if ops.len() == 0 {
            self
        } else {
            self.run(ops.drop_last()).step(ops.last())
        }
    }

    /// In a well-formed queue the entry of a key is where any entry of that key is.
    pub proof fn lemma_waiting_index(self, key: KeyView, i: int)
        requires
            self.wf(),
            self.waits_at(key, i),
        ensures
            self.is_waiting(key),
            self.waiting_index(key) == i,
            !self.is_running(key),
    {
        let c = self.waiting_index(key);
        assert(self.waits_at(key, c));
        if self.is_running(key) {
            let r = self.running_index(key);
            assert(self.runs_at(key, r));
        }
    }

    /// In a well-formed queue the flight of a key is where any flight of that key is.
    pub proof fn lemma_running_index(self, key: KeyView, i: int)
        requires
            self.wf(),
            self.runs_at(key, i),
        ensures
            self.is_running(key),
            self.running_index(key) == i,
            !self.is_waiting(key),
    {
        let c = self.running_index(key);
        assert(self.runs_at(key, c));
        if self.is_waiting(key) {
            let w = self.waiting_index(key);
            assert(self.waits_at(key, w));
        }
    }

    /// The entry that is taken is the first ready one, and there is only one such.
    pub proof fn lemma_next_ready(self, now: u64, i: int)
        requires
            self.has_free_worker(),
            first_ready(self.waiting, now, i),
        ensures
            self.next_ready(now) == Some(i),
    {
        let c = choose|c: int| first_ready(self.waiting, now, c);
        assert(first_ready(self.waiting, now, c));
        assert(c == i);
    }

    /// Nothing is ready where every waiting entry is for later.
    pub proof fn lemma_none_ready(self, now: u64)
        requires
            forall|j: int| 0 <= j < self.waiting.len() ==> self.waiting[j].ready_at > now,
        ensures
            self.next_ready(now) is None,
    {
        if exists|i: int| first_ready(self.waiting, now, i) {
            let c = choose|c: int| first_ready(self.waiting, now, c);
            assert(first_ready(self.waiting, now, c));
        }
    }

    /// Every operation keeps the queue well-formed.
    pub proof fn lemma_step_keeps_wf(self, op: Op)
        requires
            self.wf(),
        ensures
            self.step(op).wf(),
    {
        match op {
            Op::Enqueue { key, ready_at } => {
                self.lemma_enqueue_keeps_wf(key, ready_at);
            },
            Op::Dequeue { now } => {
                self.lemma_dequeue_keeps_wf(now);
            },
            Op::Complete { key, action, now } => {
                self.lemma_complete_keeps_wf(key, action, now);
            },
            Op::Cancel { key } => {
                self.lemma_cancel_keeps_wf(key);
            },
            Op::Retain { keep } => {
                self.lemma_retain_keeps_wf(keep);
            },
        }
    }

    /// A withdrawal of all keys outside `keep` keeps the queue well-formed, and leaves no such
    /// key waiting.
    pub proof fn lemma_retain_keeps_wf(self, keep: Set<KeyView>)
        requires
            self.wf(),
        ensures
            self.retain(keep).wf(),
            forall|i: int|
                0 <= i < self.retain(keep).waiting.len() ==> keep.contains(
                    #[trigger] self.retain(keep).waiting[i].key,
                ),
    {
        let next = self.retain(keep);
        lemma_kept_distinct(self.waiting, keep);
        assert forall|i: int, j: int|
            0 <= i < next.waiting.len() && 0 <= j < next.running.len() implies next.waiting[i].key
            != next.running[j].key by {
            lemma_kept_from(self.waiting, keep, i);
            let b = choose|b: int|
                0 <= b < self.waiting.len() && self.waiting[b] == kept(self.waiting, keep)[i];
            assert(self.waiting[b].key != self.running[j].key);
        }
        assert forall|i: int| 0 <= i < next.waiting.len() implies keep.contains(
            #[trigger] next.waiting[i].key,
        ) by {
            lemma_kept_from(self.waiting, keep, i);
        }
    }

    /// A request keeps the queue well-formed.
    pub proof fn lemma_enqueue_keeps_wf(self, key: KeyView, ready_at: u64)
        requires
            self.wf(),
        ensures
            self.enqueue(key, ready_at).wf(),
    {
        let next = self.enqueue(key, ready_at);
        if self.is_running(key) {
            let i = self.running_index(key);
            assert(self.runs_at(key, i));
            assert forall|a: int| 0 <= a < next.running.len() implies next.running[a].key
                == self.running[a].key by {}
        } else if self.is_waiting(key) {
            let i = self.waiting_index(key);
            assert(self.waits_at(key, i));
            assert forall|a: int| 0 <= a < next.waiting.len() implies next.waiting[a].key
                == self.waiting[a].key by {}
        } else {
            assert forall|a: int| 0 <= a < self.waiting.len() implies self.waiting[a].key
                != key by {
                if self.waiting[a].key == key {
                    assert(self.waits_at(key, a));
                }
            }
            assert forall|a: int| 0 <= a < self.running.len() implies self.running[a].key
                != key by {
                if self.running[a].key == key {
                    assert(self.runs_at(key, a));
                }
            }
        }
    }

    /// Handing out a key keeps the queue well-formed.
    pub proof fn lemma_dequeue_keeps_wf(self, now: u64)
        requires
            self.wf(),
        ensures
            self.dequeue(now).wf(),
    {
        match self.next_ready(now) {
            Some(i) => {
                assert(first_ready(self.waiting, now, i));
                let next = self.dequeue(now);
                assert forall|a: int| 0 <= a < next.waiting.len() implies next.waiting[a]
                    == self.waiting[if a < i {
                    a
                } else {
                    a + 1
                }] by {}
            },
            None => {},
        }
    }

    /// The end of a flight keeps the queue well-formed.
    pub proof fn lemma_complete_keeps_wf(self, key: KeyView, action: Action, now: u64)
        requires
            self.wf(),
        ensures
            self.complete(key, action, now).wf(),
    {
        if self.is_running(key) {
            let i = self.running_index(key);
            assert(self.runs_at(key, i));
            let next = self.complete(key, action, now);
            assert forall|a: int| 0 <= a < next.running.len() implies next.running[a]
                == self.running[if a < i {
                a
            } else {
                a + 1
            }] by {}
            assert forall|a: int| 0 <= a < next.running.len() implies next.running[a].key
                != key by {}
            assert forall|a: int| 0 <= a < self.waiting.len() implies self.waiting[a].key
                != key by {}
            if self.running[i].dirty {
                assert forall|a: int| 1 <= a < next.waiting.len() implies next.waiting[a]
                    == self.waiting[a - 1] by {}
            }
        }
    }

    /// A withdrawal keeps the queue well-formed.
    pub proof fn lemma_cancel_keeps_wf(self, key: KeyView)
        requires
            self.wf(),
        ensures
            self.cancel(key).wf(),
    {
        let next = self.cancel(key);
        if self.is_running(key) {
            let i = self.running_index(key);
            assert(self.runs_at(key, i));
            assert forall|a: int| 0 <= a < next.running.len() implies next.running[a].key
                == self.running[a].key by {}
        } else if self.is_waiting(key) {
            let i = self.waiting_index(key);
            assert(self.waits_at(key, i));
            assert forall|a: int| 0 <= a < next.waiting.len() implies next.waiting[a]
                == self.waiting[if a < i {
                a
            } else {
                a + 1
            }] by {}
        }
    }

    /// Whatever operations run on it, in whatever order, a queue that started empty is
    /// well-formed.
    pub proof fn lemma_run_keeps_wf(workers: nat, ops: Seq<Op>)
        ensures
            QueueState::empty(workers).run(ops).wf(),
            QueueState::empty(workers).run(ops).workers == workers,
        decreases ops.len(),
    {
        if ops.len() > 0 {
            Self::lemma_run_keeps_wf(workers, ops.drop_last());
            QueueState::empty(workers).run(ops.drop_last()).lemma_step_keeps_wf(ops.last());
        }
    }

    /// In a well-formed queue at most one reconciliation of a key is in flight, and exactly one
    /// where the key is running.
    pub proof fn lemma_one_flight_per_key(self, key: KeyView)
        requires
            self.wf(),
        ensures
            self.in_flight(key) <= 1,
            self.in_flight(key) == 1 <==> self.is_running(key),
    {
        lemma_flights_of_distinct(self.running, key);
        if self.is_running(key) {
            let i = self.running_index(key);
            assert(self.runs_at(key, i));
        }
        if exists|i: int| 0 <= i < self.running.len() && self.running[i].key == key {
            let i = choose|i: int| 0 <= i < self.running.len() && self.running[i].key == key;
            assert(self.runs_at(key, i));
        }
    }

    /// Reconciliations of one key are serialized: at every instant of every history of the queue,
    /// a key has at most one reconciliation in flight, and no more flights run than the pool has
    /// workers.
    pub proof fn lemma_serialized(workers: nat, ops: Seq<Op>, key: KeyView)
        ensures
            QueueState::empty(workers).run(ops).in_flight(key) <= 1,
            QueueState::empty(workers).run(ops).running.len() <= workers,
    {
        Self::lemma_run_keeps_wf(workers, ops);
        QueueState::empty(workers).run(ops).lemma_one_flight_per_key(key);
    }

    /// The key that is taken was not in flight before and is in flight after, not dirty.
    pub proof fn lemma_taken_starts_flight(self, now: u64)
        requires
            self.wf(),
        ensures
            match self.taken(now) {
                Some(key) => !self.is_running(key) && self.is_waiting(key) && self.dequeue(
                    now,
                ).is_running(key) && !self.dequeue(now).is_waiting(key) && self.dequeue(
                    now,
                ).running.last() == (FlightView { key, dirty: false }),
                None => self.dequeue(now) == self,
            },
    {
        match self.next_ready(now) {
            Some(i) => {
                assert(first_ready(self.waiting, now, i));
                let key = self.waiting[i].key;
                self.lemma_waiting_index(key, i);
                let next = self.dequeue(now);
                assert(next.runs_at(key, self.running.len() as int));
                self.lemma_dequeue_keeps_wf(now);
                next.lemma_running_index(key, self.running.len() as int);
            },
            None => {},
        }
    }

    /// A key in flight is never handed out: while its reconciliation runs, no worker gets it.
    pub proof fn lemma_running_never_taken(self, key: KeyView, now: u64)
        requires
            self.wf(),
            self.is_running(key),
        ensures
            self.taken(now) != Some(key),
    {
        self.lemma_taken_starts_flight(now);
    }

    /// A flight ends only when its own completion is reported: no other operation takes the key
    /// out of flight.
    pub proof fn lemma_flight_ends_only_by_complete(self, op: Op, key: KeyView)
        requires
            self.wf(),
            self.is_running(key),
            !(op matches Op::Complete { key: k, .. } && k == key),
        ensures
            self.step(op).is_running(key),
    {
        let i = self.running_index(key);
        assert(self.runs_at(key, i));
        let next = self.step(op);
        match op {
            Op::Enqueue { key: k, ready_at } => {
                if self.is_running(k) {
                    let j = self.running_index(k);
                    assert(self.runs_at(k, j));
                }
                assert(next.runs_at(key, i));
            },
            Op::Dequeue { now } => {
                assert(next.runs_at(key, i));
            },
            Op::Complete { key: k, action, now } => {
                if self.is_running(k) {
                    let j = self.running_index(k);
                    assert(self.runs_at(k, j));
                    assert(j != i);
                    if i < j {
                        assert(next.runs_at(key, i));
                    } else {
                        assert(next.runs_at(key, i - 1));
                    }
                }
            },
            Op::Cancel { key: k } => {
                if self.is_running(k) {
                    let j = self.running_index(k);
                    assert(self.runs_at(k, j));
                }
                assert(next.runs_at(key, i));
            },
            Op::Retain { keep } => {
                assert(next.runs_at(key, i));
            },
        }
    }

    /// A request for a key in flight is not lost and starts nothing: it marks the flight dirty,
    /// and when the flight completes the key stands first in the queue, ready at once, whatever
    /// action the reconciliation returned.
    pub proof fn lemma_dirty_goes_first(
        self,
        key: KeyView,
        ready_at: u64,
        action: Action,
        now: u64,
    )
        requires
            self.wf(),
            self.is_running(key),
        ensures
            self.enqueue(key, ready_at).waiting == self.waiting,
            self.enqueue(key, ready_at).is_running(key),
            self.enqueue(key, ready_at).complete(key, action, now).waiting.first() == (EntryView {
                key,
                ready_at: now,
            }),
            !self.enqueue(key, ready_at).complete(key, action, now).is_running(key),
    {
        let i = self.running_index(key);
        assert(self.runs_at(key, i));
        let marked = self.enqueue(key, ready_at);
        self.lemma_enqueue_keeps_wf(key, ready_at);
        assert(marked.runs_at(key, i));
        marked.lemma_running_index(key, i);
        let done = marked.complete(key, action, now);
        marked.lemma_complete_keeps_wf(key, action, now);
        assert(done.waits_at(key, 0));
        done.lemma_waiting_index(key, 0);
    }

    /// Requests for one waiting key collapse: the key keeps a single entry, at its place, with
    /// the time of the latest request.
    pub proof fn lemma_requests_collapse(self, key: KeyView, first: u64, second: u64)
        requires
            self.wf(),
            !self.is_running(key),
        ensures
            self.enqueue(key, first).enqueue(key, second) == self.enqueue(key, second),
    {
        let once = self.enqueue(key, first);
        self.lemma_enqueue_keeps_wf(key, first);
        if self.is_waiting(key) {
            let i = self.waiting_index(key);
            assert(self.waits_at(key, i));
            assert(once.waits_at(key, i));
            once.lemma_waiting_index(key, i);
            assert(once.enqueue(key, second).waiting =~= self.enqueue(key, second).waiting);
        } else {
            let i = self.waiting.len() as int;
            assert(once.waits_at(key, i));
            once.lemma_waiting_index(key, i);
            assert(once.enqueue(key, second).waiting =~= self.enqueue(key, second).waiting);
        }
    }
}

} // verus!
