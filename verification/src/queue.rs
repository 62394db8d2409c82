use vstd::prelude::*;
use crate::action::Action;
use crate::resource::ResourceKey;
use crate::schedule::{calmed, first_ready, kept, EntryView, FlightView, QueueState};
use crate::store::Store;

verus! {

struct Entry {
    key: ResourceKey,
    ready_at: u64,
}

struct Flight {
    key: ResourceKey,
    dirty: bool,
}

impl View for Entry {
    type V = EntryView;

    closed spec fn view(&self) -> EntryView {
        EntryView { key: self.key@, ready_at: self.ready_at }
    }
}

impl View for Flight {
    type V = FlightView;

    closed spec fn view(&self) -> FlightView {
        FlightView { key: self.key@, dirty: self.dirty }
    }
}

spec fn entries(list: Seq<Entry>) -> Seq<EntryView> {
    Seq::new(list.len(), |i: int| list[i]@)
}

spec fn flights(list: Seq<Flight>) -> Seq<FlightView> {
    Seq::new(list.len(), |i: int| list[i]@)
}

fn keep_entries(waiting: &Vec<Entry>, keep: &Store) -> (out: Vec<Entry>)
    requires
        keep.wf(),
    ensures
        entries(out@) == kept(entries(waiting@), keep@.dom()),
{
    let mut out: Vec<Entry> = Vec::new();
    let mut i: usize = 0;
    assert(entries(waiting@).take(0) =~= Seq::<EntryView>::empty());
    assert(entries(out@) =~= Seq::<EntryView>::empty());
    while i < waiting.len()
        invariant
            i <= waiting.len(),
            keep.wf(),
            entries(out@) == kept(entries(waiting@).take(i as int), keep@.dom()),
        decreases waiting.len() - i,
    {
        let ghost before = entries(out@);
        let ghost seen = entries(waiting@).take(i + 1);
        assert(seen.drop_last() =~= entries(waiting@).take(i as int));
        assert(seen.last() == waiting@[i as int]@);
        if keep.contains(&waiting[i].key) {
            out.push(Entry { key: waiting[i].key.duplicate(), ready_at: waiting[i].ready_at });
            assert(entries(out@) =~= before.push(seen.last()));
        }
        i += 1;
    }
    assert(entries(waiting@).take(i as int) =~= entries(waiting@));
    out
}

fn calm_flights(running: &Vec<Flight>, keep: &Store) -> (out: Vec<Flight>)
    requires
        keep.wf(),
    ensures
        flights(out@) == calmed(flights(running@), keep@.dom()),
{
    let mut out: Vec<Flight> = Vec::new();
    let mut i: usize = 0;
    while i < running.len()
        invariant
            i <= running.len(),
            keep.wf(),
            out@.len() == i,
            forall|j: int|
                0 <= j < i ==> out@[j]@ == calmed(flights(running@), keep@.dom())[j],
        decreases running.len() - i,
    {
        let dirty = running[i].dirty && keep.contains(&running[i].key);
        out.push(Flight { key: running[i].key.duplicate(), dirty });
        i += 1;
    }
    assert(flights(out@) =~= calmed(flights(running@), keep@.dom()));
    out
}

/// The work queue: keys that wait for a worker, each at most once and each with the earliest
/// time at which it may run, and the keys whose reconciliation is in flight.
pub struct WorkQueue {
    waiting: Vec<Entry>,
    running: Vec<Flight>,
    workers: usize,
}

impl View for WorkQueue {
    type V = QueueState;

    closed spec fn view(&self) -> QueueState {
        QueueState {
            waiting: entries(self.waiting@),
            running: flights(self.running@),
            workers: self.workers as nat,
        }
    }
}

impl WorkQueue {
    /// The queue's invariant. `new` establishes it and every method keeps it.
    pub open spec fn wf(&self) -> bool {
        self@.wf()
    }

    /// The empty queue for a pool of `workers` workers.
    pub fn new(workers: usize) -> (out: WorkQueue)
        ensures
            out.wf(),
            out@ == QueueState::empty(workers as nat),
    {
        let out = WorkQueue { waiting: Vec::new(), running: Vec::new(), workers };
        assert(out@.waiting =~= Seq::<EntryView>::empty());
        assert(out@.running =~= Seq::<FlightView>::empty());
        out
    }

    fn find_waiting(&self, key: &ResourceKey) -> (out: Option<usize>)
        ensures
            match out {
                Some(i) => self@.waits_at(key@, i as int),
                None => !self@.is_waiting(key@),
            },
    {
        let mut i: usize = 0;
        while i < self.waiting.len()
            invariant
                i <= self.waiting.len(),
                forall|j: int| 0 <= j < i ==> !self@.waits_at(key@, j),
            decreases self.waiting.len() - i,
        {
            if self.waiting[i].key.same(key) {
                return Some(i);
            }
            i += 1;
        }
        None
    }

    fn find_running(&self, key: &ResourceKey) -> (out: Option<usize>)
        ensures
            match out {
                Some(i) => self@.runs_at(key@, i as int),
                None => !self@.is_running(key@),
            },
    {
        let mut i: usize = 0;
        while i < self.running.len()
            invariant
                i <= self.running.len(),
                forall|j: int| 0 <= j < i ==> !self@.runs_at(key@, j),
            decreases self.running.len() - i,
        {
            if self.running[i].key.same(key) {
                return Some(i);
            }
            i += 1;
        }
        None
    }

    fn find_ready(&self, now: u64) -> (out: Option<usize>)
        ensures
            match out {
                Some(i) => first_ready(self@.waiting, now, i as int),
                None => forall|j: int|
                    0 <= j < self@.waiting.len() ==> self@.waiting[j].ready_at > now,
            },
    {
        let mut i: usize = 0;
        while i < self.waiting.len()
            invariant
                i <= self.waiting.len(),
                forall|j: int| 0 <= j < i ==> self@.waiting[j].ready_at > now,
            decreases self.waiting.len() - i,
        {
            if self.waiting[i].ready_at <= now {
                return Some(i);
            }
            i += 1;
        }
        None
    }

    /// Whether `key` has a waiting entry.
    pub fn is_waiting(&self, key: &ResourceKey) -> (out: bool)
        ensures
            out == self@.is_waiting(key@),
    {
        self.find_waiting(key).is_some()
    }

    /// Whether a reconciliation of `key` is in flight.
    pub fn is_running(&self, key: &ResourceKey) -> (out: bool)
        ensures
            out == self@.is_running(key@),
    {
        self.find_running(key).is_some()
    }

    /// The number of reconciliations in flight.
    pub fn in_flight(&self) -> (out: usize)
        ensures
            out == self@.running.len(),
    {
        self.running.len()
    }

    /// The number of keys that wait.
    pub fn waiting(&self) -> (out: usize)
        ensures
            out == self@.waiting.len(),
    {
        self.waiting.len()
    }

    /// Asks for a reconciliation of `key` no sooner than `ready_at`.
    pub fn enqueue(&mut self, key: ResourceKey, ready_at: u64)
        requires
            old(self).wf(),
        ensures
            final(self).wf(),
            final(self)@ == old(self)@.enqueue(key@, ready_at),
    {
        proof {
            self@.lemma_enqueue_keeps_wf(key@, ready_at);
        }
        match self.find_running(&key) {
            Some(i) => {
                proof {
                    self@.lemma_running_index(key@, i as int);
                }
                self.running.set(i, Flight { key, dirty: true });
                assert(self@.running =~= old(self)@.enqueue(key@, ready_at).running);
            },
            None => match self.find_waiting(&key) {
                Some(i) => {
                    proof {
                        self@.lemma_waiting_index(key@, i as int);
                    }
                    self.waiting.set(i, Entry { key, ready_at });
                    assert(self@.waiting =~= old(self)@.enqueue(key@, ready_at).waiting);
                },
                None => {
                    self.waiting.push(Entry { key, ready_at });
                    assert(self@.waiting =~= old(self)@.enqueue(key@, ready_at).waiting);
                },
            },
        }
    }

    /// Hands the first ready key to a worker, if a worker is free and a key is ready at `now`.
    /// The key is in flight from then on, until `complete` is called for it.
    pub fn dequeue(&mut self, now: u64) -> (out: Option<ResourceKey>)
        requires
            old(self).wf(),
        ensures
            final(self).wf(),
            final(self)@ == old(self)@.dequeue(now),
            match out {
                Some(key) => old(self)@.taken(now) == Some(key@),
                None => old(self)@.taken(now) is None,
            },
    {
        proof {
            self@.lemma_dequeue_keeps_wf(now);
        }
        if self.running.len() >= self.workers {
            return None;
        }
        match self.find_ready(now) {
            Some(i) => {
                proof {
                    self@.lemma_next_ready(now, i as int);
                }
                let entry = self.waiting.remove(i);
                let key = entry.key.duplicate();
                self.running.push(Flight { key: entry.key, dirty: false });
                assert(self@.waiting =~= old(self)@.dequeue(now).waiting);
                assert(self@.running =~= old(self)@.dequeue(now).running);
                Some(key)
            },
            None => {
                proof {
                    self@.lemma_none_ready(now);
                }
                None
            },
        }
    }

    /// Reports that the reconciliation of `key` ended at `now` with `action`, and schedules what
    /// follows. Returns whether `key` was in flight; where it was not, nothing changes.
    pub fn complete(&mut self, key: &ResourceKey, action: Action, now: u64) -> (out: bool)
        requires
            old(self).wf(),
        ensures
            final(self).wf(),
            final(self)@ == old(self)@.complete(key@, action, now),
            out == old(self)@.is_running(key@),
    {
        proof {
            self@.lemma_complete_keeps_wf(key@, action, now);
        }
        match self.find_running(key) {
            None => false,
            Some(i) => {
                proof {
                    self@.lemma_running_index(key@, i as int);
                }
                let flight = self.running.remove(i);
                assert(self@.running =~= old(self)@.complete(key@, action, now).running);
                if flight.dirty {
                    self.waiting.insert(0, Entry { key: flight.key, ready_at: now });
                    assert(self@.waiting =~= old(self)@.complete(key@, action, now).waiting);
                } else {
                    match action.requeue_delay() {
                        Some(secs) => {
                            self.waiting.push(
                                Entry { key: flight.key, ready_at: now.saturating_add(secs) },
                            );
                            assert(self@.waiting =~= old(self)@.complete(
                                key@,
                                action,
                                now,
                            ).waiting);
                        },
                        None => {},
                    }
                }
                true
            },
        }
    }

    /// Withdraws `key`: a waiting entry of it is dropped, and a flight of it is no longer dirty,
    /// so that nothing follows the flight but what its own action asks for.
    pub fn cancel(&mut self, key: &ResourceKey)
        requires
            old(self).wf(),
        ensures
            final(self).wf(),
            final(self)@ == old(self)@.cancel(key@),
    {
        proof {
            self@.lemma_cancel_keeps_wf(key@);
        }
        match self.find_running(key) {
            Some(i) => {
                proof {
                    self@.lemma_running_index(key@, i as int);
                }
                self.running.set(i, Flight { key: key.duplicate(), dirty: false });
                assert(self@.running =~= old(self)@.cancel(key@).running);
            },
            None => match self.find_waiting(key) {
                Some(i) => {
                    proof {
                        self@.lemma_waiting_index(key@, i as int);
                    }
                    self.waiting.remove(i);
                    assert(self@.waiting =~= old(self)@.cancel(key@).waiting);
                },
                None => {},
            },
        }
    }

    /// The earliest time at which a waiting key is ready: the time to wake up at when no work is
    /// ready now. `None` where nothing waits.
    pub fn next_wakeup(&self) -> (out: Option<u64>)
        ensures
            match out {
                Some(t) => self@.earliest_is(t),
                None => self@.waiting.len() == 0,
            },
    {
        if self.waiting.len() == 0 {
            return None;
        }
        let mut best: u64 = self.waiting[0].ready_at;
        let mut i: usize = 1;
        assert(self@.waiting[0].ready_at == best);
        while i < self.waiting.len()
            invariant
                1 <= i <= self.waiting.len(),
                exists|k: int| 0 <= k < i && self@.waiting[k].ready_at == best,
                forall|j: int| 0 <= j < i ==> self@.waiting[j].ready_at >= best,
            decreases self.waiting.len() - i,
        {
            if self.waiting[i].ready_at < best {
                best = self.waiting[i].ready_at;
                assert(self@.waiting[i as int].ready_at == best);
            }
            i += 1;
        }
        Some(best)
    }

    /// Withdraws every key that `keep` does not track: its waiting entry is dropped, and a
    /// flight of it is no longer dirty.
    pub fn retain(&mut self, keep: &Store)
        requires
            old(self).wf(),
            keep.wf(),
        ensures
            final(self).wf(),
            final(self)@ == old(self)@.retain(keep@.dom()),
    {
        proof {
            self@.lemma_retain_keeps_wf(keep@.dom());
        }
        let waiting = keep_entries(&self.waiting, keep);
        let running = calm_flights(&self.running, keep);
        self.waiting = waiting;
        self.running = running;
    }
}

} // verus!
