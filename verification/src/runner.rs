use vstd::prelude::*;
use crate::action::Action;
use crate::attempt::{settle, settled};
use crate::error::ReconcileError;
use crate::lifecycle::outcome_view;
use crate::queue::WorkQueue;
use crate::resource::{Echo, EchoView, KeyView, ResourceKey};
use crate::schedule::{kept, lemma_kept_from, until, QueueState};
use crate::store::{Objects, Store};
use crate::watch::{views_of, ChangeEvent, ChangeEventView};

verus! {

/// One piece of work for a worker: the key that was taken and the latest known state of its
/// object.
#[derive(Debug, PartialEq, Eq)]
pub struct Work {
    pub key: ResourceKey,
    pub echo: Echo,
}

/// A piece of work as a mathematical value.
pub struct WorkView {
    pub key: KeyView,
    pub echo: EchoView,
}

impl View for Work {
    type V = WorkView;

    open spec fn view(&self) -> WorkView {
        WorkView { key: self.key@, echo: self.echo@ }
    }
}

/// The object at index `i` of the listing has the key `key`.
pub open spec fn listed_at(listed: Seq<EchoView>, key: KeyView, i: int) -> bool {
    0 <= i < listed.len() && listed[i].metadata.key() == Some(key)
}

/// The keys of the objects of a listing; an object without a name has none.
pub open spec fn listed_keys(listed: Seq<EchoView>) -> Set<KeyView> {
    Set::new(|key: KeyView| exists|i: int| listed_at(listed, key, i))
}

proof fn lemma_listed_keys_push(listed: Seq<EchoView>, echo: EchoView)
    ensures
        listed_keys(listed.push(echo)) == match echo.metadata.key() {
            Some(key) => listed_keys(listed).insert(key),
            None => listed_keys(listed),
        },
{
    let more = listed.push(echo);
    let want = match echo.metadata.key() {
        Some(key) => listed_keys(listed).insert(key),
        None => listed_keys(listed),
    };
    assert forall|k: KeyView| listed_keys(more).contains(k) implies want.contains(k) by {
        let i = choose|i: int| listed_at(more, k, i);
        if i < listed.len() {
            assert(listed_at(listed, k, i));
        }
    }
    assert forall|k: KeyView| want.contains(k) implies listed_keys(more).contains(k) by {
        if listed_keys(listed).contains(k) {
            let i = choose|i: int| listed_at(listed, k, i);
            assert(listed_at(more, k, i));
        } else {
            assert(listed_at(more, k, listed.len() as int));
        }
    }
    assert(listed_keys(more) =~= want);
}

/// The runner as a mathematical value: what is known of the objects, what is scheduled, and
/// whether shutdown was asked for.
pub struct EngineState {
    pub objects: Objects,
    pub queue: QueueState,
    pub draining: bool,
}

impl EngineState {
    /// The engine before any event, for a pool of `workers` workers.
    pub open spec fn initial(workers: nat) -> EngineState {
        EngineState {
            objects: Objects::empty(),
            queue: QueueState::empty(workers),
            draining: false,
        }
    }

    /// The engine's invariant: the queue is well-formed, and every key that waits, or that will
    /// wait as soon as its flight ends, is the key of a known object.
    pub open spec fn wf(self) -> bool {
        &&& self.queue.wf()
        &&& forall|i: int|
            0 <= i < self.queue.waiting.len() ==> self.objects.contains_key(
                #[trigger] self.queue.waiting[i].key,
            )
        &&& forall|i: int|
            0 <= i < self.queue.running.len() && (#[trigger] self.queue.running[i]).dirty
                ==> self.objects.contains_key(self.queue.running[i].key)
    }

    /// The engine after a watch event at `now`. While draining, events are not admitted. An
    /// object without a name cannot be tracked and is passed over. An added or modified object
    /// is recorded and a reconciliation of it is asked for at once; a deleted one is forgotten
    /// and what was scheduled for it is withdrawn.
    pub open spec fn observe(self, event: ChangeEventView, now: u64) -> EngineState {
        if self.draining {
            self
        } else {
            match event {
                ChangeEventView::Added(echo) | ChangeEventView::Modified(echo) => match echo.metadata.key() {
                    Some(key) => EngineState {
                        objects: self.objects.insert(key, echo),
                        queue: self.queue.enqueue(key, now),
                        ..self
                    },
                    None => self,
                },
                ChangeEventView::Deleted(echo) => match echo.metadata.key() {
                    Some(key) => EngineState {
                        objects: self.objects.remove(key),
                        queue: self.queue.cancel(key),
                        ..self
                    },
                    None => self,
                },
            }
        }
    }

    /// The engine after every object whose key is not in `keep` was forgotten and what was
    /// scheduled for it withdrawn.
    pub open spec fn forget_unlisted(self, keep: Set<KeyView>) -> EngineState {
        EngineState {
            objects: self.objects.restrict(keep),
            queue: self.queue.retain(keep),
            ..self
        }
    }

    /// The engine after each object of `listed` was observed as modified at `now`, first to
    /// last.
    pub open spec fn observe_all(self, listed: Seq<EchoView>, now: u64) -> EngineState
        decreases listed.len(),
    {
        if listed.len() == 0 {
            self
        } else {
            self.observe_all(listed.drop_last(), now).observe(
                ChangeEventView::Modified(listed.last()),
                now,
            )
        }
    }

    /// The engine after the watch was restarted and the cluster listed its objects anew at
    /// `now`. What the listing does not hold is gone: it is forgotten like a deleted object.
    /// What it holds is taken as modified, so that whatever was missed while the watch was
    /// down is reconciled. While draining, the listing is not admitted.
    pub open spec fn relist(self, listed: Seq<EchoView>, now: u64) -> EngineState {
        if self.draining {
            self
        } else {
            self.forget_unlisted(listed_keys(listed)).observe_all(listed, now)
        }
    }

    /// The work that a worker gets at `now`: none while draining, else the key that the queue
    /// hands out, with the latest state of its object.
    pub open spec fn work(self, now: u64) -> Option<WorkView> {
        if self.draining {
            None
        } else {
            match self.queue.taken(now) {
                Some(key) => Some(WorkView { key, echo: self.objects[key] }),
                None => None,
            }
        }
    }

    /// The engine after a worker asked for work at `now`.
    pub open spec fn next(self, now: u64) -> EngineState {
        if self.draining {
            self
        } else {
            EngineState { queue: self.queue.dequeue(now), ..self }
        }
    }

    /// The action that is scheduled for `key` in place of `action`: no timer is set while
    /// draining, nor for an object that is gone.
    pub open spec fn effective(self, key: KeyView, action: Action) -> Action {
        if self.draining || !self.objects.contains_key(key) {
            Action::NoRequeue
        } else {
            action
        }
    }

    /// The engine after the attempt on `key` ended at `now` with what `action` settles it as.
    pub open spec fn finish(self, key: KeyView, action: Action, now: u64) -> EngineState {
        EngineState { queue: self.queue.complete(key, self.effective(key, action), now), ..self }
    }

    /// The engine after shutdown was asked for.
    pub open spec fn shutdown(self) -> EngineState {
        EngineState { draining: true, ..self }
    }

    /// Shutdown was asked for and every flight has ended: the process may exit.
    pub open spec fn finished(self) -> bool {
        self.draining && self.queue.running.len() == 0
    }

    /// A watch event keeps the engine well-formed.
    pub proof fn lemma_observe_keeps_wf(self, event: ChangeEventView, now: u64)
        requires
            self.wf(),
        ensures
            self.observe(event, now).wf(),
    {
        let next = self.observe(event, now);
        if !self.draining {
            match event {
                ChangeEventView::Added(echo) | ChangeEventView::Modified(echo) => {
                    if let Some(key) = echo.metadata.key() {
                        self.queue.lemma_enqueue_keeps_wf(key, now);
                        if self.queue.is_running(key) {
                            let r = self.queue.running_index(key);
                            assert(self.queue.runs_at(key, r));
                            assert forall|i: int|
                                0 <= i < next.queue.running.len() && (
                                #[trigger] next.queue.running[i]).dirty implies next.objects.contains_key(
                                next.queue.running[i].key,
                            ) by {
                                if i != r {
                                    assert(next.queue.running[i] == self.queue.running[i]);
                                }
                            }
                        } else if self.queue.is_waiting(key) {
                            let w = self.queue.waiting_index(key);
                            assert(self.queue.waits_at(key, w));
                            assert forall|i: int|
                                0 <= i < next.queue.waiting.len() implies next.objects.contains_key(
                                #[trigger] next.queue.waiting[i].key,
                            ) by {
                                if i != w {
                                    assert(next.queue.waiting[i] == self.queue.waiting[i]);
                                }
                            }
                        } else {
                            assert forall|i: int|
                                0 <= i < next.queue.waiting.len() implies next.objects.contains_key(
                                #[trigger] next.queue.waiting[i].key,
                            ) by {
                                if i < self.queue.waiting.len() {
                                    assert(next.queue.waiting[i] == self.queue.waiting[i]);
                                }
                            }
                        }
                    }
                },
                ChangeEventView::Deleted(echo) => {
                    if let Some(key) = echo.metadata.key() {
                        self.queue.lemma_cancel_keeps_wf(key);
                        if self.queue.is_running(key) {
                            let r = self.queue.running_index(key);
                            assert(self.queue.runs_at(key, r));
                            assert forall|i: int|
                                0 <= i < next.queue.running.len() && (
                                #[trigger] next.queue.running[i]).dirty implies next.objects.contains_key(
                                next.queue.running[i].key,
                            ) by {
                                assert(i != r);
                                assert(next.queue.running[i] == self.queue.running[i]);
                            }
                            assert forall|i: int|
                                0 <= i < next.queue.waiting.len() implies next.objects.contains_key(
                                #[trigger] next.queue.waiting[i].key,
                            ) by {
                                assert(self.queue.waiting[i].key != self.queue.running[r].key);
                            }
                        } else if self.queue.is_waiting(key) {
                            let w = self.queue.waiting_index(key);
                            assert(self.queue.waits_at(key, w));
                            assert forall|i: int|
                                0 <= i < next.queue.waiting.len() implies next.objects.contains_key(
                                #[trigger] next.queue.waiting[i].key,
                            ) by {
                                let j = if i < w {
                                    i
                                } else {
                                    i + 1
                                };
                                assert(next.queue.waiting[i] == self.queue.waiting[j]);
                                assert(self.objects.contains_key(self.queue.waiting[j].key));
                            }
                            assert forall|i: int|
                                0 <= i < next.queue.running.len() && (
                                #[trigger] next.queue.running[i]).dirty implies next.objects.contains_key(
                                next.queue.running[i].key,
                            ) by {
                                assert(self.queue.waiting[w].key != self.queue.running[i].key);
                            }
                        } else {
                            assert forall|i: int|
                                0 <= i < next.queue.waiting.len() implies next.objects.contains_key(
                                #[trigger] next.queue.waiting[i].key,
                            ) by {
                                if self.queue.waiting[i].key == key {
                                    assert(self.queue.waits_at(key, i));
                                }
                            }
                            assert forall|i: int|
                                0 <= i < next.queue.running.len() && (
                                #[trigger] next.queue.running[i]).dirty implies next.objects.contains_key(
                                next.queue.running[i].key,
                            ) by {
                                if self.queue.running[i].key == key {
                                    assert(self.queue.runs_at(key, i));
                                }
                            }
                        }
                    }
                },
            }
        }
    }

    /// Handing out work keeps the engine well-formed, and the object of the work is known.
    pub proof fn lemma_next_keeps_wf(self, now: u64)
        requires
            self.wf(),
        ensures
            self.next(now).wf(),
            self.work(now) matches Some(work) ==> self.objects.contains_key(work.key),
    {
        if !self.draining {
            self.queue.lemma_dequeue_keeps_wf(now);
            let next = self.next(now);
            match self.queue.next_ready(now) {
                Some(t) => {
                    assert forall|i: int|
                        0 <= i < next.queue.waiting.len() implies next.objects.contains_key(
                        #[trigger] next.queue.waiting[i].key,
                    ) by {
                        let j = if i < t {
                            i
                        } else {
                            i + 1
                        };
                        assert(next.queue.waiting[i] == self.queue.waiting[j]);
                        assert(self.objects.contains_key(self.queue.waiting[j].key));
                    }
                    assert forall|i: int|
                        0 <= i < next.queue.running.len() && (
                        #[trigger] next.queue.running[i]).dirty implies next.objects.contains_key(
                        next.queue.running[i].key,
                    ) by {
                        if i < self.queue.running.len() {
                            assert(next.queue.running[i] == self.queue.running[i]);
                        }
                    }
                    assert(self.objects.contains_key(self.queue.waiting[t].key));
                },
                None => {},
            }
        }
    }

    /// The end of an attempt keeps the engine well-formed.
    pub proof fn lemma_finish_keeps_wf(self, key: KeyView, action: Action, now: u64)
        requires
            self.wf(),
        ensures
            self.finish(key, action, now).wf(),
    {
        let eff = self.effective(key, action);
        self.queue.lemma_complete_keeps_wf(key, eff, now);
        let next = self.finish(key, action, now);
        if self.queue.is_running(key) {
            let r = self.queue.running_index(key);
            assert(self.queue.runs_at(key, r));
            assert forall|i: int|
                0 <= i < next.queue.running.len() && (
                #[trigger] next.queue.running[i]).dirty implies next.objects.contains_key(
                next.queue.running[i].key,
            ) by {
                let j = if i < r {
                    i
                } else {
                    i + 1
                };
                assert(next.queue.running[i] == self.queue.running[j]);
                assert(self.queue.running[j].dirty);
            }
            assert forall|i: int|
                0 <= i < next.queue.waiting.len() implies next.objects.contains_key(
                #[trigger] next.queue.waiting[i].key,
            ) by {
                if self.queue.running[r].dirty {
                    if i > 0 {
                        assert(next.queue.waiting[i] == self.queue.waiting[i - 1]);
                        assert(self.objects.contains_key(self.queue.waiting[i - 1].key));
                    }
                } else {
                    if i < self.queue.waiting.len() {
                        assert(next.queue.waiting[i] == self.queue.waiting[i]);
                    }
                }
            }
        }
    }

    /// The engine after one operation.
    pub open spec fn step(self, op: EngineOp) -> EngineState {
        match op {
            EngineOp::Observe { event, now } => self.observe(event, now),
            EngineOp::Next { now } => self.next(now),
            EngineOp::Finish { key, action, now } => self.finish(key, action, now),
            EngineOp::Shutdown => self.shutdown(),
            EngineOp::Relist { listed, now } => self.relist(listed, now),
        }
    }

    /// The engine after a sequence of operations, first to last.
    pub open spec fn run(self, ops: Seq<EngineOp>) -> EngineState
        decreases ops.len(),
    {
        if ops.len() == 0 {
            self
        } else {
            self.run(ops.drop_last()).step(ops.last())
        }
    }

    /// Every operation keeps the engine well-formed.
    pub proof fn lemma_step_keeps_wf(self, op: EngineOp)
        requires
            self.wf(),
        ensures
            self.step(op).wf(),
            self.step(op).queue.workers == self.queue.workers,
    {
        match op {
            EngineOp::Observe { event, now } => self.lemma_observe_keeps_wf(event, now),
            EngineOp::Next { now } => self.lemma_next_keeps_wf(now),
            EngineOp::Finish { key, action, now } => self.lemma_finish_keeps_wf(key, action, now),
            EngineOp::Shutdown => {},
            EngineOp::Relist { listed, now } => self.lemma_relist_keeps_wf(listed, now),
        }
    }

    /// Forgetting what a listing does not hold keeps the engine well-formed.
    pub proof fn lemma_forget_keeps_wf(self, keep: Set<KeyView>)
        requires
            self.wf(),
        ensures
            self.forget_unlisted(keep).wf(),
    {
        self.queue.lemma_retain_keeps_wf(keep);
        let next = self.forget_unlisted(keep);
        assert forall|i: int|
            0 <= i < next.queue.waiting.len() implies next.objects.contains_key(
            #[trigger] next.queue.waiting[i].key,
        ) by {
            lemma_kept_from(self.queue.waiting, keep, i);
            let b = choose|b: int|
                0 <= b < self.queue.waiting.len() && self.queue.waiting[b] == kept(
                    self.queue.waiting,
                    keep,
                )[i];
            assert(self.objects.contains_key(self.queue.waiting[b].key));
        }
        assert forall|i: int|
            0 <= i < next.queue.running.len() && (
            #[trigger] next.queue.running[i]).dirty implies next.objects.contains_key(
            next.queue.running[i].key,
        ) by {
            assert(self.queue.running[i].dirty);
        }
    }

    /// Observing a listing keeps the engine well-formed.
    pub proof fn lemma_observe_all_keeps_wf(self, listed: Seq<EchoView>, now: u64)
        requires
            self.wf(),
        ensures
            self.observe_all(listed, now).wf(),
            self.observe_all(listed, now).queue.workers == self.queue.workers,
        decreases listed.len(),
    {
        if listed.len() > 0 {
            self.lemma_observe_all_keeps_wf(listed.drop_last(), now);
            self.observe_all(listed.drop_last(), now).lemma_observe_keeps_wf(
                ChangeEventView::Modified(listed.last()),
                now,
            );
        }
    }

    /// A fresh listing keeps the engine well-formed.
    pub proof fn lemma_relist_keeps_wf(self, listed: Seq<EchoView>, now: u64)
        requires
            self.wf(),
        ensures
            self.relist(listed, now).wf(),
            self.relist(listed, now).queue.workers == self.queue.workers,
    {
        if !self.draining {
            self.lemma_forget_keeps_wf(listed_keys(listed));
            self.forget_unlisted(listed_keys(listed)).lemma_observe_all_keeps_wf(listed, now);
        }
    }

    /// Whatever events arrive and whatever the workers do, in whatever order, an engine that
    /// started empty is well-formed and keeps its pool size.
    pub proof fn lemma_run_keeps_wf(workers: nat, ops: Seq<EngineOp>)
        ensures
            EngineState::initial(workers).run(ops).wf(),
            EngineState::initial(workers).run(ops).queue.workers == workers,
        decreases ops.len(),
    {
        if ops.len() > 0 {
            Self::lemma_run_keeps_wf(workers, ops.drop_last());
            EngineState::initial(workers).run(ops.drop_last()).lemma_step_keeps_wf(ops.last());
        }
    }

    /// The serialization guarantee. At every instant of every history of the engine, at most
    /// one reconciliation of any one key is in flight, and no more reconciliations are in
    /// flight than the pool has workers.
    pub proof fn lemma_serialized(workers: nat, ops: Seq<EngineOp>, key: KeyView)
        ensures
            EngineState::initial(workers).run(ops).queue.in_flight(key) <= 1,
            EngineState::initial(workers).run(ops).queue.running.len() <= workers,
    {
        Self::lemma_run_keeps_wf(workers, ops);
        EngineState::initial(workers).run(ops).queue.lemma_one_flight_per_key(key);
    }

    /// The work that is handed out is for a key that was not in flight, carries the latest known
    /// state of the object, and puts the key in flight; until its attempt is finished, the
    /// engine hands that key to no other worker.
    pub proof fn lemma_work_is_exclusive(self, now: u64, later: u64)
        requires
            self.wf(),
        ensures
            self.work(now) matches Some(work) ==> {
                &&& !self.queue.is_running(work.key)
                &&& self.objects.contains_key(work.key)
                &&& work.echo == self.objects[work.key]
                &&& self.next(now).queue.is_running(work.key)
                &&& !(self.next(now).work(later) matches Some(again) && again.key == work.key)
            },
    {
        self.lemma_next_keeps_wf(now);
        self.queue.lemma_taken_starts_flight(now);
        if let Some(work) = self.work(now) {
            let after = self.next(now);
            after.queue.lemma_running_never_taken(work.key, later);
        }
    }

    /// A well-formed engine schedules nothing for an object it does not know.
    pub proof fn lemma_unknown_is_not_waiting(self, key: KeyView)
        requires
            self.wf(),
            !self.objects.contains_key(key),
        ensures
            !self.queue.is_waiting(key),
    {
        if self.queue.is_waiting(key) {
            let i = self.queue.waiting_index(key);
            assert(self.queue.waits_at(key, i));
            assert(self.objects.contains_key(self.queue.waiting[i].key));
        }
    }

    proof fn lemma_observe_all_objects(self, listed: Seq<EchoView>, now: u64, key: KeyView)
        requires
            !self.draining,
        ensures
            !self.observe_all(listed, now).draining,
            self.observe_all(listed, now).objects.contains_key(key) <==> self.objects.contains_key(
                key,
            ) || listed_keys(listed).contains(key),
        decreases listed.len(),
    {
        if listed.len() > 0 {
            let front = listed.drop_last();
            self.lemma_observe_all_objects(front, now, key);
            if listed_keys(listed).contains(key) {
                let i = choose|i: int| listed_at(listed, key, i);
                if i < front.len() {
                    assert(listed_at(front, key, i));
                }
            }
            if listed_keys(front).contains(key) {
                let i = choose|i: int| listed_at(front, key, i);
                assert(listed_at(listed, key, i));
            }
            if listed.last().metadata.key() == Some(key) {
                assert(listed_at(listed, key, listed.len() - 1));
            }
        } else {
            if listed_keys(listed).contains(key) {
                let i = choose|i: int| listed_at(listed, key, i);
            }
        }
    }

    /// A fresh listing corrects what the watch missed. After it, the engine knows exactly the
    /// objects that were listed; nothing waits for the key of an object that was not listed,
    /// and an attempt on such an object that is still in flight is followed by nothing.
    pub proof fn lemma_relist_corrects_drift(
        self,
        listed: Seq<EchoView>,
        at: u64,
        key: KeyView,
        action: Action,
        now: u64,
    )
        requires
            self.wf(),
            !self.draining,
        ensures
            self.relist(listed, at).objects.contains_key(key) <==> listed_keys(listed).contains(
                key,
            ),
            !listed_keys(listed).contains(key) ==> !self.relist(listed, at).queue.is_waiting(key)
                && !self.relist(listed, at).finish(key, action, now).queue.is_waiting(key),
    {
        let cleared = self.forget_unlisted(listed_keys(listed));
        let after = self.relist(listed, at);
        cleared.lemma_observe_all_objects(listed, at, key);
        self.lemma_relist_keeps_wf(listed, at);
        if !listed_keys(listed).contains(key) {
            after.lemma_unknown_is_not_waiting(key);
            let done = after.finish(key, action, now);
            after.lemma_finish_keeps_wf(key, action, now);
            done.lemma_unknown_is_not_waiting(key);
        }
    }

    /// Once shutdown was asked for, no event is admitted and no work is handed out, whatever
    /// arrives and however long it takes; only flights that end change the engine.
    pub proof fn lemma_draining_admits_nothing(self, event: ChangeEventView, now: u64)
        requires
            self.draining,
        ensures
            self.observe(event, now) == self,
            self.work(now) is None,
            self.next(now) == self,
    {
    }

    /// An object that the cluster reported gone is reconciled no more: nothing waits for its
    /// key, and an attempt on it that is still in flight is followed by nothing, whatever
    /// action it ends with.
    pub proof fn lemma_deleted_is_left_alone(
        self,
        echo: EchoView,
        at: u64,
        action: Action,
        now: u64,
    )
        requires
            self.wf(),
            !self.draining,
            echo.metadata.key() is Some,
        ensures
            ({
                let key = echo.metadata.key()->Some_0;
                let gone = self.observe(ChangeEventView::Deleted(echo), at);
                &&& !gone.objects.contains_key(key)
                &&& !gone.queue.is_waiting(key)
                &&& !gone.finish(key, action, now).queue.is_waiting(key)
                &&& !gone.finish(key, action, now).queue.is_running(key)
            }),
    {
        let key = echo.metadata.key()->Some_0;
        let gone = self.observe(ChangeEventView::Deleted(echo), at);
        self.lemma_observe_keeps_wf(ChangeEventView::Deleted(echo), at);
        let q = self.queue;
        let c = gone.queue;
        if q.is_running(key) {
            let r = q.running_index(key);
            assert(q.runs_at(key, r));
            q.lemma_running_index(key, r);
            assert(c.runs_at(key, r));
            c.lemma_running_index(key, r);
        } else if q.is_waiting(key) {
            let w = q.waiting_index(key);
            assert(q.waits_at(key, w));
            if c.is_waiting(key) {
                let x = c.waiting_index(key);
                assert(c.waits_at(key, x));
                let y = if x < w {
                    x
                } else {
                    x + 1
                };
                assert(c.waiting[x] == q.waiting[y]);
            }
            if c.is_running(key) {
                let x = c.running_index(key);
                assert(c.runs_at(key, x));
                assert(q.runs_at(key, x));
            }
        }
        let done = gone.finish(key, action, now);
        gone.lemma_finish_keeps_wf(key, action, now);
        if c.is_running(key) {
            let r = c.running_index(key);
            assert(c.runs_at(key, r));
            c.lemma_running_index(key, r);
            assert(!c.running[r].dirty);
            if done.queue.is_running(key) {
                let x = done.queue.running_index(key);
                assert(done.queue.runs_at(key, x));
                let y = if x < r {
                    x
                } else {
                    x + 1
                };
                assert(done.queue.running[x] == c.running[y]);
            }
            if done.queue.is_waiting(key) {
                let x = done.queue.waiting_index(key);
                assert(done.queue.waits_at(key, x));
                assert(c.waits_at(key, x));
            }
        }
    }
}

/// One operation on the engine.
pub enum EngineOp {
    Observe { event: ChangeEventView, now: u64 },
    Relist { listed: Seq<EchoView>, now: u64 },
    Next { now: u64 },
    Finish { key: KeyView, action: Action, now: u64 },
    Shutdown,
}

/// The runner: it keeps the store current from the watch, hands work to workers one key at a
/// time, and schedules what follows each attempt.
pub struct Engine {
    store: Store,
    queue: WorkQueue,
    draining: bool,
}

impl View for Engine {
    type V = EngineState;

    closed spec fn view(&self) -> EngineState {
        EngineState { objects: self.store@, queue: self.queue@, draining: self.draining }
    }
}

impl Engine {
    /// The engine's invariant. `new` establishes it and every method keeps it.
    pub closed spec fn wf(&self) -> bool {
        &&& self.store.wf()
        &&& self@.wf()
    }

    /// An engine that knows no object yet, for a pool of `workers` workers.
    pub fn new(workers: usize) -> (out: Engine)
        ensures
            out.wf(),
            out@ == EngineState::initial(workers as nat),
    {
        Engine { store: Store::new(), queue: WorkQueue::new(workers), draining: false }
    }

    /// Takes in one event of the watch, at time `now`.
    pub fn observe(&mut self, event: ChangeEvent, now: u64)
        requires
            old(self).wf(),
        ensures
            final(self).wf(),
            final(self)@ == old(self)@.observe(event@, now),
    {
        proof {
            self@.lemma_observe_keeps_wf(event@, now);
        }
        if self.draining {
            return ;
        }
        match event {
            ChangeEvent::Added(echo) | ChangeEvent::Modified(echo) => {
                match echo.key() {
                    Some(key) => {
                        self.queue.enqueue(key.duplicate(), now);
                        self.store.upsert(key, echo);
                    },
                    None => {},
                }
            },
            ChangeEvent::Deleted(echo) => {
                match echo.key() {
                    Some(key) => {
                        self.queue.cancel(&key);
                        self.store.remove(&key);
                    },
                    None => {},
                }
            },
        }
    }

    /// Hands out the next piece of work that is ready at `now`, if a worker is free and the
    /// engine is not draining. Its key is in flight until `finish` is called for it.
    pub fn next(&mut self, now: u64) -> (out: Option<Work>)
        requires
            old(self).wf(),
        ensures
            final(self).wf(),
            final(self)@ == old(self)@.next(now),
            match out {
                Some(work) => old(self)@.work(now) == Some(work@),
                None => old(self)@.work(now) is None,
            },
    {
        proof {
            self@.lemma_next_keeps_wf(now);
        }
        if self.draining {
            return None;
        }
        match self.queue.dequeue(now) {
            Some(key) => match self.store.get(&key) {
                Some(echo) => Some(Work { key, echo }),
                None => {
                    assert(false);
                    None
                },
            },
            None => None,
        }
    }

    /// Ends the attempt on `work` with `outcome`, at time `now`: the outcome is settled into an
    /// action, which is scheduled. Returns that action.
    pub fn finish(&mut self, work: &Work, outcome: &Result<Action, ReconcileError>, now: u64) -> (out:
        Action)
        requires
            old(self).wf(),
        ensures
            final(self).wf(),
            out == settled(outcome_view(*outcome)),
            final(self)@ == old(self)@.finish(work.key@, out, now),
    {
        let action = settle(&work.echo, outcome);
        proof {
            self@.lemma_finish_keeps_wf(work.key@, action, now);
        }
        let effective = if self.draining || !self.store.contains(&work.key) {
            Action::NoRequeue
        } else {
            action
        };
        self.queue.complete(&work.key, effective, now);
        action
    }

    /// Takes in a fresh listing of the cluster's objects, at time `now`: what the watch sends
    /// after it was restarted.
    pub fn relist(&mut self, listed: Vec<Echo>, now: u64)
        requires
            old(self).wf(),
        ensures
            final(self).wf(),
            final(self)@ == old(self)@.relist(views_of(listed@), now),
    {
        let ghost views = views_of(listed@);
        proof {
            self@.lemma_relist_keeps_wf(views, now);
        }
        if self.draining {
            return ;
        }
        let mut keep = Store::new();
        let mut i: usize = 0;
        assert(keep@.dom() =~= listed_keys(views.take(0)));
        while i < listed.len()
            invariant
                i <= listed.len(),
                views == views_of(listed@),
                keep.wf(),
                keep@.dom() == listed_keys(views.take(i as int)),
            decreases listed.len() - i,
        {
            proof {
                lemma_listed_keys_push(views.take(i as int), views[i as int]);
                assert(views.take(i as int).push(views[i as int]) =~= views.take(i + 1));
            }
            match listed[i].key() {
                Some(key) => {
                    keep.upsert(key, listed[i].duplicate());
                    assert(keep@.dom() =~= listed_keys(views.take(i + 1)));
                },
                None => {},
            }
            i += 1;
        }
        assert(views.take(i as int) =~= views);
        self.store.retain(&keep);
        self.queue.retain(&keep);
        let ghost cleared = self@;
        assert(cleared == old(self)@.forget_unlisted(listed_keys(views)));
        proof {
            old(self)@.lemma_forget_keeps_wf(listed_keys(views));
        }
        let mut j: usize = 0;
        while j < listed.len()
            invariant
                j <= listed.len(),
                views == views_of(listed@),
                self.wf(),
                !self.draining,
                self@ == cleared.observe_all(views.take(j as int), now),
            decreases listed.len() - j,
        {
            proof {
                assert(views.take(j + 1).drop_last() =~= views.take(j as int));
                assert(views.take(j + 1).last() == views[j as int]);
            }
            self.observe(ChangeEvent::Modified(listed[j].duplicate()), now);
            j += 1;
        }
        assert(views.take(j as int) =~= views);
    }

    /// Asks for shutdown: from now on no event is admitted and no work is handed out; flights
    /// go on to their end.
    pub fn shutdown(&mut self)
        requires
            old(self).wf(),
        ensures
            final(self).wf(),
            final(self)@ == old(self)@.shutdown(),
    {
        self.draining = true;
    }

    /// Whether shutdown was asked for and the last flight has ended.
    pub fn is_finished(&self) -> (out: bool)
        ensures
            out == self@.finished(),
    {
        self.draining && self.queue.in_flight() == 0
    }

    /// How many seconds from `now` until a waiting key is ready: 0 where one is ready already,
    /// `None` where nothing waits or the engine is draining and hands out no work any more.
    pub fn idle_for(&self, now: u64) -> (out: Option<u64>)
        ensures
            match out {
                Some(secs) => !self@.draining && exists|t: u64| #[trigger]
                    self@.queue.earliest_is(t) && secs == until(now, t),
                None => self@.draining || self@.queue.waiting.len() == 0,
            },
    {
        if self.draining {
            return None;
        }
        match self.queue.next_wakeup() {
            Some(t) => {
                assert(self@.queue.earliest_is(t));
                Some(
                    if t > now {
                        t - now
                    } else {
                        0
                    },
                )
            },
            None => None,
        }
    }

    /// The earliest time at which a waiting key is ready; `None` where nothing waits.
    pub fn next_wakeup(&self) -> (out: Option<u64>)
        ensures
            match out {
                Some(t) => self@.queue.earliest_is(t),
                None => self@.queue.waiting.len() == 0,
            },
    {
        self.queue.next_wakeup()
    }

    /// A copy of the latest known state of the object `key`; `None` where it is not tracked.
    pub fn lookup(&self, key: &ResourceKey) -> (out: Option<Echo>)
        requires
            self.wf(),
        ensures
            match out {
                Some(echo) => self@.objects.contains_key(key@) && self@.objects[key@] == echo@,
                None => !self@.objects.contains_key(key@),
            },
    {
        self.store.get(key)
    }
}

} // verus!
