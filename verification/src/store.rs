use vstd::prelude::*;
use crate::resource::{Echo, EchoView, KeyView, ResourceKey};

verus! {

struct Slot {
    key: ResourceKey,
    echo: Echo,
}

/// The objects of a store as a map from key to object.
pub type Objects = Map<KeyView, EchoView>;

spec fn held_at(slots: Seq<Slot>, key: KeyView, i: int) -> bool {
    0 <= i < slots.len() && slots[i].key@ == key
}

spec fn distinct_keys(slots: Seq<Slot>) -> bool {
    forall|i: int, j: int|
        0 <= i < slots.len() && 0 <= j < slots.len() && i != j ==> slots[i].key@ != slots[j].key@
}

spec fn objects_of(slots: Seq<Slot>) -> Objects {
    Map::new(
        |k: KeyView| exists|i: int| held_at(slots, k, i),
        |k: KeyView| slots[choose|i: int| held_at(slots, k, i)].echo@,
    )
}

proof fn lemma_slot(slots: Seq<Slot>, i: int)
    requires
        distinct_keys(slots),
        0 <= i < slots.len(),
    ensures
        objects_of(slots).contains_key(slots[i].key@),
        objects_of(slots)[slots[i].key@] == slots[i].echo@,
{
    let k = slots[i].key@;
    assert(held_at(slots, k, i));
    let c = choose|c: int| held_at(slots, k, c);
    assert(held_at(slots, k, c));
}

proof fn lemma_not_held(slots: Seq<Slot>, key: KeyView)
    requires
        forall|i: int| 0 <= i < slots.len() ==> slots[i].key@ != key,
    ensures
        !objects_of(slots).contains_key(key),
{
    if objects_of(slots).contains_key(key) {
        let c = choose|c: int| held_at(slots, key, c);
        assert(held_at(slots, key, c));
    }
}

proof fn lemma_put_new(slots: Seq<Slot>, slot: Slot)
    requires
        distinct_keys(slots),
        forall|i: int| 0 <= i < slots.len() ==> slots[i].key@ != slot.key@,
    ensures
        distinct_keys(slots.push(slot)),
        objects_of(slots.push(slot)) == objects_of(slots).insert(slot.key@, slot.echo@),
{
    let next = slots.push(slot);
    let want = objects_of(slots).insert(slot.key@, slot.echo@);
    assert forall|k: KeyView| objects_of(next).contains_key(k) implies want.contains_key(k) by {
        let c = choose|c: int| held_at(next, k, c);
        if c < slots.len() {
            assert(held_at(slots, k, c));
        }
    }
    assert forall|k: KeyView| want.contains_key(k) implies objects_of(next).contains_key(k) by {
        if k == slot.key@ {
            assert(held_at(next, k, slots.len() as int));
        } else {
            let c = choose|c: int| held_at(slots, k, c);
            assert(held_at(next, k, c));
        }
    }
    assert forall|k: KeyView| want.contains_key(k) implies objects_of(next)[k] == want[k] by {
        if k == slot.key@ {
            lemma_slot(next, slots.len() as int);
        } else {
            let c = choose|c: int| held_at(slots, k, c);
            lemma_slot(slots, c);
            lemma_slot(next, c);
        }
    }
    assert(objects_of(next) =~= want);
}

proof fn lemma_put_over(slots: Seq<Slot>, i: int, slot: Slot)
    requires
        distinct_keys(slots),
        0 <= i < slots.len(),
        slots[i].key@ == slot.key@,
    ensures
        distinct_keys(slots.update(i, slot)),
        objects_of(slots.update(i, slot)) == objects_of(slots).insert(slot.key@, slot.echo@),
{
    let next = slots.update(i, slot);
    let want = objects_of(slots).insert(slot.key@, slot.echo@);
    assert forall|a: int| 0 <= a < next.len() implies next[a].key@ == slots[a].key@ by {}
    assert forall|k: KeyView| objects_of(next).contains_key(k) implies want.contains_key(k) by {
        let c = choose|c: int| held_at(next, k, c);
        assert(held_at(slots, k, c));
    }
    assert forall|k: KeyView| want.contains_key(k) implies objects_of(next).contains_key(k) by {
        if k == slot.key@ {
            assert(held_at(next, k, i));
        } else {
            let c = choose|c: int| held_at(slots, k, c);
            assert(held_at(next, k, c));
        }
    }
    assert forall|k: KeyView| want.contains_key(k) implies objects_of(next)[k] == want[k] by {
        if k == slot.key@ {
            lemma_slot(next, i);
        } else {
            let c = choose|c: int| held_at(slots, k, c);
            lemma_slot(slots, c);
            lemma_slot(next, c);
        }
    }
    assert(objects_of(next) =~= want);
}

proof fn lemma_take_out(slots: Seq<Slot>, i: int)
    requires
        distinct_keys(slots),
        0 <= i < slots.len(),
    ensures
        distinct_keys(slots.remove(i)),
        objects_of(slots.remove(i)) == objects_of(slots).remove(slots[i].key@),
{
    let next = slots.remove(i);
    let gone = slots[i].key@;
    let want = objects_of(slots).remove(gone);
    assert forall|a: int| 0 <= a < next.len() implies next[a] == slots[if a < i {
        a
    } else {
        a + 1
    }] by {}
    assert forall|k: KeyView| objects_of(next).contains_key(k) implies want.contains_key(k) by {
        let c = choose|c: int| held_at(next, k, c);
        let d = if c < i {
            c
        } else {
            c + 1
        };
        assert(held_at(slots, k, d));
    }
    assert forall|k: KeyView| want.contains_key(k) implies objects_of(next).contains_key(k) by {
        let c = choose|c: int| held_at(slots, k, c);
        let d = if c < i {
            c
        } else {
            c - 1
        };
        assert(held_at(next, k, d));
    }
    assert forall|k: KeyView| want.contains_key(k) implies objects_of(next)[k] == want[k] by {
        let c = choose|c: int| held_at(slots, k, c);
        let d = if c < i {
            c
        } else {
            c - 1
        };
        lemma_slot(slots, c);
        lemma_slot(next, d);
    }
    assert(objects_of(next) =~= want);
}

spec fn copied_from(slots: Seq<Slot>, out: Seq<Slot>, from: Seq<int>, keep: Set<KeyView>, i: int) -> bool {
    &&& from.len() == out.len()
    &&& forall|a: int|
        0 <= a < out.len() ==> 0 <= #[trigger] from[a] < i && out[a].key@ == slots[from[a]].key@
            && out[a].echo@ == slots[from[a]].echo@ && keep.contains(out[a].key@)
    &&& forall|a: int, b: int| 0 <= a < b < out.len() ==> #[trigger] from[a] < #[trigger] from[b]
    &&& forall|j: int|
        0 <= j < i && keep.contains(#[trigger] slots[j].key@) ==> exists|a: int|
            0 <= a < out.len() && from[a] == j
}

proof fn lemma_copied(slots: Seq<Slot>, out: Seq<Slot>, from: Seq<int>, keep: Set<KeyView>)
    requires
        distinct_keys(slots),
        copied_from(slots, out, from, keep, slots.len() as int),
    ensures
        distinct_keys(out),
        objects_of(out) == objects_of(slots).restrict(keep),
{
    assert forall|a: int, b: int|
        0 <= a < out.len() && 0 <= b < out.len() && a != b implies out[a].key@ != out[b].key@ by {
        if a < b {
            assert(from[a] < from[b]);
        } else {
            assert(from[b] < from[a]);
        }
    }
    let want = objects_of(slots).restrict(keep);
    assert forall|k: KeyView| objects_of(out).contains_key(k) implies want.contains_key(k) by {
        let a = choose|a: int| held_at(out, k, a);
        assert(held_at(slots, k, from[a]));
    }
    assert forall|k: KeyView| want.contains_key(k) implies objects_of(out).contains_key(k) by {
        let j = choose|j: int| held_at(slots, k, j);
        assert(keep.contains(slots[j].key@));
        let a = choose|a: int| 0 <= a < out.len() && from[a] == j;
        assert(held_at(out, k, a));
    }
    assert forall|k: KeyView| want.contains_key(k) implies objects_of(out)[k] == want[k] by {
        let j = choose|j: int| held_at(slots, k, j);
        assert(keep.contains(slots[j].key@));
        let a = choose|a: int| 0 <= a < out.len() && from[a] == j;
        lemma_slot(slots, j);
        lemma_slot(out, a);
    }
    assert(objects_of(out) =~= want);
}

/// The last known state of every tracked object, by key.
pub struct Store {
    slots: Vec<Slot>,
}

impl View for Store {
    type V = Objects;

    closed spec fn view(&self) -> Objects {
        objects_of(self.slots@)
    }
}

impl Store {
    /// No key is stored twice. `new` establishes it and every method keeps it.
    pub closed spec fn wf(&self) -> bool {
        distinct_keys(self.slots@)
    }

    /// The store that tracks nothing.
    pub fn new() -> (out: Store)
        ensures
            out.wf(),
            out@ == Objects::empty(),
    {
        let out = Store { slots: Vec::new() };
        proof {
            assert forall|k: KeyView| !objects_of(out.slots@).contains_key(k) by {
                lemma_not_held(out.slots@, k);
            }
            assert(objects_of(out.slots@) =~= Objects::empty());
        }
        out
    }

    fn find(&self, key: &ResourceKey) -> (out: Option<usize>)
        ensures
            match out {
                Some(i) => held_at(self.slots@, key@, i as int),
                None => forall|i: int| 0 <= i < self.slots@.len() ==> self.slots@[i].key@ != key@,
            },
    {
        let mut i: usize = 0;
        while i < self.slots.len()
            invariant
                i <= self.slots.len(),
                forall|j: int| 0 <= j < i ==> self.slots@[j].key@ != key@,
            decreases self.slots.len() - i,
        {
            if self.slots[i].key.same(key) {
                return Some(i);
            }
            i += 1;
        }
        None
    }

    /// Whether the object `key` is tracked.
    pub fn contains(&self, key: &ResourceKey) -> (out: bool)
        requires
            self.wf(),
        ensures
            out == self@.contains_key(key@),
    {
        match self.find(key) {
            Some(i) => {
                proof {
                    lemma_slot(self.slots@, i as int);
                }
                true
            },
            None => {
                proof {
                    lemma_not_held(self.slots@, key@);
                }
                false
            },
        }
    }

    /// A copy of the last known state of the object `key`; `None` where it is not tracked.
    pub fn get(&self, key: &ResourceKey) -> (out: Option<Echo>)
        requires
            self.wf(),
        ensures
            match out {
                Some(echo) => self@.contains_key(key@) && self@[key@] == echo@,
                None => !self@.contains_key(key@),
            },
    {
        match self.find(key) {
            Some(i) => {
                proof {
                    lemma_slot(self.slots@, i as int);
                }
                Some(self.slots[i].echo.duplicate())
            },
            None => {
                proof {
                    lemma_not_held(self.slots@, key@);
                }
                None
            },
        }
    }

    /// Records `echo` as the state of the object `key`, in place of what was known of it.
    pub fn upsert(&mut self, key: ResourceKey, echo: Echo)
        requires
            old(self).wf(),
        ensures
            final(self).wf(),
            final(self)@ == old(self)@.insert(key@, echo@),
    {
        let slot = Slot { key, echo };
        match self.find(&slot.key) {
            Some(i) => {
                proof {
                    lemma_put_over(self.slots@, i as int, slot);
                }
                self.slots.set(i, slot);
            },
            None => {
                proof {
                    lemma_put_new(self.slots@, slot);
                }
                self.slots.push(slot);
            },
        }
    }

    /// Forgets the object `key`. Returns whether it was tracked.
    pub fn remove(&mut self, key: &ResourceKey) -> (out: bool)
        requires
            old(self).wf(),
        ensures
            final(self).wf(),
            final(self)@ == old(self)@.remove(key@),
            out == old(self)@.contains_key(key@),
    {
        match self.find(key) {
            Some(i) => {
                proof {
                    lemma_slot(self.slots@, i as int);
                    lemma_take_out(self.slots@, i as int);
                }
                self.slots.remove(i);
                true
            },
            None => {
                proof {
                    lemma_not_held(self.slots@, key@);
                    assert(self@.remove(key@) =~= self@);
                }
                false
            },
        }
    }

    /// Forgets every object whose key `keep` does not track.
    pub fn retain(&mut self, keep: &Store)
        requires
            old(self).wf(),
            keep.wf(),
        ensures
            final(self).wf(),
            final(self)@ == old(self)@.restrict(keep@.dom()),
    {
        let mut out: Vec<Slot> = Vec::new();
        let ghost mut from: Seq<int> = Seq::empty();
        let mut i: usize = 0;
        while i < self.slots.len()
            invariant
                i <= self.slots.len(),
                keep.wf(),
                copied_from(self.slots@, out@, from, keep@.dom(), i as int),
            decreases self.slots.len() - i,
        {
            let ghost before = out@;
            let ghost origin = from;
            if keep.contains(&self.slots[i].key) {
                out.push(
                    Slot { key: self.slots[i].key.duplicate(), echo: self.slots[i].echo.duplicate() },
                );
                proof {
                    from = from.push(i as int);
                    assert forall|j: int|
                        0 <= j < i + 1 && keep@.dom().contains(
                            #[trigger] self.slots@[j].key@,
                        ) implies exists|a: int| 0 <= a < out@.len() && from[a] == j by {
                        if j < i {
                            let a = choose|a: int| 0 <= a < before.len() && origin[a] == j;
                            assert(from[a] == j);
                        } else {
                            assert(from[before.len() as int] == j);
                        }
                    }
                }
            }
            i += 1;
        }
        proof {
            lemma_copied(self.slots@, out@, from, keep@.dom());
        }
        self.slots = out;
    }
}

} // verus!
