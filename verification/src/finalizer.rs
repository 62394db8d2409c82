use vstd::prelude::*;
use crate::resource::{copy_texts, Metadata, MetadataView};

verus! {

/// `name` stands at index `i` of `list`, and nowhere before it.
pub open spec fn first_at(list: Seq<Seq<char>>, name: Seq<char>, i: int) -> bool {
    &&& 0 <= i < list.len()
    &&& list[i] == name
    &&& forall|j: int| 0 <= j < i ==> list[j] != name
}

/// The index of the first entry of `list` equal to `name`; arbitrary where there is none.
pub open spec fn first_index(list: Seq<Seq<char>>, name: Seq<char>) -> int {
    choose|i: int| first_at(list, name, i)
}

/// A first occurrence is the only first occurrence.
pub proof fn lemma_first_at_unique(list: Seq<Seq<char>>, name: Seq<char>, i: int, j: int)
    requires
        first_at(list, name, i),
        first_at(list, name, j),
    ensures
        i == j,
{
}

proof fn lemma_first_before(list: Seq<Seq<char>>, name: Seq<char>, k: int)
    requires
        0 <= k < list.len(),
        list[k] == name,
    ensures
        exists|i: int| first_at(list, name, i),
    decreases k,
{
    if forall|j: int| 0 <= j < k ==> list[j] != name {
        assert(first_at(list, name, k));
    } else {
        let j = choose|j: int| 0 <= j < k && list[j] == name;
        lemma_first_before(list, name, j);
    }
}

/// A list that holds `name` holds it at `first_index`, and nowhere before.
pub proof fn lemma_first_index(list: Seq<Seq<char>>, name: Seq<char>)
    requires
        list.contains(name),
    ensures
        first_at(list, name, first_index(list, name)),
{
    let k = choose|k: int| 0 <= k < list.len() && list[k] == name;
    lemma_first_before(list, name, k);
}

/// Where the object stands in the life cycle that one finalizer guards.
#[derive(Clone, Copy, Debug, PartialEq, Eq, Structural)]
pub enum Phase {
    /// Live, and the finalizer is not on it yet.
    Unmanaged,
    /// Live, and the finalizer is on it.
    Managed,
    /// Marked for deletion while the finalizer is still on it.
    Deleting,
    /// Marked for deletion and the finalizer is gone: the cluster may drop the object.
    Removed,
}

/// The phase that the metadata shows for the finalizer `name`.
pub open spec fn phase_of(meta: MetadataView, name: Seq<char>) -> Phase {
    if meta.is_deleting() {
        if meta.finalizers.contains(name) {
            Phase::Deleting
        } else {
            Phase::Removed
        }
    } else {
        if meta.finalizers.contains(name) {
            Phase::Managed
        } else {
            Phase::Unmanaged
        }
    }
}

/// The index of the first entry equal to `name`; `None` where no entry equals it.
pub fn position(list: &Vec<String>, name: &str) -> (out: Option<usize>)
    ensures
        match out {
            Some(i) => first_at(list.deep_view(), name@, i as int),
            None => !list.deep_view().contains(name@),
        },
{
    let wanted = name.to_string();
    let mut i: usize = 0;
    while i < list.len()
        invariant
            i <= list.len(),
            wanted@ == name@,
            forall|j: int| 0 <= j < i ==> list.deep_view()[j] != name@,
        decreases list.len() - i,
    {
        if list[i] == wanted {
            assert(list.deep_view()[i as int] == name@);
            return Some(i);
        }
        assert(list.deep_view()[i as int] != name@);
        i += 1;
    }
    None
}

/// The phase of the object with respect to the finalizer `name`.
pub fn phase(meta: &Metadata, name: &str) -> (out: Phase)
    ensures
        out == phase_of(meta@, name@),
{
    let held = position(&meta.finalizers, name).is_some();
    if meta.is_deleting() {
        if held {
            Phase::Deleting
        } else {
            Phase::Removed
        }
    } else {
        if held {
            Phase::Managed
        } else {
            Phase::Unmanaged
        }
    }
}

/// A guarded change to an object's finalizer list. The cluster applies it only while the guard
/// holds, so a list that another writer changed in the meantime is never overwritten.
#[derive(Clone, Debug, PartialEq, Eq)]
pub enum FinalizerPatch {
    /// Append `name`, provided the list still equals `expected`.
    Append { expected: Vec<String>, name: String },
    /// Remove the entry at `index`, provided that entry still equals `name`.
    RemoveAt { index: usize, name: String },
}

/// A finalizer patch as a mathematical value.
pub enum FinalizerPatchView {
    Append { expected: Seq<Seq<char>>, name: Seq<char> },
    RemoveAt { index: int, name: Seq<char> },
}

impl View for FinalizerPatch {
    type V = FinalizerPatchView;

    open spec fn view(&self) -> FinalizerPatchView {
        match self {
            FinalizerPatch::Append { expected, name } => FinalizerPatchView::Append {
                expected: expected.deep_view(),
                name: name@,
            },
            FinalizerPatch::RemoveAt { index, name } => FinalizerPatchView::RemoveAt {
                index: *index as int,
                name: name@,
            },
        }
    }
}

impl FinalizerPatchView {
    /// Whether the patch's guard holds of `list`.
    pub open spec fn admits(self, list: Seq<Seq<char>>) -> bool {
        match self {
            FinalizerPatchView::Append { expected, name } => list == expected,
            FinalizerPatchView::RemoveAt { index, name } => 0 <= index < list.len() && list[index]
                == name,
        }
    }

    /// The list after the patch; `None` where the guard fails and the cluster refuses it.
    pub open spec fn apply(self, list: Seq<Seq<char>>) -> Option<Seq<Seq<char>>> {
        if self.admits(list) {
            match self {
                FinalizerPatchView::Append { expected, name } => Some(list.push(name)),
                FinalizerPatchView::RemoveAt { index, name } => Some(list.remove(index)),
            }
        } else {
            None
        }
    }
}

/// Whether two lists hold equal strings in equal order.
pub fn same_texts(a: &Vec<String>, b: &Vec<String>) -> (out: bool)
    ensures
        out == (a.deep_view() == b.deep_view()),
{
    if a.len() != b.len() {
        assert(a.deep_view().len() != b.deep_view().len());
        return false;
    }
    let mut i: usize = 0;
    while i < a.len()
        invariant
            i <= a.len(),
            a.len() == b.len(),
            forall|j: int| 0 <= j < i ==> a.deep_view()[j] == b.deep_view()[j],
        decreases a.len() - i,
    {
        if a[i] != b[i] {
            assert(a.deep_view()[i as int] != b.deep_view()[i as int]);
            return false;
        }
        i += 1;
    }
    assert(a.deep_view() =~= b.deep_view());
    true
}

impl FinalizerPatch {
    /// The patch that puts `name` on an object whose finalizers are `list`.
    pub fn append(list: &Vec<String>, name: &str) -> (out: FinalizerPatch)
        ensures
            out@ == (FinalizerPatchView::Append { expected: list.deep_view(), name: name@ }),
    {
        FinalizerPatch::Append { expected: copy_texts(list), name: name.to_string() }
    }

    /// The patch that takes the first entry equal to `name` off an object whose finalizers are
    /// `list`; `None` where the list holds no such entry.
    pub fn remove(list: &Vec<String>, name: &str) -> (out: Option<FinalizerPatch>)
        ensures
            match out {
                Some(p) => p@ matches FinalizerPatchView::RemoveAt { index, name: n } && n == name@
                    && first_at(list.deep_view(), name@, index),
                None => !list.deep_view().contains(name@),
            },
    {
        match position(list, name) {
            Some(index) => Some(FinalizerPatch::RemoveAt { index, name: name.to_string() }),
            None => None,
        }
    }

    /// What the cluster makes of `list` under this patch: the changed list, or `None` where the
    /// guard fails and nothing changes.
    pub fn apply(&self, list: &Vec<String>) -> (out: Option<Vec<String>>)
        ensures
            out.deep_view() == self@.apply(list.deep_view()),
    {
        match self {
            FinalizerPatch::Append { expected, name } => {
                if same_texts(list, expected) {
                    let mut next = copy_texts(list);
                    next.push(name.clone());
                    assert(next.deep_view() =~= list.deep_view().push(name@));
                    Some(next)
                } else {
                    None
                }
            },
            FinalizerPatch::RemoveAt { index, name } => {
                if *index < list.len() && list[*index] == *name {
                    assert(list.deep_view()[*index as int] == name@);
                    let mut next = copy_texts(list);
                    next.remove(*index);
                    assert(next.deep_view() =~= list.deep_view().remove(*index as int));
                    Some(next)
                } else {
                    assert(*index < list.len() ==> list.deep_view()[*index as int] != name@);
                    None
                }
            },
        }
    }
}

/// Appending a finalizer to the list the patch was made for is admitted, keeps every entry where
/// it was, and puts the name last.
pub proof fn lemma_append_keeps_others(list: Seq<Seq<char>>, name: Seq<char>)
    ensures
        (FinalizerPatchView::Append { expected: list, name }).apply(list) matches Some(next)
            && next.len() == list.len() + 1 && next.last() == name && (forall|j: int|
            0 <= j < list.len() ==> next[j] == list[j]),
{
}

/// Removing the first entry equal to `name` from the list the patch was made for is admitted,
/// drops exactly that entry and keeps all others in their order.
pub proof fn lemma_remove_keeps_others(list: Seq<Seq<char>>, name: Seq<char>, index: int)
    requires
        first_at(list, name, index),
    ensures
        (FinalizerPatchView::RemoveAt { index, name }).apply(list) matches Some(next) && next.len()
            == list.len() - 1 && (forall|j: int| 0 <= j < index ==> next[j] == list[j]) && (
        forall|j: int| index <= j < next.len() ==> next[j] == list[j + 1]),
{
}

/// A patch whose guard fails of the list it meets changes nothing: the cluster refuses it.
pub proof fn lemma_stale_patch_refused(patch: FinalizerPatchView, list: Seq<Seq<char>>)
    requires
        !patch.admits(list),
    ensures
        patch.apply(list) is None,
{
}

/// One operation of a finalizer patch as it is sent, in the order of sending. The cluster takes
/// the operations one after the other and drops the whole patch as soon as one of them fails.
#[derive(Clone, Debug, PartialEq, Eq)]
pub enum PatchOp {
    /// Fails unless the object has no finalizer at all.
    ExpectNone,
    /// Fails unless the finalizers are exactly `list`.
    ExpectList { list: Vec<String> },
    /// Fails unless the finalizer at `index` is `name`.
    ExpectAt { index: usize, name: String },
    /// Makes `name` the only finalizer.
    Create { name: String },
    /// Adds `name` after the last finalizer.
    Push { name: String },
    /// Takes the finalizer at `index` away.
    RemoveAt { index: usize },
}

/// A patch operation as a mathematical value.
pub enum PatchOpView {
    ExpectNone,
    ExpectList { list: Seq<Seq<char>> },
    ExpectAt { index: int, name: Seq<char> },
    Create { name: Seq<char> },
    Push { name: Seq<char> },
    RemoveAt { index: int },
}

impl View for PatchOp {
    type V = PatchOpView;

    open spec fn view(&self) -> PatchOpView {
        match self {
            PatchOp::ExpectNone => PatchOpView::ExpectNone,
            PatchOp::ExpectList { list } => PatchOpView::ExpectList { list: list.deep_view() },
            PatchOp::ExpectAt { index, name } => PatchOpView::ExpectAt {
                index: *index as int,
                name: name@,
            },
            PatchOp::Create { name } => PatchOpView::Create { name: name@ },
            PatchOp::Push { name } => PatchOpView::Push { name: name@ },
            PatchOp::RemoveAt { index } => PatchOpView::RemoveAt { index: *index as int },
        }
    }
}

impl PatchOpView {
    /// What the operation makes of `list`; `None` where it fails. An object without finalizers
    /// has the empty list.
    pub open spec fn apply(self, list: Seq<Seq<char>>) -> Option<Seq<Seq<char>>> {
        match self {
            PatchOpView::ExpectNone => if list.len() == 0 {
                Some(list)
            } else {
                None
            },
            PatchOpView::ExpectList { list: expected } => if list == expected {
                Some(list)
            } else {
                None
            },
            PatchOpView::ExpectAt { index, name } => if 0 <= index < list.len() && list[index]
                == name {
                Some(list)
            } else {
                None
            },
            PatchOpView::Create { name } => Some(seq![name]),
            PatchOpView::Push { name } => Some(list.push(name)),
            PatchOpView::RemoveAt { index } => if 0 <= index < list.len() {
                Some(list.remove(index))
            } else {
                None
            },
        }
    }
}

/// What a sequence of operations makes of `list`; `None` as soon as one of them fails.
pub open spec fn apply_all(ops: Seq<PatchOpView>, list: Seq<Seq<char>>) -> Option<Seq<Seq<char>>>
    decreases ops.len(),
{
    if ops.len() == 0 {
        Some(list)
    } else {
        match ops.first().apply(list) {
            Some(next) => apply_all(ops.drop_first(), next),
            None => None,
        }
    }
}

/// The views of a list of operations.
pub open spec fn ops_view(ops: Seq<PatchOp>) -> Seq<PatchOpView> {
    Seq::new(ops.len(), |i: int| ops[i]@)
}

impl FinalizerPatchView {
    /// The operations that carry the patch: its guard first, then its change.
    pub open spec fn operations(self) -> Seq<PatchOpView> {
        match self {
            FinalizerPatchView::Append { expected, name } => if expected.len() == 0 {
                seq![PatchOpView::ExpectNone, PatchOpView::Create { name }]
            } else {
                seq![PatchOpView::ExpectList { list: expected }, PatchOpView::Push { name }]
            },
            FinalizerPatchView::RemoveAt { index, name } => seq![
                PatchOpView::ExpectAt { index, name },
                PatchOpView::RemoveAt { index },
            ],
        }
    }
}

impl FinalizerPatch {
    /// The operations to send for this patch, in order.
    pub fn operations(&self) -> (out: Vec<PatchOp>)
        ensures
            ops_view(out@) == self@.operations(),
    {
        let mut out: Vec<PatchOp> = Vec::new();
        match self {
            FinalizerPatch::Append { expected, name } => {
                if expected.len() == 0 {
                    out.push(PatchOp::ExpectNone);
                    out.push(PatchOp::Create { name: name.clone() });
                } else {
                    out.push(PatchOp::ExpectList { list: copy_texts(expected) });
                    out.push(PatchOp::Push { name: name.clone() });
                }
            },
            FinalizerPatch::RemoveAt { index, name } => {
                out.push(PatchOp::ExpectAt { index: *index, name: name.clone() });
                out.push(PatchOp::RemoveAt { index: *index });
            },
        }
        assert(ops_view(out@) =~= self@.operations());
        out
    }
}

/// The operations of a patch do to a list exactly what the patch says: they change it as the
/// patch does where the patch's guard holds, and fail where it does not.
pub proof fn lemma_operations_carry_patch(patch: FinalizerPatchView, list: Seq<Seq<char>>)
    ensures
        apply_all(patch.operations(), list) == patch.apply(list),
{
    let ops = patch.operations();
    assert(ops.len() == 2);
    reveal_with_fuel(apply_all, 3);
    assert(ops.drop_first().len() == 1);
    assert(ops.drop_first().first() == ops[1]);
    assert(ops.drop_first().drop_first().len() == 0);
    match patch {
        FinalizerPatchView::Append { expected, name } => {
            if expected.len() == 0 {
                if list == expected {
                    assert(list.push(name) =~= seq![name]);
                } else {
                    assert(list.len() != 0) by {
                        if list.len() == 0 {
                            assert(list =~= expected);
                        }
                    }
                }
            }
        },
        FinalizerPatchView::RemoveAt { index, name } => {},
    }
}

} // verus!
