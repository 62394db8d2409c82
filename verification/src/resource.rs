use vstd::prelude::*;

verus! {

/// Desired state of an `Echo`: the message to echo.
#[derive(Clone, Debug, Default, PartialEq, Eq)]
pub struct EchoSpec {
    pub message: String,
}

/// Observed state of an `Echo`: whether a message was echoed, and which one.
#[derive(Clone, Debug, Default, PartialEq, Eq)]
pub struct EchoStatus {
    pub echoed_message: Option<String>,
    pub echoed: bool,
}

/// The metadata the engine reads: identity, generation, deletion mark, finalizers.
#[derive(Clone, Debug, Default, PartialEq, Eq)]
pub struct Metadata {
    pub name: Option<String>,
    pub namespace: Option<String>,
    pub generation: u64,
    /// Set by the cluster once deletion was requested; the text is carried, never parsed.
    pub deletion_timestamp: Option<String>,
    /// In the order the cluster reports them.
    pub finalizers: Vec<String>,
}

/// One `Echo` object as last seen from the cluster.
#[derive(Clone, Debug, Default, PartialEq, Eq)]
pub struct Echo {
    pub metadata: Metadata,
    pub spec: EchoSpec,
    pub status: Option<EchoStatus>,
}

/// Names one object within the watched kind: the unit of queueing and of serialization.
#[derive(Clone, Debug, PartialEq, Eq)]
pub struct ResourceKey {
    pub namespace: String,
    pub name: String,
}

/// A spec as a mathematical value.
pub struct EchoSpecView {
    pub message: Seq<char>,
}

/// A status as a mathematical value.
pub struct EchoStatusView {
    pub echoed_message: Option<Seq<char>>,
    pub echoed: bool,
}

/// Metadata as a mathematical value.
pub struct MetadataView {
    pub name: Option<Seq<char>>,
    pub namespace: Option<Seq<char>>,
    pub generation: u64,
    pub deletion_timestamp: Option<Seq<char>>,
    pub finalizers: Seq<Seq<char>>,
}

/// An `Echo` as a mathematical value.
pub struct EchoView {
    pub metadata: MetadataView,
    pub spec: EchoSpecView,
    pub status: Option<EchoStatusView>,
}

/// A key as a mathematical value.
pub struct KeyView {
    pub namespace: Seq<char>,
    pub name: Seq<char>,
}

impl View for EchoSpec {
    type V = EchoSpecView;

    open spec fn view(&self) -> EchoSpecView {
        EchoSpecView { message: self.message@ }
    }
}

impl View for EchoStatus {
    type V = EchoStatusView;

    open spec fn view(&self) -> EchoStatusView {
        EchoStatusView { echoed_message: self.echoed_message.deep_view(), echoed: self.echoed }
    }
}

impl View for Metadata {
    type V = MetadataView;

    open spec fn view(&self) -> MetadataView {
        MetadataView {
            name: self.name.deep_view(),
            namespace: self.namespace.deep_view(),
            generation: self.generation,
            deletion_timestamp: self.deletion_timestamp.deep_view(),
            finalizers: self.finalizers.deep_view(),
        }
    }
}

impl View for Echo {
    type V = EchoView;

    open spec fn view(&self) -> EchoView {
        EchoView {
            metadata: self.metadata@,
            spec: self.spec@,
            status: match self.status {
                Some(s) => Some(s@),
                None => None,
            },
        }
    }
}

impl View for ResourceKey {
    type V = KeyView;

    open spec fn view(&self) -> KeyView {
        KeyView { namespace: self.namespace@, name: self.name@ }
    }
}

/// The namespace an object without one is taken to live in.
pub open spec fn default_namespace() -> Seq<char> {
    "default"@
}

impl MetadataView {
    /// Deletion was requested and only finalizers keep the object.
    pub open spec fn is_deleting(self) -> bool {
        self.deletion_timestamp is Some
    }

    /// The namespace of the object, or the default one where none is set.
    pub open spec fn namespace_or_default(self) -> Seq<char> {
        match self.namespace {
            Some(ns) => ns,
            None => default_namespace(),
        }
    }

    /// The queue key of the object; an object without a name has none.
    pub open spec fn key(self) -> Option<KeyView> {
        match self.name {
            Some(name) => Some(KeyView { namespace: self.namespace_or_default(), name }),
            None => None,
        }
    }
}

/// A copy of an optional string.
pub(crate) fn copy_text(text: &Option<String>) -> (out: Option<String>)
    ensures
        out.deep_view() == text.deep_view(),
{
    match text {
        Some(s) => Some(s.clone()),
        None => None,
    }
}

/// A copy of a list of strings, in the same order.
pub(crate) fn copy_texts(texts: &Vec<String>) -> (out: Vec<String>)
    ensures
        out.deep_view() == texts.deep_view(),
{
    let mut out: Vec<String> = Vec::new();
    let mut i: usize = 0;
    while i < texts.len()
        invariant
            i <= texts.len(),
            out.len() == i,
            forall|j: int| 0 <= j < i ==> out[j]@ == texts[j]@,
        decreases texts.len() - i,
    {
        out.push(texts[i].clone());
        i += 1;
    }
    assert(out.deep_view() =~= texts.deep_view());
    out
}

impl EchoSpec {
    /// A copy that holds the same message.
    pub fn duplicate(&self) -> (out: EchoSpec)
        ensures
            out@ == self@,
    {
        EchoSpec { message: self.message.clone() }
    }
}

impl EchoStatus {
    /// A copy that holds the same status.
    pub fn duplicate(&self) -> (out: EchoStatus)
        ensures
            out@ == self@,
    {
        EchoStatus { echoed_message: copy_text(&self.echoed_message), echoed: self.echoed }
    }
}

impl Metadata {
    /// A copy that holds the same metadata.
    pub fn duplicate(&self) -> (out: Metadata)
        ensures
            out@ == self@,
    {
        Metadata {
            name: copy_text(&self.name),
            namespace: copy_text(&self.namespace),
            generation: self.generation,
            deletion_timestamp: copy_text(&self.deletion_timestamp),
            finalizers: copy_texts(&self.finalizers),
        }
    }

    /// Whether the cluster has marked the object for deletion.
    pub fn is_deleting(&self) -> (out: bool)
        ensures
            out == self@.is_deleting(),
    {
        self.deletion_timestamp.is_some()
    }

    /// The namespace to address the object in: its own, or `"default"` where it names none.
    pub fn namespace_or_default(&self) -> (out: String)
        ensures
            out@ == self@.namespace_or_default(),
    {
        match &self.namespace {
            Some(ns) => ns.clone(),
            None => "default".to_string(),
        }
    }

    /// The key under which the object is stored and queued; `None` for an object without a name.
    pub fn key(&self) -> (out: Option<ResourceKey>)
        ensures
            out.is_some() == self@.key().is_some(),
            out matches Some(k) ==> Some(k@) == self@.key(),
    {
        match &self.name {
            Some(name) => Some(
                ResourceKey { namespace: self.namespace_or_default(), name: name.clone() },
            ),
            None => None,
        }
    }
}

impl Echo {
    /// A copy that holds the same object.
    pub fn duplicate(&self) -> (out: Echo)
        ensures
            out@ == self@,
    {
        Echo {
            metadata: self.metadata.duplicate(),
            spec: self.spec.duplicate(),
            status: match &self.status {
                Some(s) => Some(s.duplicate()),
                None => None,
            },
        }
    }

    /// The key under which the object is stored and queued; `None` for an object without a name.
    pub fn key(&self) -> (out: Option<ResourceKey>)
        ensures
            out.is_some() == self@.metadata.key().is_some(),
            out matches Some(k) ==> Some(k@) == self@.metadata.key(),
    {
        self.metadata.key()
    }
}

impl ResourceKey {
    /// A copy that names the same object.
    pub fn duplicate(&self) -> (out: ResourceKey)
        ensures
            out@ == self@,
    {
        ResourceKey { namespace: self.namespace.clone(), name: self.name.clone() }
    }

    /// Whether two keys name the same object.
    pub fn same(&self, other: &ResourceKey) -> (out: bool)
        ensures
            out == (self@ == other@),
    {
        self.namespace == other.namespace && self.name == other.name
    }
}

} // verus!
