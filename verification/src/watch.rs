use vstd::prelude::*;
use crate::resource::{Echo, EchoView};

verus! {

/// One notification from the watch on the cluster.
#[derive(Clone, Debug, PartialEq, Eq)]
pub enum ChangeEvent {
    /// The object appeared.
    Added(Echo),
    /// The object changed, or was listed again after a reconnect.
    Modified(Echo),
    /// The cluster confirmed that the object is gone.
    Deleted(Echo),
}

/// A change event as a mathematical value.
pub enum ChangeEventView {
    Added(EchoView),
    Modified(EchoView),
    Deleted(EchoView),
}

impl View for ChangeEvent {
    type V = ChangeEventView;

    open spec fn view(&self) -> ChangeEventView {
        match self {
            ChangeEvent::Added(e) => ChangeEventView::Added(e@),
            ChangeEvent::Modified(e) => ChangeEventView::Modified(e@),
            ChangeEvent::Deleted(e) => ChangeEventView::Deleted(e@),
        }
    }
}

/// Which objects the watch covers.
#[derive(Clone, Debug, PartialEq, Eq)]
pub enum Scope {
    /// The objects of one namespace.
    Namespace(String),
    /// The objects of every namespace.
    AllNamespaces,
}

/// A scope as a mathematical value.
pub enum ScopeView {
    Namespace(Seq<char>),
    AllNamespaces,
}

impl View for Scope {
    type V = ScopeView;

    open spec fn view(&self) -> ScopeView {
        match self {
            Scope::Namespace(ns) => ScopeView::Namespace(ns@),
            Scope::AllNamespaces => ScopeView::AllNamespaces,
        }
    }
}

/// The scope that the two settings ask for: every namespace where `all_namespaces` is set,
/// else the named namespace, else the namespace `"default"`.
pub open spec fn scope_of(all_namespaces: bool, namespace: Option<Seq<char>>) -> ScopeView {
    if all_namespaces {
        ScopeView::AllNamespaces
    } else {
        match namespace {
            Some(ns) => ScopeView::Namespace(ns),
            None => ScopeView::Namespace("default"@),
        }
    }
}

/// Chooses the scope of the watch from the process settings.
pub fn watch_scope(all_namespaces: bool, namespace: Option<String>) -> (out: Scope)
    ensures
        out@ == scope_of(all_namespaces, namespace.deep_view()),
{
    if all_namespaces {
        Scope::AllNamespaces
    } else {
        match namespace {
            Some(ns) => Scope::Namespace(ns),
            None => Scope::Namespace("default".to_string()),
        }
    }
}

/// One message of the watch as the cluster sends it.
#[derive(Clone, Debug, PartialEq, Eq)]
pub enum Notification {
    /// The watch was started anew; a listing of all objects follows.
    Restarted,
    /// One object of the listing.
    Listed(Echo),
    /// The listing is complete.
    ListEnd,
    /// An object was added or modified.
    Applied(Echo),
    /// An object is gone.
    Deleted(Echo),
}

/// A notification as a mathematical value.
pub enum NotificationView {
    Restarted,
    Listed(EchoView),
    ListEnd,
    Applied(EchoView),
    Deleted(EchoView),
}

impl View for Notification {
    type V = NotificationView;

    open spec fn view(&self) -> NotificationView {
        match self {
            Notification::Restarted => NotificationView::Restarted,
            Notification::Listed(e) => NotificationView::Listed(e@),
            Notification::ListEnd => NotificationView::ListEnd,
            Notification::Applied(e) => NotificationView::Applied(e@),
            Notification::Deleted(e) => NotificationView::Deleted(e@),
        }
    }
}

/// What a notification amounts to.
#[derive(Clone, Debug, PartialEq, Eq)]
pub enum Signal {
    /// Nothing yet: a listing is being gathered.
    Nothing,
    /// One change to one object.
    Change(ChangeEvent),
    /// The complete listing of the objects that exist, in the order they were listed.
    Listing(Vec<Echo>),
}

/// A signal as a mathematical value.
pub enum SignalView {
    Nothing,
    Change(ChangeEventView),
    Listing(Seq<EchoView>),
}

/// The objects of a list as mathematical values.
pub open spec fn views_of(list: Seq<Echo>) -> Seq<EchoView> {
    Seq::new(list.len(), |i: int| list[i]@)
}

impl View for Signal {
    type V = SignalView;

    open spec fn view(&self) -> SignalView {
        match self {
            Signal::Nothing => SignalView::Nothing,
            Signal::Change(e) => SignalView::Change(e@),
            Signal::Listing(l) => SignalView::Listing(views_of(l@)),
        }
    }
}

/// The signal that `notification` amounts to while the objects `gathered` were listed so far.
/// The objects of a listing are held back until the listing is complete and then handed on
/// together. An applied object is a modified one: whether it is new is not told.
pub open spec fn signal_of(gathered: Seq<EchoView>, notification: NotificationView) -> SignalView {
    match notification {
        NotificationView::Restarted => SignalView::Nothing,
        NotificationView::Listed(_) => SignalView::Nothing,
        NotificationView::ListEnd => SignalView::Listing(gathered),
        NotificationView::Applied(e) => SignalView::Change(ChangeEventView::Modified(e)),
        NotificationView::Deleted(e) => SignalView::Change(ChangeEventView::Deleted(e)),
    }
}

/// The objects listed so far after `notification`: a restart and the end of a listing empty
/// the list, a listed object joins it, a change leaves it alone.
pub open spec fn gathered_after(gathered: Seq<EchoView>, notification: NotificationView) -> Seq<
    EchoView,
> {
    match notification {
        NotificationView::Restarted => Seq::empty(),
        NotificationView::Listed(e) => gathered.push(e),
        NotificationView::ListEnd => Seq::empty(),
        NotificationView::Applied(_) => gathered,
        NotificationView::Deleted(_) => gathered,
    }
}

/// Turns the messages of the watch into changes and listings.
pub struct Watcher {
    gathered: Vec<Echo>,
}

impl View for Watcher {
    type V = Seq<EchoView>;

    closed spec fn view(&self) -> Seq<EchoView> {
        views_of(self.gathered@)
    }
}

impl Watcher {
    /// A watcher that has gathered nothing.
    pub fn new() -> (out: Watcher)
        ensures
            out@ == Seq::<EchoView>::empty(),
    {
        let out = Watcher { gathered: Vec::new() };
        assert(out@ =~= Seq::<EchoView>::empty());
        out
    }

    /// Takes in one notification and says what it amounts to.
    pub fn translate(&mut self, notification: Notification) -> (out: Signal)
        ensures
            out@ == signal_of(old(self)@, notification@),
            final(self)@ == gathered_after(old(self)@, notification@),
    {
        match notification {
            Notification::Restarted => {
                self.gathered = Vec::new();
                assert(self@ =~= Seq::<EchoView>::empty());
                Signal::Nothing
            },
            Notification::Listed(echo) => {
                self.gathered.push(echo);
                assert(self@ =~= old(self)@.push(echo@));
                Signal::Nothing
            },
            Notification::ListEnd => {
                let mut listing: Vec<Echo> = Vec::new();
                std::mem::swap(&mut listing, &mut self.gathered);
                assert(self@ =~= Seq::<EchoView>::empty());
                Signal::Listing(listing)
            },
            Notification::Applied(echo) => Signal::Change(ChangeEvent::Modified(echo)),
            Notification::Deleted(echo) => Signal::Change(ChangeEvent::Deleted(echo)),
        }
    }
}

} // verus!
