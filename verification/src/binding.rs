//! Reactive bindings: which node of the editor observes which parameter.
//!
//! A node subscribes when it is built and is released when it is torn down.
//! Each subscription remembers the value that its node last showed. Once
//! per frame the editor refreshes the registry against the store. Every
//! subscription whose parameter holds another value than the one shown is
//! brought up to date, and its node is scheduled to be drawn again. The
//! nodes never poll.

use vstd::prelude::*;
use crate::param::ParamId;
use crate::store::{ParameterStore, StoreView};

verus! {

/// The identifier of a node of the editor.
pub type ObserverId = u32;

/// One subscription of a node to a parameter.
#[derive(Clone, Copy, Debug, PartialEq, Eq, Structural)]
pub struct Subscription {
    pub observer: ObserverId,
    pub source: ParamId,
    pub seen: i64,
}

/// The mathematical content of a [`Subscription`].
pub ghost struct SubscriptionView {
    pub observer: ObserverId,
    pub source: ParamId,
    pub seen: int,
}

impl View for Subscription {
    type V = SubscriptionView;

    open spec fn view(&self) -> SubscriptionView {
        SubscriptionView { observer: self.observer, source: self.source, seen: self.seen as int }
    }
}

impl DeepView for Subscription {
    type V = SubscriptionView;

    open spec fn deep_view(&self) -> SubscriptionView {
        self@
    }
}

/// The subscriptions of an open editor, oldest first.
#[derive(Debug)]
pub struct BindingRegistry {
    subscriptions: Vec<Subscription>,
}

impl View for BindingRegistry {
    type V = Seq<SubscriptionView>;

    closed spec fn view(&self) -> Seq<SubscriptionView> {
        self.subscriptions.deep_view()
    }
}

/// Whether the node of a subscription shows another value than the store
/// holds.
pub open spec fn stale(subscription: SubscriptionView, store: StoreView) -> bool {
    subscription.seen != store.value(subscription.source)
}

/// A subscription after its node was brought up to date.
pub open spec fn current(subscription: SubscriptionView, store: StoreView) -> SubscriptionView {
    SubscriptionView { seen: store.value(subscription.source), ..subscription }
}

/// The test that keeps the subscriptions of all nodes but `observer`.
pub open spec fn kept_without(observer: ObserverId) -> spec_fn(SubscriptionView) -> bool {
    |subscription: SubscriptionView| subscription.observer != observer
}

/// The function that picks the node of a stale subscription.
pub open spec fn due(store: StoreView) -> spec_fn(SubscriptionView) -> Option<ObserverId> {
    |subscription: SubscriptionView|
        if stale(subscription, store) {
            Some(subscription.observer)
        } else {
            None
        }
}

/// The function that brings a subscription up to date.
pub open spec fn updated(store: StoreView) -> spec_fn(SubscriptionView) -> SubscriptionView {
    |subscription: SubscriptionView| current(subscription, store)
}

/// The subscriptions that are left when `observer` is torn down.
pub open spec fn released(
    subscriptions: Seq<SubscriptionView>,
    observer: ObserverId,
) -> Seq<SubscriptionView> {
    subscriptions.filter(kept_without(observer))
}

/// The nodes to draw again, one for each stale subscription, oldest first.
pub open spec fn scheduled(subscriptions: Seq<SubscriptionView>, store: StoreView) -> Seq<
    ObserverId,
> {
    subscriptions.filter_map(due(store))
}

/// The subscriptions after a refresh: each shows what the store holds.
pub open spec fn refreshed(subscriptions: Seq<SubscriptionView>, store: StoreView) -> Seq<
    SubscriptionView,
> {
    subscriptions.map_values(updated(store))
}

/// Every subscription observes a parameter of the store.
pub open spec fn sources_known(subscriptions: Seq<SubscriptionView>, store: StoreView) -> bool {
    forall|i: int|
        0 <= i < subscriptions.len() ==> store.contains((#[trigger] subscriptions[i]).source)
}

impl BindingRegistry {
    /// A registry without subscriptions, as an editor has when it opens.
    pub fn new() -> (registry: BindingRegistry)
        ensures
            registry@ == Seq::<SubscriptionView>::empty(),
    {
        let registry = BindingRegistry { subscriptions: Vec::new() };
        assert(registry@ =~= Seq::empty());
        registry
    }

    /// The number of subscriptions.
    pub fn len(&self) -> (n: usize)
        ensures
            n == self@.len(),
    {
        self.subscriptions.len()
    }

    /// The subscriptions, oldest first.
    pub fn subscriptions(&self) -> (list: Vec<Subscription>)
        ensures
            list.deep_view() == self@,
    {
        let mut list: Vec<Subscription> = Vec::new();
        let mut i: usize = 0;
        while i < self.subscriptions.len()
            invariant
                i <= self.subscriptions.len(),
                list.len() == i,
                forall|k: int| 0 <= k < i ==> list[k] == self.subscriptions[k],
            decreases self.subscriptions.len() - i,
        {
            list.push(self.subscriptions[i]);
            i += 1;
        }
        assert(list.deep_view() =~= self@);
        list
    }

    /// Whether every subscription observes a parameter of `store`.
    pub fn observes_only(&self, store: &ParameterStore) -> (known: bool)
        requires
            store@.wf(),
        ensures
            known == sources_known(self@, store@),
    {
        let mut i: usize = 0;
        while i < self.subscriptions.len()
            invariant
                i <= self.subscriptions.len(),
                self@.len() == self.subscriptions.len(),
                store@.wf(),
                forall|k: int| 0 <= k < i ==> store@.contains((#[trigger] self@[k]).source),
            decreases self.subscriptions.len() - i,
        {
            assert(self@[i as int] == self.subscriptions[i as int]@);
            if !store.contains(self.subscriptions[i].source) {
                return false;
            }
            i += 1;
        }
        true
    }

    /// Subscribes the node `observer` to the parameter `source` and returns
    /// the value that the node shows first: the one that the store holds.
    pub fn bind(&mut self, observer: ObserverId, source: ParamId, store: &ParameterStore) -> (value:
        i64)
        requires
            store@.wf(),
            store@.contains(source),
        ensures
            value == store@.value(source),
            final(self)@ == old(self)@.push(
                SubscriptionView { observer, source, seen: value as int },
            ),
            sources_known(old(self)@, store@) ==> sources_known(final(self)@, store@),
    {
        let value: i64 = store.read(source);
        let ghost before = self@;
        self.subscriptions.push(Subscription { observer, source, seen: value });
        assert(self@ =~= before.push(SubscriptionView { observer, source, seen: value as int }));
        value
    }

    /// Tears down the node `observer`: all its subscriptions end, and those
    /// of the other nodes stay as they are, in their order.
    pub fn release(&mut self, observer: ObserverId)
        ensures
            final(self)@ == released(old(self)@, observer),
    {
        let ghost before = self@;
        let mut kept: Vec<Subscription> = Vec::new();
        let mut i: usize = 0;
        proof {
            reveal(Seq::filter);
            assert(before.take(0) =~= Seq::empty());
            assert(kept.deep_view() =~= Seq::empty());
        }
        while i < self.subscriptions.len()
            invariant
                i <= self.subscriptions.len(),
                before == self@,
                before.len() == self.subscriptions.len(),
                kept.deep_view() == released(before.take(i as int), observer),
            decreases self.subscriptions.len() - i,
        {
            let subscription = self.subscriptions[i];
            let ghost so_far = kept.deep_view();
            proof {
                assert(before[i as int] == subscription@);
                assert(before.take(i + 1) =~= before.take(i as int).push(subscription@));
                before.take(i as int).lemma_filter_push(subscription@, kept_without(observer));
            }
            if subscription.observer != observer {
                kept.push(subscription);
                proof {
                    assert(kept.deep_view() =~= so_far.push(subscription@));
                }
            }
            i += 1;
        }
        proof {
            assert(before.take(i as int) =~= before);
        }
        self.subscriptions = kept;
    }

    /// Ends all subscriptions, as happens when the editor closes.
    pub fn close(&mut self)
        ensures
            final(self)@ == Seq::<SubscriptionView>::empty(),
    {
        self.subscriptions = Vec::new();
        assert(self@ =~= Seq::empty());
    }

    /// Compares every subscription with the store. Returns the nodes to
    /// draw again, one for each subscription whose parameter has changed
    /// since the node last showed it, oldest subscription first, and brings
    /// those subscriptions up to date.
    pub fn refresh(&mut self, store: &ParameterStore) -> (redraw: Vec<ObserverId>)
        requires
            store@.wf(),
            sources_known(old(self)@, store@),
        ensures
            redraw@ == scheduled(old(self)@, store@),
            final(self)@ == refreshed(old(self)@, store@),
            sources_known(final(self)@, store@),
    {
        let ghost before = self@;
        let mut redraw: Vec<ObserverId> = Vec::new();
        let mut i: usize = 0;
        proof {
            assert(before.take(0) =~= Seq::empty());
        }
        while i < self.subscriptions.len()
            invariant
                i <= self.subscriptions.len(),
                before.len() == self.subscriptions.len(),
                self@.len() == before.len(),
                store@.wf(),
                sources_known(before, store@),
                redraw@ == scheduled(before.take(i as int), store@),
                forall|j: int| 0 <= j < i ==> self@[j] == current(before[j], store@),
                forall|j: int| i <= j < before.len() ==> self@[j] == before[j],
            decreases self.subscriptions.len() - i,
        {
            let subscription = self.subscriptions[i];
            let ghost at = self@;
            proof {
                assert(at[i as int] == subscription@);
                assert(store@.contains(before[i as int].source));
                before.lemma_filter_map_take_succ(due(store@), i as int);
            }
            let value: i64 = store.read(subscription.source);
            if value != subscription.seen {
                redraw.push(subscription.observer);
                self.subscriptions.set(
                    i,
                    Subscription {
                        observer: subscription.observer,
                        source: subscription.source,
                        seen: value,
                    },
                );
            }
            proof {
                assert(self@[i as int] == current(before[i as int], store@));
                assert forall|j: int| 0 <= j < i + 1 implies self@[j] == current(
                    before[j],
                    store@,
                ) by {
                    if j < i {
                        assert(self@[j] == at[j]);
                    }
                }
                assert forall|j: int| i + 1 <= j < before.len() implies self@[j] == before[j] by {
                    assert(self@[j] == at[j]);
                }
            }
            i += 1;
        }
        proof {
            assert(before.take(i as int) =~= before);
            assert(self@ =~= refreshed(before, store@));
        }
        redraw
    }
}

/// Once a node is torn down, no subscription names it.
pub proof fn lemma_released_unobserved(
    subscriptions: Seq<SubscriptionView>,
    observer: ObserverId,
    i: int,
)
    requires
        0 <= i < released(subscriptions, observer).len(),
    ensures
        released(subscriptions, observer)[i].observer != observer,
{
    subscriptions.lemma_filter_pred(kept_without(observer), i);
}

/// Once a node is torn down, no change of a parameter is delivered to it:
/// whatever the store holds, the node is not scheduled to be drawn again.
pub proof fn lemma_released_never_scheduled(
    subscriptions: Seq<SubscriptionView>,
    observer: ObserverId,
    store: StoreView,
)
    ensures
        !scheduled(released(subscriptions, observer), store).contains(observer),
{
    let rest = released(subscriptions, observer);
    if scheduled(rest, store).contains(observer) {
        rest.lemma_filter_map_contains(due(store), observer);
        let subscription = choose|t: SubscriptionView| #[trigger]
            rest.contains(t) && due(store)(t) == Some(observer);
        let i = choose|i: int| 0 <= i < rest.len() && rest[i] == subscription;
        lemma_released_unobserved(subscriptions, observer, i);
    }
}

/// A node whose parameter was changed behind its back is scheduled by the
/// next refresh, and after that refresh it shows what the store holds.
pub proof fn lemma_change_reaches_observer(
    subscriptions: Seq<SubscriptionView>,
    store: StoreView,
    i: int,
)
    requires
        0 <= i < subscriptions.len(),
    ensures
        stale(subscriptions[i], store) ==> scheduled(subscriptions, store).contains(
            subscriptions[i].observer,
        ),
        refreshed(subscriptions, store).len() == subscriptions.len(),
        refreshed(subscriptions, store)[i].seen == store.value(subscriptions[i].source),
        refreshed(subscriptions, store)[i].observer == subscriptions[i].observer,
        refreshed(subscriptions, store)[i].source == subscriptions[i].source,
        !stale(refreshed(subscriptions, store)[i], store),
    decreases subscriptions.len(),
{
    if stale(subscriptions[i], store) {
        let front = subscriptions.drop_last();
        let last = subscriptions.last();
        if i == subscriptions.len() - 1 {
            let picked = front.filter_map(due(store)) + seq![last.observer];
            assert(scheduled(subscriptions, store) == picked);
            assert(picked[picked.len() - 1] == last.observer);
        } else {
            assert(front[i] == subscriptions[i]);
            lemma_change_reaches_observer(front, store, i);
            let earlier = front.filter_map(due(store));
            let j = choose|j: int| 0 <= j < earlier.len() && earlier[j] == subscriptions[i].observer;
            assert(scheduled(subscriptions, store)[j] == subscriptions[i].observer);
        }
    }
}

/// Right after a refresh no node is out of date, so a second refresh
/// against the same store schedules nothing.
pub proof fn lemma_refresh_settles(subscriptions: Seq<SubscriptionView>, store: StoreView)
    ensures
        scheduled(refreshed(subscriptions, store), store) == Seq::<ObserverId>::empty(),
{
    let fresh = refreshed(subscriptions, store);
    let again = scheduled(fresh, store);
    if again.len() > 0 {
        assert(again.contains(again[0]));
        fresh.lemma_filter_map_contains(due(store), again[0]);
        let subscription = choose|t: SubscriptionView| #[trigger]
            fresh.contains(t) && due(store)(t) == Some(again[0]);
        let i = choose|i: int| 0 <= i < fresh.len() && fresh[i] == subscription;
        assert(fresh[i] == current(subscriptions[i], store));
    }
    assert(again =~= Seq::empty());
}

} // verus!
