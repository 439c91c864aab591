use vstd::prelude::*;
use crate::node::NodeId;

verus! {

/// Events a node can publish.
#[derive(Clone, Copy, Debug, PartialEq, Eq, Structural, Hash)]
pub enum Event {
    OnChange,
}

/// What a notification asks of its subscriber.
#[derive(Clone, Copy, Debug, PartialEq, Eq, Structural, Hash)]
pub enum Callback {
    /// Mark the subscribing scene node fully dirty; a subscriber that is no longer
    /// a scene node is unsubscribed instead.
    MarkSceneDirty,
}

#[derive(Clone, Copy, Debug, PartialEq, Eq, Structural)]
pub struct SubscriptionEntry {
    pub event: Event,
    pub subscriber: NodeId,
    pub callback: Callback,
}

/// The subscriptions a publishing node holds, in order of subscription.
pub struct Subscription {
    entries: Vec<SubscriptionEntry>,
}

pub open spec fn entry_is(e: SubscriptionEntry, subscriber: NodeId, event: Event) -> bool {
    e.subscriber == subscriber && e.event == event
}

/// At most one entry per (subscriber, event).
pub open spec fn entries_unique(s: Seq<SubscriptionEntry>) -> bool {
    forall|i: int, j: int|
        0 <= i < s.len() && 0 <= j < s.len() && i != j ==> !entry_is(
            #[trigger] s[i],
            (#[trigger] s[j]).subscriber,
            s[j].event,
        )
}

pub open spec fn has_entry(s: Seq<SubscriptionEntry>, subscriber: NodeId, event: Event) -> bool {
    exists|i: int| 0 <= i < s.len() && entry_is(#[trigger] s[i], subscriber, event)
}

/// The (subscriber, callback) pairs that a notification of `event` reaches, in order.
pub open spec fn notified(s: Seq<SubscriptionEntry>, event: Event) -> Seq<(NodeId, Callback)>
    decreases s.len(),
{
    if s.len() == 0 {
        Seq::empty()
    } else {
        let rest = notified(s.drop_last(), event);
        let e = s.last();
        if e.event == event {
            rest.push((e.subscriber, e.callback))
        } else {
            rest
        }
    }
}

/// How many times `subscriber` is reached by a notification of `event`.
pub open spec fn times_notified(s: Seq<SubscriptionEntry>, subscriber: NodeId, event: Event) -> nat
    decreases s.len(),
{
    if s.len() == 0 {
        0
    } else {
        let rest = times_notified(s.drop_last(), subscriber, event);
        if entry_is(s.last(), subscriber, event) {
            rest + 1
        } else {
            rest
        }
    }
}

/// The entries after `subscriber` subscribes to `event`.
pub open spec fn subscribed(s: Seq<SubscriptionEntry>, subscriber: NodeId, event: Event, callback: Callback) -> Seq<
    SubscriptionEntry,
> {
    if has_entry(s, subscriber, event) {
        s
    } else {
        s.push(SubscriptionEntry { event, subscriber, callback })
    }
}

/// How many of the notified pairs go to `subscriber`.
pub open spec fn count_for(n: Seq<(NodeId, Callback)>, subscriber: NodeId) -> nat
    decreases n.len(),
{
    if n.len() == 0 {
        0
    } else {
        count_for(n.drop_last(), subscriber) + if n.last().0 == subscriber {
            1nat
        } else {
            0nat
        }
    }
}

impl View for Subscription {
    type V = Seq<SubscriptionEntry>;

    closed spec fn view(&self) -> Seq<SubscriptionEntry> {
        self.entries@
    }
}

proof fn lemma_times_notified_absent(s: Seq<SubscriptionEntry>, subscriber: NodeId, event: Event)
    requires
        !has_entry(s, subscriber, event),
    ensures
        times_notified(s, subscriber, event) == 0,
    decreases s.len(),
{
    if s.len() > 0 {
        assert forall|i: int| 0 <= i < s.drop_last().len() implies !entry_is(
            #[trigger] s.drop_last()[i],
            subscriber,
            event,
        ) by {
            assert(s.drop_last()[i] == s[i]);
        }
        lemma_times_notified_absent(s.drop_last(), subscriber, event);
        assert(!entry_is(s[s.len() - 1], subscriber, event));
    }
}

proof fn lemma_times_notified_unique(s: Seq<SubscriptionEntry>, subscriber: NodeId, event: Event)
    requires
        entries_unique(s),
        has_entry(s, subscriber, event),
    ensures
        times_notified(s, subscriber, event) == 1,
    decreases s.len(),
{
    let p = s.drop_last();
    assert forall|i: int, j: int|
        0 <= i < p.len() && 0 <= j < p.len() && i != j implies !entry_is(#[trigger] p[i], (#[trigger] p[j]).subscriber, p[j].event) by {
        assert(p[i] == s[i] && p[j] == s[j]);
    }
    if entry_is(s.last(), subscriber, event) {
        assert forall|i: int| 0 <= i < p.len() implies !entry_is(#[trigger] p[i], subscriber, event) by {
            assert(p[i] == s[i]);
            let j = s.len() - 1;
            assert(!entry_is(s[i], s[j].subscriber, s[j].event));
        }
        lemma_times_notified_absent(p, subscriber, event);
    } else {
        let k = choose|k: int| 0 <= k < s.len() && entry_is(#[trigger] s[k], subscriber, event);
        assert(k != s.len() - 1);
        assert(p[k] == s[k]);
        lemma_times_notified_unique(p, subscriber, event);
    }
}

impl Subscription {
    pub open spec fn wf(&self) -> bool {
        entries_unique(self@)
    }

    pub fn new() -> (r: Self)
        ensures
            r@ == Seq::<SubscriptionEntry>::empty(),
            r.wf(),
    {
        Subscription { entries: Vec::new() }
    }

    pub fn len(&self) -> (r: usize)
        ensures
            r == self@.len(),
    {
        self.entries.len()
    }

    pub fn has_subscription(&self, subscriber: NodeId, event: Event) -> (r: bool)
        ensures
            r == has_entry(self@, subscriber, event),
    {
        let mut i: usize = 0;
        while i < self.entries.len()
            invariant
                0 <= i <= self@.len(),
                forall|k: int| 0 <= k < i ==> !entry_is(#[trigger] self@[k], subscriber, event),
            decreases self@.len() - i,
        {
            let e = self.entries[i];
            if e.subscriber == subscriber && e.event == event {
                return true;
            }
            i += 1;
        }
        false
    }

    /// Registers `subscriber` for `event`; nothing changes if it already is.
    pub fn subscribe(&mut self, subscriber: NodeId, event: Event, callback: Callback)
        requires
            old(self).wf(),
        ensures
            final(self).wf(),
            has_entry(final(self)@, subscriber, event),
            final(self)@ == subscribed(old(self)@, subscriber, event, callback),
    {
        proof {
            lemma_subscribed_unique(self@, subscriber, event, callback);
        }
        if !self.has_subscription(subscriber, event) {
            self.entries.push(SubscriptionEntry { event, subscriber, callback });
        }
    }

    /// Drops the subscription of `subscriber` to `event`, if any; the others keep their order.
    pub fn unsubscribe(&mut self, subscriber: NodeId, event: Event)
        requires
            old(self).wf(),
        ensures
            final(self).wf(),
            !has_entry(final(self)@, subscriber, event),
            !has_entry(old(self)@, subscriber, event) ==> final(self)@ == old(self)@,
            has_entry(old(self)@, subscriber, event) ==> exists|k: int|
                0 <= k < old(self)@.len() && entry_is(#[trigger] old(self)@[k], subscriber, event)
                    && final(self)@ == old(self)@.remove(k),
    {
        let ghost before = self@;
        let mut i: usize = 0;
        while i < self.entries.len()
            invariant
                0 <= i <= before.len(),
                self@ == before,
                before == old(self)@,
                entries_unique(before),
                forall|k: int| 0 <= k < i ==> !entry_is(#[trigger] before[k], subscriber, event),
            decreases before.len() - i,
        {
            let e = self.entries[i];
            if e.subscriber == subscriber && e.event == event {
                self.entries.remove(i);
                proof {
                    let after = self@;
                    let k = i as int;
                    assert forall|a: int| 0 <= a < after.len() implies !entry_is(
                        #[trigger] after[a],
                        subscriber,
                        event,
                    ) by {
                        let oa = if a < k { a } else { a + 1 };
                        assert(after[a] == before[oa]);
                        assert(!entry_is(before[oa], before[k].subscriber, before[k].event));
                    }
                    assert forall|a: int, b: int|
                        0 <= a < after.len() && 0 <= b < after.len() && a != b implies !entry_is(#[trigger] after[a], (#[trigger] after[b]).subscriber, after[b].event) by {
                        let oa = if a < k { a } else { a + 1 };
                        let ob = if b < k { b } else { b + 1 };
                        assert(after[a] == before[oa] && after[b] == before[ob]);
                    }
                }
                assert(entry_is(before[i as int], subscriber, event));
                return;
            }
            i += 1;
        }
    }

    /// Subscriptions absent before are absent after an unsubscription.
    pub proof fn lemma_remove_keeps_absent(s: Seq<SubscriptionEntry>, k: int, subscriber: NodeId, event: Event)
        requires
            0 <= k < s.len(),
            !has_entry(s, subscriber, event),
        ensures
            !has_entry(s.remove(k), subscriber, event),
    {
        let t = s.remove(k);
        assert forall|i: int| 0 <= i < t.len() implies !entry_is(#[trigger] t[i], subscriber, event) by {
            if i < k {
                assert(t[i] == s[i]);
            } else {
                assert(t[i] == s[i + 1]);
            }
        }
    }

    /// Who is to be told of `event`, in order of subscription.
    pub fn notify(&self, event: Event) -> (r: Vec<(NodeId, Callback)>)
        ensures
            r@ == notified(self@, event),
    {
        let mut out: Vec<(NodeId, Callback)> = Vec::new();
        let mut i: usize = 0;
        while i < self.entries.len()
            invariant
                0 <= i <= self@.len(),
                out@ == notified(self@.take(i as int), event),
            decreases self@.len() - i,
        {
            let e = self.entries[i];
            assert(self@.take(i + 1 as int).drop_last() == self@.take(i as int));
            if e.event == event {
                out.push((e.subscriber, e.callback));
            }
            i += 1;
        }
        assert(self@.take(self@.len() as int) == self@);
        out
    }
}

proof fn lemma_count_matches_times(s: Seq<SubscriptionEntry>, subscriber: NodeId, event: Event)
    ensures
        count_for(notified(s, event), subscriber) == times_notified(s, subscriber, event),
    decreases s.len(),
{
    if s.len() > 0 {
        lemma_count_matches_times(s.drop_last(), subscriber, event);
        let rest = notified(s.drop_last(), event);
        let e = s.last();
        if e.event == event {
            assert(rest.push((e.subscriber, e.callback)).drop_last() == rest);
        }
    }
}

pub proof fn lemma_subscribed_has(s: Seq<SubscriptionEntry>, subscriber: NodeId, event: Event, callback: Callback)
    requires
        entries_unique(s),
    ensures
        has_entry(subscribed(s, subscriber, event, callback), subscriber, event),
{
    lemma_subscribed_unique(s, subscriber, event, callback);
}

proof fn lemma_subscribed_unique(s: Seq<SubscriptionEntry>, subscriber: NodeId, event: Event, callback: Callback)
    requires
        entries_unique(s),
    ensures
        entries_unique(subscribed(s, subscriber, event, callback)),
        has_entry(subscribed(s, subscriber, event, callback), subscriber, event),
{
    if !has_entry(s, subscriber, event) {
        let after = s.push(SubscriptionEntry { event, subscriber, callback });
        assert(after[s.len() as int] == SubscriptionEntry { event, subscriber, callback });
        assert forall|i: int, j: int|
            0 <= i < after.len() && 0 <= j < after.len() && i != j implies !entry_is(#[trigger] after[i], (#[trigger] after[j]).subscriber, after[j].event) by {
            if i < s.len() && j < s.len() {
                assert(after[i] == s[i] && after[j] == s[j]);
            } else if i < s.len() {
                assert(after[i] == s[i]);
            } else {
                assert(after[j] == s[j]);
            }
        }
        assert(entry_is(after[s.len() as int], subscriber, event));
    }
}

/// Subscribing one subscriber to one event twice leaves a registry in which a
/// notification of that event reaches it exactly once.
pub proof fn lemma_subscribe_twice_notifies_once(
    start: Seq<SubscriptionEntry>,
    subscriber: NodeId,
    event: Event,
    callback: Callback,
)
    requires
        entries_unique(start),
    ensures
        count_for(
            notified(
                subscribed(subscribed(start, subscriber, event, callback), subscriber, event, callback),
                event,
            ),
            subscriber,
        ) == 1,
{
    let once = subscribed(start, subscriber, event, callback);
    lemma_subscribed_unique(start, subscriber, event, callback);
    let twice = subscribed(once, subscriber, event, callback);
    assert(twice == once);
    lemma_times_notified_unique(twice, subscriber, event);
    lemma_count_matches_times(twice, subscriber, event);
}

} // verus!
