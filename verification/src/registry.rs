//! The subscribers of each topic, in the order in which they subscribed.
//! A subscriber is any handle `S` through which messages reach it.

use vstd::prelude::*;

verus! {

/// `subscribers` with `subscriber` added to the end of `topic`'s list; a
/// topic seen for the first time starts with an empty list.
pub open spec fn with_subscriber<S>(
    subscribers: Map<Seq<char>, Seq<S>>,
    topic: Seq<char>,
    subscriber: S,
) -> Map<Seq<char>, Seq<S>> {
    let current = if subscribers.contains_key(topic) {
        subscribers[topic]
    } else {
        Seq::empty()
    };
    subscribers.insert(topic, current.push(subscriber))
}

/// The registered topics that have no subscriber.
pub open spec fn stale_topic_set<S>(subscribers: Map<Seq<char>, Seq<S>>) -> Set<Seq<char>> {
    Set::new(|t: Seq<char>| subscribers.contains_key(t) && subscribers[t].len() == 0)
}

/// The items of `list` whose position is kept by `keep`: position `i` is
/// kept where `keep` has no entry for it or `keep[i]` is true.
pub open spec fn kept<S>(list: Seq<S>, keep: Seq<bool>) -> Seq<S>
    decreases list.len(),
{
    if list.len() == 0 {
        Seq::empty()
    } else {
        let i = list.len() - 1;
        if i >= keep.len() || keep[i] {
            kept(list.drop_last(), keep).push(list.last())
        } else {
            kept(list.drop_last(), keep)
        }
    }
}

/// `subscribers` with `topic`'s list cut down to the positions that `keep`
/// keeps; unchanged where `topic` is not registered.
pub open spec fn with_retained<S>(
    subscribers: Map<Seq<char>, Seq<S>>,
    topic: Seq<char>,
    keep: Seq<bool>,
) -> Map<Seq<char>, Seq<S>> {
    if subscribers.contains_key(topic) {
        subscribers.insert(topic, kept(subscribers[topic], keep))
    } else {
        subscribers
    }
}

proof fn lemma_kept_none<S>(list: Seq<S>, keep: Seq<bool>)
    requires
        list.len() <= keep.len(),
        forall|i: int| 0 <= i < list.len() ==> !#[trigger] keep[i],
    ensures
        kept(list, keep).len() == 0,
    decreases list.len(),
{
    if list.len() > 0 {
        lemma_kept_none(list.drop_last(), keep);
    }
}

/// A registered topic whose every subscriber is dropped is left with no
/// subscriber, so it is among the stale topics that a cleanup removes.
pub proof fn lemma_dropped_topic_is_stale<S>(
    subscribers: Map<Seq<char>, Seq<S>>,
    topic: Seq<char>,
    keep: Seq<bool>,
)
    requires
        subscribers.contains_key(topic),
        subscribers[topic].len() <= keep.len(),
        forall|i: int| 0 <= i < subscribers[topic].len() ==> !#[trigger] keep[i],
    ensures
        stale_topic_set(with_retained(subscribers, topic, keep)).contains(topic),
{
    lemma_kept_none(subscribers[topic], keep);
}

/// A topic is stale exactly when it is registered and has no subscriber.
pub proof fn lemma_stale_means_unsubscribed<S>(subscribers: Map<Seq<char>, Seq<S>>, topic: Seq<char>)
    ensures
        stale_topic_set(subscribers).contains(topic) <==> (subscribers.contains_key(topic)
            && subscribers[topic].len() == 0),
{
}

/// A topic just subscribed to is never stale, however many subscribers it
/// has.
pub proof fn lemma_subscribed_topic_not_stale<S>(
    subscribers: Map<Seq<char>, Seq<S>>,
    topic: Seq<char>,
    subscriber: S,
)
    ensures
        !stale_topic_set(with_subscriber(subscribers, topic, subscriber)).contains(topic),
{
    lemma_subscription_is_local(subscribers, topic, subscriber, topic);
}

/// Of nothing, nothing is kept; a subscriber appended at a position that
/// `keep` keeps is kept last, after what was kept before; one at a position
/// that `keep` drops adds nothing.
pub proof fn lemma_kept_step<S>(list: Seq<S>, keep: Seq<bool>, x: S)
    ensures
        kept(Seq::<S>::empty(), keep) == Seq::<S>::empty(),
        (list.len() >= keep.len() || keep[list.len() as int]) ==> kept(list.push(x), keep) == kept(
            list,
            keep,
        ).push(x),
        !(list.len() >= keep.len() || keep[list.len() as int]) ==> kept(list.push(x), keep) == kept(
            list,
            keep,
        ),
{
    assert(list.push(x).drop_last() =~= list);
}

/// Where `keep` keeps every position, every subscriber stays, in order.
pub proof fn lemma_kept_all<S>(list: Seq<S>, keep: Seq<bool>)
    requires
        forall|i: int| 0 <= i < list.len() && i < keep.len() ==> #[trigger] keep[i],
    ensures
        kept(list, keep) == list,
    decreases list.len(),
{
    if list.len() > 0 {
        lemma_kept_all(list.drop_last(), keep);
        assert(list.drop_last().push(list.last()) =~= list);
    }
}

/// Every subscriber at a position that `keep` keeps is still there after
/// the cut.
pub proof fn lemma_kept_contains<S>(list: Seq<S>, keep: Seq<bool>, i: int)
    requires
        0 <= i < list.len(),
        i >= keep.len() || keep[i],
    ensures
        kept(list, keep).contains(list[i]),
    decreases list.len(),
{
    let prev = list.drop_last();
    if i == list.len() - 1 {
        assert(kept(list, keep) == kept(prev, keep).push(list[i]));
        assert(kept(list, keep)[kept(prev, keep).len() as int] == list[i]);
    } else {
        lemma_kept_contains(prev, keep, i);
        assert(prev[i] == list[i]);
        let k = choose|k: int| 0 <= k < kept(prev, keep).len() && kept(prev, keep)[k] == list[i];
        if list.len() - 1 >= keep.len() || keep[list.len() - 1] {
            assert(kept(list, keep)[k] == kept(prev, keep)[k]);
        }
    }
}

/// Retaining keeps every live subscriber of the topic: one at a position
/// that `keep` keeps is still among the topic's subscribers afterwards.
pub proof fn lemma_retain_keeps_live<S>(
    subscribers: Map<Seq<char>, Seq<S>>,
    topic: Seq<char>,
    keep: Seq<bool>,
    i: int,
)
    requires
        subscribers.contains_key(topic),
        0 <= i < subscribers[topic].len(),
        i >= keep.len() || keep[i],
    ensures
        with_retained(subscribers, topic, keep).contains_key(topic),
        with_retained(subscribers, topic, keep)[topic].contains(subscribers[topic][i]),
{
    lemma_kept_contains(subscribers[topic], keep, i);
}

/// A subscriber added to a topic comes last in that topic's list, after the
/// earlier ones in their order; every other topic keeps its list.
pub proof fn lemma_subscription_is_local<S>(
    subscribers: Map<Seq<char>, Seq<S>>,
    topic: Seq<char>,
    subscriber: S,
    other: Seq<char>,
)
    ensures
        with_subscriber(subscribers, topic, subscriber).contains_key(topic),
        with_subscriber(subscribers, topic, subscriber)[topic].last() == subscriber,
        with_subscriber(subscribers, topic, subscriber)[topic].drop_last() == (if subscribers.contains_key(
            topic,
        ) {
            subscribers[topic]
        } else {
            Seq::empty()
        }),
        other != topic ==> with_subscriber(subscribers, topic, subscriber).contains_key(other)
            == subscribers.contains_key(other),
        other != topic && subscribers.contains_key(other) ==> with_subscriber(
            subscribers,
            topic,
            subscriber,
        )[other] == subscribers[other],
{
    let current = if subscribers.contains_key(topic) {
        subscribers[topic]
    } else {
        Seq::empty()
    };
    assert(current.push(subscriber).drop_last() =~= current);
}

struct TopicEntry<S> {
    topic: String,
    subscribers: Vec<S>,
}

/// The subscribers of each topic. A topic is registered by its first
/// subscription; subscribers leave through `retain_subscribers`.
pub struct TopicRegistry<S> {
    entries: Vec<TopicEntry<S>>,
}

spec fn entries_hold<S>(entries: Seq<TopicEntry<S>>, topic: Seq<char>) -> bool {
    exists|i: int| 0 <= i < entries.len() && (#[trigger] entries[i]).topic@ == topic
}

spec fn entries_view<S>(entries: Seq<TopicEntry<S>>) -> Map<Seq<char>, Seq<S>> {
    Map::new(
        |t: Seq<char>| entries_hold(entries, t),
        |t: Seq<char>|
            entries[choose|i: int| 0 <= i < entries.len() && (#[trigger] entries[i]).topic@ == t].subscribers@,
    )
}

spec fn distinct_topics<S>(entries: Seq<TopicEntry<S>>) -> bool {
    forall|i: int, j: int|
        0 <= i < entries.len() && 0 <= j < entries.len() && i != j ==> (#[trigger] entries[i]).topic@
            != (#[trigger] entries[j]).topic@
}

proof fn lemma_view_at<S>(entries: Seq<TopicEntry<S>>, i: int)
    requires
        distinct_topics(entries),
        0 <= i < entries.len(),
    ensures
        entries_view(entries).contains_key(entries[i].topic@),
        entries_view(entries)[entries[i].topic@] == entries[i].subscribers@,
{
    let t = entries[i].topic@;
    assert(entries_hold(entries, t));
    let j = choose|j: int| 0 <= j < entries.len() && (#[trigger] entries[j]).topic@ == t;
    assert(i == j);
}

fn find_topic<S>(entries: &Vec<TopicEntry<S>>, topic: &String) -> (pos: Option<usize>)
    ensures
        match pos {
            Some(i) => i < entries@.len() && entries@[i as int].topic@ == topic@,
            None => !entries_hold(entries@, topic@),
        },
{
    let mut i: usize = 0;
    while i < entries.len()
        invariant
            i <= entries@.len(),
            forall|j: int| 0 <= j < i ==> (#[trigger] entries@[j]).topic@ != topic@,
        decreases entries@.len() - i,
    {
        if entries[i].topic == *topic {
            return Some(i);
        }
        i = i + 1;
    }
    None
}

spec fn stale_entry_named<S>(entry: TopicEntry<S>, topic: Seq<char>) -> bool {
    entry.topic@ == topic && entry.subscribers@.len() == 0
}

/// The topics among the first `n` entries that have no subscriber, in order.
spec fn stale_prefix<S>(entries: Seq<TopicEntry<S>>, n: int) -> Seq<Seq<char>>
    decreases n,
{
    if n <= 0 {
        Seq::empty()
    } else if entries[n - 1].subscribers@.len() == 0 {
        stale_prefix(entries, n - 1).push(entries[n - 1].topic@)
    } else {
        stale_prefix(entries, n - 1)
    }
}

proof fn lemma_stale_prefix<S>(entries: Seq<TopicEntry<S>>, n: int)
    requires
        0 <= n <= entries.len(),
        distinct_topics(entries),
    ensures
        stale_prefix(entries, n).no_duplicates(),
        forall|k: int| 0 <= k < stale_prefix(entries, n).len() ==> exists|j: int| 0 <= j < n
            && stale_entry_named(#[trigger] entries[j], #[trigger] stale_prefix(entries, n)[k]),
        forall|j: int| 0 <= j < n && (#[trigger] entries[j]).subscribers@.len() == 0
            ==> stale_prefix(entries, n).contains(entries[j].topic@),
    decreases n,
{
    if n > 0 {
        lemma_stale_prefix(entries, n - 1);
        let prev = stale_prefix(entries, n - 1);
        let cur = stale_prefix(entries, n);
        if entries[n - 1].subscribers@.len() == 0 {
            let t = entries[n - 1].topic@;
            assert(!prev.contains(t)) by {
                if prev.contains(t) {
                    let k = choose|k: int| 0 <= k < prev.len() && prev[k] == t;
                    let j = choose|j: int| 0 <= j < n - 1 && stale_entry_named(#[trigger] entries[j], prev[k]);
                    assert(entries[j].topic@ == entries[n - 1].topic@);
                }
            }
            assert forall|k: int| 0 <= k < cur.len() implies exists|j: int| 0 <= j < n
                && stale_entry_named(#[trigger] entries[j], #[trigger] cur[k]) by {
                if k < prev.len() {
                    assert(cur[k] == prev[k]);
                    let j = choose|j: int| 0 <= j < n - 1 && stale_entry_named(#[trigger] entries[j], prev[k]);
                } else {
                    assert(cur[k] == t);
                    assert(entries[n - 1].topic@ == cur[k]);
                }
            }
            assert forall|j: int| 0 <= j < n && (#[trigger] entries[j]).subscribers@.len() == 0
                implies cur.contains(entries[j].topic@) by {
                if j < n - 1 {
                    let k = choose|k: int| 0 <= k < prev.len() && prev[k] == entries[j].topic@;
                    assert(cur[k] == prev[k]);
                } else {
                    assert(cur[prev.len() as int] == t);
                }
            }
        } else {
            assert forall|k: int| 0 <= k < cur.len() implies exists|j: int| 0 <= j < n
                && stale_entry_named(#[trigger] entries[j], #[trigger] cur[k]) by {
                let j = choose|j: int| 0 <= j < n - 1 && stale_entry_named(#[trigger] entries[j], prev[k]);
            }
        }
    }
}

proof fn lemma_view_replace_list<S>(old: Seq<TopicEntry<S>>, new: Seq<TopicEntry<S>>, i: int)
    requires
        distinct_topics(old),
        0 <= i < old.len(),
        new.len() == old.len(),
        new[i].topic@ == old[i].topic@,
        forall|j: int| 0 <= j < old.len() && j != i ==> new[j] == old[j],
    ensures
        distinct_topics(new),
        entries_view(new) == entries_view(old).insert(old[i].topic@, new[i].subscribers@),
{
    let t0 = old[i].topic@;
    assert forall|a: int, b: int|
        0 <= a < new.len() && 0 <= b < new.len() && a != b implies (#[trigger] new[a]).topic@
        != (#[trigger] new[b]).topic@ by {
        assert(new[a].topic@ == old[a].topic@);
        assert(new[b].topic@ == old[b].topic@);
        assert(old[a].topic@ != old[b].topic@);
    }
    lemma_view_at(old, i);
    let old_view = entries_view(old);
    let new_view = entries_view(new);
    let want = old_view.insert(t0, new[i].subscribers@);
    assert forall|t: Seq<char>| #[trigger] new_view.contains_key(t) == want.contains_key(t) by {
        if entries_hold(old, t) {
            let j = choose|j: int| 0 <= j < old.len() && (#[trigger] old[j]).topic@ == t;
            assert(new[j].topic@ == t);
        }
        if entries_hold(new, t) {
            let j = choose|j: int| 0 <= j < new.len() && (#[trigger] new[j]).topic@ == t;
            assert(old[j].topic@ == t);
        }
    }
    assert forall|t: Seq<char>| new_view.contains_key(t) implies #[trigger] new_view[t] == want[t] by {
        let j = choose|j: int| 0 <= j < new.len() && (#[trigger] new[j]).topic@ == t;
        lemma_view_at(new, j);
        assert(old[j].topic@ == t);
        lemma_view_at(old, j);
    }
    assert(new_view =~= want);
}

impl<S> View for TopicRegistry<S> {
    type V = Map<Seq<char>, Seq<S>>;

    closed spec fn view(&self) -> Map<Seq<char>, Seq<S>> {
        entries_view(self.entries@)
    }
}

impl<S> TopicRegistry<S> {
    #[verifier::type_invariant]
    spec fn topics_distinct(self) -> bool {
        distinct_topics(self.entries@)
    }

    /// A registry with no topic.
    pub fn new() -> (registry: Self)
        ensures
            registry@ == Map::<Seq<char>, Seq<S>>::empty(),
    {
        let registry = TopicRegistry { entries: Vec::new() };
        assert(registry@ =~= Map::<Seq<char>, Seq<S>>::empty());
        registry
    }

    /// The subscribers of `topic` in the order in which they subscribed,
    /// `None` when `topic` has never been subscribed to.
    pub fn subscribers(&self, topic: &str) -> (found: Option<&Vec<S>>)
        ensures
            match found {
                Some(list) => self@.contains_key(topic@) && list@ == self@[topic@],
                None => !self@.contains_key(topic@),
            },
    {
        proof {
            use_type_invariant(self);
        }
        let key = String::from_str(topic);
        match find_topic(&self.entries, &key) {
            Some(i) => {
                proof {
                    lemma_view_at(self.entries@, i as int);
                }
                Some(&self.entries[i].subscribers)
            },
            None => None,
        }
    }

    /// Adds `subscriber` to the end of `topic`'s list, registering `topic`
    /// when it is new.
    pub fn add_subscriber(&mut self, topic: &str, subscriber: S)
        ensures
            final(self)@ == with_subscriber(old(self)@, topic@, subscriber),
    {
        proof {
            use_type_invariant(&*self);
        }
        let key = String::from_str(topic);
        let mut entries = Vec::new();
        std::mem::swap(&mut entries, &mut self.entries);
        let ghost old_entries = entries@;
        let ghost old_view = entries_view(old_entries);
        match find_topic(&entries, &key) {
            Some(i) => {
                proof {
                    lemma_view_at(old_entries, i as int);
                }
                entries[i].subscribers.push(subscriber);
                proof {
                    let new_view = entries_view(entries@);
                    assert forall|t: Seq<char>| #[trigger] new_view.contains_key(t) == with_subscriber(old_view, topic@, subscriber).contains_key(t) by {
                        if entries_hold(old_entries, t) {
                            let j = choose|j: int| 0 <= j < old_entries.len() && (#[trigger] old_entries[j]).topic@ == t;
                            assert(entries@[j].topic@ == t);
                        }
                        if entries_hold(entries@, t) {
                            let j = choose|j: int| 0 <= j < entries@.len() && (#[trigger] entries@[j]).topic@ == t;
                            assert(old_entries[j].topic@ == t);
                        }
                    }
                    assert forall|t: Seq<char>| new_view.contains_key(t) implies #[trigger] new_view[t] == with_subscriber(old_view, topic@, subscriber)[t] by {
                        let j = choose|j: int| 0 <= j < entries@.len() && (#[trigger] entries@[j]).topic@ == t;
                        assert(old_entries[j].topic@ == t);
                        lemma_view_at(old_entries, j);
                    }
                    assert(new_view =~= with_subscriber(old_view, topic@, subscriber));
                }
            },
            None => {
                let mut list = Vec::new();
                list.push(subscriber);
                entries.push(TopicEntry { topic: key, subscribers: list });
                proof {
                    let new_view = entries_view(entries@);
                    let n = old_entries.len() as int;
                    assert(entries@[n].topic@ == topic@);
                    assert forall|t: Seq<char>| #[trigger] new_view.contains_key(t) == with_subscriber(old_view, topic@, subscriber).contains_key(t) by {
                        if entries_hold(old_entries, t) {
                            let j = choose|j: int| 0 <= j < old_entries.len() && (#[trigger] old_entries[j]).topic@ == t;
                            assert(entries@[j].topic@ == t);
                        }
                        if entries_hold(entries@, t) && t != topic@ {
                            let j = choose|j: int| 0 <= j < entries@.len() && (#[trigger] entries@[j]).topic@ == t;
                            assert(old_entries[j].topic@ == t);
                        }
                    }
                    assert(distinct_topics(entries@));
                    assert forall|t: Seq<char>| new_view.contains_key(t) implies #[trigger] new_view[t] == with_subscriber(old_view, topic@, subscriber)[t] by {
                        let j = choose|j: int| 0 <= j < entries@.len() && (#[trigger] entries@[j]).topic@ == t;
                        if j < n {
                            assert(old_entries[j].topic@ == t);
                            lemma_view_at(old_entries, j);
                        }
                        lemma_view_at(entries@, j);
                    }
                    assert(list@ =~= Seq::<S>::empty().push(subscriber));
                    assert(new_view =~= with_subscriber(old_view, topic@, subscriber));
                }
            },
        }
        self.entries = entries;
    }


    /// Keeps, of `topic`'s subscribers, those at the positions that `keep`
    /// keeps, in their order; a position past the end of `keep` is kept.
    /// Other topics, and an unregistered `topic`, are left as they are.
    pub fn retain_subscribers(&mut self, topic: &str, keep: &Vec<bool>)
        ensures
            final(self)@ == with_retained(old(self)@, topic@, keep@),
    {
        proof {
            use_type_invariant(&*self);
        }
        let key = String::from_str(topic);
        let mut entries = Vec::new();
        std::mem::swap(&mut entries, &mut self.entries);
        let ghost old_entries = entries@;
        match find_topic(&entries, &key) {
            Some(i) => {
                proof {
                    lemma_view_at(old_entries, i as int);
                }
                let mut list: Vec<S> = Vec::new();
                std::mem::swap(&mut list, &mut entries[i].subscribers);
                let ghost all = list@;
                assert(all.len() == list.len());
                let mut remaining: Vec<S> = Vec::new();
                let mut j: usize = 0;
                for subscriber in it: list.into_iter()
                    invariant
                        it.seq() == all,
                        all.len() <= usize::MAX,
                        j == it.index(),
                        remaining@ == kept(all.take(it.index() as int), keep@),
                {
                    proof {
                        assert(j < all.len());
                        assert(all.take(j + 1).drop_last() =~= all.take(j as int));
                    }
                    if j >= keep.len() || keep[j] {
                        remaining.push(subscriber);
                    }
                    j = j + 1;
                }
                proof {
                    assert(all.take(all.len() as int) =~= all);
                }
                std::mem::swap(&mut remaining, &mut entries[i].subscribers);
                proof {
                    lemma_view_replace_list(old_entries, entries@, i as int);
                }
            },
            None => {},
        }
        self.entries = entries;
    }

    /// The registered topics, each once.
    pub fn topics(&self) -> (names: Vec<String>)
        ensures
            names@.map_values(|t: String| t@).no_duplicates(),
            names@.map_values(|t: String| t@).to_set() == self@.dom(),
    {
        proof {
            use_type_invariant(self);
        }
        let mut names: Vec<String> = Vec::new();
        let mut i: usize = 0;
        while i < self.entries.len()
            invariant
                i <= self.entries@.len(),
                names@.len() == i,
                forall|k: int| 0 <= k < i ==> (#[trigger] names@[k])@ == self.entries@[k].topic@,
            decreases self.entries@.len() - i,
        {
            names.push(self.entries[i].topic.clone());
            i = i + 1;
        }
        proof {
            let views = names@.map_values(|t: String| t@);
            assert forall|a: int, b: int| 0 <= a < views.len() && 0 <= b < views.len() && a != b
                implies views[a] != views[b] by {
                assert(views[a] == self.entries@[a].topic@);
                assert(views[b] == self.entries@[b].topic@);
            }
            assert forall|t: Seq<char>| #[trigger] views.to_set().contains(t) == self@.dom().contains(t) by {
                if views.to_set().contains(t) {
                    let k = choose|k: int| 0 <= k < views.len() && views[k] == t;
                    assert(views[k] == self.entries@[k].topic@);
                    assert(entries_hold(self.entries@, t));
                }
                if self@.dom().contains(t) {
                    let k = choose|k: int| 0 <= k < self.entries@.len() && (#[trigger] self.entries@[k]).topic@ == t;
                    assert(views[k] == t);
                }
            }
            assert(views.to_set() =~= self@.dom());
        }
        names
    }

    /// The registered topics that have no subscriber, each once.
    pub fn stale_topics(&self) -> (stale: Vec<String>)
        ensures
            stale@.map_values(|t: String| t@).no_duplicates(),
            stale@.map_values(|t: String| t@).to_set() == stale_topic_set(self@),
    {
        proof {
            use_type_invariant(self);
        }
        let mut stale: Vec<String> = Vec::new();
        let mut i: usize = 0;
        while i < self.entries.len()
            invariant
                i <= self.entries@.len(),
                stale@.map_values(|t: String| t@) == stale_prefix(self.entries@, i as int),
            decreases self.entries@.len() - i,
        {
            let ghost before = stale@;
            if self.entries[i].subscribers.len() == 0 {
                let topic = self.entries[i].topic.clone();
                stale.push(topic);
                assert(stale@.map_values(|t: String| t@) =~= before.map_values(|t: String| t@).push(
                    self.entries@[i as int].topic@,
                ));
            }
            i = i + 1;
        }
        proof {
            let n = self.entries@.len() as int;
            lemma_stale_prefix(self.entries@, n);
            let views = stale@.map_values(|t: String| t@);
            let want = stale_topic_set(self@);
            assert forall|t: Seq<char>| #[trigger] views.to_set().contains(t) == want.contains(t) by {
                if views.to_set().contains(t) {
                    let k = choose|k: int| 0 <= k < views.len() && views[k] == t;
                    let j = choose|j: int| 0 <= j < n && stale_entry_named(#[trigger] self.entries@[j], views[k]);
                    lemma_view_at(self.entries@, j);
                }
                if want.contains(t) {
                    let j = choose|j: int| 0 <= j < n && (#[trigger] self.entries@[j]).topic@ == t;
                    lemma_view_at(self.entries@, j);
                    assert(views.contains(t));
                }
            }
            assert(views.to_set() =~= want);
        }
        stale
    }
}

} // verus!
