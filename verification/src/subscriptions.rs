use vstd::prelude::*;
use std::collections::HashMap;
use vstd::std_specs::iter::IteratorSpec;

use crate::connection_id::{ConnectionId, id_values};
use crate::subscription::Subscription;

verus! {

broadcast use vstd::std_specs::hash::group_hash_axioms;

/// One subscription of a connection and how many times it was taken.
pub struct SubscriptionCount {
    pub subscription: Subscription,
    pub count: usize,
}

impl Clone for SubscriptionCount {
    fn clone(&self) -> (copy: Self)
        ensures
            copy == *self,
    {
        SubscriptionCount { subscription: self.subscription.clone(), count: self.count }
    }
}

spec fn has_name(e: Seq<SubscriptionCount>, name: Seq<char>) -> bool {
    exists|i: int| 0 <= i < e.len() && (#[trigger] e[i]).subscription@ == name
}

spec fn index_of_name(e: Seq<SubscriptionCount>, name: Seq<char>) -> int {
    choose|i: int| 0 <= i < e.len() && (#[trigger] e[i]).subscription@ == name
}

spec fn counts_of(e: Seq<SubscriptionCount>) -> Map<Seq<char>, nat> {
    Map::new(|name: Seq<char>| has_name(e, name), |name: Seq<char>| e[index_of_name(e, name)].count as nat)
}

spec fn names_unique(e: Seq<SubscriptionCount>) -> bool {
    forall|i: int, j: int|
        0 <= i < e.len() && 0 <= j < e.len() && i != j ==> (#[trigger] e[i]).subscription@ != (#[trigger] e[j]).subscription@
}

spec fn counts_positive(e: Seq<SubscriptionCount>) -> bool {
    forall|i: int| 0 <= i < e.len() ==> (#[trigger] e[i]).count > 0
}

/// With distinct names, the count that the map gives a name is the count
/// stored beside that name.
proof fn lemma_count_at(e: Seq<SubscriptionCount>, i: int)
    requires
        names_unique(e),
        0 <= i < e.len(),
    ensures
        counts_of(e).contains_key(e[i].subscription@),
        counts_of(e)[e[i].subscription@] == e[i].count as nat,
{
    let name = e[i].subscription@;
    assert(has_name(e, name));
    let j: int = index_of_name(e, name);
    assert(0 <= j < e.len() && e[j].subscription@ == name);
    if j != i {
        assert(e[i].subscription@ != e[j].subscription@);
    }
}

proof fn lemma_all_counts(e: Seq<SubscriptionCount>)
    requires
        names_unique(e),
    ensures
        forall|i: int|
            0 <= i < e.len() ==> counts_of(e).contains_key((#[trigger] e[i]).subscription@) && counts_of(e)[e[i].subscription@]
                == e[i].count as nat,
        forall|name: Seq<char>| counts_of(e).contains_key(name) <==> has_name(e, name),
{
    assert forall|i: int| 0 <= i < e.len() implies counts_of(e).contains_key((#[trigger] e[i]).subscription@)
        && counts_of(e)[e[i].subscription@] == e[i].count as nat by {
        lemma_count_at(e, i);
    }
}

/// Only the names stored in the sequence are in the map, so it is finite.
proof fn lemma_counts_finite(e: Seq<SubscriptionCount>)
    ensures
        counts_of(e).dom().finite(),
{
    let names = e.map_values(|x: SubscriptionCount| x.subscription@);
    vstd::seq_lib::seq_to_set_is_finite(names);
    assert forall|n: Seq<char>| counts_of(e).dom().contains(n) implies names.to_set().contains(n) by {
        let j: int = choose|j: int| 0 <= j < e.len() && (#[trigger] e[j]).subscription@ == n;
        assert(names[j] == n);
    }
    vstd::set_lib::lemma_set_subset_finite(names.to_set(), counts_of(e).dom());
}

/// The subscriptions of one connection, each with the number of times it was
/// taken. Names occur at most once, and every count is at least one.
pub struct SubscriptionCounts {
    entries: Vec<SubscriptionCount>,
}

impl View for SubscriptionCounts {
    type V = Map<Seq<char>, nat>;

    closed spec fn view(&self) -> Map<Seq<char>, nat> {
        counts_of(self.entries@)
    }
}

impl SubscriptionCounts {
    /// Names are distinct and every count is positive.
    pub closed spec fn wf(&self) -> bool {
        &&& names_unique(self.entries@)
        &&& counts_positive(self.entries@)
    }

    pub fn new() -> (counts: SubscriptionCounts)
        ensures
            counts.wf(),
            counts@ == Map::<Seq<char>, nat>::empty(),
    {
        let counts = SubscriptionCounts { entries: Vec::new() };
        assert(counts@ =~= Map::<Seq<char>, nat>::empty());
        counts
    }

    fn position(&self, subscription: &Subscription) -> (found: Option<usize>)
        requires
            self.wf(),
        ensures
            match found {
                Some(i) => i < self.entries@.len() && self.entries@[i as int].subscription@ == subscription@,
                None => !has_name(self.entries@, subscription@),
            },
    {
        let mut i: usize = 0;
        while i < self.entries.len()
            invariant
                i <= self.entries@.len(),
                forall|j: int| 0 <= j < i ==> (#[trigger] self.entries@[j]).subscription@ != subscription@,
            decreases self.entries@.len() - i,
        {
            if self.entries[i].subscription.same_as(subscription) {
                return Some(i);
            }
            i = i + 1;
        }
        None
    }

    /// How many times `subscription` was taken; zero when it was not.
    pub fn count(&self, subscription: &Subscription) -> (count: usize)
        requires
            self.wf(),
        ensures
            count == (if self@.contains_key(subscription@) { self@[subscription@] } else { 0 }),
    {
        proof {
            lemma_all_counts(self.entries@);
        }
        match self.position(subscription) {
            Some(i) => self.entries[i].count,
            None => 0,
        }
    }

    /// Whether `subscription` is among these.
    pub fn contains(&self, subscription: &Subscription) -> (present: bool)
        requires
            self.wf(),
        ensures
            present == self@.contains_key(subscription@),
    {
        proof {
            lemma_all_counts(self.entries@);
        }
        self.position(subscription).is_some()
    }

    /// Whether there is no subscription at all.
    pub fn is_empty(&self) -> (empty: bool)
        requires
            self.wf(),
        ensures
            empty == (self@ == Map::<Seq<char>, nat>::empty()),
    {
        proof {
            lemma_all_counts(self.entries@);
            if self.entries@.len() == 0 {
                assert(self@ =~= Map::<Seq<char>, nat>::empty());
            } else {
                assert(self@.contains_key(self.entries@[0].subscription@));
            }
        }
        self.entries.len() == 0
    }

    /// Takes `subscription` once more: its count goes up by one, from zero
    /// when it was not taken before.
    pub fn increment(&mut self, subscription: Subscription)
        requires
            old(self).wf(),
            old(self)@.contains_key(subscription@) ==> old(self)@[subscription@] < usize::MAX,
        ensures
            final(self).wf(),
            final(self)@ == old(self)@.insert(
                subscription@,
                (if old(self)@.contains_key(subscription@) { old(self)@[subscription@] } else { 0 }) + 1,
            ),
    {
        let ghost old_e = self.entries@;
        let ghost name = subscription@;
        proof {
            lemma_all_counts(old_e);
        }
        match self.position(&subscription) {
            Some(i) => {
                let count: usize = self.entries[i].count;
                self.entries.set(i, SubscriptionCount { subscription, count: count + 1 });
                proof {
                    let e = self.entries@;
                    assert(e == old_e.update(i as int, e[i as int]));
                    assert forall|a: int, b: int|
                        0 <= a < e.len() && 0 <= b < e.len() && a != b implies (#[trigger] e[a]).subscription@
                        != (#[trigger] e[b]).subscription@ by {
                        assert(old_e[a].subscription@ != old_e[b].subscription@);
                    }
                    lemma_all_counts(e);
                    assert forall|n: Seq<char>| has_name(e, n) <==> has_name(old_e, n) by {
                        if has_name(e, n) {
                            let j: int = choose|j: int| 0 <= j < e.len() && (#[trigger] e[j]).subscription@ == n;
                            assert(old_e[j].subscription@ == n);
                        }
                        if has_name(old_e, n) {
                            let j: int = choose|j: int| 0 <= j < old_e.len() && (#[trigger] old_e[j]).subscription@ == n;
                            assert(e[j].subscription@ == n);
                        }
                    }
                    assert forall|n: Seq<char>| #[trigger] counts_of(e).contains_key(n) && n != name implies counts_of(e)[n]
                        == counts_of(old_e)[n] by {
                        let j: int = choose|j: int| 0 <= j < e.len() && (#[trigger] e[j]).subscription@ == n;
                        assert(j != i);
                        assert(e[j] == old_e[j]);
                    }
                    assert(self@ =~= old(self)@.insert(name, old(self)@[name] + 1));
                }
            },
            None => {
                self.entries.push(SubscriptionCount { subscription, count: 1 });
                proof {
                    let e = self.entries@;
                    assert(e == old_e.push(e[old_e.len() as int]));
                    assert forall|a: int, b: int|
                        0 <= a < e.len() && 0 <= b < e.len() && a != b implies (#[trigger] e[a]).subscription@
                        != (#[trigger] e[b]).subscription@ by {
                        if a < old_e.len() && b < old_e.len() {
                            assert(old_e[a].subscription@ != old_e[b].subscription@);
                        } else if a < old_e.len() {
                            assert(e[a] == old_e[a]);
                        } else {
                            assert(e[b] == old_e[b]);
                        }
                    }
                    lemma_all_counts(e);
                    assert forall|n: Seq<char>| has_name(e, n) <==> (has_name(old_e, n) || n == name) by {
                        if has_name(e, n) {
                            let j: int = choose|j: int| 0 <= j < e.len() && (#[trigger] e[j]).subscription@ == n;
                            if j < old_e.len() {
                                assert(old_e[j].subscription@ == n);
                            }
                        }
                        if has_name(old_e, n) {
                            let j: int = choose|j: int| 0 <= j < old_e.len() && (#[trigger] old_e[j]).subscription@ == n;
                            assert(e[j].subscription@ == n);
                        }
                        if n == name {
                            assert(e[old_e.len() as int].subscription@ == n);
                        }
                    }
                    assert forall|n: Seq<char>| #[trigger] counts_of(e).contains_key(n) && n != name implies counts_of(e)[n]
                        == counts_of(old_e)[n] by {
                        let j: int = choose|j: int| 0 <= j < e.len() && (#[trigger] e[j]).subscription@ == n;
                        assert(j < old_e.len());
                        assert(e[j] == old_e[j]);
                    }
                    assert(self@ =~= old(self)@.insert(name, 1));
                }
            },
        }
    }

    /// Gives up `subscription` once: its count goes down by one, and it is
    /// dropped when the count reaches zero. Returns whether it was taken.
    pub fn decrement(&mut self, subscription: &Subscription) -> (was_taken: bool)
        requires
            old(self).wf(),
        ensures
            final(self).wf(),
            was_taken == old(self)@.contains_key(subscription@),
            !was_taken ==> final(self)@ == old(self)@,
            was_taken && old(self)@[subscription@] > 1 ==> final(self)@ == old(self)@.insert(
                subscription@,
                (old(self)@[subscription@] - 1) as nat,
            ),
            was_taken && old(self)@[subscription@] == 1 ==> final(self)@ == old(self)@.remove(subscription@),
    {
        let ghost old_e = self.entries@;
        let ghost name = subscription@;
        proof {
            lemma_all_counts(old_e);
        }
        match self.position(subscription) {
            None => false,
            Some(i) => {
                let count: usize = self.entries[i].count;
                if count > 1 {
                    let kept = self.entries[i].subscription.clone();
                    self.entries.set(i, SubscriptionCount { subscription: kept, count: count - 1 });
                    proof {
                        let e = self.entries@;
                        assert forall|a: int, b: int|
                            0 <= a < e.len() && 0 <= b < e.len() && a != b implies (#[trigger] e[a]).subscription@
                            != (#[trigger] e[b]).subscription@ by {
                            assert(old_e[a].subscription@ != old_e[b].subscription@);
                        }
                        lemma_all_counts(e);
                        assert forall|n: Seq<char>| has_name(e, n) <==> has_name(old_e, n) by {
                            if has_name(e, n) {
                                let j: int = choose|j: int| 0 <= j < e.len() && (#[trigger] e[j]).subscription@ == n;
                                assert(old_e[j].subscription@ == n);
                            }
                            if has_name(old_e, n) {
                                let j: int = choose|j: int| 0 <= j < old_e.len() && (#[trigger] old_e[j]).subscription@ == n;
                                assert(e[j].subscription@ == n);
                            }
                        }
                        assert forall|n: Seq<char>| #[trigger] counts_of(e).contains_key(n) && n != name implies counts_of(e)[n]
                            == counts_of(old_e)[n] by {
                            let j: int = choose|j: int| 0 <= j < e.len() && (#[trigger] e[j]).subscription@ == n;
                            assert(j != i);
                            assert(e[j] == old_e[j]);
                        }
                        assert(self@ =~= old(self)@.insert(name, (old(self)@[name] - 1) as nat));
                    }
                } else {
                    self.entries.remove(i);
                    proof {
                        let e = self.entries@;
                        assert(e == old_e.remove(i as int));
                        assert forall|a: int, b: int|
                            0 <= a < e.len() && 0 <= b < e.len() && a != b implies (#[trigger] e[a]).subscription@
                            != (#[trigger] e[b]).subscription@ by {
                            let oa: int = if a < i { a } else { a + 1 };
                            let ob: int = if b < i { b } else { b + 1 };
                            assert(e[a] == old_e[oa]);
                            assert(e[b] == old_e[ob]);
                            assert(old_e[oa].subscription@ != old_e[ob].subscription@);
                        }
                        assert forall|a: int| 0 <= a < e.len() implies (#[trigger] e[a]).count > 0 by {
                            let oa: int = if a < i { a } else { a + 1 };
                            assert(e[a] == old_e[oa]);
                        }
                        lemma_all_counts(e);
                        assert forall|n: Seq<char>| has_name(e, n) <==> (has_name(old_e, n) && n != name) by {
                            if has_name(e, n) {
                                let j: int = choose|j: int| 0 <= j < e.len() && (#[trigger] e[j]).subscription@ == n;
                                let oj: int = if j < i { j } else { j + 1 };
                                assert(e[j] == old_e[oj]);
                                assert(oj != i);
                                assert(old_e[oj].subscription@ != old_e[i as int].subscription@);
                            }
                            if has_name(old_e, n) && n != name {
                                let j: int = choose|j: int| 0 <= j < old_e.len() && (#[trigger] old_e[j]).subscription@ == n;
                                assert(j != i);
                                let nj: int = if j < i { j } else { j - 1 };
                                assert(e[nj] == old_e[j]);
                            }
                        }
                        assert forall|n: Seq<char>| #[trigger] counts_of(e).contains_key(n) implies counts_of(e)[n]
                            == counts_of(old_e)[n] by {
                            let j: int = choose|j: int| 0 <= j < e.len() && (#[trigger] e[j]).subscription@ == n;
                            let oj: int = if j < i { j } else { j + 1 };
                            assert(e[j] == old_e[oj]);
                        }
                        assert(self@ =~= old(self)@.remove(name));
                    }
                }
                true
            },
        }
    }
}

impl SubscriptionCounts {
    /// The subscriptions with their counts, one pair per subscription.
    pub fn pairs(&self) -> (pairs: Vec<(Subscription, usize)>)
        requires
            self.wf(),
        ensures
            forall|i: int|
                0 <= i < pairs@.len() ==> self@.contains_key((#[trigger] pairs@[i]).0@) && self@[pairs@[i].0@]
                    == pairs@[i].1 as nat,
            forall|name: Seq<char>|
                self@.contains_key(name) ==> exists|i: int| 0 <= i < pairs@.len() && (#[trigger] pairs@[i]).0@ == name,
            forall|i: int, j: int|
                0 <= i < pairs@.len() && 0 <= j < pairs@.len() && i != j ==> (#[trigger] pairs@[i]).0@ != (
                #[trigger] pairs@[j]).0@,
    {
        proof {
            lemma_all_counts(self.entries@);
        }
        let mut pairs: Vec<(Subscription, usize)> = Vec::new();
        let mut i: usize = 0;
        while i < self.entries.len()
            invariant
                i <= self.entries@.len(),
                pairs@.len() == i,
                forall|j: int|
                    0 <= j < i ==> (#[trigger] pairs@[j]).0@ == self.entries@[j].subscription@ && pairs@[j].1
                        == self.entries@[j].count,
            decreases self.entries@.len() - i,
        {
            let entry = &self.entries[i];
            pairs.push((entry.subscription.clone(), entry.count));
            i = i + 1;
        }
        proof {
            assert forall|name: Seq<char>| self@.contains_key(name) implies exists|i: int|
                0 <= i < pairs@.len() && (#[trigger] pairs@[i]).0@ == name by {
                let j: int = choose|j: int| 0 <= j < self.entries@.len() && (#[trigger] self.entries@[j]).subscription@ == name;
                assert(pairs@[j].0@ == name);
            }
            assert forall|a: int, b: int|
                0 <= a < pairs@.len() && 0 <= b < pairs@.len() && a != b implies (#[trigger] pairs@[a]).0@ != (
                #[trigger] pairs@[b]).0@ by {
                assert(self.entries@[a].subscription@ != self.entries@[b].subscription@);
            }
        }
        pairs
    }

    /// Every subscription of a well-formed value was taken at least once, and
    /// there are finitely many of them.
    pub proof fn lemma_counts_positive(&self)
        requires
            self.wf(),
        ensures
            forall|name: Seq<char>| #[trigger] self@.contains_key(name) ==> self@[name] > 0,
            self@.dom().finite(),
    {
        lemma_counts_finite(self.entries@);
        lemma_all_counts(self.entries@);
        assert forall|name: Seq<char>| #[trigger] self@.contains_key(name) implies self@[name] > 0 by {
            let j: int = choose|j: int| 0 <= j < self.entries@.len() && (#[trigger] self.entries@[j]).subscription@ == name;
            lemma_count_at(self.entries@, j);
        }
    }

    /// A copy with the same subscriptions and counts.
    pub fn duplicate(&self) -> (copy: SubscriptionCounts)
        requires
            self.wf(),
        ensures
            copy.wf(),
            copy@ == self@,
    {
        let mut entries: Vec<SubscriptionCount> = Vec::new();
        let mut i: usize = 0;
        while i < self.entries.len()
            invariant
                i <= self.entries@.len(),
                entries@ == self.entries@.subrange(0, i as int),
            decreases self.entries@.len() - i,
        {
            entries.push(self.entries[i].clone());
            i = i + 1;
        }
        assert(entries@ =~= self.entries@);
        SubscriptionCounts { entries }
    }
}

/// How many times connection `id` took subscription `name` in `m`; zero when
/// it did not.
pub open spec fn subscription_count(m: Map<u128, Map<Seq<char>, nat>>, id: u128, name: Seq<char>) -> nat {
    if m.contains_key(id) && m[id].contains_key(name) {
        m[id][name]
    } else {
        0
    }
}

/// `m` after connection `id` takes subscription `name` once more.
pub open spec fn with_subscription_added(
    m: Map<u128, Map<Seq<char>, nat>>,
    id: u128,
    name: Seq<char>,
) -> Map<u128, Map<Seq<char>, nat>> {
    let own = if m.contains_key(id) { m[id] } else { Map::empty() };
    m.insert(id, own.insert(name, subscription_count(m, id, name) + 1))
}

/// `m` after connection `id` gives up subscription `name` once: nothing
/// changes when it was not taken; the name goes when its count reaches zero,
/// and the connection goes when it has no subscription left.
pub open spec fn with_subscription_removed(
    m: Map<u128, Map<Seq<char>, nat>>,
    id: u128,
    name: Seq<char>,
) -> Map<u128, Map<Seq<char>, nat>> {
    let count: nat = subscription_count(m, id, name);
    if count == 0 {
        m
    } else if count > 1 {
        m.insert(id, m[id].insert(name, (count - 1) as nat))
    } else if m[id].remove(name) == Map::<Seq<char>, nat>::empty() {
        m.remove(id)
    } else {
        m.insert(id, m[id].remove(name))
    }
}

/// The connections in `m` that took subscription `name`.
pub open spec fn subscribers_of(m: Map<u128, Map<Seq<char>, nat>>, name: Seq<char>) -> Set<u128> {
    m.dom().filter(|id: u128| subscription_count(m, id, name) > 0)
}

/// What giving up a subscription did, for the caller to report.
#[derive(Clone, Copy, PartialEq, Eq, Structural, Debug)]
pub enum Unsubscribed {
    /// The connection had no subscription at all; nothing changed.
    NoSubscriptions,
    /// The connection had not taken this subscription; nothing changed.
    NotSubscribed,
    /// The count went down and is still positive.
    Decremented,
    /// The count reached zero and the subscription was dropped.
    SubscriptionDropped,
    /// The count reached zero and it was the connection's last subscription,
    /// so the connection's entry was dropped too.
    ConnectionDropped,
}

/// The subscriptions of every connection: for each connection that has at
/// least one, the count of each subscription it took.
pub struct SubscriptionTable {
    by_connection: HashMap<u128, SubscriptionCounts>,
}

impl View for SubscriptionTable {
    type V = Map<u128, Map<Seq<char>, nat>>;

    closed spec fn view(&self) -> Map<u128, Map<Seq<char>, nat>> {
        self.by_connection@.map_values(|counts: SubscriptionCounts| counts@)
    }
}

impl SubscriptionTable {
    /// Every stored connection has at least one subscription, and its counts
    /// are well formed.
    pub closed spec fn wf(&self) -> bool {
        forall|id: u128|
            #[trigger] self.by_connection@.contains_key(id) ==> self.by_connection@[id].wf()
                && self.by_connection@[id]@ != Map::<Seq<char>, nat>::empty()
    }

    pub fn new() -> (table: SubscriptionTable)
        ensures
            table.wf(),
            table@ == Map::<u128, Map<Seq<char>, nat>>::empty(),
    {
        let table = SubscriptionTable { by_connection: HashMap::new() };
        assert(table@ =~= Map::<u128, Map<Seq<char>, nat>>::empty());
        table
    }

    /// In a well-formed table every connection has finitely many
    /// subscriptions and at least one, and every count is positive.
    pub proof fn lemma_view_well_formed(&self)
        requires
            self.wf(),
        ensures
            forall|id: u128| #[trigger] self@.contains_key(id) ==> self@[id] != Map::<Seq<char>, nat>::empty(),
            forall|id: u128| #[trigger] self@.contains_key(id) ==> self@[id].dom().finite(),
            forall|id: u128, name: Seq<char>|
                #[trigger] subscription_count(self@, id, name) > 0 <==> (self@.contains_key(id) && self@[id].contains_key(name)),
    {
        assert forall|id: u128| #[trigger] self@.contains_key(id) implies self@[id].dom().finite() by {
            self.by_connection@[id].lemma_counts_positive();
        }
        assert forall|id: u128, name: Seq<char>|
            #[trigger] subscription_count(self@, id, name) > 0 <==> (self@.contains_key(id) && self@[id].contains_key(name)) by {
            if self@.contains_key(id) {
                self.by_connection@[id].lemma_counts_positive();
            }
        }
    }

    /// How many times connection `connection_id` took `subscription`.
    pub fn count_of(&self, connection_id: ConnectionId, subscription: &Subscription) -> (count: usize)
        requires
            self.wf(),
        ensures
            count == subscription_count(self@, connection_id@, subscription@),
            count == (if self@.contains_key(connection_id@) && self@[connection_id@].contains_key(subscription@) {
                self@[connection_id@][subscription@]
            } else {
                0
            }),
    {
        let key: u128 = connection_id.as_u128();
        match self.by_connection.get(&key) {
            Some(counts) => counts.count(subscription),
            None => 0,
        }
    }

    /// Connection `connection_id` takes `subscription` once more.
    pub fn add_subscription(&mut self, connection_id: ConnectionId, subscription: Subscription)
        requires
            old(self).wf(),
            subscription_count(old(self)@, connection_id@, subscription@) < usize::MAX,
        ensures
            final(self).wf(),
            final(self)@ == with_subscription_added(old(self)@, connection_id@, subscription@),
            final(self)@.contains_key(connection_id@),
            final(self)@[connection_id@].contains_key(subscription@),
            final(self)@[connection_id@][subscription@] == (if old(self)@.contains_key(connection_id@) && old(
                self,
            )@[connection_id@].contains_key(subscription@) {
                old(self)@[connection_id@][subscription@]
            } else {
                0
            }) + 1,
            final(self)@[connection_id@].remove(subscription@) == (if old(self)@.contains_key(connection_id@) {
                old(self)@[connection_id@]
            } else {
                Map::<Seq<char>, nat>::empty()
            }).remove(subscription@),
            final(self)@.remove(connection_id@) == old(self)@.remove(connection_id@),
    {
        let key: u128 = connection_id.as_u128();
        let ghost name = subscription@;
        let mut counts = match self.by_connection.remove(&key) {
            Some(counts) => counts,
            None => SubscriptionCounts::new(),
        };
        counts.increment(subscription);
        self.by_connection.insert(key, counts);
        proof {
            assert(self.by_connection@[key]@.contains_key(name));
            assert(self@ =~= with_subscription_added(old(self)@, key, name));
            law_add_raises_stored_count(*old(self), key, name);
        }
    }

    /// Connection `connection_id` gives up `subscription` once; see
    /// `with_subscription_removed`. The outcome tells which case applied.
    pub fn remove_subscription(&mut self, connection_id: ConnectionId, subscription: Subscription) -> (outcome:
        Unsubscribed)
        requires
            old(self).wf(),
        ensures
            final(self).wf(),
            final(self)@ == with_subscription_removed(old(self)@, connection_id@, subscription@),
            (outcome == Unsubscribed::NoSubscriptions) <==> !old(self)@.contains_key(connection_id@),
            (outcome == Unsubscribed::NotSubscribed) <==> (old(self)@.contains_key(connection_id@)
                && !old(self)@[connection_id@].contains_key(subscription@)),
            (outcome == Unsubscribed::Decremented) <==> subscription_count(old(self)@, connection_id@, subscription@) > 1,
            (outcome == Unsubscribed::SubscriptionDropped) <==> (subscription_count(old(self)@, connection_id@, subscription@)
                == 1 && old(self)@[connection_id@].remove(subscription@) != Map::<Seq<char>, nat>::empty()),
            (outcome == Unsubscribed::ConnectionDropped) <==> (subscription_count(old(self)@, connection_id@, subscription@)
                == 1 && old(self)@[connection_id@].remove(subscription@) == Map::<Seq<char>, nat>::empty()),
            !(old(self)@.contains_key(connection_id@) && old(self)@[connection_id@].contains_key(subscription@))
                ==> final(self)@ == old(self)@,
            (old(self)@.contains_key(connection_id@) && old(self)@[connection_id@].contains_key(subscription@)
                && old(self)@[connection_id@][subscription@] > 1) ==> final(self)@ == old(self)@.insert(
                connection_id@,
                old(self)@[connection_id@].insert(
                    subscription@,
                    (old(self)@[connection_id@][subscription@] - 1) as nat,
                ),
            ),
            (old(self)@.contains_key(connection_id@) && old(self)@[connection_id@].contains_key(subscription@)
                && old(self)@[connection_id@][subscription@] == 1 && old(self)@[connection_id@].dom().len() == 1)
                ==> final(self)@ == old(self)@.remove(connection_id@),
            (old(self)@.contains_key(connection_id@) && old(self)@[connection_id@].contains_key(subscription@)
                && old(self)@[connection_id@][subscription@] == 1 && old(self)@[connection_id@].dom().len() > 1)
                ==> final(self)@ == old(self)@.insert(connection_id@, old(self)@[connection_id@].remove(subscription@)),
    {
        let key: u128 = connection_id.as_u128();
        let ghost name = subscription@;
        proof {
            old(self).lemma_view_well_formed();
            law_remove_lowers_stored_count(*old(self), key, name);
            if subscription_count(old(self)@, key, name) == 1 {
                law_remove_last_count(*old(self), key, name);
            }
        }
        match self.by_connection.remove(&key) {
            None => {
                assert(self@ =~= old(self)@);
                Unsubscribed::NoSubscriptions
            },
            Some(mut counts) => {
                let ghost before = counts@;
                proof {
                    counts.lemma_counts_positive();
                    assert(old(self).by_connection@.contains_key(key));
                    assert(old(self)@.contains_key(key));
                    assert(old(self)@[key] == before);
                }
                let before_count: usize = counts.count(&subscription);
                let was_taken = counts.decrement(&subscription);
                if !was_taken {
                    self.by_connection.insert(key, counts);
                    assert(self@ =~= old(self)@);
                    Unsubscribed::NotSubscribed
                } else if counts.is_empty() {
                    proof {
                        if before[name] > 1 {
                            assert(counts@.contains_key(name));
                        }
                        assert(before[name] == 1);
                        assert(before.remove(name) == Map::<Seq<char>, nat>::empty());
                    }
                    assert(self@ =~= old(self)@.remove(key));
                    Unsubscribed::ConnectionDropped
                } else {
                    self.by_connection.insert(key, counts);
                    if before_count > 1 {
                        assert(self@ =~= old(self)@.insert(key, before.insert(name, (before[name] - 1) as nat)));
                        Unsubscribed::Decremented
                    } else {
                        assert(self@ =~= old(self)@.insert(key, before.remove(name)));
                        Unsubscribed::SubscriptionDropped
                    }
                }
            },
        }
    }

    /// Drops every subscription of connection `connection_id`, handing back
    /// what it had, if anything.
    pub fn remove_all_subscriptions(&mut self, connection_id: ConnectionId) -> (removed: Option<SubscriptionCounts>)
        requires
            old(self).wf(),
        ensures
            final(self).wf(),
            final(self)@ == old(self)@.remove(connection_id@),
            match removed {
                Some(counts) => old(self)@.contains_key(connection_id@) && counts.wf() && counts@ == old(self)@[connection_id@],
                None => !old(self)@.contains_key(connection_id@),
            },
    {
        let key: u128 = connection_id.as_u128();
        let removed = self.by_connection.remove(&key);
        assert(self@ =~= old(self)@.remove(key));
        removed
    }

    /// A copy of the subscriptions of connection `connection_id`, if it has any.
    pub fn get_subscriptions(&self, connection_id: ConnectionId) -> (found: Option<SubscriptionCounts>)
        requires
            self.wf(),
        ensures
            match found {
                Some(counts) => self@.contains_key(connection_id@) && counts.wf() && counts@ == self@[connection_id@],
                None => !self@.contains_key(connection_id@),
            },
    {
        let key: u128 = connection_id.as_u128();
        match self.by_connection.get(&key) {
            Some(counts) => Some(counts.duplicate()),
            None => None,
        }
    }

    /// The connections that took `subscription`, each once, in no set order.
    pub fn get_subscribers(&self, subscription: Subscription) -> (ids: Vec<ConnectionId>)
        requires
            self.wf(),
        ensures
            id_values(ids@).to_set() == subscribers_of(self@, subscription@),
            id_values(ids@).no_duplicates(),
            forall|j: int|
                0 <= j < ids@.len() ==> self@.contains_key(#[trigger] ids@[j]@) && self@[ids@[j]@].contains_key(
                    subscription@,
                ),
            forall|id: u128|
                self@.contains_key(id) && self@[id].contains_key(subscription@) ==> id_values(ids@).contains(id),
    {
        let m = &self.by_connection;
        let mut ids: Vec<ConnectionId> = Vec::new();
        let ghost s = vstd::std_specs::hash::spec_hash_map_iter(m).remaining();
        for (key, counts) in it: m.iter()
            invariant
                it.seq() == s,
                s.no_duplicates(),
                self.wf(),
                m@ == self.by_connection@,
                forall|a: int| 0 <= a < s.len() ==> m@.contains_key(*s[a].0) && m@[*s[a].0] == *s[a].1,
                forall|j: int|
                    0 <= j < ids@.len() ==> subscription_count(self@, #[trigger] ids@[j]@, subscription@) > 0,
                forall|j: int, i: int|
                    0 <= j < ids@.len() && it.index() <= i < s.len() ==> (#[trigger] ids@[j])@ != *#[trigger] s[i].0,
                forall|i: int|
                    0 <= i < it.index() && subscription_count(self@, *s[i].0, subscription@) > 0 ==> id_values(
                        ids@,
                    ).contains(*s[i].0),
                id_values(ids@).no_duplicates(),
        {
            let ghost idx: int = it.index();
            assert(s[idx] == (key, counts));
            assert forall|b: int| 0 <= b < s.len() && b != idx implies *s[b].0 != *key by {
                if *s[b].0 == *key {
                    assert(s[b] == s[idx]);
                }
            }
            let ghost old_ids = ids@;
            proof {
                assert(self.by_connection@.contains_key(*key));
                assert(self.by_connection@[*key] == *counts);
                assert(counts.wf());
                assert(self@.contains_key(*key));
                assert(self@[*key] == counts@);
            }
            if counts.contains(&subscription) {
                ids.push(ConnectionId::from_u128(*key));
                proof {
                    assert(id_values(ids@) == id_values(old_ids).push(*key));
                    assert forall|i: int|
                        0 <= i < it.index() + 1 && subscription_count(self@, *s[i].0, subscription@) > 0 implies id_values(
                            ids@,
                        ).contains(*s[i].0) by {
                        if i < idx {
                            assert(id_values(old_ids).contains(*s[i].0));
                            let j: int = choose|j: int| 0 <= j < id_values(old_ids).len() && id_values(old_ids)[j] == *s[i].0;
                            assert(id_values(ids@)[j] == *s[i].0);
                        } else {
                            assert(id_values(ids@)[ids@.len() - 1] == *s[i].0);
                        }
                    }
                }
            } else {
                proof {
                    assert(!(subscription_count(self@, *key, subscription@) > 0));
                }
            }
        }
        proof {
            self.lemma_view_well_formed();
            assert forall|id: u128| subscribers_of(self@, subscription@).contains(id) implies id_values(ids@).contains(id) by {
                assert(s.contains((&id, &m@[id])));
            }
            assert forall|id: u128| id_values(ids@).contains(id) implies subscribers_of(self@, subscription@).contains(id) by {
                let j: int = choose|j: int| 0 <= j < id_values(ids@).len() && id_values(ids@)[j] == id;
                assert(subscription_count(self@, ids@[j]@, subscription@) > 0);
            }
            assert(id_values(ids@).to_set() =~= subscribers_of(self@, subscription@));
            law_subscribers_are_holders(*self, subscription@);
            assert forall|j: int| 0 <= j < ids@.len() implies self@.contains_key(#[trigger] ids@[j]@)
                && self@[ids@[j]@].contains_key(subscription@) by {
                assert(id_values(ids@)[j] == ids@[j]@);
                assert(id_values(ids@).to_set().contains(ids@[j]@));
            }
            assert forall|id: u128| self@.contains_key(id) && self@[id].contains_key(subscription@) implies id_values(
                ids@,
            ).contains(id) by {
                assert(subscribers_of(self@, subscription@).contains(id));
                assert(id_values(ids@).to_set().contains(id));
            }
        }
        ids
    }
}

/// A connection subscribes to a subscription exactly when the table holds that
/// subscription among the connection's own.
pub proof fn law_subscribers_are_holders(table: SubscriptionTable, name: Seq<char>)
    requires
        table.wf(),
    ensures
        forall|id: u128|
            #[trigger] subscribers_of(table@, name).contains(id) <==> (table@.contains_key(id) && table@[id].contains_key(
                name,
            )),
{
    table.lemma_view_well_formed();
}

/// The count of a subscription is the count the table stores for it, and
/// zero when the table stores none.
pub proof fn law_count_is_stored(table: SubscriptionTable, id: u128, name: Seq<char>)
    requires
        table.wf(),
    ensures
        table@.contains_key(id) && table@[id].contains_key(name) ==> subscription_count(table@, id, name)
            == table@[id][name] && table@[id][name] > 0,
        !(table@.contains_key(id) && table@[id].contains_key(name)) ==> subscription_count(table@, id, name) == 0,
{
    table.lemma_view_well_formed();
}

/// Taking a subscription stores, for that connection and name, one more than
/// was stored before (one when nothing was), and keeps every other stored
/// entry as it was.
pub proof fn law_add_raises_stored_count(table: SubscriptionTable, id: u128, name: Seq<char>)
    requires
        table.wf(),
    ensures
        with_subscription_added(table@, id, name).contains_key(id),
        with_subscription_added(table@, id, name)[id].contains_key(name),
        with_subscription_added(table@, id, name)[id][name] == (if table@.contains_key(id) && table@[id].contains_key(
            name,
        ) {
            table@[id][name]
        } else {
            0
        }) + 1,
        with_subscription_added(table@, id, name)[id].remove(name) == (if table@.contains_key(id) {
            table@[id]
        } else {
            Map::<Seq<char>, nat>::empty()
        }).remove(name),
        with_subscription_added(table@, id, name).remove(id) == table@.remove(id),
{
    let m = table@;
    let added = with_subscription_added(m, id, name);
    let own = if m.contains_key(id) { m[id] } else { Map::<Seq<char>, nat>::empty() };
    assert(added[id].remove(name) =~= own.remove(name));
    assert(added.remove(id) =~= m.remove(id));
}

/// Giving up a subscription stores one less for it when more than one was
/// stored, drops it when one was, drops the connection when that was its
/// only subscription, and changes nothing when it was not stored.
pub proof fn law_remove_lowers_stored_count(table: SubscriptionTable, id: u128, name: Seq<char>)
    requires
        table.wf(),
    ensures
        !(table@.contains_key(id) && table@[id].contains_key(name)) ==> with_subscription_removed(table@, id, name)
            == table@,
        table@.contains_key(id) && table@[id].contains_key(name) && table@[id][name] > 1 ==> with_subscription_removed(
            table@,
            id,
            name,
        ) == table@.insert(id, table@[id].insert(name, (table@[id][name] - 1) as nat)),
        table@.contains_key(id) && table@[id].contains_key(name) && table@[id][name] == 1 && table@[id].dom().len() == 1
            ==> with_subscription_removed(table@, id, name) == table@.remove(id),
        table@.contains_key(id) && table@[id].contains_key(name) && table@[id][name] == 1 && table@[id].dom().len() > 1
            ==> with_subscription_removed(table@, id, name) == table@.insert(id, table@[id].remove(name)),
{
    law_count_is_stored(table, id, name);
    if table@.contains_key(id) && table@[id].contains_key(name) && table@[id][name] == 1 {
        law_remove_last_count(table, id, name);
        if table@[id].dom().len() == 1 {
            assert(!with_subscription_removed(table@, id, name).contains_key(id));
            assert(with_subscription_removed(table@, id, name) =~= table@.remove(id));
        }
    }
}

/// Taking a subscription and then giving it up once leaves the table as it
/// was, whichever connection and subscription it is.
pub proof fn law_add_then_remove_restores(table: SubscriptionTable, id: u128, name: Seq<char>)
    requires
        table.wf(),
    ensures
        with_subscription_removed(with_subscription_added(table@, id, name), id, name) == table@,
{
    table.lemma_view_well_formed();
    let m = table@;
    let added = with_subscription_added(m, id, name);
    let count: nat = subscription_count(m, id, name);
    assert(subscription_count(added, id, name) == count + 1);
    if m.contains_key(id) {
        let own = m[id];
        if own.contains_key(name) {
            assert(count > 0);
            assert(own.insert(name, count + 1).insert(name, count) =~= own);
            assert(with_subscription_removed(added, id, name) =~= m);
        } else {
            assert(own.insert(name, 1).remove(name) =~= own);
            assert(own != Map::<Seq<char>, nat>::empty());
            assert(with_subscription_removed(added, id, name) =~= m);
        }
    } else {
        assert(Map::<Seq<char>, nat>::empty().insert(name, 1).remove(name) =~= Map::<Seq<char>, nat>::empty());
        assert(with_subscription_removed(added, id, name) =~= m);
    }
}

/// Taking a subscription raises its count by one and changes no other count.
pub proof fn law_add_counts(table: SubscriptionTable, id: u128, name: Seq<char>, other_id: u128, other_name: Seq<char>)
    requires
        table.wf(),
    ensures
        subscription_count(with_subscription_added(table@, id, name), id, name) == subscription_count(table@, id, name) + 1,
        (other_id, other_name) != (id, name) ==> subscription_count(with_subscription_added(table@, id, name), other_id, other_name)
            == subscription_count(table@, other_id, other_name),
{
}

/// Giving up a subscription lowers its count by one, never below zero, and
/// changes no other count.
pub proof fn law_remove_counts(table: SubscriptionTable, id: u128, name: Seq<char>, other_id: u128, other_name: Seq<char>)
    requires
        table.wf(),
    ensures
        subscription_count(with_subscription_removed(table@, id, name), id, name) == (if subscription_count(table@, id, name) > 0 {
            subscription_count(table@, id, name) - 1
        } else {
            0
        }),
        (other_id, other_name) != (id, name) ==> subscription_count(with_subscription_removed(table@, id, name), other_id, other_name)
            == subscription_count(table@, other_id, other_name),
{
    table.lemma_view_well_formed();
    let m = table@;
    if subscription_count(m, id, name) == 1 && m[id].remove(name) == Map::<Seq<char>, nat>::empty() {
        assert(!m[id].remove(name).contains_key(other_name));
    }
}

/// Giving up the last count of a subscription drops the connection when that
/// was its only subscription, and otherwise keeps it without that
/// subscription.
pub proof fn law_remove_last_count(table: SubscriptionTable, id: u128, name: Seq<char>)
    requires
        table.wf(),
        subscription_count(table@, id, name) == 1,
    ensures
        table@[id].dom().len() == 1 ==> !with_subscription_removed(table@, id, name).contains_key(id),
        table@[id].dom().len() > 1 ==> with_subscription_removed(table@, id, name).contains_key(id)
            && with_subscription_removed(table@, id, name)[id] == table@[id].remove(name),
{
    table.lemma_view_well_formed();
    let own = table@[id];
    assert(own.dom().finite());
    assert(own.remove(name).dom() =~= own.dom().remove(name));
    if own.dom().len() == 1 {
        own.dom().remove(name).lemma_len0_is_empty();
        assert(own.remove(name) =~= Map::<Seq<char>, nat>::empty());
    } else if own.dom().len() > 1 {
        assert(own.remove(name).dom().len() > 0);
        assert(own.remove(name) != Map::<Seq<char>, nat>::empty());
    }
}

/// After a connection takes a subscription, the subscribers of that
/// subscription are the earlier ones and that connection.
pub proof fn law_subscribers_after_add(table: SubscriptionTable, id: u128, name: Seq<char>)
    requires
        table.wf(),
    ensures
        subscribers_of(with_subscription_added(table@, id, name), name) == subscribers_of(table@, name).insert(id),
{
    assert(subscribers_of(with_subscription_added(table@, id, name), name) =~= subscribers_of(table@, name).insert(id));
}

/// After all subscriptions of a connection are dropped, it subscribes to
/// nothing and every other connection keeps its subscriptions.
pub proof fn law_remove_all_subscriptions(table: SubscriptionTable, id: u128, name: Seq<char>)
    requires
        table.wf(),
    ensures
        subscribers_of(table@.remove(id), name) == subscribers_of(table@, name).remove(id),
        subscription_count(table@.remove(id), id, name) == 0,
{
    assert(subscribers_of(table@.remove(id), name) =~= subscribers_of(table@, name).remove(id));
}

} // verus!
