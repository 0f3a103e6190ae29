use vstd::prelude::*;

use crate::model::components::topic_filter::{filter_matches, TopicFilter, TopicFilterModel};
use crate::model::components::topic_name::{TopicName, TopicNameModel};

verus! {

/// A client known to the server: its identifier and the filters it subscribed to. The
/// connection to it is held by whoever does the I/O.
#[derive(Debug)]
pub struct Client {
    pub id: Vec<u8>,
    pub subscriptions: Vec<TopicFilter>,
}

/// The value of a [`Client`].
#[verifier::ext_equal]
pub struct ClientModel {
    pub id: Seq<u8>,
    pub subscriptions: Seq<TopicFilterModel>,
}

impl View for Client {
    type V = ClientModel;

    open spec fn view(&self) -> ClientModel {
        ClientModel { id: self.id@, subscriptions: self.subscriptions@.map_values(|f: TopicFilter| f@) }
    }
}

/// Whether one of the filters matches the topic name.
pub open spec fn subscribed_to(subscriptions: Seq<TopicFilterModel>, topic: TopicNameModel) -> bool {
    exists|i: int| 0 <= i < subscriptions.len() && filter_matches(#[trigger] subscriptions[i], topic)
}

/// The filters, without those equal to `filter`, in the same order.
pub open spec fn without_filter(subscriptions: Seq<TopicFilterModel>, filter: TopicFilterModel) -> Seq<TopicFilterModel>
    decreases subscriptions.len(),
{
    if subscriptions.len() == 0 {
        Seq::<TopicFilterModel>::empty()
    } else if subscriptions.last() == filter {
        without_filter(subscriptions.drop_last(), filter)
    } else {
        without_filter(subscriptions.drop_last(), filter).push(subscriptions.last())
    }
}

impl Client {
    /// A client that has not subscribed to anything.
    pub fn new(id: Vec<u8>) -> (client: Client)
        ensures
            client@ == (ClientModel { id: id@, subscriptions: Seq::<TopicFilterModel>::empty() }),
    {
        let client = Client { id, subscriptions: Vec::new() };
        assert(client@.subscriptions =~= Seq::<TopicFilterModel>::empty());
        client
    }

    /// A client restored from a backup, with the subscriptions it had.
    pub fn new_from_backup(id: Vec<u8>, subscriptions: Vec<TopicFilter>) -> (client: Client)
        ensures
            client@ == (ClientModel { id: id@, subscriptions: subscriptions@.map_values(|f: TopicFilter| f@) }),
    {
        Client { id, subscriptions }
    }

    /// The identifier of the client.
    pub fn id(&self) -> (id: Vec<u8>)
        ensures
            id@ == self@.id,
    {
        vstd::slice::slice_to_vec(self.id.as_slice())
    }

    /// Adds a subscription, after those the client has.
    pub fn add_subscription(&mut self, filter: TopicFilter)
        ensures
            final(self)@ == (ClientModel { id: old(self)@.id, subscriptions: old(self)@.subscriptions.push(filter@) }),
    {
        self.subscriptions.push(filter);
        assert(self@.subscriptions =~= old(self)@.subscriptions.push(filter@));
    }

    /// Removes every subscription equal to `filter`.
    pub fn remove_subscription(&mut self, filter: &TopicFilter)
        ensures
            final(self)@ == (ClientModel {
                id: old(self)@.id,
                subscriptions: without_filter(old(self)@.subscriptions, filter@),
            }),
    {
        let ghost before = self@.subscriptions;
        let mut kept: Vec<TopicFilter> = Vec::new();
        let mut i: usize = 0;
        while i < self.subscriptions.len()
            invariant
                i <= self.subscriptions.len(),
                before == self.subscriptions@.map_values(|f: TopicFilter| f@),
                kept@.map_values(|f: TopicFilter| f@) == without_filter(before.take(i as int), filter@),
            decreases self.subscriptions.len() - i,
        {
            assert(before.take(i + 1).drop_last() =~= before.take(i as int));
            assert(before.take(i + 1).last() == self.subscriptions@[i as int]@);
            if !self.subscriptions[i].same_as(filter) {
                let ghost prev = kept@.map_values(|f: TopicFilter| f@);
                kept.push(self.subscriptions[i].clone());
                assert(kept@.map_values(|f: TopicFilter| f@) =~= prev.push(before[i as int]));
            }
            i = i + 1;
        }
        assert(before.take(i as int) =~= before);
        self.subscriptions = kept;
    }

    /// Whether one of the client's subscriptions matches the topic name.
    pub fn is_subscribed(&self, topic_name: &TopicName) -> (subscribed: bool)
        ensures
            subscribed == subscribed_to(self@.subscriptions, topic_name@),
    {
        let ghost subs = self@.subscriptions;
        let mut i: usize = 0;
        while i < self.subscriptions.len()
            invariant
                i <= self.subscriptions.len(),
                subs == self.subscriptions@.map_values(|f: TopicFilter| f@),
                forall|j: int| 0 <= j < i ==> !filter_matches(#[trigger] subs[j], topic_name@),
            decreases self.subscriptions.len() - i,
        {
            if self.subscriptions[i].match_topic_name(topic_name.clone()) {
                assert(filter_matches(subs[i as int], topic_name@));
                return true;
            }
            i = i + 1;
        }
        false
    }
}

/// Unsubscribing from a filter drops exactly the subscriptions equal to it: the subscriptions
/// left are the old ones that differ from it, in their order, so every other subscription is
/// kept and that filter is gone.
pub proof fn lemma_without_filter_keeps_others(subscriptions: Seq<TopicFilterModel>, filter: TopicFilterModel)
    ensures
        without_filter(subscriptions, filter) == subscriptions.filter(|g: TopicFilterModel| g != filter),
        forall|g: TopicFilterModel| #[trigger] without_filter(subscriptions, filter).contains(g) <==> (subscriptions.contains(g)
            && g != filter),
    decreases subscriptions.len(),
{
    let pred = |g: TopicFilterModel| g != filter;
    reveal(Seq::filter);
    if subscriptions.len() == 0 {
        assert(subscriptions.filter(pred) =~= subscriptions);
    } else {
        let init = subscriptions.drop_last();
        let last = subscriptions.last();
        lemma_without_filter_keeps_others(init, filter);
        assert(subscriptions.filter(pred) == if pred(last) {
            init.filter(pred).push(last)
        } else {
            init.filter(pred)
        });
        let rest = without_filter(init, filter);
        assert forall|g: TopicFilterModel| #[trigger] without_filter(subscriptions, filter).contains(g) <==> (
            subscriptions.contains(g) && g != filter) by {
            if subscriptions.contains(g) && g != filter {
                let k = choose|k: int| 0 <= k < subscriptions.len() && subscriptions[k] == g;
                if k < subscriptions.len() - 1 {
                    assert(init[k] == g);
                    assert(rest.contains(g));
                    let m = choose|m: int| 0 <= m < rest.len() && rest[m] == g;
                    if last != filter {
                        assert(rest.push(last)[m] == g);
                    }
                } else {
                    assert(last == g);
                    assert(rest.push(last)[rest.len() as int] == g);
                }
            }
            if without_filter(subscriptions, filter).contains(g) {
                let m = choose|m: int|
                    0 <= m < without_filter(subscriptions, filter).len() && without_filter(subscriptions, filter)[m] == g;
                if last != filter && m == rest.len() {
                    assert(g == last);
                    assert(subscriptions[subscriptions.len() - 1] == g);
                } else {
                    assert(rest[m] == g);
                    assert(rest.contains(g));
                    let k = choose|k: int| 0 <= k < init.len() && init[k] == g;
                    assert(subscriptions[k] == g);
                }
            }
        }
    }
}

} // verus!
