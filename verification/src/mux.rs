use vstd::prelude::*;

use crate::topic::filter_matches;

verus! {

/// One internal subscriber: a topic filter and the identifier of the
/// subscriber's inbox channel.
#[derive(Clone, Debug, PartialEq)]
pub struct Subscription {
    pub filter: Vec<u8>,
    pub id: u64,
}

/// The inbox identifiers, in registration order, whose filters match the
/// topic.
pub open spec fn matching_ids(subs: Seq<Subscription>, topic: Seq<u8>) -> Seq<u64>
    decreases subs.len(),
{
    if subs.len() == 0 {
        Seq::empty()
    } else {
        matching_ids(subs.drop_last(), topic) + (if filter_matches(
            subs.last().filter@,
            topic,
        ) {
            seq![subs.last().id]
        } else {
            Seq::empty()
        })
    }
}

/// The subscriptions left after an inbox is dropped.
pub open spec fn without_id(subs: Seq<Subscription>, id: u64) -> Seq<Subscription>
    decreases subs.len(),
{
    if subs.len() == 0 {
        Seq::empty()
    } else {
        (if subs[0].id == id {
            Seq::empty()
        } else {
            seq![subs[0]]
        }) + without_id(subs.skip(1), id)
    }
}

/// The multiplexer's routing table: filters to subscriber inboxes, in
/// registration order. Several subscribers may share a filter.
pub struct SubscriptionTable {
    pub subs: Vec<Subscription>,
}

impl SubscriptionTable {
    /// An empty table.
    pub fn new() -> (r: SubscriptionTable)
        ensures
            r.subs@ == Seq::<Subscription>::empty(),
    {
        SubscriptionTable { subs: Vec::new() }
    }

    /// Registers one subscriber under a filter, after all existing ones.
    pub fn subscribe(&mut self, filter: Vec<u8>, id: u64)
        ensures
            final(self).subs@.len() == old(self).subs@.len() + 1,
            final(self).subs@.drop_last() == old(self).subs@,
            final(self).subs@.last().filter@ == filter@,
            final(self).subs@.last().id == id,
    {
        self.subs.push(Subscription { filter, id });
        proof {
            assert(self.subs@.drop_last() =~= old(self).subs@);
        }
    }

    /// The inboxes an inbound publish on `topic` is forwarded to: exactly
    /// the subscribers whose filter matches, in registration order.
    pub fn route(&self, topic: &[u8]) -> (r: Vec<u64>)
        ensures
            r@ == matching_ids(self.subs@, topic@),
    {
        let n = self.subs.len();
        let mut out: Vec<u64> = Vec::new();
        let mut i: usize = 0;
        while i < n
            invariant
                i <= n,
                n == self.subs@.len(),
                out@ == matching_ids(self.subs@.take(i as int), topic@),
            decreases n - i,
        {
            if crate::topic::filter_matches_bytes(self.subs[i].filter.as_slice(), topic) {
                out.push(self.subs[i].id);
            }
            proof {
                assert(self.subs@.take(i + 1).drop_last() =~= self.subs@.take(i as int));
                assert(self.subs@.take(i + 1).last() == self.subs@[i as int]);
                assert(out@ =~= matching_ids(self.subs@.take(i + 1), topic@));
            }
            i = i + 1;
        }
        proof {
            assert(self.subs@.take(n as int) =~= self.subs@);
        }
        out
    }

    /// Drops every entry of a closed inbox; the rest keep their order.
    pub fn remove(&mut self, id: u64)
        ensures
            final(self).subs@ == without_id(old(self).subs@, id),
    {
        let mut i: usize = 0;
        proof {
            assert(self.subs@.take(0) =~= Seq::<Subscription>::empty());
            assert(self.subs@.skip(0) =~= self.subs@);
            assert(without_id(old(self).subs@, id) =~= self.subs@.take(0) + without_id(
                self.subs@.skip(0),
                id,
            ));
        }
        while i < self.subs.len()
            invariant
                i <= self.subs@.len(),
                forall|k: int| 0 <= k < i ==> self.subs@[k].id != id,
                without_id(old(self).subs@, id) == self.subs@.take(i as int) + without_id(
                    self.subs@.skip(i as int),
                    id,
                ),
            decreases self.subs@.len() - i,
    {
            let ghost before = self.subs@;
            if self.subs[i].id == id {
                self.subs.remove(i);
                proof {
                    assert(before.skip(i as int)[0] == before[i as int]);
                    assert(before.skip(i as int).skip(1) =~= self.subs@.skip(i as int));
                    assert(self.subs@.take(i as int) =~= before.take(i as int));
                }
            } else {
                proof {
                    assert(before.skip(i as int)[0] == before[i as int]);
                    assert(before.skip(i as int).skip(1) =~= before.skip(i + 1));
                    assert(without_id(before.skip(i as int), id) =~= seq![before[i as int]]
                        + without_id(before.skip(i + 1), id));
                    assert(before.take(i + 1) =~= before.take(i as int) + seq![before[i as int]]);
                    assert(before.take(i as int) + without_id(before.skip(i as int), id) =~= before.take(
                        i + 1,
                    ) + without_id(before.skip(i + 1), id));
                }
                i = i + 1;
            }
        }
        proof {
            assert(self.subs@.skip(i as int) =~= Seq::<Subscription>::empty());
            assert(self.subs@.take(i as int) =~= self.subs@);
            assert(without_id(old(self).subs@, id) =~= self.subs@);
        }
    }
}

/// A subscriber registered before a topic is published receives it
/// exactly when its filter matches the topic: routing after the
/// registration forwards to the new inbox iff the filter matches, and
/// leaves every earlier subscriber's routing unchanged.
pub proof fn lemma_subscribe_receives(subs: Seq<Subscription>, topic: Seq<u8>)
    requires
        subs.len() > 0,
    ensures
        matching_ids(subs, topic) == matching_ids(subs.drop_last(), topic) + (if filter_matches(
            subs.last().filter@,
            topic,
        ) {
            seq![subs.last().id]
        } else {
            Seq::empty()
        }),
        filter_matches(subs.last().filter@, topic) ==> matching_ids(subs, topic).contains(
            subs.last().id,
        ),
        !filter_matches(subs.last().filter@, topic) ==> matching_ids(subs, topic)
            == matching_ids(subs.drop_last(), topic),
{
    if filter_matches(subs.last().filter@, topic) {
        let ids = matching_ids(subs, topic);
        assert(ids.last() == subs.last().id);
        assert(ids.contains(subs.last().id));
    } else {
        assert(matching_ids(subs, topic) =~= matching_ids(subs.drop_last(), topic));
    }
}

/// Every forwarded inbox belongs to a subscriber whose filter matches the
/// topic.
pub proof fn lemma_route_sound(subs: Seq<Subscription>, topic: Seq<u8>, x: u64)
    requires
        matching_ids(subs, topic).contains(x),
    ensures
        exists|i: int|
            0 <= i < subs.len() && subs[i].id == x && filter_matches(#[trigger] subs[i].filter@, topic),
    decreases subs.len(),
{
    if subs.len() > 0 {
        if filter_matches(subs.last().filter@, topic) && subs.last().id == x {
            assert(subs[subs.len() - 1].id == x);
        } else {
            let ids = matching_ids(subs, topic);
            let prev = matching_ids(subs.drop_last(), topic);
            let k = choose|k: int| 0 <= k < ids.len() && ids[k] == x;
            assert(prev.contains(x)) by {
                assert(prev[k] == x);
            }
            lemma_route_sound(subs.drop_last(), topic, x);
            let i = choose|i: int|
                0 <= i < subs.drop_last().len() && subs.drop_last()[i].id == x && filter_matches(
                    #[trigger] subs.drop_last()[i].filter@,
                    topic,
                );
            assert(subs[i].id == x && filter_matches(subs[i].filter@, topic));
        }
    }
}

/// Every subscriber whose filter matches the topic is forwarded to.
pub proof fn lemma_route_complete(subs: Seq<Subscription>, topic: Seq<u8>, i: int)
    requires
        0 <= i < subs.len(),
        filter_matches(subs[i].filter@, topic),
    ensures
        matching_ids(subs, topic).contains(subs[i].id),
    decreases subs.len(),
{
    if i == subs.len() - 1 {
        let ids = matching_ids(subs, topic);
        assert(ids.last() == subs[i].id);
        assert(ids.contains(subs[i].id));
    } else {
        lemma_route_complete(subs.drop_last(), topic, i);
        let prev = matching_ids(subs.drop_last(), topic);
        let k = choose|k: int| 0 <= k < prev.len() && prev[k] == subs[i].id;
        let ids = matching_ids(subs, topic);
        assert(ids[k] == subs[i].id);
        assert(ids.contains(subs[i].id));
    }
}

} // verus!
