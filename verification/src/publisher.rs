use vstd::prelude::*;

use core::marker::PhantomData;
use vstd::std_specs::cmp::PartialEqSpec;

use crate::error::{ErrorView, StargridError};

verus! {

/// An entry of a publisher: the id it was given and the subscriber.
struct Subscription<S>(pub usize, pub S);

/// The handle `subscribe` gives back, with which a subscription can be dropped again.
pub struct SubscriptionId(usize);

impl SubscriptionId {
    /// The id of the subscription.
    pub closed spec fn value(self) -> usize {
        self.0
    }
}

/// Hands each published event to every subscriber, in the order they subscribed.
///
/// A subscriber is a function from `&T` to `Result<(), StargridError>`.
pub struct Publisher<T, S> {
    subs: Vec<Subscription<S>>,
    marker: PhantomData<T>,
}

/// The entries whose subscriber differs from `subscriber`, in order.
pub open spec fn without_subscriber<S: PartialEq>(entries: Seq<(usize, S)>, subscriber: S) -> Seq<
    (usize, S),
>
    decreases entries.len(),
{
    if entries.len() == 0 {
        Seq::empty()
    } else {
        let rest = without_subscriber(entries.drop_last(), subscriber);
        if entries.last().1.eq_spec(&subscriber) {
            rest
        } else {
            rest.push(entries.last())
        }
    }
}

/// The entries at the positions marked `true`, in order.
pub open spec fn select<E>(entries: Seq<E>, keep: Seq<bool>) -> Seq<E>
    decreases entries.len(),
{
    if entries.len() == 0 {
        Seq::empty()
    } else {
        let rest = select(entries.drop_last(), keep.drop_last());
        if keep.last() {
            rest.push(entries.last())
        } else {
            rest
        }
    }
}

/// The entries whose id differs from `id`, in order.
pub open spec fn without_id<S>(entries: Seq<(usize, S)>, id: usize) -> Seq<(usize, S)>
    decreases entries.len(),
{
    if entries.len() == 0 {
        Seq::empty()
    } else {
        let rest = without_id(entries.drop_last(), id);
        if entries.last().0 == id {
            rest
        } else {
            rest.push(entries.last())
        }
    }
}

/// The errors among the results, in order.
pub open spec fn errors_of(results: Seq<Result<(), StargridError>>) -> Seq<ErrorView>
    decreases results.len(),
{
    if results.len() == 0 {
        Seq::empty()
    } else {
        let rest = errors_of(results.drop_last());
        match results.last() {
            Ok(_) => rest,
            Err(e) => rest.push(e@),
        }
    }
}

/// What publishing answers, given what the subscribers answered: success where
/// none failed, else all their errors together.
pub open spec fn aggregate_outcome(results: Seq<Result<(), StargridError>>) -> Result<(), ErrorView> {
    if errors_of(results).len() == 0 {
        Ok(())
    } else {
        Err(ErrorView::Aggregate(errors_of(results)))
    }
}

/// Gathers the answers of the subscribers: success where none failed, else all
/// their errors together, in order.
pub fn aggregate(results: Vec<Result<(), StargridError>>) -> (r: Result<(), StargridError>)
    ensures
        match r {
            Ok(_) => aggregate_outcome(results@) == Ok::<(), ErrorView>(()),
            Err(e) => aggregate_outcome(results@) == Err::<(), ErrorView>(e@),
        },
{
    let ghost rs = results@;
    let mut rest = results;
    let mut errs: Vec<StargridError> = Vec::new();
    let n = rest.len();
    let mut k: usize = 0;
    assert(rs.skip(0) =~= rs);
    assert(rs.take(0) =~= Seq::<Result<(), StargridError>>::empty());
    while k < n
        invariant
            n == rs.len(),
            k <= n,
            rest@ == rs.skip(k as int),
            errs@.map_values(|e: StargridError| e@) == errors_of(rs.take(k as int)),
        decreases n - k,
    {
        let r = rest.remove(0);
        assert(r == rs[k as int]);
        assert(rs.skip(k as int).drop_first() =~= rs.skip(k + 1));
        assert(rs.take(k + 1).drop_last() =~= rs.take(k as int));
        let ghost before = errs@;
        match r {
            Ok(()) => {},
            Err(e) => {
                errs.push(e);
                assert(errs@.map_values(|e: StargridError| e@) =~= before.map_values(
                    |e: StargridError| e@,
                ).push(e@));
            },
        }
        k = k + 1;
    }
    assert(rs.take(n as int) =~= rs);
    if errs.len() == 0 {
        Ok(())
    } else {
        let r = StargridError::Aggregate(errs);
        assert(r@->Aggregate_0 =~= errs@.map_values(|e: StargridError| e@));
        Err(r)
    }
}

impl<T, S> Publisher<T, S> {
    /// The subscriptions, in the order they were made: each id with its subscriber.
    pub closed spec fn entries(&self) -> Seq<(usize, S)> {
        self.subs@.map_values(|s: Subscription<S>| (s.0, s.1))
    }

    /// A publisher without subscribers.
    pub fn new() -> (r: Self)
        ensures
            r.entries() == Seq::<(usize, S)>::empty(),
    {
        let r = Publisher { subs: Vec::new(), marker: PhantomData };
        assert(r.entries() =~= Seq::<(usize, S)>::empty());
        r
    }

    /// Adds a subscriber at the end, under the id that the number of subscriptions
    /// held before gives.
    pub fn subscribe(&mut self, subscriber: S) -> (id: SubscriptionId)
        ensures
            id.value() == old(self).entries().len(),
            final(self).entries() == old(self).entries().push((id.value(), subscriber)),
    {
        let subscription = Subscription(self.subs.len(), subscriber);
        let id = SubscriptionId(subscription.0);
        let ghost before = self.entries();
        self.subs.push(subscription);
        assert(self.entries() =~= before.push((id.value(), subscriber)));
        id
    }

    /// Drops every subscription of the given subscriber.
    ///
    /// The subscriptions kept are those for which `!=` with the subscriber
    /// answered `true`, in their order; where `==` on `S` follows its
    /// specification, those are the ones of other subscribers.
    pub fn unsubscribe(&mut self, subscriber: S)
        where
            S: PartialEq,
        ensures
            exists|kept: Seq<bool>|
                {
                    &&& kept.len() == old(self).entries().len()
                    &&& final(self).entries() == select(old(self).entries(), kept)
                    &&& S::obeys_eq_spec() ==> forall|i: int|
                        0 <= i < kept.len() ==> #[trigger] kept[i] == !old(self).entries()[i].1.eq_spec(
                            &subscriber,
                        )
                },
            S::obeys_eq_spec() ==> final(self).entries() == without_subscriber(
                old(self).entries(),
                subscriber,
            ),
    {
        let ghost mut kept: Seq<bool> = Seq::empty();
        let ghost es = self.entries();
        let mut old_subs: Vec<Subscription<S>> = Vec::new();
        core::mem::swap(&mut old_subs, &mut self.subs);
        let n = old_subs.len();
        let mut k: usize = 0;
        assert(old_subs@.map_values(|s: Subscription<S>| (s.0, s.1)) =~= es);
        assert(es.skip(0) =~= es);
        assert(es.take(0) =~= Seq::<(usize, S)>::empty());
        assert(self.entries() =~= Seq::<(usize, S)>::empty());
        while k < n
            invariant
                n == es.len(),
                k <= n,
                old_subs.len() == n - k,
                old_subs@.map_values(|s: Subscription<S>| (s.0, s.1)) == es.skip(k as int),
                S::obeys_eq_spec() ==> self.entries() == without_subscriber(es.take(k as int), subscriber),
                kept.len() == k,
                self.entries() == select(es.take(k as int), kept),
                S::obeys_eq_spec() ==> forall|i: int|
                    0 <= i < k ==> #[trigger] kept[i] == !es[i].1.eq_spec(&subscriber),
            decreases n - k,
        {
            assert(old_subs@.map_values(|s: Subscription<S>| (s.0, s.1))[0] == (
                old_subs@[0].0,
                old_subs@[0].1,
            ));
            let ghost rest = old_subs@.drop_first();
            let s = old_subs.remove(0);
            assert(old_subs@ == rest);
            let ghost before = self.entries();
            assert(es.skip(k as int)[0] == (s.0, s.1));
            assert(es.skip(k as int).drop_first() =~= es.skip(k + 1));
            assert(es.take(k + 1).drop_last() =~= es.take(k as int));
            assert(es.take(k + 1).last() == (s.0, s.1));
            let ghost before_kept = kept;
            let differs = s.1 != subscriber;
            proof {
                kept = kept.push(differs);
                assert(kept.drop_last() =~= before_kept);
            }
            if differs {
                self.subs.push(s);
                assert(self.entries() =~= before.push((s.0, s.1)));
            }
            assert(es[k as int] == es.take(k + 1).last());
            k = k + 1;
        }
        assert(es.take(n as int) =~= es);
        assert(kept.len() == es.len());
    }

    /// Hands the event to every subscriber in turn, and answers success where none
    /// failed, else all their errors together, in order.
    pub fn publish(&mut self, event: T) -> (r: Result<(), StargridError>)
        where
            S: Fn(&T) -> Result<(), StargridError>,
        requires
            forall|i: int|
                0 <= i < old(self).entries().len() ==> call_requires(
                    #[trigger] old(self).entries()[i].1,
                    (&event,),
                ),
        ensures
            final(self).entries() == old(self).entries(),
            exists|results: Seq<Result<(), StargridError>>|
                {
                    &&& results.len() == old(self).entries().len()
                    &&& forall|i: int|
                        0 <= i < results.len() ==> call_ensures(
                            old(self).entries()[i].1,
                            (&event,),
                            #[trigger] results[i],
                        )
                    &&& match r {
                        Ok(_) => aggregate_outcome(results) == Ok::<(), ErrorView>(()),
                        Err(e) => aggregate_outcome(results) == Err::<(), ErrorView>(e@),
                    }
                },
    {
        let ghost es = self.entries();
        let mut results: Vec<Result<(), StargridError>> = Vec::new();
        let n = self.subs.len();
        for i in 0..n
            invariant
                n == self.subs.len(),
                es == self.entries(),
                es.len() == n,
                forall|j: int| 0 <= j < n ==> call_requires(#[trigger] es[j].1, (&event,)),
                results.len() == i,
                forall|j: int| 0 <= j < i ==> call_ensures(es[j].1, (&event,), #[trigger] results@[j]),
        {
            assert(es[i as int] == (self.subs@[i as int].0, self.subs@[i as int].1));
            assert(call_requires(es[i as int].1, (&event,)));
            let res = (self.subs[i].1)(&event);
            results.push(res);
        }
        let ghost rs = results@;
        let r = aggregate(results);
        assert(rs.len() == es.len());
        r
    }
}

impl SubscriptionId {
    /// Drops every subscription of the publisher that holds this id.
    pub fn unsubscribe_from<T, S>(&mut self, publisher: &mut Publisher<T, S>)
        ensures
            final(self).value() == old(self).value(),
            final(publisher).entries() == without_id(old(publisher).entries(), old(self).value()),
    {
        let ghost es = publisher.entries();
        let mut old_subs: Vec<Subscription<S>> = Vec::new();
        core::mem::swap(&mut old_subs, &mut publisher.subs);
        let n = old_subs.len();
        let mut k: usize = 0;
        assert(old_subs@.map_values(|s: Subscription<S>| (s.0, s.1)) =~= es);
        assert(es.skip(0) =~= es);
        assert(es.take(0) =~= Seq::<(usize, S)>::empty());
        assert(publisher.entries() =~= Seq::<(usize, S)>::empty());
        while k < n
            invariant
                n == es.len(),
                k <= n,
                old_subs.len() == n - k,
                old_subs@.map_values(|s: Subscription<S>| (s.0, s.1)) == es.skip(k as int),
                publisher.entries() == without_id(es.take(k as int), self.value()),
            decreases n - k,
        {
            assert(old_subs@.map_values(|s: Subscription<S>| (s.0, s.1))[0] == (
                old_subs@[0].0,
                old_subs@[0].1,
            ));
            let ghost rest = old_subs@.drop_first();
            let s = old_subs.remove(0);
            assert(old_subs@ == rest);
            let ghost before = publisher.entries();
            assert(es.skip(k as int)[0] == (s.0, s.1));
            assert(es.skip(k as int).drop_first() =~= es.skip(k + 1));
            assert(es.take(k + 1).drop_last() =~= es.take(k as int));
            assert(es.take(k + 1).last() == (s.0, s.1));
            if s.0 != self.0 {
                publisher.subs.push(s);
                assert(publisher.entries() =~= before.push((s.0, s.1)));
            }
            k = k + 1;
        }
        assert(es.take(n as int) =~= es);
    }
}

/// Dropping by an id after subscribing under that id leaves what dropping by the
/// id alone leaves: `unsubscribe_from` undoes `subscribe`.
pub proof fn law_unsubscribe_from_undoes_subscribe<S>(entries: Seq<(usize, S)>, id: usize, subscriber: S)
    ensures
        without_id(entries.push((id, subscriber)), id) == without_id(entries, id),
{
    assert(entries.push((id, subscriber)).drop_last() =~= entries);
}

/// After `unsubscribe_from`, no subscription holds the id, and every other
/// subscription stays.
pub proof fn law_without_id<S>(entries: Seq<(usize, S)>, id: usize)
    ensures
        forall|i: int| 0 <= i < without_id(entries, id).len() ==> (#[trigger] without_id(entries, id)[i]).0 != id,
        forall|i: int|
            0 <= i < entries.len() && (#[trigger] entries[i]).0 != id ==> without_id(entries, id).contains(entries[i]),
    decreases entries.len(),
{
    if entries.len() > 0 {
        let rest = entries.drop_last();
        law_without_id(rest, id);
        assert forall|i: int|
            0 <= i < entries.len() && (#[trigger] entries[i]).0 != id implies without_id(entries, id).contains(entries[i]) by {
            if i < entries.len() - 1 {
                assert(rest[i] == entries[i]);
                let j = choose|j: int| 0 <= j < without_id(rest, id).len() && without_id(rest, id)[j] == rest[i];
                if entries.last().0 != id {
                    assert(without_id(entries, id)[j] == entries[i]);
                }
            } else {
                assert(without_id(entries, id)[without_id(entries, id).len() - 1] == entries[i]);
            }
        }
    }
}

/// Publishing succeeds exactly when every subscriber succeeds.
pub proof fn law_publish_ok_iff_all_ok(results: Seq<Result<(), StargridError>>)
    ensures
        aggregate_outcome(results) is Ok <==> forall|i: int| 0 <= i < results.len() ==> (#[trigger] results[i]) is Ok,
    decreases results.len(),
{
    if results.len() > 0 {
        let rest = results.drop_last();
        law_publish_ok_iff_all_ok(rest);
        if errors_of(results).len() == 0 {
            assert forall|i: int| 0 <= i < results.len() implies (#[trigger] results[i]) is Ok by {
                if i < results.len() - 1 {
                    assert(rest[i] == results[i]);
                }
            }
        }
        if forall|i: int| 0 <= i < results.len() ==> (#[trigger] results[i]) is Ok {
            assert forall|i: int| 0 <= i < rest.len() implies (#[trigger] rest[i]) is Ok by {
                assert(rest[i] == results[i]);
            }
            assert(results[results.len() - 1] is Ok);
        }
    }
}

/// Unsubscribing a subscriber twice leaves what unsubscribing it once leaves.
pub proof fn law_unsubscribe_twice<S: PartialEq>(entries: Seq<(usize, S)>, subscriber: S)
    ensures
        without_subscriber(without_subscriber(entries, subscriber), subscriber) == without_subscriber(
            entries,
            subscriber,
        ),
    decreases entries.len(),
{
    if entries.len() > 0 {
        let rest = without_subscriber(entries.drop_last(), subscriber);
        law_unsubscribe_twice(entries.drop_last(), subscriber);
        if !entries.last().1.eq_spec(&subscriber) {
            assert(rest.push(entries.last()).drop_last() =~= rest);
        }
    }
}

/// Unsubscribing a subscriber that no subscription holds changes nothing.
pub proof fn law_unsubscribe_absent<S: PartialEq>(entries: Seq<(usize, S)>, subscriber: S)
    requires
        forall|i: int| 0 <= i < entries.len() ==> !(#[trigger] entries[i]).1.eq_spec(&subscriber),
    ensures
        without_subscriber(entries, subscriber) == entries,
    decreases entries.len(),
{
    if entries.len() > 0 {
        assert forall|i: int| 0 <= i < entries.drop_last().len() implies !(
        #[trigger] entries.drop_last()[i]).1.eq_spec(&subscriber) by {
            assert(entries.drop_last()[i] == entries[i]);
        }
        law_unsubscribe_absent(entries.drop_last(), subscriber);
        assert(!entries[entries.len() - 1].1.eq_spec(&subscriber));
        assert(entries.drop_last().push(entries.last()) =~= entries);
    }
}

} // verus!
