//! The event bus: status strings fanned out to live subscribers and kept in
//! a durable pull queue.
//!
//! Publishing appends one message to the durable queue and to every
//! currently connected subscriber's pending stream, in publish order; a
//! subscriber that connects late simply starts with an empty stream.  Both
//! sinks hand messages out strictly oldest-first, which is what preserves
//! the per-order ordering of status events in every observer's view.

use std::collections::VecDeque;

use vstd::prelude::*;

verus! {

/// One connected observer and the messages published since it connected
/// that it has not yet received.
pub struct Subscriber {
    pub id: u64,
    pub pending: VecDeque<String>,
}

/// The two sinks fed by every order state transition.
pub struct EventBus {
    pub queue: VecDeque<String>,
    pub subscribers: Vec<Subscriber>,
    pub next_subscriber: u64,
}

/// `new` is `old_q` with one more message whose text is `msg` at the end.
pub open spec fn appended(new: Seq<String>, old_q: Seq<String>, msg: Seq<char>) -> bool {
    &&& new.len() == old_q.len() + 1
    &&& new.subrange(0, old_q.len() as int) == old_q
    &&& new.last()@ == msg
}

/// `new` is `old_q` with the two messages `m1`, then `m2`, at the end.
pub open spec fn appended2(new: Seq<String>, old_q: Seq<String>, m1: Seq<char>, m2: Seq<char>) -> bool {
    &&& new.len() == old_q.len() + 2
    &&& new.subrange(0, old_q.len() as int) == old_q
    &&& new[old_q.len() as int]@ == m1
    &&& new.last()@ == m2
}

/// Whether some subscriber has id `id`.
pub open spec fn has_sub(subs: Seq<Subscriber>, id: u64) -> bool {
    exists|i: int| 0 <= i < subs.len() && subs[i].id == id
}

/// The position of the subscriber with id `id` (meaningful when `has_sub`
/// holds and ids are unique).
pub open spec fn sub_index(subs: Seq<Subscriber>, id: u64) -> int {
    choose|i: int| 0 <= i < subs.len() && subs[i].id == id
}

/// Under unique subscriber ids, a matching index is the index `sub_index`
/// denotes.
proof fn lemma_sub_index_is(subs: Seq<Subscriber>, i: int)
    requires
        forall|a: int, b: int|
            0 <= a < b < subs.len() ==> (#[trigger] subs[a]).id != (#[trigger] subs[b]).id,
        0 <= i < subs.len(),
    ensures
        has_sub(subs, subs[i].id),
        sub_index(subs, subs[i].id) == i,
{
    assert(has_sub(subs, subs[i].id));
    let j = sub_index(subs, subs[i].id);
    if i != j {
        assert(subs[i].id != subs[j].id);
    }
}

impl EventBus {
    /// Subscriber ids are unique and below the allocation cursor.
    pub open spec fn wf(self) -> bool {
        &&& forall|a: int, b: int|
            0 <= a < b < self.subscribers@.len() ==> (#[trigger] self.subscribers@[a]).id != (
            #[trigger] self.subscribers@[b]).id
        &&& forall|a: int|
            0 <= a < self.subscribers@.len() ==> (#[trigger] self.subscribers@[a]).id
                < self.next_subscriber
    }

    /// A bus with an empty durable queue and no subscribers.
    pub fn new() -> (r: Self)
        ensures
            r.wf(),
            r.queue@ =~= Seq::<String>::empty(),
            r.subscribers@ =~= Seq::<Subscriber>::empty(),
    {
        EventBus { queue: VecDeque::new(), subscribers: Vec::new(), next_subscriber: 0 }
    }

    /// Publishes one status message: it joins the durable queue and every
    /// connected subscriber's pending stream, after everything already
    /// there.  Publishing never blocks on slow or absent subscribers.
    pub fn publish(&mut self, msg: String)
        requires
            old(self).wf(),
        ensures
            final(self).wf(),
            final(self).next_subscriber == old(self).next_subscriber,
            appended(final(self).queue@, old(self).queue@, msg@),
            final(self).subscribers@.len() == old(self).subscribers@.len(),
            forall|i: int|
                0 <= i < old(self).subscribers@.len() ==> (
                #[trigger] final(self).subscribers@[i]).id == old(self).subscribers@[i].id
                    && appended(
                    final(self).subscribers@[i].pending@,
                    old(self).subscribers@[i].pending@,
                    msg@,
                ),
    {
        let n = self.subscribers.len();
        for i in 0..n
            invariant
                self.queue@ == old(self).queue@,
                self.next_subscriber == old(self).next_subscriber,
                self.subscribers@.len() == old(self).subscribers@.len(),
                forall|j: int|
                    0 <= j < i ==> (#[trigger] self.subscribers@[j]).id == old(self).subscribers@[j].id && appended(
                        self.subscribers@[j].pending@,
                        old(self).subscribers@[j].pending@,
                        msg@,
                    ),
                forall|j: int|
                    i <= j < n ==> #[trigger] self.subscribers@[j] == old(self).subscribers@[j],
        {
            let text = msg.clone();
            self.subscribers[i].pending.push_back(text);
            proof {
                assert(self.subscribers@[i as int].pending@.subrange(
                    0,
                    old(self).subscribers@[i as int].pending@.len() as int,
                ) =~= old(self).subscribers@[i as int].pending@);
                assert(appended(
                    self.subscribers@[i as int].pending@,
                    old(self).subscribers@[i as int].pending@,
                    msg@,
                ));
            }
        }
        self.queue.push_back(msg);
        proof {
            assert(self.queue@.subrange(0, old(self).queue@.len() as int) =~= old(self).queue@);
        }
    }

    /// Removes and returns the oldest message of the durable queue, or
    /// `None` when the queue is empty.
    pub fn poll(&mut self) -> (r: Option<String>)
        requires
            old(self).wf(),
        ensures
            final(self).wf(),
            final(self).subscribers@ == old(self).subscribers@,
            final(self).next_subscriber == old(self).next_subscriber,
            (match r {
                Some(m) => old(self).queue@.len() > 0 && m == old(self).queue@[0] && final(self).queue@ == old(self).queue@.drop_first(),
                None => old(self).queue@.len() == 0 && final(self).queue@ == old(self).queue@,
            }),
    {
        let r = self.queue.pop_front();
        proof {
            if old(self).queue@.len() > 0 {
                assert(self.queue@ =~= old(self).queue@.drop_first());
            }
        }
        r
    }

    /// Connects a new observer; it will see every message published from
    /// now on, and nothing from before.
    pub fn subscribe(&mut self) -> (id: u64)
        requires
            old(self).wf(),
            old(self).next_subscriber < u64::MAX,
        ensures
            final(self).wf(),
            id == old(self).next_subscriber,
            final(self).next_subscriber == old(self).next_subscriber + 1,
            final(self).queue@ == old(self).queue@,
            final(self).subscribers@.len() == old(self).subscribers@.len() + 1,
            final(self).subscribers@.subrange(0, old(self).subscribers@.len() as int) == old(self).subscribers@,
            final(self).subscribers@.last().id == id,
            final(self).subscribers@.last().pending@ =~= Seq::<String>::empty(),
    {
        let id = self.next_subscriber;
        self.subscribers.push(Subscriber { id, pending: VecDeque::new() });
        self.next_subscriber = id + 1;
        proof {
            assert(self.subscribers@.subrange(0, old(self).subscribers@.len() as int) =~= old(self).subscribers@);
        }
        id
    }

    /// Removes and returns the oldest pending message of the subscriber
    /// with id `subscriber_id`; `None` when it has none pending or when no
    /// such subscriber is connected.
    pub fn recv(&mut self, subscriber_id: u64) -> (r: Option<String>)
        requires
            old(self).wf(),
        ensures
            final(self).wf(),
            final(self).queue@ == old(self).queue@,
            final(self).next_subscriber == old(self).next_subscriber,
            (!has_sub(old(self).subscribers@, subscriber_id) ==> r is None && final(self).subscribers@ == old(self).subscribers@),
            (has_sub(old(self).subscribers@, subscriber_id) ==> {
                let i = sub_index(old(self).subscribers@, subscriber_id);
                let pending0 = old(self).subscribers@[i].pending@;
                &&& final(self).subscribers@.len() == old(self).subscribers@.len()
                &&& forall|j: int|
                    0 <= j < old(self).subscribers@.len() && j != i
                        ==> #[trigger] final(self).subscribers@[j] == old(self).subscribers@[j]
                &&& final(self).subscribers@[i].id == subscriber_id
                &&& (match r {
                    Some(m) => pending0.len() > 0 && m == pending0[0] && final(self).subscribers@[i].pending@ == pending0.drop_first(),
                    None => pending0.len() == 0 && final(self).subscribers@[i].pending@
                        == pending0,
                })
            }),
    {
        let n = self.subscribers.len();
        for i in 0..n
            invariant
                forall|j: int|
                    0 <= j < i ==> (#[trigger] self.subscribers@[j]).id != subscriber_id,
                self.subscribers@ == old(self).subscribers@,
                self.queue@ == old(self).queue@,
                self.next_subscriber == old(self).next_subscriber,
        {
            if self.subscribers[i].id == subscriber_id {
                proof {
                    lemma_sub_index_is(self.subscribers@, i as int);
                }
                let r = self.subscribers[i].pending.pop_front();
                proof {
                    if old(self).subscribers@[i as int].pending@.len() > 0 {
                        assert(self.subscribers@[i as int].pending@ =~= old(self).subscribers@[i as int].pending@.drop_first());
                    }
                    assert forall|a: int| 0 <= a < self.subscribers@.len() implies (
                    #[trigger] self.subscribers@[a]).id == old(self).subscribers@[a].id by {}
                }
                return r;
            }
        }
        proof {
            if has_sub(self.subscribers@, subscriber_id) {
                let w = choose|w: int|
                    0 <= w < self.subscribers@.len() && self.subscribers@[w].id == subscriber_id;
                assert(self.subscribers@[w].id != subscriber_id);
            }
        }
        None
    }

    /// Disconnects the subscriber with id `subscriber_id`; it misses
    /// everything published afterwards.  Unknown ids are a no-op.
    pub fn unsubscribe(&mut self, subscriber_id: u64)
        requires
            old(self).wf(),
        ensures
            final(self).wf(),
            final(self).queue@ == old(self).queue@,
            final(self).next_subscriber == old(self).next_subscriber,
            (!has_sub(old(self).subscribers@, subscriber_id) ==> final(self).subscribers@ == old(self).subscribers@),
            (has_sub(old(self).subscribers@, subscriber_id) ==> final(self).subscribers@ == old(self).subscribers@.remove(sub_index(old(self).subscribers@, subscriber_id))),
            !has_sub(final(self).subscribers@, subscriber_id),
    {
        let n = self.subscribers.len();
        for i in 0..n
            invariant
                forall|j: int|
                    0 <= j < i ==> (#[trigger] self.subscribers@[j]).id != subscriber_id,
                self.subscribers@ == old(self).subscribers@,
                self.queue@ == old(self).queue@,
                self.next_subscriber == old(self).next_subscriber,
        {
            if self.subscribers[i].id == subscriber_id {
                proof {
                    lemma_sub_index_is(self.subscribers@, i as int);
                }
                self.subscribers.remove(i);
                proof {
                    let subs0 = old(self).subscribers@;
                    let subs1 = self.subscribers@;
                    assert forall|a: int, b: int| 0 <= a < b < subs1.len() implies (
                    #[trigger] subs1[a]).id != (#[trigger] subs1[b]).id by {
                        assert(subs1[a] == if a < i {
                            subs0[a]
                        } else {
                            subs0[a + 1]
                        });
                        assert(subs1[b] == if b < i {
                            subs0[b]
                        } else {
                            subs0[b + 1]
                        });
                    }
                    assert forall|a: int| 0 <= a < subs1.len() implies (#[trigger] subs1[a]).id
                        != subscriber_id by {
                        assert(subs1[a] == if a < i {
                            subs0[a]
                        } else {
                            subs0[a + 1]
                        });
                    }
                    if has_sub(subs1, subscriber_id) {
                        let w = choose|w: int|
                            0 <= w < subs1.len() && subs1[w].id == subscriber_id;
                        assert(subs1[w].id != subscriber_id);
                    }
                }
                return ;
            }
        }
        proof {
            if has_sub(self.subscribers@, subscriber_id) {
                let w = choose|w: int|
                    0 <= w < self.subscribers@.len() && self.subscribers@[w].id == subscriber_id;
                assert(self.subscribers@[w].id != subscriber_id);
            }
        }
    }
}

} // verus!
