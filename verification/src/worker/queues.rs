//! Queues of key ids to be written, one per endpoint.

use std::collections::VecDeque;
use vstd::prelude::*;

verus! {

/// Per-endpoint key queues.
///
/// Keys are partitioned by routing destination, so a connection to endpoint
/// `i` draws only from queue `i`. There is always at least one queue: without
/// routing, all keys are in queue zero.
pub struct PrefillQueues {
    queues: Vec<VecDeque<usize>>,
}

impl View for PrefillQueues {
    type V = Seq<Seq<usize>>;

    /// The key ids of each queue, front first.
    closed spec fn view(&self) -> Seq<Seq<usize>> {
        self.queues@.map_values(|q: VecDeque<usize>| q@)
    }
}

impl PrefillQueues {
    /// `num` empty queues, at least one.
    pub fn new(num: usize) -> (r: Self)
        ensures
            r@ == Seq::new(
                if num == 0 {
                    1
                } else {
                    num as nat
                },
                |i: int| Seq::<usize>::empty(),
            ),
    {
        let n: usize = if num == 0 {
            1
        } else {
            num
        };
        let mut queues: Vec<VecDeque<usize>> = Vec::new();
        let mut i: usize = 0;
        while i < n
            invariant
                i <= n,
                queues@.len() == i,
                forall|j: int| 0 <= j < i ==> (#[trigger] queues@[j])@ == Seq::<usize>::empty(),
            decreases n - i,
        {
            queues.push(VecDeque::new());
            i = i + 1;
        }
        let r = PrefillQueues { queues };
        assert(r@ =~= Seq::new(n as nat, |i: int| Seq::<usize>::empty()));
        r
    }

    /// How many queues there are.
    pub fn len(&self) -> (r: usize)
        ensures
            r == self@.len(),
    {
        self.queues.len()
    }

    /// Adds a key at the back of an endpoint's queue.
    pub fn push_back(&mut self, endpoint_idx: usize, key_id: usize)
        requires
            endpoint_idx < old(self)@.len(),
        ensures
            final(self)@ == old(self)@.update(
                endpoint_idx as int,
                old(self)@[endpoint_idx as int].push(key_id),
            ),
    {
        self.queues[endpoint_idx].push_back(key_id);
        assert(self@ =~= old(self)@.update(
            endpoint_idx as int,
            old(self)@[endpoint_idx as int].push(key_id),
        ));
    }

    /// Adds a key at the front of an endpoint's queue.
    pub fn push_front(&mut self, endpoint_idx: usize, key_id: usize)
        requires
            endpoint_idx < old(self)@.len(),
        ensures
            final(self)@ == old(self)@.update(
                endpoint_idx as int,
                seq![key_id] + old(self)@[endpoint_idx as int],
            ),
    {
        self.queues[endpoint_idx].push_front(key_id);
        assert(self@ =~= old(self)@.update(
            endpoint_idx as int,
            seq![key_id] + old(self)@[endpoint_idx as int],
        ));
    }

    /// Takes the key at the front of an endpoint's queue.
    pub fn pop_front(&mut self, endpoint_idx: usize) -> (r: Option<usize>)
        requires
            endpoint_idx < old(self)@.len(),
        ensures
            match r {
                None => old(self)@[endpoint_idx as int].len() == 0 && final(self)@ == old(self)@,
                Some(k) => {
                    let q = old(self)@[endpoint_idx as int];
                    &&& q.len() > 0
                    &&& k == q[0]
                    &&& final(self)@ == old(self)@.update(endpoint_idx as int, q.skip(1))
                },
            },
    {
        let r = self.queues[endpoint_idx].pop_front();
        proof {
            let q = old(self)@[endpoint_idx as int];
            if r is None {
                assert(self@ =~= old(self)@);
            } else {
                assert(self@[endpoint_idx as int] =~= q.skip(1));
                assert(self@ =~= old(self)@.update(endpoint_idx as int, q.skip(1)));
            }
        }
        r
    }

    /// Adds empty queues until there are `num`.
    pub fn cover(&mut self, num: usize)
        ensures
            final(self)@ == Seq::new(
                if num as nat > old(self)@.len() {
                    num as nat
                } else {
                    old(self)@.len()
                },
                |i: int|
                    if i < old(self)@.len() {
                        old(self)@[i]
                    } else {
                        Seq::<usize>::empty()
                    },
            ),
    {
        let ghost before = self@;
        assert(self@ =~= Seq::new(
            before.len(),
            |i: int|
                if i < before.len() {
                    before[i]
                } else {
                    Seq::<usize>::empty()
                },
        ));
        while self.queues.len() < num
            invariant
                before == old(self)@,
                before.len() <= self@.len(),
                self@.len() <= num || self@.len() == before.len(),
                self@ == Seq::new(
                    self@.len(),
                    |i: int|
                        if i < before.len() {
                            before[i]
                        } else {
                            Seq::<usize>::empty()
                        },
                ),
            decreases num - self@.len(),
        {
            let ghost prior = self@;
            self.queues.push(VecDeque::new());
            assert(self@ =~= prior.push(Seq::<usize>::empty()));
            assert(self@ =~= Seq::new(
                self@.len(),
                |i: int|
                    if i < before.len() {
                        before[i]
                    } else {
                        Seq::<usize>::empty()
                    },
            ));
        }
    }

    /// Whether an endpoint's queue is empty.
    pub fn is_empty(&self, endpoint_idx: usize) -> (r: bool)
        requires
            endpoint_idx < self@.len(),
        ensures
            r == (self@[endpoint_idx as int].len() == 0),
    {
        self.queues[endpoint_idx].len() == 0
    }
}

/// How often a key is queued, over all queues.
pub open spec fn queued(queues: Seq<Seq<usize>>, key_id: usize) -> nat
    decreases queues.len(),
{
    if queues.len() == 0 {
        0
    } else {
        queued(queues.drop_last(), key_id) + queues.last().to_multiset().count(key_id)
    }
}

/// Replacing one queue changes how often a key is queued by as much as it
/// changes within that queue.
pub proof fn queued_after_update(queues: Seq<Seq<usize>>, i: int, q: Seq<usize>, key_id: usize)
    requires
        0 <= i < queues.len(),
    ensures
        queued(queues.update(i, q), key_id) + queues[i].to_multiset().count(key_id) == queued(
            queues,
            key_id,
        ) + q.to_multiset().count(key_id),
    decreases queues.len(),
{
    let n = queues.len() - 1;
    if i == n {
        assert(queues.update(i, q).drop_last() =~= queues.drop_last());
    } else {
        queued_after_update(queues.drop_last(), i, q, key_id);
        assert(queues.update(i, q).drop_last() =~= queues.drop_last().update(i, q));
    }
}

/// Putting a key at either end of a queue queues it once more and leaves every
/// other key as often as it was.
pub proof fn pushing_queues_once(queues: Seq<Seq<usize>>, i: int, key_id: usize, other: usize)
    requires
        0 <= i < queues.len(),
    ensures
        queued(queues.update(i, queues[i].push(key_id)), other) == queued(queues, other) + if other
            == key_id {
            1nat
        } else {
            0
        },
        queued(queues.update(i, seq![key_id] + queues[i]), other) == queued(queues, other)
            + if other == key_id {
            1nat
        } else {
            0
        },
{
    let q = queues[i];
    queued_after_update(queues, i, q.push(key_id), other);
    queued_after_update(queues, i, seq![key_id] + q, other);
    broadcast use vstd::seq_lib::group_to_multiset_ensures;

    vstd::seq_lib::lemma_multiset_commutative(seq![key_id], q);
    assert(seq![key_id] =~= Seq::<usize>::empty().push(key_id));
}

/// Taking a key from the front of a queue undoes putting it there.
pub proof fn push_front_then_pop_front(q: Seq<usize>, key_id: usize)
    ensures
        (seq![key_id] + q)[0] == key_id,
        (seq![key_id] + q).skip(1) == q,
{
    assert((seq![key_id] + q).skip(1) =~= q);
}

} // verus!
