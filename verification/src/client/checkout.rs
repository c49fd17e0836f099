//! Parked checkouts: when a key has no idle connection and no new dial is
//! wanted, the checkout parks and waits for a value to come back to the
//! pool. The channel ends that carry the value live with the embedder; this
//! module keeps the bookkeeping — a FIFO of waiters per key — and decides
//! each handoff: a value returned under a key goes to that key's oldest
//! parked waiter, a failed dial cancels every waiter of its key, and a
//! dropped checkout removes itself.

use vstd::prelude::*;
use crate::client::pool::{Key, Ver, spec_key_view};

verus! {

/// Finds a key among the waiter queues.
pub open spec fn spec_find_key(
    m: Seq<((Seq<char>, Ver), Seq<u64>)>,
    k: (Seq<char>, Ver),
) -> Option<int>
    decreases m.len(),
{
    if m.len() == 0 {
        None
    } else if m[0].0 == k {
        Some(0)
    } else {
        match spec_find_key(m.drop_first(), k) {
            Some(i) => Some(i + 1),
            None => None,
        }
    }
}

/// What parking a waiter does to the queues: it joins the end of its key's
/// queue, or opens a new queue for a new key.
pub open spec fn spec_park(
    m: Seq<((Seq<char>, Ver), Seq<u64>)>,
    k: (Seq<char>, Ver),
    id: u64,
) -> Seq<((Seq<char>, Ver), Seq<u64>)> {
    match spec_find_key(m, k) {
        Some(i) => m.update(i, (k, m[i].1.push(id))),
        None => m.push((k, seq![id])),
    }
}

/// The first position of `id` in a queue, if any.
pub open spec fn spec_find_id(q: Seq<u64>, id: u64) -> Option<int>
    decreases q.len(),
{
    if q.len() == 0 {
        None
    } else if q[0] == id {
        Some(0)
    } else {
        match spec_find_id(q.drop_first(), id) {
            Some(i) => Some(i + 1),
            None => None,
        }
    }
}

/// The queues with the entry at `i` cut down to `q` (gone when `q` is
/// empty).
pub open spec fn spec_queue_result(
    m: Seq<((Seq<char>, Ver), Seq<u64>)>,
    i: int,
    q: Seq<u64>,
) -> Seq<((Seq<char>, Ver), Seq<u64>)> {
    if q.len() == 0 {
        m.remove(i)
    } else {
        m.update(i, (m[i].0, q))
    }
}

/// A found key labels its queue.
pub proof fn lemma_find_key_some_bounds(m: Seq<((Seq<char>, Ver), Seq<u64>)>, k: (Seq<char>, Ver))
    requires
        spec_find_key(m, k) is Some,
    ensures
        0 <= spec_find_key(m, k).unwrap() < m.len(),
        m[spec_find_key(m, k).unwrap()].0 == k,
    decreases m.len(),
{
    if m.len() > 0 && m[0].0 != k {
        lemma_find_key_some_bounds(m.drop_first(), k);
        let j = spec_find_key(m.drop_first(), k).unwrap();
        assert(m.drop_first()[j] == m[j + 1]);
    }
}

/// A missed key labels no queue.
pub proof fn lemma_find_key_none_absent(m: Seq<((Seq<char>, Ver), Seq<u64>)>, k: (Seq<char>, Ver))
    requires
        spec_find_key(m, k) is None,
    ensures
        forall|i: int| 0 <= i < m.len() ==> (#[trigger] m[i]).0 != k,
    decreases m.len(),
{
    if m.len() > 0 {
        lemma_find_key_none_absent(m.drop_first(), k);
        assert forall|i: int| 0 <= i < m.len() implies (#[trigger] m[i]).0 != k by {
            if i > 0 {
                assert(m.drop_first()[i - 1] == m[i]);
            }
        }
    }
}

/// Finds the first occurrence of a handle in a queue.
fn find_id(q: &Vec<u64>, id: u64) -> (r: Option<usize>)
    ensures
        match r {
            Some(j) => j < q@.len() && spec_find_id(q@, id) == Some(j as int),
            None => spec_find_id(q@, id) is None,
        },
{
    let mut j: usize = 0;
    proof {
        assert(q@.subrange(0, q@.len() as int) =~= q@);
    }
    while j < q.len()
        invariant
            0 <= j <= q@.len(),
            spec_find_id(q@, id) == (match spec_find_id(
                q@.subrange(j as int, q@.len() as int),
                id,
            ) {
                Some(k) => Some(k + j),
                None => None::<int>,
            }),
        decreases q@.len() - j,
    {
        proof {
            let tail = q@.subrange(j as int, q@.len() as int);
            assert(tail[0] == q@[j as int]);
            assert(tail.drop_first() =~= q@.subrange(j as int + 1, q@.len() as int));
        }
        if q[j] == id {
            return Some(j);
        }
        j = j + 1;
    }
    proof {
        assert(q@.subrange(j as int, q@.len() as int) =~= Seq::<u64>::empty());
    }
    None
}

/// The parked checkouts: for each key, the waiter handles in arrival order,
/// oldest first. A handle is the embedder's name for one parked checkout —
/// the sending end of its channel lives outside.
pub struct Waiters {
    list: Vec<(Key, Vec<u64>)>,
}

impl Waiters {
    /// The queues, as a value: each key with its waiter handles in order.
    pub closed spec fn view(&self) -> Seq<((Seq<char>, Ver), Seq<u64>)> {
        self.list@.map_values(|e: (Key, Vec<u64>)| (spec_key_view(e.0), e.1@))
    }

    /// Keys are unique and no queue is empty.
    pub closed spec fn wf(&self) -> bool {
        &&& forall|a: int, b: int|
            0 <= a < b < self.view().len() ==> (#[trigger] self.view()[a]).0 != (
            #[trigger] self.view()[b]).0
        &&& forall|i: int| 0 <= i < self.view().len() ==> (#[trigger] self.view()[i]).1.len() >= 1
    }

    /// No checkout is parked anywhere.
    pub fn new() -> (r: Waiters)
        ensures
            r.wf(),
            r.view() =~= Seq::<((Seq<char>, Ver), Seq<u64>)>::empty(),
    {
        Waiters { list: Vec::new() }
    }

    /// Finds a key's queue.
    fn find(&self, key: &Key) -> (r: Option<usize>)
        ensures
            match r {
                Some(i) => i < self.view().len() && spec_find_key(self.view(), spec_key_view(*key))
                    == Some(i as int),
                None => spec_find_key(self.view(), spec_key_view(*key)) is None,
            },
    {
        let ghost m = self.view();
        let mut i: usize = 0;
        proof {
            assert(m.subrange(0, m.len() as int) =~= m);
        }
        while i < self.list.len()
            invariant
                m == self.view(),
                0 <= i <= self.list@.len(),
                m.len() == self.list@.len(),
                spec_find_key(m, spec_key_view(*key)) == (match spec_find_key(
                    m.subrange(i as int, m.len() as int),
                    spec_key_view(*key),
                ) {
                    Some(k) => Some(k + i),
                    None => None::<int>,
                }),
            decreases self.list@.len() - i,
        {
            proof {
                let tail = m.subrange(i as int, m.len() as int);
                assert(tail[0] == m[i as int]);
                assert(tail.drop_first() =~= m.subrange(i as int + 1, m.len() as int));
            }
            let same_host = self.list[i].0.0 == key.0;
            let same_ver = match (self.list[i].0.1, key.1) {
                (Ver::Http1, Ver::Http1) => true,
                (Ver::Http2, Ver::Http2) => true,
                _ => false,
            };
            if same_host && same_ver {
                return Some(i);
            }
            i = i + 1;
        }
        proof {
            assert(m.subrange(i as int, m.len() as int) =~= Seq::<
                ((Seq<char>, Ver), Seq<u64>),
            >::empty());
        }
        None
    }

    /// Parks one checkout: its handle joins the end of its key's queue.
    pub fn park(&mut self, key: Key, id: u64)
        requires
            old(self).wf(),
        ensures
            final(self).wf(),
            final(self).view() == spec_park(old(self).view(), spec_key_view(key), id),
    {
        let ghost oldm = self.view();
        let found = self.find(&key);
        match found {
            Some(i) => {
                proof {
                    lemma_find_key_some_bounds(oldm, spec_key_view(key));
                }
                let mut entry = self.list.remove(i);
                entry.1.push(id);
                self.list.insert(i, entry);
                proof {
                    assert(self.view() =~~= oldm.update(
                        i as int,
                        (oldm[i as int].0, oldm[i as int].1.push(id)),
                    ));
                    assert forall|a: int, b: int|
                        0 <= a < b < self.view().len() implies (#[trigger] self.view()[a]).0 != (
                    #[trigger] self.view()[b]).0 by {
                        assert(self.view()[a].0 == oldm[a].0);
                        assert(self.view()[b].0 == oldm[b].0);
                    }
                }
            },
            None => {
                let mut q: Vec<u64> = Vec::new();
                q.push(id);
                self.list.push((key, q));
                proof {
                    assert(spec_key_view(self.list@.last().0) == spec_key_view(key));
                    assert(self.view() =~~= oldm.push((spec_key_view(key), seq![id])));
                    lemma_find_key_none_absent(oldm, spec_key_view(key));
                    assert forall|a: int, b: int|
                        0 <= a < b < self.view().len() implies (#[trigger] self.view()[a]).0 != (
                    #[trigger] self.view()[b]).0 by {
                        if b == oldm.len() {
                            assert(self.view()[a].0 == oldm[a].0);
                        } else {
                            assert(self.view()[a].0 == oldm[a].0);
                            assert(self.view()[b].0 == oldm[b].0);
                        }
                    }
                }
            },
        }
    }

    /// The handoff decision: a value returned to the pool under `key` goes
    /// to that key's oldest parked waiter, whose handle this removes and
    /// returns. `None` when nobody waits. The caller hands the value through
    /// its channel; a waiter that is already gone simply asks again.
    pub fn next_waiter(&mut self, key: &Key) -> (r: Option<u64>)
        requires
            old(self).wf(),
        ensures
            final(self).wf(),
            match spec_find_key(old(self).view(), spec_key_view(*key)) {
                None => r is None && final(self).view() == old(self).view(),
                Some(i) => {
                    let q = old(self).view()[i].1;
                    &&& r == Some(q[0])
                    &&& final(self).view() == spec_queue_result(
                        old(self).view(),
                        i,
                        q.drop_first(),
                    )
                },
            },
    {
        let ghost oldm = self.view();
        let found = self.find(key);
        let i = match found {
            Some(i) => i,
            None => {
                return None;
            },
        };
        proof {
            lemma_find_key_some_bounds(oldm, spec_key_view(*key));
        }
        let mut entry = self.list.remove(i);
        let ghost q0 = entry.1@;
        let id = entry.1.remove(0);
        proof {
            assert(entry.1@ =~= q0.drop_first());
        }
        if entry.1.len() > 0 {
            self.list.insert(i, entry);
            proof {
                assert(self.view() =~~= oldm.update(i as int, (oldm[i as int].0, q0.drop_first())));
                assert forall|a: int, b: int|
                    0 <= a < b < self.view().len() implies (#[trigger] self.view()[a]).0 != (
                #[trigger] self.view()[b]).0 by {
                    assert(self.view()[a].0 == oldm[a].0);
                    assert(self.view()[b].0 == oldm[b].0);
                }
            }
        } else {
            proof {
                assert(self.view() =~~= oldm.remove(i as int));
                assert forall|a: int, b: int|
                    0 <= a < b < self.view().len() implies (#[trigger] self.view()[a]).0 != (
                #[trigger] self.view()[b]).0 by {
                    let aa: int = if a < i as int {
                        a
                    } else {
                        a + 1
                    };
                    let bb: int = if b < i as int {
                        b
                    } else {
                        b + 1
                    };
                    assert(self.view()[a].0 == oldm[aa].0);
                    assert(self.view()[b].0 == oldm[bb].0);
                }
            }
        }
        Some(id)
    }

    /// A failed dial cancels the key's parked checkouts: returns every
    /// waiter handle, oldest first, and forgets the key. Each one is owed a
    /// cancellation through its channel.
    pub fn cancel_key(&mut self, key: &Key) -> (r: Vec<u64>)
        requires
            old(self).wf(),
        ensures
            final(self).wf(),
            match spec_find_key(old(self).view(), spec_key_view(*key)) {
                None => r@ =~= Seq::<u64>::empty() && final(self).view() == old(self).view(),
                Some(i) => r@ == old(self).view()[i].1 && final(self).view() == old(
                    self,
                ).view().remove(i),
            },
    {
        let ghost oldm = self.view();
        let found = self.find(key);
        let i = match found {
            Some(i) => i,
            None => {
                return Vec::new();
            },
        };
        proof {
            lemma_find_key_some_bounds(oldm, spec_key_view(*key));
        }
        let entry = self.list.remove(i);
        proof {
            assert(self.view() =~~= oldm.remove(i as int));
            assert forall|a: int, b: int|
                0 <= a < b < self.view().len() implies (#[trigger] self.view()[a]).0 != (
            #[trigger] self.view()[b]).0 by {
                let aa: int = if a < i as int {
                    a
                } else {
                    a + 1
                };
                let bb: int = if b < i as int {
                    b
                } else {
                    b + 1
                };
                assert(self.view()[a].0 == oldm[aa].0);
                assert(self.view()[b].0 == oldm[bb].0);
            }
        }
        entry.1
    }

    /// A dropped checkout removes itself: the first occurrence of its handle
    /// leaves its key's queue (and an emptied queue leaves with its key).
    pub fn remove_waiter(&mut self, key: &Key, id: u64)
        requires
            old(self).wf(),
        ensures
            final(self).wf(),
            match spec_find_key(old(self).view(), spec_key_view(*key)) {
                None => final(self).view() == old(self).view(),
                Some(i) => {
                    let q = old(self).view()[i].1;
                    match spec_find_id(q, id) {
                        None => final(self).view() == old(self).view(),
                        Some(j) => final(self).view() == spec_queue_result(
                            old(self).view(),
                            i,
                            q.remove(j),
                        ),
                    }
                },
            },
    {
        let ghost oldm = self.view();
        let found = self.find(key);
        let i = match found {
            Some(i) => i,
            None => {
                return ;
            },
        };
        proof {
            lemma_find_key_some_bounds(oldm, spec_key_view(*key));
        }
        let mut entry = self.list.remove(i);
        let ghost q0 = entry.1@;
        let j = match find_id(&entry.1, id) {
            Some(j) => j,
            None => {
                self.list.insert(i, entry);
                proof {
                    assert(self.view() =~~= oldm);
                }
                return ;
            },
        };
        entry.1.remove(j);
        proof {
            assert(entry.1@ =~= q0.remove(j as int));
        }
        if entry.1.len() > 0 {
            self.list.insert(i, entry);
            proof {
                assert(self.view() =~~= oldm.update(i as int, (oldm[i as int].0, q0.remove(
                    j as int,
                ))));
                assert forall|a: int, b: int|
                    0 <= a < b < self.view().len() implies (#[trigger] self.view()[a]).0 != (
                #[trigger] self.view()[b]).0 by {
                    assert(self.view()[a].0 == oldm[a].0);
                    assert(self.view()[b].0 == oldm[b].0);
                }
            }
        } else {
            proof {
                assert(self.view() =~~= oldm.remove(i as int));
                assert forall|a: int, b: int|
                    0 <= a < b < self.view().len() implies (#[trigger] self.view()[a]).0 != (
                #[trigger] self.view()[b]).0 by {
                    let aa: int = if a < i as int {
                        a
                    } else {
                        a + 1
                    };
                    let bb: int = if b < i as int {
                        b
                    } else {
                        b + 1
                    };
                    assert(self.view()[a].0 == oldm[aa].0);
                    assert(self.view()[b].0 == oldm[bb].0);
                }
            }
        }
    }
}

} // verus!
