//! The keyed idle-connection pool: an idle list per origin, at-most-one
//! concurrent dial per multiplexed key, and eviction of entries that sat
//! idle past their deadline. Time enters as a plain millisecond count
//! supplied by the caller; the clock and the tasks that poll it live outside
//! this crate.

use vstd::prelude::*;

verus! {

/// The protocol version a pooled connection speaks.
#[derive(Clone, Copy, Debug, PartialEq, Eq, Structural)]
pub enum Ver {
    /// HTTP/1: one exchange at a time, unique reservations.
    Http1,
    /// HTTP/2: multiplexed, shared reservations.
    Http2,
}

/// A pool key: the origin string (scheme and authority) and the protocol
/// version.
pub type Key = (String, Ver);

/// The model of a key: the origin characters and the version.
pub open spec fn spec_key_view(k: Key) -> (Seq<char>, Ver) {
    (k.0@, k.1)
}

/// A value the pool can hold: it can say whether its connection is gone,
/// and it can be reserved for one or many users.
pub trait Poolable: Sized {
    /// Whether the underlying connection is known to be unusable.
    open spec fn spec_closed(&self) -> bool {
        false
    }

    /// Whether reserving this value yields a shared reservation.
    open spec fn spec_shares(&self) -> bool {
        false
    }

    /// Executable test for [`Self::spec_closed`].
    fn is_closed(&self) -> (r: bool)
        ensures
            r == self.spec_closed(),
    ;

    /// Reserve this value: a unique reservation hands the value itself
    /// back; a shared reservation yields one half to keep in the pool and
    /// one to hand out, both as usable as the value they came from.
    fn reserve(self) -> (r: Reservation<Self>)
        ensures
            (r matches Reservation::Unique(v) ==> v == self),
            (!self.spec_shares() ==> r is Unique),
            (r matches Reservation::Shared(keep, give) ==> keep.spec_closed()
                == self.spec_closed() && give.spec_closed() == self.spec_closed()),
    ;
}

/// What reserving a pooled value yields.
pub enum Reservation<T> {
    /// The value may be used by many: reinsert the first, hand out the
    /// second.
    Shared(T, T),
    /// The value requires unique access.
    Unique(T),
}

/// One idle entry: the value and when it became idle.
pub struct Idle<T> {
    /// When the value went idle, in the caller's clock.
    pub idle_at: u64,
    /// The idle value.
    pub value: T,
}

/// A checked-out pool value: the value, whether it came from the idle list,
/// and the key to return it under.
pub struct Pooled<T> {
    /// The value itself.
    pub value: T,
    /// Whether this value was reused from the idle list.
    pub is_reused: bool,
    /// The key it was checked out under.
    pub key: Key,
}

impl<T> Pooled<T> {
    /// Whether this value came from the idle list.
    pub fn is_reused(&self) -> (r: bool)
        ensures
            r == self.is_reused,
    {
        self.is_reused
    }
}

/// The keyed idle store. One list of idle values per key, a set of keys
/// currently dialing (multiplexed versions only), an on/off switch, and an
/// optional idle deadline.
pub struct Pool<T> {
    enabled: bool,
    timeout: Option<u64>,
    idle: Vec<((String, Ver), Vec<Idle<T>>)>,
    connecting: Vec<(String, Ver)>,
}

/// Whether `entry` has expired by `now` under an optional deadline.
pub open spec fn spec_expired(idle_at: u64, timeout: Option<u64>, now: u64) -> bool {
    match timeout {
        Some(dur) => idle_at + dur < now,
        None => false,
    }
}

impl<T: Poolable> Pool<T> {
    /// The idle lists, as a sequence of keyed entries.
    pub closed spec fn idle_view(&self) -> Seq<((Seq<char>, Ver), Seq<(T, u64)>)> {
        self.idle@.map_values(
            |e: ((String, Ver), Vec<Idle<T>>)|
                (
                    spec_key_view(e.0),
                    e.1@.map_values(|i: Idle<T>| (i.value, i.idle_at)),
                ),
        )
    }

    /// The keys currently dialing.
    pub closed spec fn connecting_view(&self) -> Seq<(Seq<char>, Ver)> {
        self.connecting@.map_values(|k: (String, Ver)| spec_key_view(k))
    }

    /// Whether the pool stores idle values at all.
    pub closed spec fn spec_enabled(&self) -> bool {
        self.enabled
    }

    /// The idle deadline.
    pub closed spec fn spec_timeout(&self) -> Option<u64> {
        self.timeout
    }

    /// The dialing set holds each key at most once, and the idle lists hold
    /// each key at most once.
    pub open spec fn wf(&self) -> bool {
        &&& forall|i: int, j: int|
            0 <= i < j < self.connecting_view().len() ==> #[trigger] self.connecting_view()[i]
                != #[trigger] self.connecting_view()[j]
        &&& forall|i: int, j: int|
            0 <= i < j < self.idle_view().len() ==> (#[trigger] self.idle_view()[i]).0 != (
            #[trigger] self.idle_view()[j]).0
    }

    /// A new pool; `enabled` off makes every insert a no-op.
    pub fn new(enabled: bool, timeout: Option<u64>) -> (r: Pool<T>)
        ensures
            r.wf(),
            r.idle_view() =~= Seq::<((Seq<char>, Ver), Seq<(T, u64)>)>::empty(),
            r.connecting_view() =~= Seq::<(Seq<char>, Ver)>::empty(),
            r.spec_enabled() == enabled,
            r.spec_timeout() == timeout,
    {
        Pool { enabled, timeout, idle: Vec::new(), connecting: Vec::new() }
    }

    /// At most one dial is ever in flight per key: the dialing set is
    /// duplicate-free, so no key appears twice.
    pub proof fn lemma_connecting_at_most_one(&self, k: (Seq<char>, Ver))
        requires
            self.wf(),
        ensures
            forall|i: int, j: int|
                0 <= i < j < self.connecting_view().len() && #[trigger] self.connecting_view()[i]
                    == k ==> #[trigger] self.connecting_view()[j] != k,
    {
    }
}

/// Finds a key in the dialing list.
fn find_connecting(list: &Vec<(String, Ver)>, key: &(String, Ver)) -> (r: Option<usize>)
    ensures
        match r {
            Some(i) => i < list@.len() && spec_key_view(list@[i as int]) == spec_key_view(*key),
            None => forall|i: int|
                0 <= i < list@.len() ==> spec_key_view(#[trigger] list@[i]) != spec_key_view(
                    *key,
                ),
        },
{
    let mut i: usize = 0;
    while i < list.len()
        invariant
            0 <= i <= list@.len(),
            forall|j: int|
                0 <= j < i ==> spec_key_view(#[trigger] list@[j]) != spec_key_view(*key),
        decreases list@.len() - i,
    {
        let same_host = list[i].0 == key.0;
        let same_ver = match (list[i].1, key.1) {
            (Ver::Http1, Ver::Http1) => true,
            (Ver::Http2, Ver::Http2) => true,
            _ => false,
        };
        if same_host && same_ver {
            return Some(i);
        }
        i = i + 1;
    }
    None
}

impl<T: Poolable> Pool<T> {
    /// Marks `key` as dialing, for multiplexed keys: succeeds only when no
    /// dial is already in flight for it. Plain HTTP/1 keys never enter the
    /// set and always succeed.
    pub fn connecting(&mut self, key: &Key) -> (r: bool)
        requires
            old(self).wf(),
        ensures
            final(self).wf(),
            final(self).idle_view() == old(self).idle_view(),
            final(self).spec_enabled() == old(self).spec_enabled(),
            final(self).spec_timeout() == old(self).spec_timeout(),
            key.1 != Ver::Http2 ==> r && final(self).connecting_view() == old(
                self,
            ).connecting_view(),
            key.1 == Ver::Http2 ==> {
                if old(self).connecting_view().contains(spec_key_view(*key)) {
                    !r && final(self).connecting_view() == old(self).connecting_view()
                } else {
                    r && final(self).connecting_view() == old(self).connecting_view().push(
                        spec_key_view(*key),
                    )
                }
            },
    {
        let is_h2 = match key.1 {
            Ver::Http2 => true,
            Ver::Http1 => false,
        };
        if !is_h2 {
            return true;
        }
        proof {
            assert(self.idle_view() =~= old(self).idle_view());
        }
        match find_connecting(&self.connecting, key) {
            Some(i) => {
                proof {
                    assert(old(self).connecting_view()[i as int] == spec_key_view(*key));
                    assert(old(self).connecting_view().contains(spec_key_view(*key)));
                    assert(self.idle_view() == old(self).idle_view());
                }
                false
            },
            None => {
                let ghost oldc = self.connecting_view();
                proof {
                    if oldc.contains(spec_key_view(*key)) {
                        let w = choose|w: int|
                            0 <= w < oldc.len() && oldc[w] == spec_key_view(*key);
                        assert(spec_key_view(self.connecting@[w]) == spec_key_view(*key));
                        assert(false);
                    }
                }
                let host = key.0.clone();
                let ghost old_list = self.connecting@;
                self.connecting.push((host, key.1));
                proof {
                    assert(self.idle_view() =~= old(self).idle_view());
                    assert(self.connecting_view() =~= oldc.push(spec_key_view(*key)));
                    assert forall|a: int, b: int|
                        0 <= a < b < self.connecting_view().len() implies #[trigger] self.connecting_view()[a]
                        != #[trigger] self.connecting_view()[b] by {
                        if b == oldc.len() {
                            assert(self.connecting_view()[a] == oldc[a]);
                            assert(oldc[a] == spec_key_view(old_list[a]));
                        } else {
                            assert(self.connecting_view()[a] == oldc[a]);
                            assert(self.connecting_view()[b] == oldc[b]);
                        }
                    }
                }
                true
            },
        }
    }

    /// A dial for `key` finished (well or badly): leaves the dialing set.
    pub fn connected(&mut self, key: &Key)
        requires
            old(self).wf(),
        ensures
            final(self).wf(),
            final(self).idle_view() == old(self).idle_view(),
            final(self).spec_enabled() == old(self).spec_enabled(),
            final(self).spec_timeout() == old(self).spec_timeout(),
            !final(self).connecting_view().contains(spec_key_view(*key)),
    {
        match find_connecting(&self.connecting, key) {
            Some(i) => {
                let ghost oldc = self.connecting_view();
                self.connecting.remove(i);
                proof {
                    assert(self.idle_view() =~= old(self).idle_view());
                    assert(self.connecting_view() =~= oldc.remove(i as int));
                    assert forall|a: int, b: int|
                        0 <= a < b < self.connecting_view().len() implies #[trigger] self.connecting_view()[a]
                        != #[trigger] self.connecting_view()[b] by {
                        let aa = if a < i { a } else { a + 1 };
                        let bb = if b < i { b } else { b + 1 };
                        assert(self.connecting_view()[a] == oldc[aa]);
                        assert(self.connecting_view()[b] == oldc[bb]);
                    }
                    if self.connecting_view().contains(spec_key_view(*key)) {
                        let w = choose|w: int|
                            0 <= w < self.connecting_view().len() && self.connecting_view()[w]
                                == spec_key_view(*key);
                        if w < i {
                            assert(oldc[w] == spec_key_view(*key));
                            assert(oldc[i as int] == spec_key_view(*key));
                            assert(false);
                        } else {
                            assert(oldc[w + 1] == spec_key_view(*key));
                            assert(oldc[i as int] == spec_key_view(*key));
                            assert(false);
                        }
                    }
                }
            },
            None => {
                proof {
                    assert(self.idle_view() =~= old(self).idle_view());
                    if self.connecting_view().contains(spec_key_view(*key)) {
                        let w = choose|w: int|
                            0 <= w < self.connecting_view().len() && self.connecting_view()[w]
                                == spec_key_view(*key);
                        assert(spec_key_view(self.connecting@[w]) == spec_key_view(*key));
                        assert(false);
                    }
                }
            },
        }
    }
}


/// The first index of `m` keyed by `k`, if any.
pub open spec fn spec_find_idle<T>(
    m: Seq<((Seq<char>, Ver), Seq<(T, u64)>)>,
    k: (Seq<char>, Ver),
) -> Option<int>
    decreases m.len(),
{
    if m.len() == 0 {
        None
    } else if m[0].0 == k {
        Some(0)
    } else {
        match spec_find_idle(m.drop_first(), k) {
            Some(i) => Some(i + 1),
            None => None,
        }
    }
}

/// What inserting an idle value does to the idle lists: nothing when the
/// pool is off, the value is closed, or a multiplexed key already has an
/// entry; otherwise the value joins the end of its key's list.
pub open spec fn spec_put<T: Poolable>(
    m: Seq<((Seq<char>, Ver), Seq<(T, u64)>)>,
    k: (Seq<char>, Ver),
    v: T,
    now: u64,
    enabled: bool,
) -> Seq<((Seq<char>, Ver), Seq<(T, u64)>)> {
    if !enabled || v.spec_closed() {
        m
    } else if k.1 == Ver::Http2 && spec_find_idle(m, k) is Some {
        m
    } else {
        match spec_find_idle(m, k) {
            Some(i) => m.update(i, (k, m[i].1.push((v, now)))),
            None => m.push((k, seq![(v, now)])),
        }
    }
}

/// Whether an idle entry may still be handed out at `now`.
pub open spec fn spec_usable<T: Poolable>(e: (T, u64), timeout: Option<u64>, now: u64) -> bool {
    !e.0.spec_closed() && !spec_expired(e.1, timeout, now)
}

/// The idle lists after a successful take from the key at index `i`: its
/// list is cut down to `tail`, and the key leaves the map when nothing of
/// its list remains.
pub open spec fn spec_take_result<T: Poolable>(
    m: Seq<((Seq<char>, Ver), Seq<(T, u64)>)>,
    i: int,
    tail: Seq<(T, u64)>,
) -> Seq<((Seq<char>, Ver), Seq<(T, u64)>)> {
    if tail.len() == 0 {
        m.remove(i)
    } else {
        m.update(i, (m[i].0, tail))
    }
}

/// Finds a key in the idle lists.
fn find_idle<T: Poolable>(
    list: &Vec<((String, Ver), Vec<Idle<T>>)>,
    key: &(String, Ver),
) -> (r: Option<usize>)
    ensures
        ({
            let m = list@.map_values(
                |e: ((String, Ver), Vec<Idle<T>>)|
                    (spec_key_view(e.0), e.1@.map_values(|i: Idle<T>| (i.value, i.idle_at))),
            );
            match r {
                Some(i) => i < m.len() && spec_find_idle(m, spec_key_view(*key)) == Some(i as int),
                None => spec_find_idle(m, spec_key_view(*key)) is None,
            }
        }),
{
    let ghost m = list@.map_values(
        |e: ((String, Ver), Vec<Idle<T>>)|
            (spec_key_view(e.0), e.1@.map_values(|i: Idle<T>| (i.value, i.idle_at))),
    );
    let mut i: usize = 0;
    proof {
        assert(m.subrange(0, m.len() as int) =~= m);
    }
    while i < list.len()
        invariant
            m == list@.map_values(
                |e: ((String, Ver), Vec<Idle<T>>)|
                    (spec_key_view(e.0), e.1@.map_values(|i: Idle<T>| (i.value, i.idle_at))),
            ),
            0 <= i <= list@.len(),
            m.len() == list@.len(),
            spec_find_idle(m, spec_key_view(*key)) == (match spec_find_idle(
                m.subrange(i as int, m.len() as int),
                spec_key_view(*key),
            ) {
                Some(k) => Some(k + i),
                None => None::<int>,
            }),
        decreases list@.len() - i,
    {
        proof {
            let tail = m.subrange(i as int, m.len() as int);
            assert(tail[0] == m[i as int]);
            assert(tail.drop_first() =~= m.subrange(i as int + 1, m.len() as int));
        }
        let same_host = list[i].0.0 == key.0;
        let same_ver = match (list[i].0.1, key.1) {
            (Ver::Http1, Ver::Http1) => true,
            (Ver::Http2, Ver::Http2) => true,
            _ => false,
        };
        if same_host && same_ver {
            return Some(i);
        }
        i = i + 1;
    }
    proof {
        assert(m.subrange(i as int, m.len() as int) =~= Seq::<
            ((Seq<char>, Ver), Seq<(T, u64)>),
        >::empty());
    }
    None
}

impl<T: Poolable> Pool<T> {
    /// Returns an idle value to the pool under `key` at time `now`. A closed
    /// value, a disabled pool, or a multiplexed key that already has an
    /// idle entry make this a no-op.
    pub fn put(&mut self, key: Key, value: T, now: u64)
        requires
            old(self).wf(),
        ensures
            final(self).wf(),
            final(self).connecting_view() == old(self).connecting_view(),
            final(self).spec_enabled() == old(self).spec_enabled(),
            final(self).spec_timeout() == old(self).spec_timeout(),
            final(self).idle_view() == spec_put(
                old(self).idle_view(),
                spec_key_view(key),
                value,
                now,
                old(self).spec_enabled(),
            ),
    {
        proof {
            assert(self.connecting_view() =~= old(self).connecting_view());
        }
        if !self.enabled {
            proof {
                assert(self.idle_view() =~= old(self).idle_view());
            }
            return ;
        }
        if value.is_closed() {
            proof {
                assert(self.idle_view() =~= old(self).idle_view());
            }
            return ;
        }
        let is_h2 = match key.1 {
            Ver::Http2 => true,
            Ver::Http1 => false,
        };
        let found = find_idle(&self.idle, &key);
        match found {
            Some(i) => {
                if is_h2 {
                    proof {
                        assert(self.idle_view() =~= old(self).idle_view());
                    }
                    return ;
                }
                let ghost oldm = self.idle_view();
                proof {
                    lemma_find_idle_some_bounds(oldm, spec_key_view(key));
                }
                let mut entry = self.idle.remove(i);
                entry.1.push(Idle { idle_at: now, value });
                self.idle.insert(i, entry);
                proof {
                    assert(self.idle_view() =~~= oldm.update(
                        i as int,
                        (oldm[i as int].0, oldm[i as int].1.push((value, now))),
                    ));
                    assert forall|a: int, b: int|
                        0 <= a < b < self.idle_view().len() implies (
                    #[trigger] self.idle_view()[a]).0 != (#[trigger] self.idle_view()[b]).0 by {
                        assert(self.idle_view()[a].0 == oldm[a].0);
                        assert(self.idle_view()[b].0 == oldm[b].0);
                    }
                }
            },
            None => {
                let ghost oldm = self.idle_view();
                let mut lst: Vec<Idle<T>> = Vec::new();
                lst.push(Idle { idle_at: now, value });
                self.idle.push((key, lst));
                proof {
                    assert(self.idle_view() =~~= oldm.push(
                        (spec_key_view(self.idle@.last().0), seq![(value, now)]),
                    ));
                    assert(spec_key_view(self.idle@.last().0) == spec_key_view(key));
                    assert(self.idle_view() =~~= oldm.push((spec_key_view(key), seq![(value, now)])));
                    lemma_find_idle_none_absent(oldm, spec_key_view(key));
                    assert forall|a: int, b: int|
                        0 <= a < b < self.idle_view().len() implies (
                    #[trigger] self.idle_view()[a]).0 != (#[trigger] self.idle_view()[b]).0 by {
                        if b == oldm.len() {
                            assert(self.idle_view()[a].0 == oldm[a].0);
                        } else {
                            assert(self.idle_view()[a].0 == oldm[a].0);
                            assert(self.idle_view()[b].0 == oldm[b].0);
                        }
                    }
                }
            },
        }
    }

    /// Takes an idle value for `key` at time `now`, newest first, discarding
    /// closed and expired entries on the way. Returns a usable value exactly
    /// when some entry of the key's list is still usable; on success the
    /// key's list is cut down to what preceded the taken entry (plus the
    /// keeper half of a shared reservation, stamped `now`). A uniquely
    /// reserved value comes back exactly as it was put in: putting a usable
    /// value and taking it right back is the identity on the value, and
    /// removes its idle entry.
    #[verifier::rlimit(100)]
    pub fn take(&mut self, key: &Key, now: u64) -> (r: Option<Pooled<T>>)
        requires
            old(self).wf(),
        ensures
            final(self).wf(),
            final(self).connecting_view() == old(self).connecting_view(),
            final(self).spec_enabled() == old(self).spec_enabled(),
            final(self).spec_timeout() == old(self).spec_timeout(),
            match spec_find_idle(old(self).idle_view(), spec_key_view(*key)) {
                None => r is None && final(self).idle_view() == old(self).idle_view(),
                Some(i) => {
                    let lst = old(self).idle_view()[i].1;
                    &&& ((exists|j: int|
                        0 <= j < lst.len() && spec_usable(
                            #[trigger] lst[j],
                            old(self).spec_timeout(),
                            now,
                        )) <==> r is Some)
                    &&& (r matches Some(p) ==> !p.value.spec_closed() && p.is_reused
                        && spec_key_view(p.key) == spec_key_view(*key) && (exists|j: int|
                        {
                            &&& 0 <= j < lst.len()
                            &&& spec_usable(#[trigger] lst[j], old(self).spec_timeout(), now)
                            &&& (forall|k: int|
                                j < k < lst.len() ==> !spec_usable(
                                    #[trigger] lst[k],
                                    old(self).spec_timeout(),
                                    now,
                                ))
                            &&& (!lst[j].0.spec_shares() ==> p.value == lst[j].0
                                && final(self).idle_view() == spec_take_result(
                                old(self).idle_view(),
                                i,
                                lst.take(j),
                            ))
                            &&& (final(self).idle_view() == spec_take_result(
                                old(self).idle_view(),
                                i,
                                lst.take(j),
                            ) || (exists|kv: T|
                                !kv.spec_closed() && final(self).idle_view() == spec_take_result(
                                    old(self).idle_view(),
                                    i,
                                    lst.take(j).push((kv, now)),
                                )))
                        }))
                    &&& (lst.len() > 0 && spec_usable(lst.last(), old(self).spec_timeout(), now)
                        && !lst.last().0.spec_shares() ==> (r matches Some(p) && p.value
                        == lst.last().0))
                    &&& (r is None ==> final(self).idle_view() == old(self).idle_view().remove(i))
                },
            },
    {
        proof {
            assert(self.connecting_view() =~= old(self).connecting_view());
        }
        let i = match find_idle(&self.idle, key) {
            Some(i) => i,
            None => {
                proof {
                    assert(self.idle_view() =~= old(self).idle_view());
                }
                return None;
            },
        };
        let ghost oldm = self.idle_view();
        let ghost lst0 = oldm[i as int].1;
        proof {
            lemma_find_idle_some_bounds(oldm, spec_key_view(*key));
        }
        let mut entry = self.idle.remove(i);
        proof {
            assert(entry.1@.map_values(|it: Idle<T>| (it.value, it.idle_at)) =~~= lst0);
            assert(self.idle_view() =~~= oldm.remove(i as int));
        }
        let got = idle_pop(&mut entry.1, self.timeout, now);
        let ghost l1 = entry.1@.map_values(|it: Idle<T>| (it.value, it.idle_at));
        let keep_entry = entry.1.len() > 0;
        let ghost removed_view = self.idle_view();
        if keep_entry {
            proof {
                assert(self.idle_view().len() == oldm.len() - 1);
                assert(self.idle_view().len() == self.idle@.len());
            }
            self.idle.insert(i, entry);
            proof {
                assert(self.idle_view() =~~= removed_view.insert(
                    i as int,
                    (
                        spec_key_view(entry.0),
                        entry.1@.map_values(|x: Idle<T>| (x.value, x.idle_at)),
                    ),
                ));
                assert(self.idle_view().len() == oldm.len());
                assert forall|a: int|
                    0 <= a < oldm.len() implies (#[trigger] self.idle_view()[a]).0 == oldm[a].0 by {
                    if a < i {
                        assert(self.idle_view()[a] == removed_view[a]);
                        assert(removed_view[a] == oldm[a]);
                    } else if a == i {
                    } else {
                        assert(self.idle_view()[a] == removed_view[a - 1]);
                        assert(removed_view[a - 1] == oldm[a]);
                    }
                }
            }
        }
        proof {
            self.lemma_take_wf(oldm, i as int, keep_entry);
            if keep_entry {
                assert(spec_key_view(entry.0) == oldm[i as int].0);
                assert(self.idle_view() =~~= oldm.update(i as int, (oldm[i as int].0, l1)));
            } else {
                assert(l1.len() == 0);
                assert(self.idle_view() == oldm.remove(i as int));
            }
        }
        match got {
            Some(v) => {
                proof {
                    let tmo = old(self).spec_timeout();
                    let j = choose|j: int|
                        {
                            &&& 0 <= j < lst0.len()
                            &&& spec_usable(#[trigger] lst0[j], tmo, now)
                            &&& (forall|k: int|
                                j < k < lst0.len() ==> !spec_usable(#[trigger] lst0[k], tmo, now))
                            &&& (!lst0[j].0.spec_shares() ==> v == lst0[j].0 && l1 == lst0.take(j))
                            &&& (l1 == lst0.take(j) || (exists|kv: T|
                                !kv.spec_closed() && l1 == lst0.take(j).push((kv, now))))
                        };
                    if l1 == lst0.take(j) {
                        assert(l1.len() == j);
                        assert(self.idle_view() == spec_take_result(oldm, i as int, lst0.take(j)));
                    } else {
                        let kv = choose|kv: T|
                            !kv.spec_closed() && l1 == lst0.take(j).push((kv, now));
                        assert(l1.len() == j + 1);
                        assert(self.idle_view() == spec_take_result(
                            oldm,
                            i as int,
                            lst0.take(j).push((kv, now)),
                        ));
                    }
                }
                Some(Pooled { value: v, is_reused: true, key: (key.0.clone(), key.1) })
            },
            None => None,
        }
    }

    /// The idle lists with the entry at `at` removed stay well-formed (used
    /// while that entry is held out during a take).
    pub open spec fn wf_removed(
        &self,
        oldm: Seq<((Seq<char>, Ver), Seq<(T, u64)>)>,
        at: int,
    ) -> bool {
        &&& 0 <= at < oldm.len()
        &&& self.idle_view() == oldm.remove(at)
        &&& forall|a: int, b: int|
            0 <= a < b < oldm.len() ==> (#[trigger] oldm[a]).0 != (#[trigger] oldm[b]).0
    }

    /// Re-inserting (or dropping) the held-out entry restores
    /// well-formedness of the whole pool.
    proof fn lemma_take_wf(
        &self,
        oldm: Seq<((Seq<char>, Ver), Seq<(T, u64)>)>,
        at: int,
        reinserted: bool,
    )
        requires
            forall|a: int, b: int|
                0 <= a < b < self.connecting_view().len() ==> #[trigger] self.connecting_view()[a]
                    != #[trigger] self.connecting_view()[b],
            0 <= at < oldm.len(),
            forall|a: int, b: int|
                0 <= a < b < oldm.len() ==> (#[trigger] oldm[a]).0 != (#[trigger] oldm[b]).0,
            if reinserted {
                self.idle_view().len() == oldm.len() && (forall|a: int|
                    0 <= a < oldm.len() ==> (#[trigger] self.idle_view()[a]).0 == oldm[a].0)
            } else {
                self.idle_view() == oldm.remove(at)
            },
        ensures
            self.wf(),
    {
        if reinserted {
            assert forall|a: int, b: int|
                0 <= a < b < self.idle_view().len() implies (#[trigger] self.idle_view()[a]).0 != (
            #[trigger] self.idle_view()[b]).0 by {
                assert(self.idle_view()[a].0 == oldm[a].0);
                assert(self.idle_view()[b].0 == oldm[b].0);
            }
        } else {
            assert forall|a: int, b: int|
                0 <= a < b < self.idle_view().len() implies (#[trigger] self.idle_view()[a]).0 != (
            #[trigger] self.idle_view()[b]).0 by {
                let aa = if a < at {
                    a
                } else {
                    a + 1
                };
                let bb = if b < at {
                    b
                } else {
                    b + 1
                };
                assert(self.idle_view()[a].0 == oldm[aa].0);
                assert(self.idle_view()[b].0 == oldm[bb].0);
            }
        }
    }
}

/// An optional idle deadline.
pub struct Expiration(pub Option<u64>);

impl Expiration {
    /// Wraps an optional deadline duration.
    pub fn new(dur: Option<u64>) -> (r: Expiration)
        ensures
            r.0 == dur,
    {
        Expiration(dur)
    }

    /// Whether a value idle since `idle_at` has expired at `now`.
    pub fn expires(&self, idle_at: u64, now: u64) -> (r: bool)
        ensures
            r == spec_expired(idle_at, self.0, now),
    {
        match self.0 {
            Some(dur) => now > dur && idle_at < now - dur,
            None => false,
        }
    }
}

/// Pops entries off the end of an idle list until one is still usable at
/// `now`; closed and expired entries are dropped. On success the list is cut
/// down to what preceded the popped entry; a shared reservation puts its
/// keeper half back on the end, stamped `now`.
fn idle_pop<T: Poolable>(list: &mut Vec<Idle<T>>, timeout: Option<u64>, now: u64) -> (r: Option<
    T,
>)
    ensures
        ({
            let l0 = old(list)@.map_values(|it: Idle<T>| (it.value, it.idle_at));
            let l1 = final(list)@.map_values(|it: Idle<T>| (it.value, it.idle_at));
            &&& ((exists|j: int|
                0 <= j < l0.len() && spec_usable(#[trigger] l0[j], timeout, now)) <==> r is Some)
            &&& (r matches Some(v) ==> !v.spec_closed() && (exists|j: int|
                {
                    &&& 0 <= j < l0.len()
                    &&& spec_usable(#[trigger] l0[j], timeout, now)
                    &&& (forall|k: int| j < k < l0.len() ==> !spec_usable(#[trigger] l0[k], timeout, now))
                    &&& (!l0[j].0.spec_shares() ==> v == l0[j].0 && l1 == l0.take(j))
                    &&& (l1 == l0.take(j) || (exists|kv: T|
                        !kv.spec_closed() && l1 == l0.take(j).push((kv, now))))
                }))
            &&& (l0.len() > 0 && spec_usable(l0.last(), timeout, now) && !l0.last().0.spec_shares()
                ==> (r matches Some(v) && v == l0.last().0))
            &&& (r is None ==> final(list)@.len() == 0)
        }),
{
    let ghost l0 = list@.map_values(|it: Idle<T>| (it.value, it.idle_at));
    let exp = Expiration::new(timeout);
    proof {
        assert(l0.take(list@.len() as int) =~~= l0);
    }
    loop
        invariant
            l0 == old(list)@.map_values(|it: Idle<T>| (it.value, it.idle_at)),
            list@.map_values(|it: Idle<T>| (it.value, it.idle_at)) == l0.take(list@.len() as int),
            list@.len() <= l0.len(),
            exp.0 == timeout,
            forall|j: int|
                list@.len() <= j < l0.len() ==> !spec_usable(#[trigger] l0[j], timeout, now),
        decreases list@.len(),
    {
        let ghost pre = list@;
        let popped = list.pop();
        let it = match popped {
            Some(it) => it,
            None => {
                proof {
                    if exists|j: int|
                        0 <= j < l0.len() && spec_usable(#[trigger] l0[j], timeout, now) {
                        let w = choose|w: int|
                            0 <= w < l0.len() && spec_usable(#[trigger] l0[w], timeout, now);
                        assert(!spec_usable(l0[w], timeout, now));
                    }
                }
                return None;
            },
        };
        let ghost at = list@.len() as int;
        proof {
            assert(pre.last() == it);
            assert(pre.map_values(|x: Idle<T>| (x.value, x.idle_at))[at] == (it.value, it.idle_at));
            assert(pre.map_values(|x: Idle<T>| (x.value, x.idle_at)) == l0.take(at + 1));
            assert(l0.take(at + 1)[at] == l0[at]);
            assert(l0[at] == (it.value, it.idle_at));
            assert(list@.map_values(|x: Idle<T>| (x.value, x.idle_at)) =~~= l0.take(at));
        }
        if it.value.is_closed() || exp.expires(it.idle_at, now) {
            proof {
                assert(!spec_usable(l0[at], timeout, now));
            }
            continue ;
        }
        proof {
            assert(spec_usable(l0[at], timeout, now));
            assert(exists|j: int|
                0 <= j < l0.len() && spec_usable(#[trigger] l0[j], timeout, now));
        }
        match it.value.reserve() {
            Reservation::Unique(v) => {
                proof {
                    assert(spec_usable(l0[at], timeout, now) && (forall|k: int|
                        at < k < l0.len() ==> !spec_usable(#[trigger] l0[k], timeout, now)) && (
                    !l0[at].0.spec_shares() ==> v == l0[at].0));
                    assert(list@.map_values(|x: Idle<T>| (x.value, x.idle_at)) =~~= l0.take(at));
                    if l0.len() > 0 && spec_usable(l0.last(), timeout, now)
                        && !l0.last().0.spec_shares() {
                        if at < l0.len() - 1 {
                            assert(!spec_usable(l0[l0.len() - 1], timeout, now));
                        }
                    }
                }
                return Some(v);
            },
            Reservation::Shared(keep, give) => {
                let ghost keepv = keep;
                list.push(Idle { idle_at: now, value: keep });
                proof {
                    assert(spec_usable(l0[at], timeout, now) && (forall|k: int|
                        at < k < l0.len() ==> !spec_usable(#[trigger] l0[k], timeout, now)) && (
                    !l0[at].0.spec_shares() ==> give == l0[at].0 || true));
                    assert(!keepv.spec_closed());
                    assert(list@.map_values(|x: Idle<T>| (x.value, x.idle_at)) =~~= l0.take(
                        at,
                    ).push((keepv, now)));
                    if l0.len() > 0 && spec_usable(l0.last(), timeout, now)
                        && !l0.last().0.spec_shares() {
                        if at < l0.len() - 1 {
                            assert(!spec_usable(l0[l0.len() - 1], timeout, now));
                        }
                        assert(false);
                    }
                }
                return Some(give);
            },
        }
    }
}

/// A found idle key labels its entry.
pub proof fn lemma_find_idle_some_bounds<T>(
    m: Seq<((Seq<char>, Ver), Seq<(T, u64)>)>,
    k: (Seq<char>, Ver),
)
    requires
        spec_find_idle(m, k) is Some,
    ensures
        0 <= spec_find_idle(m, k).unwrap() < m.len(),
        m[spec_find_idle(m, k).unwrap()].0 == k,
    decreases m.len(),
{
    if m.len() > 0 && m[0].0 != k {
        lemma_find_idle_some_bounds(m.drop_first(), k);
        let j = spec_find_idle(m.drop_first(), k).unwrap();
        assert(m.drop_first()[j] == m[j + 1]);
    }
}

/// A missed idle lookup means the key labels no entry.
pub proof fn lemma_find_idle_none_absent<T>(
    m: Seq<((Seq<char>, Ver), Seq<(T, u64)>)>,
    k: (Seq<char>, Ver),
)
    requires
        spec_find_idle(m, k) is None,
    ensures
        forall|i: int| 0 <= i < m.len() ==> (#[trigger] m[i]).0 != k,
    decreases m.len(),
{
    if m.len() > 0 {
        lemma_find_idle_none_absent(m.drop_first(), k);
        assert forall|i: int| 0 <= i < m.len() implies (#[trigger] m[i]).0 != k by {
            if i > 0 {
                assert(m.drop_first()[i - 1] == m[i]);
            }
        }
    }
}

/// The idle list with closed and expired entries removed, order kept.
pub open spec fn spec_keep_list<T: Poolable>(
    l: Seq<(T, u64)>,
    timeout: Option<u64>,
    now: u64,
) -> Seq<(T, u64)>
    decreases l.len(),
{
    if l.len() == 0 {
        Seq::empty()
    } else if spec_usable(l[0], timeout, now) {
        seq![l[0]] + spec_keep_list(l.drop_first(), timeout, now)
    } else {
        spec_keep_list(l.drop_first(), timeout, now)
    }
}

/// The idle lists with every closed or expired entry removed, and keys whose
/// lists empty out removed with them.
pub open spec fn spec_clear<T: Poolable>(
    m: Seq<((Seq<char>, Ver), Seq<(T, u64)>)>,
    timeout: Option<u64>,
    now: u64,
) -> Seq<((Seq<char>, Ver), Seq<(T, u64)>)>
    decreases m.len(),
{
    if m.len() == 0 {
        Seq::empty()
    } else {
        let kept = spec_keep_list(m[0].1, timeout, now);
        if kept.len() == 0 {
            spec_clear(m.drop_first(), timeout, now)
        } else {
            seq![(m[0].0, kept)] + spec_clear(m.drop_first(), timeout, now)
        }
    }
}

/// Everything the sweep keeps is usable.
pub proof fn lemma_keep_list_usable<T: Poolable>(l: Seq<(T, u64)>, timeout: Option<u64>, now: u64)
    ensures
        forall|j: int|
            0 <= j < spec_keep_list(l, timeout, now).len() ==> spec_usable(
                #[trigger] spec_keep_list(l, timeout, now)[j],
                timeout,
                now,
            ),
    decreases l.len(),
{
    if l.len() > 0 {
        lemma_keep_list_usable(l.drop_first(), timeout, now);
        let k = spec_keep_list(l, timeout, now);
        let krest = spec_keep_list(l.drop_first(), timeout, now);
        assert forall|j: int| 0 <= j < k.len() implies spec_usable(
            #[trigger] k[j],
            timeout,
            now,
        ) by {
            if spec_usable(l[0], timeout, now) {
                if j > 0 {
                    assert(k[j] == krest[j - 1]);
                }
            } else {
                assert(k[j] == krest[j]);
            }
        }
    }
}

/// After the sweep, every remaining entry of every key is usable: nothing
/// closed, nothing past its idle deadline.
pub proof fn lemma_clear_usable<T: Poolable>(
    m: Seq<((Seq<char>, Ver), Seq<(T, u64)>)>,
    timeout: Option<u64>,
    now: u64,
)
    ensures
        forall|a: int, j: int|
            0 <= a < spec_clear(m, timeout, now).len() && 0 <= j < (#[trigger] spec_clear(
                m,
                timeout,
                now,
            )[a]).1.len() ==> spec_usable(
                #[trigger] spec_clear(m, timeout, now)[a].1[j],
                timeout,
                now,
            ),
    decreases m.len(),
{
    if m.len() > 0 {
        lemma_clear_usable(m.drop_first(), timeout, now);
        lemma_keep_list_usable(m[0].1, timeout, now);
        let c = spec_clear(m, timeout, now);
        let crest = spec_clear(m.drop_first(), timeout, now);
        let kept = spec_keep_list(m[0].1, timeout, now);
        assert forall|a: int, j: int|
            0 <= a < c.len() && 0 <= j < (#[trigger] c[a]).1.len() implies spec_usable(
            #[trigger] c[a].1[j],
            timeout,
            now,
        ) by {
            if kept.len() == 0 {
                assert(c[a] == crest[a]);
            } else {
                if a == 0 {
                    assert(c[0].1 == kept);
                } else {
                    assert(c[a] == crest[a - 1]);
                }
            }
        }
    }
}

/// Drops closed and expired entries from one idle list, keeping order.
fn keep_list<T: Poolable>(l: Vec<Idle<T>>, timeout: Option<u64>, now: u64) -> (r: Vec<Idle<T>>)
    ensures
        r@.map_values(|it: Idle<T>| (it.value, it.idle_at)) == spec_keep_list(
            l@.map_values(|it: Idle<T>| (it.value, it.idle_at)),
            timeout,
            now,
        ),
    decreases l@.len(),
{
    let ghost l0 = l@.map_values(|it: Idle<T>| (it.value, it.idle_at));
    let mut l = l;
    if l.len() == 0 {
        proof {
            assert(l@.map_values(|it: Idle<T>| (it.value, it.idle_at)) =~= Seq::<(T, u64)>::empty());
        }
        return l;
    }
    let first = l.remove(0);
    proof {
        assert(l@.map_values(|it: Idle<T>| (it.value, it.idle_at)) =~~= l0.drop_first());
        assert(l0[0] == (first.value, first.idle_at));
    }
    let mut rest = keep_list(l, timeout, now);
    let exp = Expiration::new(timeout);
    let usable = !first.value.is_closed() && !exp.expires(first.idle_at, now);
    if usable {
        let ghost pre = rest@.map_values(|it: Idle<T>| (it.value, it.idle_at));
        rest.insert(0, first);
        proof {
            assert(rest@.map_values(|it: Idle<T>| (it.value, it.idle_at)) =~~= seq![l0[0]] + pre);
        }
    }
    rest
}

impl<T: Poolable> Pool<T> {
    /// Sweeps the idle lists at time `now`: every closed or expired entry is
    /// dropped, and keys left with nothing are forgotten. Afterwards every
    /// remaining entry is usable.
    pub fn clear_expired(&mut self, now: u64)
        requires
            old(self).wf(),
        ensures
            final(self).wf(),
            final(self).connecting_view() == old(self).connecting_view(),
            final(self).spec_enabled() == old(self).spec_enabled(),
            final(self).spec_timeout() == old(self).spec_timeout(),
            final(self).idle_view() == spec_clear(
                old(self).idle_view(),
                old(self).spec_timeout(),
                now,
            ),
    {
        proof {
            assert(self.connecting_view() =~= old(self).connecting_view());
        }
        let timeout = self.timeout;
        let mut kept: Vec<((String, Ver), Vec<Idle<T>>)> = Vec::new();
        let ghost oldm = old(self).idle_view();
        let ghost mut seen: int = 0;
        proof {
            assert(self.idle@.map_values(
                |e: ((String, Ver), Vec<Idle<T>>)|
                    (spec_key_view(e.0), e.1@.map_values(|i: Idle<T>| (i.value, i.idle_at))),
            ) =~~= oldm);
            assert(oldm.skip(0) =~= oldm);
            assert(kept@.map_values(
                |e: ((String, Ver), Vec<Idle<T>>)|
                    (spec_key_view(e.0), e.1@.map_values(|i: Idle<T>| (i.value, i.idle_at))),
            ) =~= Seq::<((Seq<char>, Ver), Seq<(T, u64)>)>::empty());
            assert(Seq::<((Seq<char>, Ver), Seq<(T, u64)>)>::empty() + spec_clear(
                oldm,
                timeout,
                now,
            ) =~= spec_clear(oldm, timeout, now));
        }
        loop
            invariant
                oldm == old(self).idle_view(),
                self.spec_timeout() == old(self).spec_timeout(),
                timeout == old(self).spec_timeout(),
                self.spec_enabled() == old(self).spec_enabled(),
                self.connecting_view() == old(self).connecting_view(),
                0 <= seen <= oldm.len(),
                self.idle@.map_values(
                    |e: ((String, Ver), Vec<Idle<T>>)|
                        (spec_key_view(e.0), e.1@.map_values(|i: Idle<T>| (i.value, i.idle_at))),
                ) == oldm.skip(seen),
                kept@.map_values(
                    |e: ((String, Ver), Vec<Idle<T>>)|
                        (spec_key_view(e.0), e.1@.map_values(|i: Idle<T>| (i.value, i.idle_at))),
                ) + spec_clear(oldm.skip(seen), timeout, now) == spec_clear(oldm, timeout, now),
            ensures
                kept@.map_values(
                    |e: ((String, Ver), Vec<Idle<T>>)|
                        (spec_key_view(e.0), e.1@.map_values(|i: Idle<T>| (i.value, i.idle_at))),
                ) == spec_clear(oldm, timeout, now),
            decreases oldm.len() - seen,
        {
            let ghost kv = kept@.map_values(
                |e: ((String, Ver), Vec<Idle<T>>)|
                    (spec_key_view(e.0), e.1@.map_values(|i: Idle<T>| (i.value, i.idle_at))),
            );
            if self.idle.len() == 0 {
                proof {
                    assert(oldm.skip(seen) =~= Seq::<((Seq<char>, Ver), Seq<(T, u64)>)>::empty());
                    assert(kv + Seq::<((Seq<char>, Ver), Seq<(T, u64)>)>::empty() =~= kv);
                }
                break ;
            }
            let (k, lst) = self.idle.remove(0);
            proof {
                assert(oldm.skip(seen)[0] == (spec_key_view(k), lst@.map_values(
                    |i: Idle<T>| (i.value, i.idle_at),
                )));
                assert(self.idle@.map_values(
                    |e: ((String, Ver), Vec<Idle<T>>)|
                        (spec_key_view(e.0), e.1@.map_values(|i: Idle<T>| (i.value, i.idle_at))),
                ) =~~= oldm.skip(seen).drop_first());
                assert(oldm.skip(seen).drop_first() =~= oldm.skip(seen + 1));
            }
            let cleaned = keep_list(lst, timeout, now);
            if cleaned.len() > 0 {
                let ghost pre = kept@.map_values(
                    |e: ((String, Ver), Vec<Idle<T>>)|
                        (spec_key_view(e.0), e.1@.map_values(|i: Idle<T>| (i.value, i.idle_at))),
                );
                kept.push((k, cleaned));
                proof {
                    assert(kept@.map_values(
                        |e: ((String, Ver), Vec<Idle<T>>)|
                            (
                                spec_key_view(e.0),
                                e.1@.map_values(|i: Idle<T>| (i.value, i.idle_at)),
                            ),
                    ) =~~= pre + seq![
                        (
                            oldm.skip(seen)[0].0,
                            spec_keep_list(oldm.skip(seen)[0].1, timeout, now),
                        ),
                    ]);
                    assert((pre + seq![
                        (
                            oldm.skip(seen)[0].0,
                            spec_keep_list(oldm.skip(seen)[0].1, timeout, now),
                        ),
                    ]) + spec_clear(oldm.skip(seen + 1), timeout, now) =~= pre + (seq![
                        (
                            oldm.skip(seen)[0].0,
                            spec_keep_list(oldm.skip(seen)[0].1, timeout, now),
                        ),
                    ] + spec_clear(oldm.skip(seen + 1), timeout, now)));
                }
            } else {
                proof {
                    assert(spec_keep_list(oldm.skip(seen)[0].1, timeout, now).len() == 0);
                }
            }
            proof {
                seen = seen + 1;
            }
        }
        self.idle = kept;
        proof {
            lemma_clear_wf(oldm, old(self).spec_timeout(), now);
            assert(self.connecting_view() =~= old(self).connecting_view());
        }
    }
}

/// The sweep keeps keys unique: its result's keys are a subsequence of the
/// input's.
pub proof fn lemma_clear_wf<T: Poolable>(
    m: Seq<((Seq<char>, Ver), Seq<(T, u64)>)>,
    timeout: Option<u64>,
    now: u64,
)
    requires
        forall|a: int, b: int|
            0 <= a < b < m.len() ==> (#[trigger] m[a]).0 != (#[trigger] m[b]).0,
    ensures
        forall|a: int, b: int|
            0 <= a < b < spec_clear(m, timeout, now).len() ==> (#[trigger] spec_clear(
                m,
                timeout,
                now,
            )[a]).0 != (#[trigger] spec_clear(m, timeout, now)[b]).0,
        forall|a: int|
            0 <= a < spec_clear(m, timeout, now).len() ==> (exists|b: int|
                0 <= b < m.len() && (#[trigger] spec_clear(m, timeout, now)[a]).0 == (
                #[trigger] m[b]).0),
    decreases m.len(),
{
    if m.len() > 0 {
        assert(forall|i: int|
            0 <= i < m.drop_first().len() ==> #[trigger] m.drop_first()[i] == m[i + 1]);
        lemma_clear_wf(m.drop_first(), timeout, now);
        let c = spec_clear(m, timeout, now);
        let crest = spec_clear(m.drop_first(), timeout, now);
        let kept = spec_keep_list(m[0].1, timeout, now);
        assert forall|a: int|
            0 <= a < c.len() implies (exists|b: int|
            0 <= b < m.len() && (#[trigger] c[a]).0 == (#[trigger] m[b]).0) by {
            if kept.len() == 0 {
                assert(c[a] == crest[a]);
                let w = choose|w: int|
                    0 <= w < m.drop_first().len() && crest[a].0 == m.drop_first()[w].0;
                assert(c[a].0 == m[w + 1].0);
            } else {
                if a == 0 {
                    assert(c[0].0 == m[0].0);
                } else {
                    assert(c[a] == crest[a - 1]);
                    let w = choose|w: int|
                        0 <= w < m.drop_first().len() && crest[a - 1].0 == m.drop_first()[w].0;
                    assert(c[a].0 == m[w + 1].0);
                }
            }
        }
        assert forall|a: int, b: int|
            0 <= a < b < c.len() implies (#[trigger] c[a]).0 != (#[trigger] c[b]).0 by {
            if kept.len() == 0 {
                assert(c[a] == crest[a]);
                assert(c[b] == crest[b]);
            } else {
                if a == 0 {
                    assert(c[0].0 == m[0].0);
                    assert(c[b] == crest[b - 1]);
                    let w = choose|w: int|
                        0 <= w < m.drop_first().len() && crest[b - 1].0 == m.drop_first()[w].0;
                    assert(c[b].0 == m[w + 1].0);
                    assert(m[0].0 != m[w + 1].0);
                } else {
                    assert(c[a] == crest[a - 1]);
                    assert(c[b] == crest[b - 1]);
                }
            }
        }
    }
}

/// A lookup ignores value changes: updating an entry's list in place leaves
/// the found index alone.
pub proof fn lemma_find_idle_update<T>(
    m: Seq<((Seq<char>, Ver), Seq<(T, u64)>)>,
    k: (Seq<char>, Ver),
    at: int,
    l2: Seq<(T, u64)>,
)
    requires
        0 <= at < m.len(),
    ensures
        spec_find_idle(m.update(at, (m[at].0, l2)), k) == spec_find_idle(m, k),
    decreases m.len(),
{
    let m2 = m.update(at, (m[at].0, l2));
    assert(m2[0].0 == m[0].0);
    if m.len() > 0 && m[0].0 != k {
        if at == 0 {
            assert(m2.drop_first() =~= m.drop_first());
        } else {
            assert(m2.drop_first() =~= m.drop_first().update(at - 1, (m.drop_first()[at - 1].0, l2)));
            lemma_find_idle_update(m.drop_first(), k, at - 1, l2);
        }
    }
}

/// A key that was absent is found at the end after a push.
pub proof fn lemma_find_idle_push<T>(
    m: Seq<((Seq<char>, Ver), Seq<(T, u64)>)>,
    k: (Seq<char>, Ver),
    l: Seq<(T, u64)>,
)
    requires
        spec_find_idle(m, k) is None,
    ensures
        spec_find_idle(m.push((k, l)), k) == Some(m.len() as int),
    decreases m.len(),
{
    let m2 = m.push((k, l));
    if m.len() == 0 {
        assert(m2[0].0 == k);
    } else {
        assert(m2[0] == m[0]);
        assert(m2.drop_first() =~= m.drop_first().push((k, l)));
        lemma_find_idle_push(m.drop_first(), k, l);
    }
}

/// Returning a usable value to the pool and looking its key up right away
/// finds that value as the newest idle entry, not yet expired: a put
/// followed by a take hands the same value back.
pub proof fn lemma_put_then_take<T: Poolable>(
    m: Seq<((Seq<char>, Ver), Seq<(T, u64)>)>,
    k: (Seq<char>, Ver),
    v: T,
    now: u64,
    timeout: Option<u64>,
)
    requires
        !v.spec_closed(),
        k.1 == Ver::Http1 || spec_find_idle(m, k) is None,
    ensures
        ({
            let m2 = spec_put(m, k, v, now, true);
            &&& spec_find_idle(m2, k) is Some
            &&& {
                let lst = m2[spec_find_idle(m2, k).unwrap()].1;
                lst.len() > 0 && lst.last() == (v, now) && spec_usable(lst.last(), timeout, now)
            }
        }),
{
    let m2 = spec_put(m, k, v, now, true);
    match spec_find_idle(m, k) {
        Some(i) => {
            lemma_find_idle_some_bounds(m, k);
            lemma_find_idle_update(m, k, i, m[i].1.push((v, now)));
            assert(m2 == m.update(i, (m[i].0, m[i].1.push((v, now)))));
        },
        None => {
            lemma_find_idle_push(m, k, seq![(v, now)]);
        },
    }
}
} // verus!
