//! Tests of the idle-connection pool: checkout, expiry, eviction, and the
//! one-dial rule for multiplexed keys.

use hyper::client::checkout::Waiters;
use hyper::client::pool::{Pool, Poolable, Reservation, Ver};

/// Test values with unique reservations.
#[derive(Debug, PartialEq, Eq)]
struct Uniq<T>(T);

impl<T> Poolable for Uniq<T> {
    fn is_closed(&self) -> bool {
        false
    }

    fn reserve(self) -> Reservation<Self> {
        Reservation::Unique(self)
    }
}

fn key(host: &str, ver: Ver) -> (String, Ver) {
    (host.to_string(), ver)
}

#[test]
fn test_pool_checkout_smoke() {
    let mut pool: Pool<Uniq<i32>> = Pool::new(true, Some(5_000));
    let k = key("foo", Ver::Http1);
    pool.put(k.clone(), Uniq(41), 0);

    let pooled = pool.take(&k, 1).expect("present and unexpired");
    assert_eq!(pooled.value, Uniq(41));
    assert!(pooled.is_reused());
}

#[test]
fn take_removes_the_idle_entry() {
    // put then take is the identity on the value, and the entry leaves the
    // pool: a second take finds nothing
    let mut pool: Pool<Uniq<i32>> = Pool::new(true, Some(5_000));
    let k = key("foo", Ver::Http1);
    pool.put(k.clone(), Uniq(41), 0);
    let pooled = pool.take(&k, 1).expect("present and unexpired");
    assert_eq!(pooled.value, Uniq(41));
    assert!(pool.take(&k, 1).is_none());
}

#[test]
fn take_keeps_the_other_entries() {
    // taking the newest usable entry leaves the older ones in place
    let mut pool: Pool<Uniq<i32>> = Pool::new(true, Some(5_000));
    let k = key("foo", Ver::Http1);
    pool.put(k.clone(), Uniq(1), 0);
    pool.put(k.clone(), Uniq(2), 0);
    pool.put(k.clone(), Uniq(3), 0);
    assert_eq!(pool.take(&k, 1).unwrap().value, Uniq(3));
    assert_eq!(pool.take(&k, 1).unwrap().value, Uniq(2));
    assert_eq!(pool.take(&k, 1).unwrap().value, Uniq(1));
    assert!(pool.take(&k, 1).is_none());
}

#[test]
fn test_pool_checkout_returns_none_if_expired() {
    let mut pool: Pool<Uniq<i32>> = Pool::new(true, Some(100));
    let k = key("foo", Ver::Http1);
    pool.put(k.clone(), Uniq(41), 0);
    // the deadline has passed when we come back
    assert!(pool.take(&k, 150).is_none());
}

#[test]
fn test_pool_checkout_removes_expired() {
    let mut pool: Pool<Uniq<i32>> = Pool::new(true, Some(100));
    let k = key("foo", Ver::Http1);
    pool.put(k.clone(), Uniq(41), 0);
    pool.put(k.clone(), Uniq(5), 0);
    pool.put(k.clone(), Uniq(99), 0);

    // the take scans and drops the expired entries
    assert!(pool.take(&k, 150).is_none());
    // nothing remains to take even within a fresh deadline window
    assert!(pool.take(&k, 151).is_none());
}

#[test]
fn test_pool_timer_removes_expired() {
    let mut pool: Pool<Uniq<i32>> = Pool::new(true, Some(100));
    let k = key("foo", Ver::Http1);
    pool.put(k.clone(), Uniq(41), 0);
    pool.put(k.clone(), Uniq(5), 0);
    pool.put(k.clone(), Uniq(99), 0);

    // the sweep the background interval runs
    pool.clear_expired(400);
    assert!(pool.take(&k, 400).is_none());
}

#[test]
fn pooled_drop_if_closed_doesnt_reinsert() {
    #[derive(Debug)]
    struct CanClose {
        closed: bool,
    }

    impl Poolable for CanClose {
        fn is_closed(&self) -> bool {
            self.closed
        }

        fn reserve(self) -> Reservation<Self> {
            Reservation::Unique(self)
        }
    }

    let mut pool: Pool<CanClose> = Pool::new(true, Some(10_000));
    let k = key("localhost:12345", Ver::Http1);
    pool.put(k.clone(), CanClose { closed: true }, 0);

    assert!(pool.take(&k, 0).is_none());
}

#[test]
fn test_connecting_coalesced() {
    let mut pool: Pool<Uniq<i32>> = Pool::new(true, None);
    let k2 = key("origin", Ver::Http2);
    // the first dial wins; a second for the same key must wait
    assert!(pool.connecting(&k2));
    assert!(!pool.connecting(&k2));
    pool.connected(&k2);
    assert!(pool.connecting(&k2));

    // plain keys never coalesce
    let k1 = key("origin", Ver::Http1);
    assert!(pool.connecting(&k1));
    assert!(pool.connecting(&k1));
}

#[test]
fn test_put_then_take_is_identity() {
    let mut pool: Pool<Uniq<i32>> = Pool::new(true, Some(1_000));
    let k = key("bar", Ver::Http1);
    pool.put(k.clone(), Uniq(7), 10);
    let got = pool.take(&k, 10).expect("just inserted");
    assert_eq!(got.value, Uniq(7));
}

#[test]
fn test_disabled_pool_stores_nothing() {
    let mut pool: Pool<Uniq<i32>> = Pool::new(false, Some(1_000));
    let k = key("foo", Ver::Http1);
    pool.put(k.clone(), Uniq(1), 0);
    assert!(pool.take(&k, 0).is_none());
}

#[test]
fn parked_checkouts_hand_off_in_arrival_order() {
    // a value returned under a key goes to that key's oldest waiter
    let mut w = Waiters::new();
    let k = key("foo", Ver::Http1);
    w.park(k.clone(), 1);
    w.park(k.clone(), 2);
    w.park(k.clone(), 3);
    assert_eq!(w.next_waiter(&k), Some(1));
    assert_eq!(w.next_waiter(&k), Some(2));
    assert_eq!(w.next_waiter(&k), Some(3));
    assert_eq!(w.next_waiter(&k), None);
}

#[test]
fn connect_failure_cancels_the_keys_waiters() {
    // a failed dial cancels every waiter of its key and no other
    let mut w = Waiters::new();
    let k1 = key("foo", Ver::Http1);
    let k2 = key("bar", Ver::Http1);
    w.park(k1.clone(), 10);
    w.park(k1.clone(), 11);
    w.park(k2.clone(), 20);
    assert_eq!(w.cancel_key(&k1), vec![10, 11]);
    assert_eq!(w.next_waiter(&k1), None);
    assert_eq!(w.next_waiter(&k2), Some(20));
}

#[test]
fn dropped_checkout_unparks_itself() {
    // a dropped checkout leaves the queue; the others keep their order
    let mut w = Waiters::new();
    let k = key("foo", Ver::Http1);
    w.park(k.clone(), 1);
    w.park(k.clone(), 2);
    w.park(k.clone(), 3);
    w.remove_waiter(&k, 2);
    assert_eq!(w.next_waiter(&k), Some(1));
    assert_eq!(w.next_waiter(&k), Some(3));
    assert_eq!(w.next_waiter(&k), None);
}
