//! Idle connections.
use hematite::ip::IpAddr;
use hematite::pool::{retries, Pool, PoolKey};
use hematite::state::Guard;

fn open_guard() -> Guard {
    Guard::new(&Vec::new()).unwrap()
}

fn key(host: &str) -> PoolKey {
    PoolKey::new(host, 80, false)
}

const PEER: IpAddr = IpAddr::V4(0x0a00_0001);

#[test]
fn the_last_connection_comes_back_first() {
    let mut pool = Pool::new();
    pool.checkin(key("a.test"), 1, PEER, 0, &Vec::new());
    pool.checkin(key("A.test"), 2, PEER, 10, &Vec::new());
    assert_eq!(pool.checkout(&key("a.test"), 20, &open_guard()), Some((2, PEER)));
    assert_eq!(pool.checkout(&key("a.test"), 20, &open_guard()), Some((1, PEER)));
    assert_eq!(pool.checkout(&key("a.test"), 20, &open_guard()), None);
}

#[test]
fn only_idempotent_requests_are_sent_again() {
    assert!(retries(true, "GET", true));
    assert!(!retries(false, "GET", true));
    assert!(!retries(true, "POST", true));
    assert!(!retries(true, "GET", false));
}

#[test]
fn old_closed_and_surplus_connections_go() {
    let mut pool = Pool::new();
    let guard = open_guard();
    pool.checkin(key("a.test"), 1, PEER, 0, &Vec::new());
    assert_eq!(pool.checkout(&key("a.test"), 30_000, &guard), None, "too old");
    for handle in 0..9 {
        pool.checkin(key("a.test"), handle, PEER, 0, &Vec::new());
    }
    let mut seen = Vec::new();
    while let Some((handle, _)) = pool.checkout(&key("a.test"), 1, &guard) {
        seen.push(handle);
    }
    assert_eq!(seen, vec![8, 7, 6, 5, 4, 3, 2, 1], "eight for one upstream, the oldest went");
    pool.checkin(key("a.test"), 1, PEER, 0, &Vec::new());
    pool.checkin(key("b.test"), 2, PEER, 0, &vec![1]);
    assert_eq!(pool.checkout(&key("a.test"), 1, &guard), None, "known to be closed");
    assert_eq!(pool.checkout(&key("b.test"), 1, &guard), Some((2, PEER)));
}

#[test]
fn the_pool_holds_a_hundred() {
    let mut pool = Pool::new();
    for n in 0..101u64 {
        pool.checkin(key(&format!("h{n}.test")), n, PEER, 0, &Vec::new());
    }
    assert_eq!(pool.checkout(&key("h99.test"), 1, &open_guard()), Some((99, PEER)));
    assert_eq!(pool.checkout(&key("h100.test"), 1, &open_guard()), None);
}

#[test]
fn the_pool_tells_what_it_holds() {
    let mut pool = Pool::new();
    pool.checkin(key("a.test"), 4, PEER, 0, &Vec::new());
    pool.checkin(key("b.test"), 3, PEER, 0, &Vec::new());
    assert_eq!(pool.handles(), vec![4, 3]);
}
