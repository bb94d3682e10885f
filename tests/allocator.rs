use port_lease::{PortLease, TestSocketManager};

/// Runs one lease to its end, with `bound` deciding each probe.
fn lease_with(m: &mut TestSocketManager, bound: impl Fn(u16) -> bool) -> (Option<PortLease>, usize) {
    let mut search = m.begin_lease();
    let mut probes: usize = 0;
    loop {
        match m.next_probe(&mut search) {
            None => return (None, probes),
            Some(port) => {
                probes += 1;
                if let Some(lease) = m.finish_probe(port, bound(port)) {
                    return (Some(lease), probes);
                }
            }
        }
    }
}

#[test]
fn new_starts_empty_at_default_window() {
    let mut m = TestSocketManager::new();
    assert!(!m.is_reserved(8000));
    let (lease, probes) = lease_with(&mut m, |_| true);
    assert_eq!(lease.unwrap().port(), 8000);
    assert_eq!(probes, 1);
    assert!(m.is_reserved(8000));
}

#[test]
fn window_of_two_serves_two_then_exhausts() {
    let mut m = TestSocketManager::with_window(8000, 8002);
    let mut s1 = m.begin_lease();
    let mut s2 = m.begin_lease();
    let mut s3 = m.begin_lease();
    // three callers interleaved: each reserves before any probe ends
    let p1 = m.next_probe(&mut s1);
    let p2 = m.next_probe(&mut s2);
    let p3 = m.next_probe(&mut s3);
    assert_eq!(p1, Some(8000));
    assert_eq!(p2, Some(8001));
    assert_eq!(p3, None);
    let l1 = m.finish_probe(8000, true).unwrap();
    let l2 = m.finish_probe(8001, true).unwrap();
    assert_ne!(l1.port, l2.port);
    m.release(l1);
    m.release(l2);
    let (l4, _) = lease_with(&mut m, |_| true);
    assert!(l4.is_some());
}

#[test]
fn live_leases_are_distinct() {
    let mut m = TestSocketManager::with_window(9100, 9110);
    let mut ports = Vec::new();
    for _ in 0..10 {
        let (lease, _) = lease_with(&mut m, |_| true);
        ports.push(lease.unwrap().port);
    }
    let mut sorted = ports.clone();
    sorted.sort();
    sorted.dedup();
    assert_eq!(sorted.len(), 10);
    let (extra, probes) = lease_with(&mut m, |_| true);
    assert!(extra.is_none());
    assert_eq!(probes, 0);
}

#[test]
fn released_port_comes_back_when_cursor_returns() {
    let mut m = TestSocketManager::with_window(7000, 7003);
    let (a, _) = lease_with(&mut m, |_| true);
    let (b, _) = lease_with(&mut m, |_| true);
    let (c, _) = lease_with(&mut m, |_| true);
    assert_eq!(a.as_ref().unwrap().port, 7000);
    assert_eq!(b.as_ref().unwrap().port, 7001);
    assert_eq!(c.as_ref().unwrap().port, 7002);
    m.release(b.unwrap());
    assert!(!m.is_reserved(7001));
    // the cursor is back at 7000, which is still held: the sweep moves on
    let (again, probes) = lease_with(&mut m, |_| true);
    assert_eq!(again.unwrap().port, 7001);
    assert_eq!(probes, 1);
}

#[test]
fn every_port_occupied_gives_exhaustion() {
    let mut m = TestSocketManager::with_window(8000, 8005);
    let (lease, probes) = lease_with(&mut m, |_| false);
    assert!(lease.is_none());
    assert_eq!(probes, 5);
    for p in 8000..8005 {
        assert!(!m.is_reserved(p));
    }
}

#[test]
fn sweep_is_bounded_by_window_size() {
    let mut m = TestSocketManager::new();
    let (lease, probes) = lease_with(&mut m, |_| false);
    assert!(lease.is_none());
    assert_eq!(probes, 1000);
    let (lease, probes) = lease_with(&mut m, |p| p == 8500);
    assert_eq!(lease.unwrap().port, 8500);
    assert_eq!(probes, 501);
}

#[test]
fn failed_probe_skips_to_next_free_port() {
    let mut m = TestSocketManager::with_window(8000, 8010);
    let (lease, probes) = lease_with(&mut m, |p| p != 8000 && p != 8001);
    assert_eq!(lease.unwrap().port, 8002);
    assert_eq!(probes, 3);
    assert!(!m.is_reserved(8000));
    assert!(!m.is_reserved(8001));
    assert!(m.is_reserved(8002));
}

#[test]
fn cursor_wraps_at_top_of_window() {
    let mut m = TestSocketManager::with_window(100, 102);
    let (a, _) = lease_with(&mut m, |_| true);
    m.release(a.unwrap());
    let (b, _) = lease_with(&mut m, |_| true);
    m.release(b.unwrap());
    let (c, _) = lease_with(&mut m, |_| true);
    assert_eq!(c.unwrap().port, 100);
}

#[test]
fn release_is_idempotent() {
    let mut m = TestSocketManager::with_window(8000, 8003);
    let (a, _) = lease_with(&mut m, |_| true);
    let (b, _) = lease_with(&mut m, |_| true);
    let a = a.unwrap();
    let b = b.unwrap();
    m.drop_port(a.port);
    m.drop_port(a.port);
    m.drop_port(8002);
    m.drop_port(1234);
    assert!(!m.is_reserved(a.port));
    assert!(m.is_reserved(b.port));
}

#[test]
fn top_of_port_range_window() {
    let mut m = TestSocketManager::with_window(65533, 65535);
    let (a, _) = lease_with(&mut m, |_| true);
    let (b, _) = lease_with(&mut m, |_| true);
    let (c, _) = lease_with(&mut m, |_| true);
    assert_eq!(a.unwrap().port, 65533);
    assert_eq!(b.unwrap().port, 65534);
    assert!(c.is_none());
}

#[test]
fn single_port_window() {
    let mut m = TestSocketManager::with_window(5000, 5001);
    let (a, _) = lease_with(&mut m, |_| true);
    let a = a.unwrap();
    assert_eq!(a.port(), 5000);
    let (b, probes) = lease_with(&mut m, |_| true);
    assert!(b.is_none());
    assert_eq!(probes, 0);
    m.release(a);
    let (c, _) = lease_with(&mut m, |_| true);
    assert_eq!(c.unwrap().port, 5000);
}
