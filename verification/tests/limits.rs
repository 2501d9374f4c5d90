use nettamer::models::{Direction, Policy};
use nettamer::rate_limiter::{bucket_for_duration, TokenBucket};
use nettamer::throttle::{packet_verdict, ThrottleTable};

#[test]
fn allows_within_capacity() {
    let mut b = TokenBucket::new(8_000); // 1000 bytes/sec
    assert!(b.try_consume(500));
    assert!(b.try_consume(500));
    // 1000 bytes consumed; next should fail until refill.
    assert!(!b.try_consume(1));
}

#[test]
fn full_bucket_admits_its_capacity_at_once() {
    let mut b = TokenBucket::new(8_000);
    assert!(b.try_consume_at(1000, 0));
    assert!(!b.try_consume_at(1, 0));
}

#[test]
fn over_capacity_request_is_refused_and_keeps_balance() {
    let mut b = TokenBucket::new(8_000);
    assert!(!b.try_consume_at(1001, 0));
    assert!(b.try_consume_at(1000, 0));
}

#[test]
fn same_instant_admissions_fit_capacity() {
    let mut b = TokenBucket::new(8_000);
    assert!(b.try_consume_at(600, 5));
    assert!(!b.try_consume_at(401, 5));
    assert!(b.try_consume_at(400, 5));
    assert!(!b.try_consume_at(1, 5));
}

#[test]
fn refill_earns_one_byte_per_millisecond_at_8000_bps() {
    let mut b = TokenBucket::new(8_000);
    assert!(b.try_consume_at(1000, 0));
    assert!(!b.try_consume_at(1, 999_999));
    assert!(b.try_consume_at(1, 1_000_000));
    // a long wait only refills up to capacity
    assert!(!b.try_consume_at(1001, 10_000_000_000));
    assert!(b.try_consume_at(1000, 10_000_000_000));
}

#[test]
fn earlier_clock_reading_does_not_refill() {
    let mut b = TokenBucket::new(8_000);
    assert!(b.try_consume_at(1000, 5_000_000));
    assert!(!b.try_consume_at(1, 1_000_000));
}

#[test]
fn rate_change_clamps_balance() {
    let mut b = TokenBucket::new(80_000); // 10_000 bytes/sec
    b.set_rate_at(8_000, 0); // capacity 1000 bytes
    assert!(b.try_consume_at(1000, 0));
    assert!(!b.try_consume_at(1, 0));
    let mut c = bucket_for_duration(8_000, std::time::Duration::from_secs(3));
    assert!(c.try_consume_at(1000, 0));
    assert!(!c.try_consume_at(1, 0));
}

#[test]
fn rate_change_keeps_the_balance_proportionally() {
    // A full 1000 B/s bucket raised to 2000 B/s is full at the new rate.
    let mut b = TokenBucket::new(8_000);
    b.set_rate_at(16_000, 0);
    assert!(b.try_consume_at(2000, 0));
    assert!(!b.try_consume_at(1, 0));
    // A half-full bucket stays half full.
    let mut c = TokenBucket::new(8_000);
    assert!(c.try_consume_at(500, 0));
    c.set_rate_at(16_000, 0);
    assert!(c.try_consume_at(1000, 0));
    assert!(!c.try_consume_at(1, 0));
    // A bucket of rate 0 keeps its (empty) balance, then refills at the new rate.
    let mut z = TokenBucket::new(0);
    z.set_rate_at(8_000, 0);
    assert!(!z.try_consume_at(1, 0));
    assert!(z.try_consume_at(1000, 1_000_000_000));
}

#[test]
fn zero_rate_bucket_admits_only_empty_requests() {
    let mut b = TokenBucket::new(0);
    assert!(b.try_consume_at(0, 0));
    assert!(!b.try_consume_at(1, 1_000_000_000));
}

fn policy(id: &str, name: &str, bps: u64, up: bool, down: bool, active: bool) -> Policy {
    Policy {
        id: id.to_string(),
        name: format!("limit {name}"),
        process_name: name.to_string(),
        rate_limit_bps: bps,
        limit_upload: up,
        limit_download: down,
        active,
        created_at: 0,
    }
}

#[test]
fn applied_policy_is_found_by_name() {
    let mut t = ThrottleTable::new();
    t.apply_policy(policy("p1", "Chrome.exe", 8_000, true, true, true));
    let p = t.policy_for_name("chrome").expect("policy");
    assert_eq!(p.id, "p1");
    assert!(t.policy_for_name("firefox.exe").is_none());
}

#[test]
fn inactive_policy_is_not_found() {
    let mut t = ThrottleTable::new();
    t.apply_policy(policy("p1", "chrome.exe", 8_000, true, true, false));
    assert!(t.policy_for_name("chrome.exe").is_none());
    assert_eq!(t.list_policies().len(), 1);
}

#[test]
fn removed_policy_is_gone() {
    let mut t = ThrottleTable::new();
    t.apply_policy(policy("p1", "chrome.exe", 8_000, true, true, true));
    t.remove_policy("p1");
    assert!(t.policy_for_name("chrome.exe").is_none());
    assert!(t.list_policies().is_empty());
}

#[test]
fn policy_bound_to_pid_is_found_by_pid() {
    let mut t = ThrottleTable::new();
    t.apply_policy(policy("p1", "chrome.exe", 8_000, true, true, true));
    t.set_pid_for_policy("p1", 42);
    assert_eq!(t.policy_for_pid(42).map(|p| p.id), Some("p1".to_string()));
    assert!(t.policy_for_pid(43).is_none());
    t.note_process("chrome.exe", 43);
    assert!(t.policy_for_pid(43).is_some());
}

#[test]
fn load_applies_only_active_policies() {
    let mut t = ThrottleTable::new();
    t.load_active_policies(vec![
        policy("a", "a.exe", 8_000, true, true, true),
        policy("b", "b.exe", 8_000, true, true, false),
    ]);
    let ids: Vec<String> = t.list_policies().into_iter().map(|p| p.id).collect();
    assert_eq!(ids, vec!["a".to_string()]);
}

#[test]
fn packets_of_unlimited_processes_pass() {
    let mut t = ThrottleTable::new();
    for _ in 0..100 {
        assert!(packet_verdict(&mut t, 7, "notepad.exe", Direction::Send, 60_000));
    }
}

#[test]
fn packets_beyond_the_bucket_are_dropped() {
    let mut t = ThrottleTable::new();
    t.apply_policy(policy("p1", "game.exe", 8_000, true, false, true));
    assert!(packet_verdict(&mut t, 9, "game.exe", Direction::Send, 1000));
    assert!(!packet_verdict(&mut t, 9, "game.exe", Direction::Send, 1000));
    // downloads are not limited by this policy
    assert!(packet_verdict(&mut t, 9, "game.exe", Direction::Recv, 1000));
}

#[test]
fn direction_matches_policy_flags() {
    let p = policy("p", "x", 1, true, false, true);
    assert!(Direction::Send.matches_policy(&p));
    assert!(!Direction::Recv.matches_policy(&p));
}

#[test]
fn admitted_bytes_bounded_by_rate() {
    // 1000 bytes at the start plus one byte per millisecond at 8000 bps
    let mut b = TokenBucket::new(8_000);
    let mut admitted = 0usize;
    let mut t = 0u64;
    while t <= 5_000_000 {
        for n in [1usize, 7, 300] {
            if b.try_consume_at(n, t) {
                admitted += n;
            }
        }
        t += 250_000;
    }
    assert!(admitted <= 1000 + 5);
    assert!(admitted >= 1000);
}
