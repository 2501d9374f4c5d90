use nettamer::alert::Engine;
use nettamer::models::{format_id, new_id, ProcessStats, Rule, ZERO_RATE_KEY};

/// Rate key of a non-negative, non-NaN rate.
fn key(rate: f64) -> u64 {
    rate.to_bits() | (1u64 << 63)
}

fn stat(pid: u32, name: &str, up: f64, down: f64) -> ProcessStats {
    ProcessStats {
        pid,
        name: name.to_string(),
        path: String::new(),
        icon_b64: String::new(),
        upload_rate: key(up),
        download_rate: key(down),
        total_upload: 0,
        total_download: 0,
    }
}

fn rule(id: &str, proc_name: &str, threshold: f64, direction: i32, cooldown: i64) -> Rule {
    Rule {
        id: id.to_string(),
        name: "r".to_string(),
        process_name: proc_name.to_string(),
        threshold: key(threshold),
        direction,
        cooldown_sec: cooldown,
        enabled: true,
        created_at: 0,
    }
}

const SEC: u64 = 1_000_000_000;

#[test]
fn rate_keys_order_like_rates() {
    assert_eq!(key(0.0), ZERO_RATE_KEY);
    assert!(key(1.5) < key(2.0));
    assert!(key(1024.0) > key(1000.0));
}

#[test]
fn rule_over_threshold_fires_with_event_fields() {
    let mut e = Engine::new();
    e.create_rule(rule("r1", "chrome*", 1000.0, 0, 60));
    let stats = vec![stat(7, "chrome.exe", 5000.0, 10.0), stat(8, "firefox.exe", 9000.0, 0.0)];
    let ev = e.evaluate_at(&stats, 0, 1_700_000_000, 123);
    assert_eq!(ev.len(), 1);
    assert_eq!(ev[0].rule_id, "r1");
    assert_eq!(ev[0].process_name, "chrome.exe");
    assert_eq!(ev[0].pid, 7);
    assert_eq!(ev[0].direction, 0);
    assert_eq!(ev[0].current_rate, key(5000.0));
    assert_eq!(ev[0].threshold, key(1000.0));
    assert_eq!(ev[0].triggered_at, 1_700_000_000);
    assert_eq!(ev[0].id, "123-0");
}

#[test]
fn cooldown_suppresses_refire() {
    let mut e = Engine::new();
    e.create_rule(rule("r1", "app.exe", 100.0, 1, 10));
    let stats = vec![stat(1, "app.exe", 0.0, 500.0)];
    assert_eq!(e.evaluate_at(&stats, 0, 0, 1).len(), 1);
    assert_eq!(e.evaluate_at(&stats, 9 * SEC, 0, 2).len(), 0);
    assert_eq!(e.evaluate_at(&stats, 10 * SEC - 1, 0, 3).len(), 0);
}

#[test]
fn one_alert_per_cooldown_window() {
    let mut e = Engine::new();
    e.create_rule(rule("r1", "app*", 100.0, 0, 10));
    // Two processes share the name: one alert for the name in the window.
    let stats = vec![stat(1, "app.exe", 500.0, 0.0), stat(2, "app.exe", 900.0, 0.0)];
    let mut total = 0;
    for t in [3 * SEC, 4 * SEC, 8 * SEC, 12 * SEC] {
        total += e.evaluate_at(&stats, t, 0, 1).iter().filter(|ev| ev.process_name == "app.exe").count();
    }
    assert_eq!(total, 1);
}

#[test]
fn rule_fires_again_after_cooldown() {
    let mut e = Engine::new();
    e.create_rule(rule("r1", "app.exe", 100.0, 1, 10));
    let stats = vec![stat(1, "app.exe", 0.0, 500.0)];
    assert_eq!(e.evaluate_at(&stats, 0, 0, 1).len(), 1);
    let ev = e.evaluate_at(&stats, 10 * SEC, 0, 2);
    assert_eq!(ev.len(), 1);
    assert_eq!(ev[0].id, "2-1");
}

#[test]
fn both_directions_report_the_larger_rate() {
    let mut e = Engine::new();
    e.create_rule(rule("r", "x.exe", 100.0, 2, 0));
    let ev = e.evaluate_at(&[stat(1, "x.exe", 50.0, 700.0)], 0, 0, 0);
    assert_eq!(ev.len(), 1);
    assert_eq!(ev[0].direction, 1);
    assert_eq!(ev[0].current_rate, key(700.0));
    let ev = e.evaluate_at(&[stat(1, "x.exe", 800.0, 700.0)], 1, 0, 0);
    assert_eq!(ev[0].direction, 0);
}

#[test]
fn disabled_zero_threshold_and_equal_rates_do_not_fire() {
    let mut e = Engine::new();
    let mut r = rule("d", "x.exe", 100.0, 0, 0);
    r.enabled = false;
    e.create_rule(r);
    e.create_rule(rule("z", "x.exe", 0.0, 0, 0));
    e.create_rule(rule("eq", "x.exe", 100.0, 0, 0));
    assert!(e.evaluate_at(&[stat(1, "x.exe", 100.0, 0.0)], 0, 0, 0).is_empty());
}

#[test]
fn cooldowns_are_per_process() {
    let mut e = Engine::new();
    e.create_rule(rule("r", "*", 10.0, 0, 60));
    let stats = vec![stat(1, "a.exe", 20.0, 0.0), stat(2, "b.exe", 20.0, 0.0)];
    assert_eq!(e.evaluate_at(&stats, 0, 0, 0).len(), 2);
    assert_eq!(e.evaluate_at(&stats, SEC, 0, 0).len(), 0);
}

#[test]
fn rules_can_be_loaded_updated_and_deleted() {
    let mut e = Engine::new();
    e.load_rules(vec![rule("a", "a.exe", 1.0, 0, 0), rule("b", "b.exe", 1.0, 0, 0)]);
    assert_eq!(e.list_rules().len(), 2);
    let mut r = rule("a", "c.exe", 1.0, 0, 0);
    r.name = "renamed".to_string();
    e.update_rule(r);
    let rules = e.list_rules();
    assert_eq!(rules.len(), 2);
    assert!(rules.iter().any(|r| r.id == "a" && r.name == "renamed"));
    e.delete_rule("a");
    assert_eq!(e.list_rules().len(), 1);
    e.delete_rule("nope");
    assert_eq!(e.list_rules().len(), 1);
}

#[test]
fn ids_are_clock_and_counter() {
    assert_eq!(format_id(1700000000123456789, 42), "1700000000123456789-42");
    let id = new_id(3);
    let (nanos, seq) = id.split_once('-').unwrap();
    assert!(nanos.parse::<u128>().unwrap() > 0);
    assert_eq!(seq, "3");
    assert_ne!(format_id(5, 1), format_id(5, 2));
    assert_ne!(format_id(12, 3), format_id(1, 23));
}

#[test]
fn evaluate_with_the_clock_reports_fresh_events() {
    let mut e = Engine::new();
    e.create_rule(rule("r", "x.exe", 1.0, 0, 60));
    let ev = e.evaluate(&[stat(1, "x.exe", 5.0, 0.0)]);
    assert_eq!(ev.len(), 1);
    assert!(ev[0].triggered_at > 0);
    assert!(e.evaluate(&[stat(1, "x.exe", 5.0, 0.0)]).is_empty());
}
