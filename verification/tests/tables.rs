use nettamer::firewall::FirewallTable;
use nettamer::icons::{get_process_icon_b64, remember_icon, IconCache, IconLookup};
use nettamer::isolation::{firewall_add_args, firewall_delete_args, Blocklist};
use nettamer::models::{FirewallRule, ProcessCategory};
use nettamer::process::{snapshot_name, wide_text_len, ProcessQuery, Resolver};

fn rule(id: &str, name: &str, active: bool) -> FirewallRule {
    FirewallRule {
        id: id.to_string(),
        name: format!("block {name}"),
        process_name: name.to_string(),
        active,
        created_at: 1,
    }
}

#[test]
fn applied_rule_is_found_by_name() {
    let mut t = FirewallTable::new();
    t.apply_rule(rule("r1", "Steam.exe", true));
    assert_eq!(t.rule_for_name("steam").map(|r| r.id), Some("r1".to_string()));
    assert_eq!(t.rule_for_name("STEAM.EXE").map(|r| r.id), Some("r1".to_string()));
    assert!(t.rule_for_name("steamwebhelper.exe").is_none());
}

#[test]
fn inactive_rule_is_not_found_and_update_replaces() {
    let mut t = FirewallTable::new();
    t.apply_rule(rule("r1", "app.exe", false));
    assert!(t.rule_for_name("app.exe").is_none());
    t.apply_rule(rule("r1", "app.exe", true));
    assert!(t.rule_for_name("app.exe").is_some());
    assert_eq!(t.list_rules().len(), 1);
}

#[test]
fn removed_rule_is_gone() {
    let mut t = FirewallTable::new();
    t.apply_rule(rule("r1", "a.exe", true));
    t.apply_rule(rule("r2", "b.exe", true));
    t.remove_rule("r1");
    assert!(t.rule_for_name("a.exe").is_none());
    let ids: Vec<String> = t.list_rules().into_iter().map(|r| r.id).collect();
    assert_eq!(ids, vec!["r2".to_string()]);
    t.remove_rule("missing");
    assert_eq!(t.list_rules().len(), 1);
}

#[test]
fn loading_keeps_only_active_rules() {
    let mut t = FirewallTable::new();
    t.load_active_rules(vec![rule("a", "a.exe", true), rule("b", "b.exe", false)]);
    let ids: Vec<String> = t.list_rules().into_iter().map(|r| r.id).collect();
    assert_eq!(ids, vec!["a".to_string()]);
}

#[test]
fn netsh_arguments() {
    let tag = "NetTamer_Block_app.exe".to_string();
    assert_eq!(
        firewall_add_args(&tag, true, "C:\\Apps\\App.exe"),
        vec![
            "advfirewall", "firewall", "add", "rule", "name=NetTamer_Block_app.exe_Out", "dir=out",
            "action=block", "program=C:\\Apps\\App.exe", "enable=yes", "profile=any",
        ]
    );
    assert_eq!(
        firewall_add_args(&tag, false, "C:\\Apps\\App.exe")[4..6].to_vec(),
        vec!["name=NetTamer_Block_app.exe_In".to_string(), "dir=in".to_string()]
    );
    assert_eq!(
        firewall_delete_args(&tag, false),
        vec!["advfirewall", "firewall", "delete", "rule", "name=NetTamer_Block_app.exe_In"]
    );
}

#[test]
fn block_plan_then_record() {
    let mut b = Blocklist::new();
    let plan = b.plan_block("  C:\\Apps\\App.EXE ").expect("plan");
    assert_eq!(plan.key, "c:\\apps\\app.exe");
    assert_eq!(plan.tag, "NetTamer_Block_app.exe");
    assert_eq!(plan.add_out[7], "program=  C:\\Apps\\App.EXE ");
    b.finish_block(plan.key, plan.tag, Some(vec![7, 8]));
    assert!(b.is_blocked("c:\\apps\\app.exe"));
    assert!(b.is_blocked("C:\\APPS\\APP.EXE"));
    assert_eq!(b.list_blocked(), vec!["c:\\apps\\app.exe".to_string()]);
}

#[test]
fn blocking_twice_plans_nothing() {
    let mut b = Blocklist::new();
    let plan = b.plan_block("C:\\x.exe").unwrap();
    b.finish_block(plan.key, plan.tag, Some(Vec::new()));
    assert!(b.plan_block("c:\\X.exe").is_none());
    assert!(b.plan_block("   ").is_none());
}

#[test]
fn unblock_returns_tag_and_filters() {
    let mut b = Blocklist::new();
    let plan = b.plan_block("C:\\x.exe").unwrap();
    b.finish_block(plan.key, plan.tag, Some(vec![1, 2, 3]));
    let (tag, ids) = b.plan_unblock("C:\\X.EXE");
    assert_eq!(tag, Some("NetTamer_Block_x.exe".to_string()));
    assert_eq!(ids, Some(vec![1, 2, 3]));
    assert!(!b.is_blocked("C:\\x.exe"));
    assert_eq!(b.plan_unblock("C:\\x.exe"), (None, None));
    assert!(b.plan_block("C:\\x.exe").is_some());
}

#[test]
fn failed_filter_registration_keeps_only_the_tag() {
    let mut b = Blocklist::new();
    let plan = b.plan_block("D:\\g.exe").unwrap();
    b.finish_block(plan.key, plan.tag, None);
    assert!(!b.is_blocked("D:\\g.exe"));
    let (tag, ids) = b.plan_unblock("D:\\g.exe");
    assert!(tag.is_some());
    assert!(ids.is_none());
}

#[test]
fn close_hands_back_everything() {
    // Without a WFP session: every path is unblocked, tags come back, no filters.
    let mut b = Blocklist::new();
    for p in ["C:\\a.exe", "C:\\b.exe"] {
        let plan = b.plan_block(p).unwrap();
        b.finish_block(plan.key, plan.tag, Some(vec![5]));
    }
    let (tags, filters) = b.close(false);
    assert_eq!(tags.len(), 2);
    assert!(filters.is_empty());
    assert!(!b.is_blocked("C:\\a.exe"));
    assert!(b.list_blocked().is_empty());
    // With a session open: the filter ids come back too.
    for p in ["C:\\a.exe", "C:\\b.exe"] {
        let plan = b.plan_block(p).unwrap();
        b.finish_block(plan.key, plan.tag, Some(vec![5]));
    }
    let (tags, filters) = b.close(true);
    assert_eq!(tags.len(), 2);
    assert_eq!(filters.len(), 2);
    assert!(b.list_blocked().is_empty());
    assert!(!b.is_blocked("C:\\b.exe"));
}

#[test]
fn icon_lookup_flow() {
    let mut c = IconCache::new();
    assert!(matches!(get_process_icon_b64(&c, ""), IconLookup::Skip));
    assert!(matches!(get_process_icon_b64(&c, "  [Windows Kernel]"), IconLookup::Skip));
    let key = match get_process_icon_b64(&c, " C:\\A\\B.EXE ") {
        IconLookup::Extract(k) => k,
        other => panic!("unexpected {other:?}"),
    };
    assert_eq!(key, "c:\\a\\b.exe");
    let uri = remember_icon(&mut c, key, Some("data:image/bmp;base64,QQ==".to_string()));
    assert_eq!(uri, "data:image/bmp;base64,QQ==");
    match get_process_icon_b64(&c, "c:\\a\\b.exe") {
        IconLookup::Cached(s) => assert_eq!(s, "data:image/bmp;base64,QQ=="),
        other => panic!("unexpected {other:?}"),
    }
}

#[test]
fn failed_extraction_is_remembered_as_empty() {
    let mut c = IconCache::new();
    let uri = remember_icon(&mut c, "c:\\missing.exe".to_string(), None);
    assert_eq!(uri, "");
    match get_process_icon_b64(&c, "C:\\Missing.exe") {
        IconLookup::Cached(s) => assert_eq!(s, ""),
        other => panic!("unexpected {other:?}"),
    }
}

fn q(path: Option<&str>, snap: Option<&str>, session: Option<u32>) -> ProcessQuery {
    ProcessQuery {
        image_path: path.map(|s| s.to_string()),
        snapshot_name: snap.map(|s| s.to_string()),
        session_id: session,
    }
}

#[test]
fn kernel_processes_are_fixed() {
    let i = Resolver::query_process(0, q(Some("x"), None, None));
    assert_eq!(i.name, "System Idle Process");
    assert_eq!(i.path, "[Windows Kernel]");
    assert_eq!(i.category, ProcessCategory::Kernel);
    let i = Resolver::query_process(4, q(None, None, None));
    assert_eq!(i.name, "Windows 系统网络 (System)");
    assert_eq!(i.category, ProcessCategory::Kernel);
}

#[test]
fn process_names_come_from_path_snapshot_or_pid() {
    let i = Resolver::query_process(100, q(Some("C:\\Program Files\\App\\app.exe"), Some("ignored.exe"), Some(1)));
    assert_eq!(i.name, "app.exe");
    assert_eq!(i.path, "C:\\Program Files\\App\\app.exe");
    assert_eq!(i.category, ProcessCategory::UserApp);
    assert_eq!(i.icon_b64, "");
    let i = Resolver::query_process(101, q(None, Some("svchost.exe"), None));
    assert_eq!(i.name, "svchost.exe");
    assert_eq!(i.path, "");
    assert_eq!(i.category, ProcessCategory::WindowsService);
    let i = Resolver::query_process(102, q(None, None, None));
    assert_eq!(i.name, "pid_102");
}

#[test]
fn classification_rules() {
    assert_eq!(Resolver::classify_process(4, "x", "", None), ProcessCategory::Kernel);
    assert_eq!(Resolver::classify_process(9, "SVCHOST.EXE", "", None), ProcessCategory::WindowsService);
    assert_eq!(
        Resolver::classify_process(9, "x.exe", "C:\\Windows\\System32\\x.exe", Some(0)),
        ProcessCategory::WindowsService
    );
    assert_eq!(
        Resolver::classify_process(9, "x.exe", "C:\\Windows\\System32\\x.exe", Some(1)),
        ProcessCategory::UserApp
    );
    assert_eq!(Resolver::classify_process(9, "x.exe", "D:\\windows\\syswow64\\x.exe", Some(0)), ProcessCategory::WindowsService);
    assert_eq!(Resolver::classify_process(9, "mysqld.exe", "C:\\Program Files\\mysqld.exe", Some(0)), ProcessCategory::UserApp);
    assert_eq!(Resolver::classify_process(9, "x.exe", "C:\\Windows\\x.exe", None), ProcessCategory::UserApp);
}

#[test]
fn resolved_metadata_is_stable_until_invalidated() {
    let mut r = Resolver::new();
    assert!(r.lookup(200).is_none());
    let first = r.resolve(200, q(Some("C:\\a\\one.exe"), None, Some(1)));
    assert_eq!(first.name, "one.exe");
    let again = r.resolve(200, q(Some("C:\\b\\two.exe"), None, Some(1)));
    assert_eq!(again.name, "one.exe");
    assert_eq!(r.lookup(200).map(|i| i.path), Some("C:\\a\\one.exe".to_string()));
    r.invalidate(200);
    assert!(r.lookup(200).is_none());
    let fresh = r.resolve(200, q(Some("C:\\b\\two.exe"), None, Some(1)));
    assert_eq!(fresh.name, "two.exe");
}

#[test]
fn snapshot_and_wide_text_helpers() {
    let entries = vec![(1u32, "a.exe".to_string()), (2, "b.exe".to_string()), (2, "c.exe".to_string())];
    assert_eq!(snapshot_name(&entries, 2), Some("b.exe".to_string()));
    assert_eq!(snapshot_name(&entries, 3), None);
    assert_eq!(wide_text_len(&[0x61, 0x62, 0, 0x63]), 2);
    assert_eq!(wide_text_len(&[0x61, 0x62]), 2);
    assert_eq!(wide_text_len(&[]), 0);
}
