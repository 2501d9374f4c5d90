use nettamer::models::{AlertHistoryFilter, Policy};
use nettamer::overlay::{
    check_window_is_fullscreen, overlay_text_rects, taskbar_widget_geometry, track_notify_left,
    OverlayAction, OverlayState, Rect, WindowFacts,
};
use nettamer::settings::{
    config_defaults, config_effect, flag_on, initial_refresh_interval, menu_command, ConfigEffect,
    MenuCommand,
};
use nettamer::state::{AppState, CaptureAction};
use nettamer::store::history_query;

#[test]
fn default_configuration() {
    let d = config_defaults();
    let pairs: Vec<(&str, &str)> = d.iter().map(|(k, v)| (k.as_str(), v.as_str())).collect();
    assert_eq!(
        pairs,
        vec![
            ("refresh_interval_ms", "1000"),
            ("theme", "dark"),
            ("auto_start", "false"),
            ("minimize_to_tray", "true"),
            ("alert_sound", "true"),
            ("taskbar_speed", "false"),
        ]
    );
}

fn opacity(value: &str) -> Option<u32> {
    match config_effect("floating_opacity", value) {
        ConfigEffect::Opacity(v) => Some(v),
        _ => None,
    }
}

#[test]
fn unsigned_parsing() {
    assert_eq!(opacity("42"), Some(42));
    assert_eq!(opacity("+7"), Some(7));
    assert_eq!(opacity("007"), Some(7));
    assert_eq!(opacity("4294967295"), Some(u32::MAX));
    assert_eq!(opacity("4294967296"), None);
    assert_eq!(opacity("-1"), None);
    assert_eq!(opacity(""), None);
    assert_eq!(opacity("+"), None);
    assert_eq!(opacity(" 1"), None);
    assert_eq!(initial_refresh_interval(Some("18446744073709551615")), u64::MAX);
    assert_eq!(initial_refresh_interval(Some("18446744073709551616")), 1000);
    assert_eq!(initial_refresh_interval(Some("1e3")), 1000);
}

#[test]
fn decimal_text_reads_back() {
    for n in [0u64, 7, 100, 1000, 123456789, u64::MAX] {
        assert_eq!(initial_refresh_interval(Some(&n.to_string())), n);
    }
    for n in [0u32, 80, 100, u32::MAX] {
        assert_eq!(opacity(&n.to_string()), Some(n));
    }
}

#[test]
fn startup_cadence_defaults_to_one_second() {
    assert_eq!(initial_refresh_interval(None), 1000);
    assert_eq!(initial_refresh_interval(Some("fast")), 1000);
    assert_eq!(initial_refresh_interval(Some("250")), 250);
}

#[test]
fn flags() {
    assert!(flag_on(Some("true"), false));
    assert!(!flag_on(Some("TRUE"), true));
    assert!(!flag_on(Some("1"), true));
    assert!(flag_on(None, true));
    assert!(!flag_on(None, false));
}

#[test]
fn config_effects() {
    assert!(matches!(config_effect("taskbar_speed", "true"), ConfigEffect::SpeedDisplays));
    assert!(matches!(config_effect("floating_speed", "false"), ConfigEffect::SpeedDisplays));
    assert!(matches!(config_effect("floating_click_through", "true"), ConfigEffect::ClickThrough(true)));
    assert!(matches!(config_effect("floating_click_through", "yes"), ConfigEffect::ClickThrough(false)));
    assert!(matches!(config_effect("floating_opacity", "80"), ConfigEffect::Opacity(80)));
    assert!(matches!(config_effect("floating_opacity", "x"), ConfigEffect::Nothing));
    match config_effect("theme", "light") {
        ConfigEffect::Theme(t) => assert_eq!(t, "light"),
        other => panic!("unexpected {other:?}"),
    }
    assert!(matches!(config_effect("alert_sound", "true"), ConfigEffect::Nothing));
}

#[test]
fn menu_commands() {
    assert!(matches!(menu_command("dashboard", false), MenuCommand::ShowMain));
    assert!(matches!(menu_command("float_dashboard", false), MenuCommand::ShowMain));
    assert!(matches!(menu_command("op_60", false), MenuCommand::SetOpacity(60)));
    assert!(matches!(menu_command("float_click_through", false), MenuCommand::SetClickThrough(true)));
    assert!(matches!(menu_command("float_click_through", true), MenuCommand::SetClickThrough(false)));
    assert!(matches!(menu_command("tray_restore_click", true), MenuCommand::RestoreClickable));
    assert!(matches!(menu_command("float_hide", false), MenuCommand::HideFloating));
    assert!(matches!(menu_command("quit", false), MenuCommand::Quit));
    assert!(matches!(menu_command("op_50", false), MenuCommand::Ignore));
}

fn policy(name: &str, bps: u64, active: bool) -> Policy {
    Policy {
        id: name.to_string(),
        name: name.to_string(),
        process_name: name.to_string(),
        rate_limit_bps: bps,
        limit_upload: true,
        limit_download: true,
        active,
        created_at: 0,
    }
}

#[test]
fn refresh_cadence_never_below_100ms() {
    let mut s = AppState::new(20);
    assert_eq!(s.refresh_ms(), 100);
    assert_eq!(s.set_refresh_interval(50), 100);
    assert_eq!(s.set_refresh_interval(2500), 2500);
    assert_eq!(s.refresh_ms(), 2500);
}

#[test]
fn running_flag() {
    let mut s = AppState::new(1000);
    assert!(!s.is_running());
    s.set_running(true);
    assert!(s.is_running());
}

#[test]
fn capture_engine_follows_limiting_policies() {
    let mut s = AppState::new(1000);
    let ps = vec![policy("a.exe", 8000, true), policy("b.exe", 0, true), policy("c.exe", 8000, false)];
    assert!(matches!(s.sync_windivert_state(&ps, true), CaptureAction::Keep));
    s.set_running(true);
    match s.sync_windivert_state(&ps, false) {
        CaptureAction::Start(t) => assert_eq!(t, vec!["a.exe".to_string()]),
        other => panic!("unexpected {other:?}"),
    }
    match s.sync_windivert_state(&ps, true) {
        CaptureAction::UpdateTargets(t) => assert_eq!(t, vec!["a.exe".to_string()]),
        other => panic!("unexpected {other:?}"),
    }
    let idle = vec![policy("b.exe", 0, true)];
    assert!(matches!(s.sync_windivert_state(&idle, true), CaptureAction::Stop));
    assert!(matches!(s.sync_windivert_state(&idle, false), CaptureAction::Keep));
}

#[test]
fn history_queries() {
    let (sql, args) = history_query(&AlertHistoryFilter::default());
    assert_eq!(
        sql,
        "SELECT id, rule_id, process_name, pid, direction, current_rate, threshold, triggered_at FROM alert_events WHERE 1=1 ORDER BY triggered_at DESC"
    );
    assert!(args.is_empty());
    let f = AlertHistoryFilter { rule_id: Some("r1".to_string()), since: Some(-5), limit: Some(20) };
    let (sql, args) = history_query(&f);
    assert!(sql.ends_with(" WHERE 1=1 AND rule_id = ? AND triggered_at >= ? ORDER BY triggered_at DESC LIMIT 20"));
    assert_eq!(args, vec!["r1".to_string(), "-5".to_string()]);
    assert_eq!(sql.matches('?').count(), args.len());
}

#[test]
fn notification_area_edge() {
    let r = Rect { left: 1500, top: 1040, right: 1700, bottom: 1080 };
    assert_eq!(track_notify_left(0, "TrayNotifyWnd", r), 1500);
    assert_eq!(track_notify_left(1400, "Windows.UI.Input.InputSite.WindowClass", r), 1400);
    assert_eq!(track_notify_left(1600, "Windows.UI.Input.InputSite.WindowClass", r), 1500);
    assert_eq!(track_notify_left(0, "Button", r), 0);
    let narrow = Rect { left: 1500, top: 0, right: 1520, bottom: 0 };
    assert_eq!(track_notify_left(0, "TrayNotifyWnd", narrow), 0);
}

#[test]
fn overlay_geometry() {
    let tray = Rect { left: 0, top: 1040, right: 1920, bottom: 1080 };
    assert_eq!(taskbar_widget_geometry(tray, 1500, 160), (1332, 1040, 160, 40));
    assert_eq!(taskbar_widget_geometry(tray, 0, 160), (1340, 1040, 160, 40));
    let thin = Rect { left: 0, top: 0, right: 800, bottom: 10 };
    assert_eq!(taskbar_widget_geometry(thin, 0, 160).3, 20);
    let inverted = Rect { left: 0, top: 50, right: 800, bottom: 40 };
    assert_eq!(taskbar_widget_geometry(inverted, 0, 160), (220, 50, 160, 20));
    let (up, down) = overlay_text_rects();
    assert_eq!((up.left, up.top, up.right, up.bottom), (2, 11, 78, 29));
    assert_eq!((down.left, down.top, down.right, down.bottom), (82, 11, 158, 29));
}

fn facts() -> WindowFacts {
    WindowFacts {
        is_null: false,
        is_overlay: false,
        is_desktop_or_taskbar: false,
        taskbar_hidden: false,
        class_name: Some("Chrome_WidgetWin_1".to_string()),
        window_rect: Some(Rect { left: 0, top: 0, right: 1920, bottom: 1080 }),
        monitor_rect: Some(Rect { left: 0, top: 0, right: 1920, bottom: 1080 }),
        style: 0x8000_0000,
    }
}

#[test]
fn fullscreen_detection() {
    assert!(check_window_is_fullscreen(&facts()));
    let mut f = facts();
    f.style = 0x00C0_0000;
    assert!(!check_window_is_fullscreen(&f));
    let mut f = facts();
    f.window_rect = Some(Rect { left: 10, top: 0, right: 1920, bottom: 1080 });
    assert!(!check_window_is_fullscreen(&f));
    let mut f = facts();
    f.class_name = Some("WorkerW".to_string());
    assert!(!check_window_is_fullscreen(&f));
    let mut f = facts();
    f.taskbar_hidden = true;
    f.window_rect = None;
    assert!(check_window_is_fullscreen(&f));
    let mut f = facts();
    f.is_overlay = true;
    f.taskbar_hidden = true;
    assert!(!check_window_is_fullscreen(&f));
    let mut f = facts();
    f.monitor_rect = None;
    assert!(!check_window_is_fullscreen(&f));
}

#[test]
fn overlay_reactions() {
    let mut s = OverlayState::new(false);
    assert!(matches!(s.on_timer(false, true), OverlayAction::Nothing));
    assert!(matches!(s.on_timer(true, true), OverlayAction::Hide));
    assert!(s.fullscreen);
    assert!(matches!(s.on_timer(false, true), OverlayAction::RequestUpdate));
    assert!(matches!(s.on_timer(false, false), OverlayAction::Hide));
    assert!(matches!(s.on_window_event(true, true), OverlayAction::Hide));
    assert!(matches!(s.on_window_event(true, true), OverlayAction::Nothing));
    assert!(matches!(s.on_update(true, Some((1, 2, 3, 4))), OverlayAction::Hide));
    assert!(matches!(s.on_window_event(false, false), OverlayAction::Nothing));
    assert!(matches!(s.on_update(true, Some((1, 2, 3, 4))), OverlayAction::Place(1, 2, 3, 4)));
    assert!(matches!(s.on_update(true, None), OverlayAction::Hide));
    assert!(matches!(s.on_update(false, Some((1, 2, 3, 4))), OverlayAction::Hide));
}
