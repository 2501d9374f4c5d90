use nettamer::exe_paths::{exe_name_matches, finish_exe_search, installed_exe_candidates, sorted_unique_paths, ExeSearch};
use nettamer::process::{ProcessQuery, Resolver};

#[test]
fn sorted_unique() {
    let v = vec!["b", "a", "b", "C", "a", "ab", ""].into_iter().map(String::from).collect();
    assert_eq!(sorted_unique_paths(v), vec!["", "C", "a", "ab", "b"]);
    assert!(sorted_unique_paths(Vec::new()).is_empty());
    let w: Vec<String> = vec!["é".into(), "z".into(), "网".into()];
    let mut expect = w.clone();
    expect.sort();
    assert_eq!(sorted_unique_paths(w), expect);
}

#[test]
fn install_location_only_when_nothing_found() {
    let found: Vec<String> = vec!["C:\\b\\x.exe".into(), "C:\\a\\x.exe".into(), "C:\\b\\x.exe".into()];
    assert_eq!(
        finish_exe_search(found, Some("C:\\Program Files\\x.exe".into())),
        vec!["C:\\a\\x.exe", "C:\\b\\x.exe"]
    );
    assert_eq!(finish_exe_search(Vec::new(), Some("C:\\Windows\\x.exe".into())), vec!["C:\\Windows\\x.exe"]);
    assert!(finish_exe_search(Vec::new(), None).is_empty());
}

fn q(path: &str) -> ProcessQuery {
    ProcessQuery { image_path: Some(path.to_string()), snapshot_name: None, session_id: Some(1) }
}

#[test]
fn search_targets_and_cached_paths() {
    let mut r = Resolver::new();
    r.resolve(1, q("C:\\A\\Chrome.exe"));
    r.resolve(2, q("D:\\B\\chrome.exe"));
    r.resolve(3, q("C:\\C\\firefox.exe"));
    match r.exe_search_with("  chrome ", false) {
        ExeSearch::Search(t) => {
            assert_eq!(t.lower, "chrome");
            assert_eq!(t.with_exe, "chrome.exe");
            let mut paths = t.cached_paths.clone();
            paths.sort();
            assert_eq!(paths, vec!["C:\\A\\Chrome.exe".to_string(), "D:\\B\\chrome.exe".to_string()]);
            assert!(exe_name_matches(&t, "CHROME.EXE"));
            assert!(exe_name_matches(&t, "chrome"));
            assert!(!exe_name_matches(&t, "chromium.exe"));
        }
        other => panic!("unexpected {other:?}"),
    }
    match r.exe_search_with("Tool.EXE", false) {
        ExeSearch::Search(t) => assert_eq!(t.with_exe, "tool.exe"),
        other => panic!("unexpected {other:?}"),
    }
    assert!(matches!(r.exe_search_with("   ", false), ExeSearch::Nothing));
    match r.exe_search_with(" C:\\x\\y.exe ", true) {
        ExeSearch::Direct(p) => assert_eq!(p, "C:\\x\\y.exe"),
        other => panic!("unexpected {other:?}"),
    }
    assert!(matches!(r.find_exe_paths_by_name(""), ExeSearch::Nothing));
    assert!(matches!(r.find_exe_paths_by_name("chrome"), ExeSearch::Search(_)));
}

#[test]
fn install_locations() {
    let c = installed_exe_candidates(None, Some("E:\\PF86"), None, None, "app.exe");
    assert_eq!(c.len(), 11);
    assert_eq!(c[0], "C:\\Program Files\\Google\\Chrome\\Application\\app.exe");
    assert_eq!(c[1], "E:\\PF86\\Google\\Chrome\\Application\\app.exe");
    assert_eq!(c[2], "\\Google\\Chrome\\Application\\app.exe");
    assert_eq!(c[5], "E:\\PF86\\Steam\\app.exe");
    assert_eq!(c[9], "C:\\Windows\\System32\\app.exe");
    assert_eq!(c[10], "C:\\Windows\\app.exe");
}
