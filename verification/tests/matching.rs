use nettamer::matcher::match_process;
use nettamer::text::{normalize, to_wide};

#[test]
fn exact_match() {
    assert!(match_process("chrome.exe", "chrome.exe"));
    assert!(match_process("chrome", "chrome.exe"));
}

#[test]
fn wildcard_prefix() {
    assert!(match_process("chrome*", "chrome.exe"));
    assert!(match_process("chrom*", "chromium.exe"));
    assert!(!match_process("chrome*", "firefox"));
}

#[test]
fn wildcard_substring() {
    assert!(match_process("*host*", "svchost.exe"));
    assert!(!match_process("*host*", "explorer.exe"));
}

#[test]
fn matching_ignores_case() {
    assert!(match_process("CHROME.EXE", "chrome.exe"));
    assert!(match_process("Chrome", "CHROME.exe"));
    assert!(match_process("*HOST*", "SvcHost.exe"));
}

#[test]
fn exe_suffix_on_either_side() {
    assert!(match_process("chrome.exe", "chrome"));
    assert!(!match_process("chrome", "chrome.exe.exe"));
    assert!(!match_process("chrome", "chromium.exe"));
}

#[test]
fn lone_star_matches_every_name() {
    assert!(match_process("*", "anything.exe"));
    assert!(match_process("*", ""));
    assert!(match_process("**", "x"));
}

#[test]
fn every_name_matches_itself() {
    for n in ["svchost.exe", "a*b", "*", "My App.exe", ""] {
        assert!(match_process(n, n));
    }
}

#[test]
fn wildcard_middle_and_suffix() {
    assert!(match_process("s*t.exe", "svchost.exe"));
    assert!(!match_process("s*t.exe", "svchost.dll"));
    assert!(match_process("*.exe", "a.exe"));
    assert!(!match_process("a*", "ba"));
}

#[test]
fn wide_strings_are_utf16_with_nul() {
    assert_eq!(to_wide("A"), vec![0x41u16, 0]);
    assert_eq!(to_wide(""), vec![0u16]);
    assert_eq!(to_wide("é😀"), vec![0xE9u16, 0xD83D, 0xDE00, 0]);
    let s = "C:\\网络";
    let w = to_wide(s);
    let expect: Vec<u16> = s.encode_utf16().chain(std::iter::once(0)).collect();
    assert_eq!(w, expect);
}

#[test]
fn utf16_length_is_between_one_and_two_units_per_char() {
    for s in ["", "abc", "😀😀", "a😀b"] {
        let units = to_wide(s).len() - 1;
        let chars = s.chars().count();
        assert!(chars <= units && units <= 2 * chars);
    }
}

#[test]
fn trimming_and_normalizing_paths() {
    assert_eq!(normalize("  C:\\App\\X.exe \t\n"), "c:\\app\\x.exe");
    assert_eq!(normalize("  C:\\App\\X.EXE "), "c:\\app\\x.exe");
    assert_eq!(normalize("\u{3000}Foo\u{a0}"), "foo");
}

#[test]
fn non_ascii_names_match_exactly_or_by_wildcard() {
    assert!(match_process("ÄPP", "äpp.exe"));
    assert!(!match_process("ÄPP", "äppx.exe"));
    assert!(match_process("ärger*", "ÄRGER.EXE"));
    assert!(match_process("svc*host", "SvcHost"));
    assert!(!match_process("svc*host", "svchost.exe"));
}
