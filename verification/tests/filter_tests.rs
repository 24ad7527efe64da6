use stribog::is_whitelisted;

fn forbidden(entries: &[&str]) -> Vec<String> {
    entries.iter().map(|e| e.to_string()).collect()
}

#[test]
fn empty_forbidden_list_allows_everything() {
    let f = forbidden(&[]);
    assert!(is_whitelisted("anything", &f));
    assert!(is_whitelisted("", &f));
    assert!(is_whitelisted(".git", &f));
}

#[test]
fn name_matching_a_prefix_is_rejected() {
    let f = forbidden(&[".", "build"]);
    assert!(!is_whitelisted(".git", &f));
    assert!(!is_whitelisted(".", &f));
    assert!(!is_whitelisted("build", &f));
    assert!(!is_whitelisted("build-out", &f));
}

#[test]
fn name_matching_no_prefix_is_allowed() {
    let f = forbidden(&[".", "build"]);
    assert!(is_whitelisted("src", &f));
    assert!(is_whitelisted("b", &f));
    assert!(is_whitelisted("rebuild", &f));
    assert!(is_whitelisted("Build", &f));
}

#[test]
fn match_is_prefix_only_and_case_sensitive() {
    let f = forbidden(&["tmp"]);
    assert!(!is_whitelisted("tmp", &f));
    assert!(!is_whitelisted("tmpfiles", &f));
    assert!(is_whitelisted("my-tmp", &f));
    assert!(is_whitelisted("TMP", &f));
}

#[test]
fn later_entries_match_too_and_duplicates_are_harmless() {
    let f = forbidden(&["aaa", "zzz", "zzz", "out"]);
    assert!(!is_whitelisted("output", &f));
    assert!(!is_whitelisted("zzz-dir", &f));
    assert!(is_whitelisted("input", &f));
}

#[test]
fn empty_prefix_entry_rejects_every_name() {
    let f = forbidden(&[""]);
    assert!(!is_whitelisted("anything", &f));
    assert!(!is_whitelisted("", &f));
}
