use stribog::{
    commit, commit_text, ensure_exists, get_cache_file_name, read_cache, refresh_cache, render,
    temp_path_for, Error,
};

fn records(entries: &[&str]) -> Vec<String> {
    entries.iter().map(|e| e.to_string()).collect()
}

#[test]
fn render_is_one_path_per_line_in_order() {
    assert_eq!(render(&records(&["/a", "/a/b", "/c"])), "/a\n/a/b\n/c\n");
    assert_eq!(render(&records(&[])), "");
    assert_eq!(render(&records(&[""])), "\n");
}

#[test]
fn temp_path_sits_beside_the_target() {
    assert_eq!(temp_path_for("/tmp/cache"), "/tmp/cache.tmp");
    assert_eq!(temp_path_for("rel"), "rel.tmp");
}

#[test]
fn cache_file_name_is_fixed_per_platform() {
    assert_eq!(get_cache_file_name(true), "/root/dev/.stribog");
    assert_eq!(get_cache_file_name(false), "C:\\Dev\\.stribog");
}

#[test]
fn commit_then_read_round_trips_the_serialized_form() {
    let dir = "/tmp/stribog_scratch_cache_roundtrip";
    let _ = fs_err::remove_dir_all(dir);
    fs_err::create_dir_all(dir).unwrap();
    let path = format!("{}/snap", dir);

    let recs = records(&["/a", "/a/b", "/a/b/c"]);
    commit(&recs, &path).unwrap();
    assert_eq!(read_cache(&path).unwrap(), "/a\n/a/b\n/a/b/c\n");

    fs_err::remove_dir_all(dir).unwrap();
}

#[test]
fn commit_replaces_the_previous_snapshot_whole() {
    let dir = "/tmp/stribog_scratch_cache_replace";
    let _ = fs_err::remove_dir_all(dir);
    fs_err::create_dir_all(dir).unwrap();
    let path = format!("{}/snap", dir);

    let first = records(&["/one"]);
    let second = records(&["/two", "/two/three"]);
    commit(&first, &path).unwrap();
    let a = read_cache(&path).unwrap();
    commit(&second, &path).unwrap();
    let b = read_cache(&path).unwrap();
    // Every read observes one complete snapshot, never a mixture.
    assert_eq!(a, "/one\n");
    assert_eq!(b, "/two\n/two/three\n");

    fs_err::remove_dir_all(dir).unwrap();
}

#[test]
fn reading_a_missing_snapshot_is_not_found() {
    let r = read_cache("/tmp/stribog_scratch_cache_missing/never_written");
    assert!(matches!(r, Err(Error::NotFound)));
}

#[test]
fn failed_commit_leaves_the_prior_snapshot_unchanged() {
    let dir = "/tmp/stribog_scratch_cache_failed_commit";
    let _ = fs_err::remove_dir_all(dir);
    fs_err::create_dir_all(dir).unwrap();
    let path = format!("{}/snap", dir);

    commit(&records(&["/kept"]), &path).unwrap();
    // A directory squatting on the temporary-file path makes the next
    // commit unable to create its temporary file.
    fs_err::create_dir_all(temp_path_for(&path)).unwrap();
    let r = commit(&records(&["/lost"]), &path);
    assert!(matches!(r, Err(Error::Io(_))));
    assert_eq!(read_cache(&path).unwrap(), "/kept\n");

    fs_err::remove_dir_all(dir).unwrap();
}

#[test]
fn ensure_exists_bootstraps_an_empty_snapshot() {
    let dir = "/tmp/stribog_scratch_cache_bootstrap";
    let _ = fs_err::remove_dir_all(dir);
    fs_err::create_dir_all(dir).unwrap();
    let path = format!("{}/snap", dir);

    assert!(matches!(read_cache(&path), Err(Error::NotFound)));
    ensure_exists(&path).unwrap();
    assert_eq!(read_cache(&path).unwrap(), "");

    fs_err::remove_dir_all(dir).unwrap();
}

#[test]
fn ensure_exists_never_truncates_an_existing_snapshot() {
    let dir = "/tmp/stribog_scratch_cache_keep";
    let _ = fs_err::remove_dir_all(dir);
    fs_err::create_dir_all(dir).unwrap();
    let path = format!("{}/snap", dir);

    commit_text("already here\n", &path).unwrap();
    ensure_exists(&path).unwrap();
    assert_eq!(read_cache(&path).unwrap(), "already here\n");

    fs_err::remove_dir_all(dir).unwrap();
}

#[test]
fn refresh_rejects_an_empty_root_list() {
    let r = refresh_cache(&records(&[]), &records(&[]), 3, "/tmp/stribog_scratch_unused_path");
    assert!(matches!(r, Err(Error::InvalidInput)));
}

#[test]
fn refresh_commits_the_walk_of_every_root() {
    let dir = "/tmp/stribog_scratch_cache_refresh";
    let _ = fs_err::remove_dir_all(dir);
    fs_err::create_dir_all(format!("{}/a/keep", dir)).unwrap();
    fs_err::create_dir_all(format!("{}/a/.skip", dir)).unwrap();
    fs_err::create_dir_all(format!("{}/b", dir)).unwrap();
    let path = format!("{}/snap", dir);

    let roots = records(&[&format!("{}/a", dir), &format!("{}/b", dir)]);
    refresh_cache(&roots, &records(&["."]), 2, &path).unwrap();

    let text = read_cache(&path).unwrap();
    let mut lines: Vec<String> = text.lines().map(|l| l.to_string()).collect();
    lines.sort();
    assert_eq!(
        lines,
        vec![format!("{}/a", dir), format!("{}/a/keep", dir), format!("{}/b", dir)],
    );

    fs_err::remove_dir_all(dir).unwrap();
}
