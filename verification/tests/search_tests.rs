use minidt::errors::Error;
use minidt::paths::PathB;
use minidt::search::{find_project_config, is_project_initialized};

fn path(absolute: bool, components: &[&str]) -> PathB {
    PathB { absolute, components: components.iter().map(|c| c.to_string()).collect() }
}

fn filename() -> String {
    ".miniDT.toml".to_string()
}

#[test]
fn find_config_in_start_directory() {
    let start = path(true, &["home", "user", "proj"]);
    let present = vec![true, false, false, false];
    let found = find_project_config(&start, &filename(), &present).unwrap();
    assert_eq!(found, path(true, &["home", "user", "proj", ".miniDT.toml"]));
}

#[test]
fn find_config_walks_upward() {
    let start = path(true, &["home", "user", "proj", "models", "marts"]);
    // The file sits two levels up, in `proj`.
    let present = vec![false, false, true, false, false, false];
    let found = find_project_config(&start, &filename(), &present).unwrap();
    assert_eq!(found, path(true, &["home", "user", "proj", ".miniDT.toml"]));
}

#[test]
fn find_config_prefers_nearest() {
    let start = path(true, &["a", "b", "c"]);
    let present = vec![false, true, true, true];
    let found = find_project_config(&start, &filename(), &present).unwrap();
    assert_eq!(found, path(true, &["a", "b", ".miniDT.toml"]));
}

#[test]
fn find_config_at_filesystem_root() {
    let start = path(true, &["a", "b"]);
    let present = vec![false, false, true];
    let found = find_project_config(&start, &filename(), &present).unwrap();
    assert_eq!(found, path(true, &[".miniDT.toml"]));
}

#[test]
fn same_config_from_two_descendants() {
    // The project root is /srv/proj; nothing below it has a configuration.
    let start1 = path(true, &["srv", "proj", "models"]);
    let present1 = vec![false, true, false];
    let start2 = path(true, &["srv", "proj", "models", "a", "b"]);
    let present2 = vec![false, false, false, true, false];
    let found1 = find_project_config(&start1, &filename(), &present1).unwrap();
    let found2 = find_project_config(&start2, &filename(), &present2).unwrap();
    assert_eq!(found1, found2);
    assert_eq!(found1, path(true, &["srv", "proj", ".miniDT.toml"]));
}

#[test]
fn no_config_anywhere_fails() {
    let start = path(true, &["home", "user", "elsewhere"]);
    let present = vec![false, false, false, false];
    let r = find_project_config(&start, &filename(), &present);
    assert_eq!(r, Err(Error::ConfigNotFound));
}

#[test]
fn initialized_project_is_detected() {
    let start = path(true, &["srv", "proj"]);
    let present = vec![false, true, false];
    let found = is_project_initialized(&start, &filename(), &present);
    assert_eq!(found, Some(path(true, &["srv", ".miniDT.toml"])));
}

#[test]
fn uninitialized_project_is_detected() {
    let start = path(true, &["srv", "proj"]);
    let present = vec![false, false, false];
    assert_eq!(is_project_initialized(&start, &filename(), &present), None);
}
