use minidt::config::Config;
use minidt::errors::Error;
use minidt::init::{init_directories, init_project, InitAction};
use minidt::paths::PathB;

fn path(absolute: bool, components: &[&str]) -> PathB {
    PathB { absolute, components: components.iter().map(|c| c.to_string()).collect() }
}

#[test]
fn init_twice_fails_without_touching_anything() {
    // The second run finds the configuration the first run created; the
    // refusal carries no action, so nothing is loaded, written or created.
    let existing = path(true, &["srv", "proj", ".miniDT.toml"]);
    let r = init_project(None, Some(&existing));
    assert_eq!(r, Err(Error::AlreadyInitialized));
}

#[test]
fn init_with_explicit_config_loads_it() {
    let explicit = path(false, &["custom.toml"]);
    let existing = path(true, &["srv", "proj", ".miniDT.toml"]);
    // An explicit path wins even where a discoverable configuration exists.
    let r = init_project(Some(&explicit), Some(&existing)).unwrap();
    assert_eq!(r, InitAction::LoadExplicit(explicit));
}

#[test]
fn init_fresh_project_creates_default() {
    let r = init_project(None, None).unwrap();
    assert_eq!(r, InitAction::LoadOrCreateDefault);
}

#[test]
fn init_directories_in_order() {
    let dirs = init_directories(&Config::default());
    assert_eq!(dirs, vec!["macros".to_string(), "models".to_string(), "compiled".to_string()]);
}
