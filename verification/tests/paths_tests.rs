use minidt::cli::OutputType;
use minidt::paths::PathB;

fn path(absolute: bool, components: &[&str]) -> PathB {
    PathB { absolute, components: components.iter().map(|c| c.to_string()).collect() }
}

#[test]
fn join_appends_one_component() {
    let p = path(true, &["work", "proj"]);
    assert_eq!(p.join(&"models".to_string()), path(true, &["work", "proj", "models"]));
}

#[test]
fn join_path_appends_all_components() {
    let p = path(true, &["work"]);
    let q = path(false, &["a", "b"]);
    assert_eq!(p.join_path(&q), path(true, &["work", "a", "b"]));
}

#[test]
fn parent_drops_last_component() {
    let p = path(false, &["a", "b"]);
    assert_eq!(p.parent(), Some(path(false, &["a"])));
    assert_eq!(path(false, &[]).parent(), None);
}

#[test]
fn file_name_is_last_component() {
    let p = path(false, &["a", "b.sql"]);
    assert_eq!(p.file_name(), Some("b.sql".to_string()));
    assert_eq!(path(true, &[]).file_name(), None);
}

#[test]
fn strip_prefix_returns_remainder() {
    let base = path(true, &["work", "proj", "models"]);
    let p = path(true, &["work", "proj", "models", "a", "b"]);
    assert_eq!(p.strip_prefix(&base), Some(path(false, &["a", "b"])));
}

#[test]
fn strip_prefix_of_itself_is_empty() {
    let base = path(true, &["work"]);
    assert_eq!(base.clone().strip_prefix(&base), Some(path(false, &[])));
}

#[test]
fn strip_prefix_rejects_non_prefix() {
    let base = path(true, &["work", "proj", "models"]);
    let p = path(true, &["work", "proj", "seeds", "a"]);
    assert_eq!(p.strip_prefix(&base), None);
    // Absoluteness must agree as well.
    let q = path(false, &["work", "proj", "models", "a"]);
    assert_eq!(q.strip_prefix(&base), None);
}

#[test]
fn empty_path_is_relative_identity() {
    let p = path(true, &["x"]);
    assert_eq!(p.join_path(&PathB::empty()), p);
}

#[test]
fn output_type_defaults_to_view() {
    assert_eq!(OutputType::default(), OutputType::View);
}
