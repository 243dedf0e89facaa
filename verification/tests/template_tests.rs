use minidt::config::Config;
use minidt::errors::Error;
use minidt::paths::PathB;
use minidt::template::{
    compile_template, output_file_name, resolve_input_path, resolve_output_path,
    select_input_file,
};

fn path(absolute: bool, components: &[&str]) -> PathB {
    PathB { absolute, components: components.iter().map(|c| c.to_string()).collect() }
}

fn default_config() -> Config {
    Config::default()
}

#[test]
fn output_file_name_strips_marker() {
    assert_eq!(output_file_name(&"b.sql.jinja".to_string()), "b.sql");
}

#[test]
fn output_file_name_forces_sql_extension() {
    assert_eq!(output_file_name(&"report.txt".to_string()), "report.sql");
    assert_eq!(output_file_name(&"plain".to_string()), "plain.sql");
}

#[test]
fn output_file_name_removes_marker_inside_stem() {
    // Stem of "b.jinja.sql" is "b.jinja"; the marker is removed from it.
    assert_eq!(output_file_name(&"b.jinja.sql".to_string()), "b.sql");
}

#[test]
fn output_file_name_bare_marker_suffix() {
    assert_eq!(output_file_name(&"a.jinja".to_string()), "a.sql");
}

#[test]
fn output_file_name_removes_repeated_markers() {
    assert_eq!(output_file_name(&"model.sql.jinja.jinja".to_string()), "model.sql");
}

#[test]
fn output_file_name_keeps_leading_dot_name() {
    assert_eq!(output_file_name(&".gitignore".to_string()), ".gitignore.sql");
}

#[test]
fn compile_derives_output_under_outputs_folder() {
    // Project at /work/proj, templates folder `models`, outputs `compiled`.
    // Input models/a/b.sql.jinja compiles to compiled/a/b.sql.
    let root_parent = path(true, &["work", "proj"]);
    let canonical = path(true, &["work", "proj", "models", "a", "b.sql.jinja"]);
    let plan = compile_template(false, false, &canonical, None, &default_config(), &root_parent)
        .unwrap();
    assert_eq!(plan.template_rel, path(false, &["a", "b.sql.jinja"]));
    assert_eq!(plan.output_path, path(true, &["work", "proj", "compiled", "a", "b.sql"]));
}

#[test]
fn compile_uses_explicit_output() {
    let root_parent = path(true, &["work", "proj"]);
    let canonical = path(true, &["work", "proj", "models", "b.sql.jinja"]);
    let explicit = path(false, &["here.sql"]);
    let plan = compile_template(
        false,
        false,
        &canonical,
        Some(&explicit),
        &default_config(),
        &root_parent,
    )
    .unwrap();
    assert_eq!(plan.template_rel, path(false, &["b.sql.jinja"]));
    assert_eq!(plan.output_path, explicit);
}

#[test]
fn compile_outside_templates_fails() {
    // A sibling directory of the templates folder is refused.
    let root_parent = path(true, &["work", "proj"]);
    let canonical = path(true, &["work", "proj", "seeds", "b.sql.jinja"]);
    let r = compile_template(false, false, &canonical, None, &default_config(), &root_parent);
    assert_eq!(r, Err(Error::PathOutsideTemplates));
}

#[test]
fn compile_directory_without_root_template_fails() {
    let root_parent = path(true, &["work", "proj"]);
    let canonical = path(true, &["work", "proj", "models", "marts"]);
    let r = compile_template(true, false, &canonical, None, &default_config(), &root_parent);
    assert_eq!(r, Err(Error::MissingRootTemplate));
}

#[test]
fn compile_templates_folder_itself_has_no_file_name() {
    let root_parent = path(true, &["work", "proj"]);
    let canonical = path(true, &["work", "proj", "models"]);
    let r = compile_template(false, false, &canonical, None, &default_config(), &root_parent);
    assert_eq!(r, Err(Error::InvalidFileName));
}

#[test]
fn select_file_input_is_kept() {
    let input = path(false, &["models", "b.sql.jinja"]);
    let r = select_input_file(&input, false, &"root.sql.jinja".to_string(), false).unwrap();
    assert_eq!(r, input);
}

#[test]
fn select_directory_substitutes_root_template() {
    let input = path(false, &["models", "marts"]);
    let r = select_input_file(&input, true, &"root.sql.jinja".to_string(), true).unwrap();
    assert_eq!(r, path(false, &["models", "marts", "root.sql.jinja"]));
}

#[test]
fn select_directory_missing_root_template_fails() {
    let input = path(false, &["models", "marts"]);
    let r = select_input_file(&input, true, &"root.sql.jinja".to_string(), false);
    assert_eq!(r, Err(Error::MissingRootTemplate));
}

#[test]
fn resolve_input_inside_templates() {
    let templates = path(true, &["work", "proj", "models"]);
    let canonical = path(true, &["work", "proj", "models", "a", "b.sql.jinja"]);
    let rel = resolve_input_path(&canonical, &templates).unwrap();
    assert_eq!(rel, path(false, &["a", "b.sql.jinja"]));
}

#[test]
fn resolve_input_outside_templates() {
    let templates = path(true, &["work", "proj", "models"]);
    let canonical = path(true, &["work", "other", "b.sql.jinja"]);
    let r = resolve_input_path(&canonical, &templates);
    assert_eq!(r, Err(Error::PathOutsideTemplates));
}

#[test]
fn resolve_output_derives_nested_path() {
    let root_parent = path(true, &["work", "proj"]);
    let rel = path(false, &["a", "b", "c.sql.jinja"]);
    let out = resolve_output_path(None, &rel, &default_config(), &root_parent).unwrap();
    assert_eq!(out, path(true, &["work", "proj", "compiled", "a", "b", "c.sql"]));
}

#[test]
fn resolve_output_empty_input_fails() {
    let root_parent = path(true, &["work", "proj"]);
    let rel = path(false, &[]);
    let r = resolve_output_path(None, &rel, &default_config(), &root_parent);
    assert_eq!(r, Err(Error::InvalidFileName));
}
