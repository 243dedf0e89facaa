use minidt::config::{config_from_toml, config_to_toml, create_defualt_config, Config};
use minidt::errors::Error;

fn config(macros: &str, templates: &str, outputs: &str, root: &str) -> Config {
    Config {
        macros_folder: macros.to_string(),
        templates_folder: templates.to_string(),
        outputs_folder: outputs.to_string(),
        root_template: root.to_string(),
    }
}

#[test]
fn default_config_fields() {
    let c = Config::default();
    assert_eq!(c, config("macros", "models", "compiled", "root.sql.jinja"));
}

#[test]
fn serialized_default_is_exact() {
    let c = Config::default();
    let text = config_to_toml(&c);
    assert_eq!(
        text,
        "macros_folder = \"macros\"\ntemplates_folder = \"models\"\noutputs_folder = \"compiled\"\nroot_template = \"root.sql.jinja\"\n"
    );
}

#[test]
fn create_defualt_config_matches_default() {
    let (c, text) = create_defualt_config();
    assert_eq!(c, Config::default());
    assert_eq!(text, config_to_toml(&Config::default()));
}

#[test]
fn roundtrip_plain_values() {
    let c = config("m1", "my models", "out-dir", "base.sql.jinja");
    let loaded = config_from_toml(&config_to_toml(&c)).unwrap();
    assert_eq!(loaded, c);
}

#[test]
fn roundtrip_escaped_characters() {
    let c = config("quote\"inside", "back\\slash", "line\nbreak\ttab", "cr\rreturn");
    let text = config_to_toml(&c);
    let loaded = config_from_toml(&text).unwrap();
    assert_eq!(loaded, c);
}

#[test]
fn roundtrip_empty_values() {
    let c = config("", "", "", "");
    let loaded = config_from_toml(&config_to_toml(&c)).unwrap();
    assert_eq!(loaded, c);
}

#[test]
fn parse_tolerates_comments_blanks_and_spacing() {
    let text = "# project configuration\n\n  macros_folder   =   \"m\"  \ntemplates_folder=\"t\"\n# trailing comment\noutputs_folder = \"o\"\nroot_template = \"r\"";
    let c = config_from_toml(text).unwrap();
    assert_eq!(c, config("m", "t", "o", "r"));
}

#[test]
fn parse_tolerates_crlf_line_endings() {
    let text = "macros_folder = \"m\"\r\ntemplates_folder = \"t\"\r\noutputs_folder = \"o\"\r\nroot_template = \"r\"\r\n";
    let c = config_from_toml(text).unwrap();
    assert_eq!(c, config("m", "t", "o", "r"));
}

#[test]
fn parse_ignores_unknown_keys() {
    let text = "macros_folder = \"m\"\nextra_key = \"whatever\"\ntemplates_folder = \"t\"\noutputs_folder = \"o\"\nroot_template = \"r\"\n";
    let c = config_from_toml(text).unwrap();
    assert_eq!(c, config("m", "t", "o", "r"));
}

#[test]
fn parse_missing_field_fails() {
    let text = "macros_folder = \"m\"\ntemplates_folder = \"t\"\noutputs_folder = \"o\"\n";
    assert_eq!(config_from_toml(text), Err(Error::ParseError));
}

#[test]
fn parse_duplicate_field_fails() {
    let text = "macros_folder = \"m\"\nmacros_folder = \"again\"\ntemplates_folder = \"t\"\noutputs_folder = \"o\"\nroot_template = \"r\"\n";
    assert_eq!(config_from_toml(text), Err(Error::ParseError));
}

#[test]
fn parse_unquoted_value_fails() {
    let text = "macros_folder = macros\n";
    assert_eq!(config_from_toml(text), Err(Error::ParseError));
}

#[test]
fn parse_unterminated_string_fails() {
    let text = "macros_folder = \"m\ntemplates_folder = \"t\"\n";
    assert_eq!(config_from_toml(text), Err(Error::ParseError));
}

#[test]
fn parse_unknown_escape_fails() {
    let text = "macros_folder = \"\\q\"\n";
    assert_eq!(config_from_toml(text), Err(Error::ParseError));
}

#[test]
fn parse_garbage_after_value_fails() {
    let text = "macros_folder = \"m\" junk\n";
    assert_eq!(config_from_toml(text), Err(Error::ParseError));
}

#[test]
fn parse_empty_text_fails_for_missing_fields() {
    assert_eq!(config_from_toml(""), Err(Error::ParseError));
}
