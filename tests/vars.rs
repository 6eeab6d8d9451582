use cleanroom::config::Root;
use cleanroom::vars::{EnvValue, ResolveError};

fn text(n: &str, v: &str) -> (String, EnvValue) {
    (n.to_string(), EnvValue::Text(v.to_string()))
}

fn pair(n: &str, v: &str) -> (String, String) {
    (n.to_string(), v.to_string())
}

#[test]
fn inherits_in_order() {
    let mut root = Root::new();
    root.vars.inherit = vec!["HOME".to_string(), "TERM".to_string()];
    let env = vec![text("TERM", "xterm"), text("HOME", "/h"), text("OTHER", "o")];
    assert_eq!(root.vars.to_env(&env), Ok(vec![pair("HOME", "/h"), pair("TERM", "xterm")]));
}

#[test]
fn missing_variable_with_exit_fails() {
    let mut root = Root::new();
    root.vars.inherit = vec!["HOME".to_string(), "NOPE".to_string(), "ALSO_NOPE".to_string()];
    root.vars.set = vec![pair("A", "1")];
    let env = vec![text("HOME", "/h")];
    assert_eq!(root.vars.to_env(&env), Err(ResolveError::MissingVariable("NOPE".to_string())));
}

#[test]
fn missing_variable_without_exit_is_skipped() {
    let mut root = Root::new();
    root.vars.exit_on_missing = false;
    root.vars.inherit = vec!["NOPE".to_string(), "HOME".to_string()];
    let env = vec![text("HOME", "/h")];
    assert_eq!(root.vars.to_env(&env), Ok(vec![pair("HOME", "/h")]));
}

#[test]
fn set_overrides_inherited() {
    let mut root = Root::new();
    root.vars.inherit = vec!["HOME".to_string()];
    root.vars.set = vec![pair("HOME", "/x"), pair("A", "1")];
    let env = vec![text("HOME", "/h")];
    assert_eq!(root.vars.to_env(&env), Ok(vec![pair("HOME", "/x"), pair("A", "1")]));
}

#[test]
fn set_kept_when_inherited_is_missing() {
    let mut root = Root::new();
    root.vars.exit_on_missing = false;
    root.vars.inherit = vec!["NOPE".to_string()];
    root.vars.set = vec![pair("NOPE", "v")];
    assert_eq!(root.vars.to_env(&Vec::new()), Ok(vec![pair("NOPE", "v")]));
}

#[test]
fn not_unicode_fails_even_without_exit() {
    let mut root = Root::new();
    root.vars.exit_on_missing = false;
    root.vars.inherit = vec!["X".to_string()];
    let env = vec![("X".to_string(), EnvValue::NotUnicode)];
    assert_eq!(
        root.vars.to_env(&env),
        Err(ResolveError::InvalidVariableEncoding("X".to_string()))
    );
}

#[test]
fn first_failure_in_order_wins() {
    let mut root = Root::new();
    root.vars.inherit = vec!["BAD".to_string(), "NOPE".to_string()];
    let env = vec![("BAD".to_string(), EnvValue::NotUnicode)];
    assert_eq!(
        root.vars.to_env(&env),
        Err(ResolveError::InvalidVariableEncoding("BAD".to_string()))
    );
}

#[test]
fn first_of_duplicate_snapshot_names_is_used() {
    let mut root = Root::new();
    root.vars.inherit = vec!["A".to_string(), "A".to_string()];
    let env = vec![text("A", "first"), text("A", "second")];
    assert_eq!(root.vars.to_env(&env), Ok(vec![pair("A", "first")]));
}

#[test]
fn nothing_to_inherit_gives_set_only() {
    let mut root = Root::new();
    root.vars.set = vec![pair("B", "2")];
    assert_eq!(root.vars.to_env(&vec![text("B", "host")]), Ok(vec![pair("B", "2")]));
}
