use cleanroom::config::{ConfigError, Field, Root, TomlValue};

fn s(x: &str) -> String {
    x.to_string()
}

fn table(entries: Vec<(&str, TomlValue)>) -> TomlValue {
    TomlValue::Table(entries.into_iter().map(|(k, v)| (s(k), v)).collect())
}

fn doc(entries: Vec<(&str, TomlValue)>) -> Vec<(String, TomlValue)> {
    entries.into_iter().map(|(k, v)| (s(k), v)).collect()
}

fn strs(v: &[&str]) -> TomlValue {
    TomlValue::Array(v.iter().map(|x| TomlValue::Str(s(x))).collect())
}

fn assert_defaults_except_shell_bin(r: &Root, bin: &str) {
    assert_eq!(r.shell.bin, bin);
    assert!(!r.shell.login);
    assert!(r.shell.interactive);
    assert!(r.shell.noprofile);
    assert!(!r.shell.norc);
    assert!(r.vars.inherit.is_empty());
    assert!(r.vars.exit_on_missing);
    assert!(r.vars.set.is_empty());
    assert_eq!(r.bin.inherit_dirs, vec!["/usr/local/bin", "/bin", "/usr/bin"]);
    assert!(r.bin.inherit.is_empty());
    assert!(r.bin.exit_on_change);
    assert!(r.bin.exit_on_not_found);
}

#[test]
fn new_config_has_defaults() {
    assert_defaults_except_shell_bin(&Root::new(), "/bin/sh");
}

#[test]
fn empty_document_gives_defaults() {
    let r = Root::load(&Vec::new()).unwrap();
    assert_defaults_except_shell_bin(&r, "/bin/sh");
}

#[test]
fn partial_document_keeps_other_defaults() {
    let d = doc(vec![("shell", table(vec![("bin", TomlValue::Str(s("/bin/bash")))]))]);
    let r = Root::load(&d).unwrap();
    assert_defaults_except_shell_bin(&r, "/bin/bash");
}

#[test]
fn empty_sections_give_defaults() {
    let d = doc(vec![("shell", table(vec![])), ("vars", table(vec![])), ("bin", table(vec![]))]);
    assert_defaults_except_shell_bin(&Root::load(&d).unwrap(), "/bin/sh");
}

#[test]
fn unknown_keys_are_ignored() {
    let d = doc(vec![
        ("extra", TomlValue::Other),
        ("shell", table(vec![("prompt", TomlValue::Str(s("$ "))), ("login", TomlValue::Bool(true))])),
    ]);
    let r = Root::load(&d).unwrap();
    assert!(r.shell.login);
    assert!(r.shell.interactive);
}

#[test]
fn fields_are_read() {
    let d = doc(vec![
        (
            "vars",
            table(vec![
                ("inherit", strs(&["HOME", "TERM"])),
                ("exit_on_missing", TomlValue::Bool(false)),
                ("set", table(vec![("A", TomlValue::Str(s("1"))), ("B", TomlValue::Str(s("2")))])),
            ]),
        ),
        (
            "bin",
            table(vec![
                ("inherit_dirs", strs(&["/a", "/b"])),
                ("inherit", strs(&["ls", "/bin/cat"])),
                ("exit_on_change", TomlValue::Bool(false)),
                ("exit_on_not_found", TomlValue::Bool(false)),
            ]),
        ),
    ]);
    let r = Root::load(&d).unwrap();
    assert_eq!(r.vars.inherit, vec!["HOME", "TERM"]);
    assert!(!r.vars.exit_on_missing);
    assert_eq!(r.vars.set, vec![(s("A"), s("1")), (s("B"), s("2"))]);
    assert_eq!(r.bin.inherit_dirs, vec!["/a", "/b"]);
    assert_eq!(r.bin.inherit, vec!["ls", "/bin/cat"]);
    assert!(!r.bin.exit_on_change);
    assert!(!r.bin.exit_on_not_found);
}

#[test]
fn field_of_wrong_type_is_an_error() {
    let d = doc(vec![("shell", table(vec![("login", TomlValue::Str(s("yes")))]))]);
    assert_eq!(Root::load(&d).err(), Some(ConfigError::WrongType(Field::ShellLogin)));
    let d = doc(vec![("shell", table(vec![("bin", TomlValue::Bool(true))]))]);
    assert_eq!(Root::load(&d).err(), Some(ConfigError::WrongType(Field::ShellBin)));
}

#[test]
fn section_of_wrong_type_is_an_error() {
    let d = doc(vec![("vars", TomlValue::Bool(true))]);
    assert_eq!(Root::load(&d).err(), Some(ConfigError::WrongType(Field::Vars)));
}

#[test]
fn list_with_non_text_is_an_error() {
    let d = doc(vec![(
        "bin",
        table(vec![("inherit", TomlValue::Array(vec![TomlValue::Str(s("ls")), TomlValue::Bool(true)]))]),
    )]);
    assert_eq!(Root::load(&d).err(), Some(ConfigError::WrongType(Field::BinInherit)));
}

#[test]
fn mapping_with_non_text_is_an_error() {
    let d = doc(vec![("vars", table(vec![("set", table(vec![("A", TomlValue::Other)]))]))]);
    assert_eq!(Root::load(&d).err(), Some(ConfigError::WrongType(Field::VarsSet)));
}

#[test]
fn document_of_a_config_reads_back() {
    let mut root = Root::new();
    root.shell.bin = s("/bin/zsh");
    root.shell.login = true;
    root.vars.inherit = vec![s("HOME")];
    root.vars.set = vec![(s("A"), s("1"))];
    root.bin.inherit = vec![s("ls")];
    root.bin.exit_on_change = false;
    let back = Root::load(&root.to_doc()).unwrap();
    assert_eq!(back.shell.bin, "/bin/zsh");
    assert!(back.shell.login);
    assert_eq!(back.vars.inherit, vec!["HOME"]);
    assert_eq!(back.vars.set, vec![(s("A"), s("1"))]);
    assert_eq!(back.bin.inherit, vec!["ls"]);
    assert!(!back.bin.exit_on_change);
    assert!(back.bin.exit_on_not_found);
}

fn to_toml(v: &TomlValue) -> toml::Value {
    match v {
        TomlValue::Str(x) => toml::Value::String(x.clone()),
        TomlValue::Bool(b) => toml::Value::Boolean(*b),
        TomlValue::Array(items) => toml::Value::Array(items.iter().map(to_toml).collect()),
        TomlValue::Table(entries) => toml::Value::Table(to_toml_table(entries)),
        TomlValue::Other => toml::Value::Integer(0),
    }
}

fn to_toml_table(entries: &[(String, TomlValue)]) -> toml::Table {
    let mut t = toml::Table::new();
    for (k, v) in entries {
        t.insert(k.clone(), to_toml(v));
    }
    t
}

fn from_toml(v: &toml::Value) -> TomlValue {
    match v {
        toml::Value::String(x) => TomlValue::Str(x.clone()),
        toml::Value::Boolean(b) => TomlValue::Bool(*b),
        toml::Value::Array(items) => TomlValue::Array(items.iter().map(from_toml).collect()),
        toml::Value::Table(t) => TomlValue::Table(from_toml_table(t)),
        _ => TomlValue::Other,
    }
}

fn from_toml_table(t: &toml::Table) -> Vec<(String, TomlValue)> {
    t.iter().map(|(k, v)| (k.clone(), from_toml(v))).collect()
}

fn serialize(r: &Root) -> String {
    toml::to_string_pretty(&to_toml_table(&r.to_doc())).unwrap()
}

#[test]
fn default_config_text_round_trip() {
    let text = serialize(&Root::new());
    let parsed: toml::Table = toml::from_str(&text).unwrap();
    let loaded = Root::load(&from_toml_table(&parsed)).unwrap();
    assert_eq!(serialize(&loaded), text);
}
