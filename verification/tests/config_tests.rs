use scrutin::config::Config;

/// Reads the `[env]` table of a TOML document into a configuration, in key
/// order, and checks it, as loading the configuration file does.
fn parse(s: &str) -> Result<Config, String> {
    let v: toml::Value = toml::from_str(s).map_err(|e| e.to_string())?;
    let mut cfg = Config::default();
    if let Some(t) = v.get("env").and_then(|e| e.as_table()) {
        let mut pairs: Vec<(String, String)> = t
            .iter()
            .map(|(k, v)| (k.clone(), v.as_str().unwrap_or_default().to_string()))
            .collect();
        pairs.sort();
        cfg.env = pairs;
    }
    cfg.validate_env()?;
    Ok(cfg)
}

fn env_get<'a>(cfg: &'a Config, key: &str) -> Option<&'a str> {
    cfg.env.iter().find(|(k, _)| k == key).map(|(_, v)| v.as_str())
}

#[test]
fn empty_env_section_is_default() {
    let cfg = parse("").unwrap();
    assert!(cfg.env.is_empty());
}

#[test]
fn env_section_round_trips() {
    let cfg = parse(
        r#"
[env]
RUST_LOG = "debug"
DATABASE_URL = "postgres://localhost/test"
EMPTY = ""
"#,
    )
    .unwrap();
    assert_eq!(env_get(&cfg, "RUST_LOG"), Some("debug"));
    assert_eq!(env_get(&cfg, "DATABASE_URL"), Some("postgres://localhost/test"));
    assert_eq!(env_get(&cfg, "EMPTY"), Some(""));
}

#[test]
fn env_rejects_case_insensitive_duplicates() {
    let err = parse(
        r#"
[env]
Path = "a"
PATH = "b"
"#,
    )
    .unwrap_err();
    assert!(err.contains("case-insensitive"), "got: {err}");
}

#[test]
fn env_rejects_invalid_key_chars() {
    assert!(parse("[env]\n\"FOO=BAR\" = \"x\"\n").is_err());
    assert!(parse("[env]\n\" FOO\" = \"x\"\n").is_err());
    assert!(parse("[env]\n\"\" = \"x\"\n").is_err());
}

#[test]
fn env_error_messages_name_the_key() {
    assert_eq!(
        parse("[env]\n\"\" = \"x\"\n").unwrap_err(),
        "invalid [env] key: empty string"
    );
    assert_eq!(
        parse("[env]\n\"A=B\" = \"x\"\n").unwrap_err(),
        "invalid [env] key \"A=B\": contains '=' or NUL"
    );
    assert_eq!(
        parse("[env]\n\"FOO \" = \"x\"\n").unwrap_err(),
        "invalid [env] key \"FOO \": leading or trailing whitespace"
    );
    assert_eq!(
        parse("[env]\nPath = \"a\"\nPATH = \"b\"\n").unwrap_err(),
        "duplicate [env] key (case-insensitive, breaks on Windows): \"PATH\" vs \"Path\""
    );
}
