use rocknrolla::cli::{parse_options, DEFAULT_DATABASE, DEFAULT_SERVER};

fn args(list: &[&str]) -> Vec<String> {
    list.iter().map(|s| s.to_string()).collect()
}

#[test]
fn reads_flags_values_and_paths() {
    let o = parse_options(&args(&["--dry-run", "levels/", "--database", "other-db", "a.json"])).unwrap();
    assert!(o.dry_run);
    assert_eq!(o.database, "other-db");
    assert_eq!(o.server, DEFAULT_SERVER);
    assert_eq!(o.paths, vec!["levels/", "a.json"]);
}

#[test]
fn defaults_to_the_development_database() {
    let o = parse_options(&args(&["seed.json"])).unwrap();
    assert!(!o.dry_run);
    assert_eq!(o.database, "rocknrolladb-dev");
    assert_eq!(DEFAULT_DATABASE, "rocknrolladb-dev");
    assert_eq!(o.server, "maincloud");
}

#[test]
fn a_flag_value_may_look_like_a_flag() {
    let o = parse_options(&args(&["--server", "--local", "x"])).unwrap();
    assert_eq!(o.server, "--local");
    assert_eq!(o.paths, vec!["x"]);
}

#[test]
fn rejects_missing_values_unknown_flags_and_no_paths() {
    assert_eq!(parse_options(&args(&["x", "--database"])).err(), Some("--database needs a value".to_string()));
    assert_eq!(parse_options(&args(&["x", "--server"])).err(), Some("--server needs a value".to_string()));
    assert_eq!(parse_options(&args(&["--force", "x"])).err(), Some("unknown flag '--force'".to_string()));
    assert_eq!(parse_options(&args(&["--dry-run"])).err(), Some("no input paths given".to_string()));
    assert_eq!(parse_options(&args(&[])).err(), Some("no input paths given".to_string()));
}
