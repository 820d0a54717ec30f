use rocknrolla::command::{parse_line, Command, CommandError};

#[test]
fn parses_valid_commands() {
    assert_eq!(parse_line("help").unwrap(), Some(Command::Help));
    assert_eq!(parse_line(" status ").unwrap(), Some(Command::Status));
    assert_eq!(parse_line("validate all").unwrap(), Some(Command::ValidateAll));
    assert_eq!(parse_line("validate levels").unwrap(), Some(Command::ValidateLevels(None)));
    assert_eq!(
        parse_line("import levels ../content/generated").unwrap(),
        Some(Command::ImportLevels(Some("../content/generated".into())))
    );
    assert_eq!(
        parse_line("import seed custom/seed.json").unwrap(),
        Some(Command::ImportSeed(Some("custom/seed.json".into())))
    );
    assert_eq!(parse_line("import all").unwrap(), Some(Command::ImportAll));
    assert_eq!(
        parse_line("validate components ../content/components").unwrap(),
        Some(Command::ValidateComponents(Some("../content/components".into())))
    );
    assert_eq!(
        parse_line("import components").unwrap(),
        Some(Command::ImportComponents(None))
    );
    assert_eq!(
        parse_line("export components /tmp/out").unwrap(),
        Some(Command::ExportComponents("/tmp/out".into()))
    );
}

#[test]
fn parses_new_content_commands() {
    assert_eq!(
        parse_line("validate characters").unwrap(),
        Some(Command::ValidateCharacters(None))
    );
    assert_eq!(parse_line("validate faces").unwrap(), Some(Command::ValidateFaces(None)));
    assert_eq!(
        parse_line("validate backdrops ../content/backdrops").unwrap(),
        Some(Command::ValidateBackdrops(Some("../content/backdrops".into())))
    );
    assert_eq!(
        parse_line("import characters").unwrap(),
        Some(Command::ImportCharacters(None))
    );
    assert_eq!(
        parse_line("import faces custom/faces").unwrap(),
        Some(Command::ImportFaces(Some("custom/faces".into())))
    );
    assert_eq!(parse_line("import backdrops").unwrap(), Some(Command::ImportBackdrops(None)));
}

#[test]
fn parses_configuration_commands() {
    assert_eq!(
        parse_line("set server maincloud").unwrap(),
        Some(Command::SetServer("maincloud".into()))
    );
    assert_eq!(
        parse_line("set database rocknrolladb").unwrap(),
        Some(Command::SetDatabase("rocknrolladb".into()))
    );
}

#[test]
fn parses_exit_commands_and_blank_lines() {
    assert_eq!(parse_line("quit").unwrap(), Some(Command::Quit));
    assert_eq!(parse_line("exit").unwrap(), Some(Command::Quit));
    assert_eq!(parse_line("   ").unwrap(), None);
    assert_eq!(parse_line("").unwrap(), None);
}

#[test]
fn rejects_malformed_commands() {
    assert!(parse_line("import").is_err());
    assert!(parse_line("set server").is_err());
    assert!(parse_line("set database").is_err());
    assert!(parse_line("validate levels a b").is_err());
    assert!(parse_line("validate characters a b").is_err());
    assert!(parse_line("frobnicate").is_err());
    assert!(parse_line("export components").is_err());
    assert!(parse_line("export levels /tmp/out").is_err());
}

#[test]
fn refusals_carry_the_trimmed_line_and_their_text() {
    let err = parse_line("  set   server \t").unwrap_err();
    assert_eq!(err, CommandError::NeedsValue("set   server".to_string()));
    assert_eq!(err.message(), "'set   server' needs a value");
    let err = parse_line(" frobnicate now ").unwrap_err();
    assert_eq!(err.message(), "unknown command 'frobnicate now'");
    assert_eq!(parse_line("import seed a b").unwrap_err(), CommandError::TooManyPaths);
    assert_eq!(parse_line("import seed a b").unwrap_err().message(), "expected at most one path");
    assert_eq!(
        parse_line("export components").unwrap_err().message(),
        "'export components' needs a target directory"
    );
    // "validate all" takes no path.
    assert!(matches!(parse_line("validate all x"), Err(CommandError::Unknown(_))));
}

#[test]
fn splits_on_unicode_whitespace() {
    assert_eq!(
        parse_line("set\u{3000}server\u{00a0}maincloud").unwrap(),
        Some(Command::SetServer("maincloud".into()))
    );
    assert_eq!(parse_line("\u{2028}\t\n").unwrap(), None);
}
