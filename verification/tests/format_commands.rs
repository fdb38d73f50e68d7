use calcli::commands::{CommandHandler, CommandResult, DisplayFormat};

#[test]
fn default_settings() {
    let h = CommandHandler::new();
    assert!(h.display_format() == DisplayFormat::Normal);
    assert_eq!(h.decimal_places(), 3);
}

#[test]
fn is_command_checks_sentinel() {
    assert!(CommandHandler::is_command(":q"));
    assert!(CommandHandler::is_command(":anything"));
    assert!(!CommandHandler::is_command("1+2"));
    assert!(!CommandHandler::is_command(""));
}

#[test]
fn quit_command_is_case_insensitive() {
    let mut h = CommandHandler::new();
    assert!(matches!(h.execute_command(":q"), Ok(CommandResult::Quit)));
    assert!(matches!(h.execute_command(":Q"), Ok(CommandResult::Quit)));
}

#[test]
fn help_command() {
    let mut h = CommandHandler::new();
    assert!(matches!(h.execute_command(":h"), Ok(CommandResult::Help)));
}

#[test]
fn decimal_command_sets_normal_format() {
    let mut h = CommandHandler::new();
    match h.execute_command(":d2") {
        Ok(CommandResult::FormatChanged(m)) => {
            assert_eq!(m, "Set to normal notation with 2 decimal places");
        }
        _ => panic!("expected a format change"),
    }
    assert!(h.display_format() == DisplayFormat::Normal);
    assert_eq!(h.decimal_places(), 2);
}

#[test]
fn scientific_command_sets_scientific_format() {
    let mut h = CommandHandler::new();
    match h.execute_command(":s1") {
        Ok(CommandResult::FormatChanged(m)) => {
            assert_eq!(m, "Set to scientific notation with 1 decimal places");
        }
        _ => panic!("expected a format change"),
    }
    assert!(h.display_format() == DisplayFormat::Scientific);
    assert_eq!(h.decimal_places(), 1);
}

#[test]
fn omitted_count_defaults_to_three() {
    let mut h = CommandHandler::new();
    assert!(h.execute_command(":s12").is_ok());
    match h.execute_command(":d") {
        Ok(CommandResult::FormatChanged(m)) => {
            assert_eq!(m, "Set to normal notation with 3 decimal places");
        }
        _ => panic!("expected a format change"),
    }
    assert!(h.display_format() == DisplayFormat::Normal);
    assert_eq!(h.decimal_places(), 3);
}

#[test]
fn overflowing_count_fails_and_keeps_state() {
    let mut h = CommandHandler::new();
    assert!(h.execute_command(":s4").is_ok());
    assert_eq!(
        h.execute_command(":d9999999999999999999"),
        Err("Invalid decimal count: '9999999999999999999'".to_string())
    );
    assert!(h.display_format() == DisplayFormat::Scientific);
    assert_eq!(h.decimal_places(), 4);
}

#[test]
fn malformed_count_fails_and_keeps_state() {
    let mut h = CommandHandler::new();
    assert_eq!(
        h.execute_command(":s2x"),
        Err("Invalid decimal count: '2x'".to_string())
    );
    assert!(h.display_format() == DisplayFormat::Normal);
    assert_eq!(h.decimal_places(), 3);
}

#[test]
fn unknown_command_fails_and_keeps_state() {
    let mut h = CommandHandler::new();
    assert_eq!(
        h.execute_command(":z"),
        Err("Unknown command: ':z'".to_string())
    );
    assert!(h.display_format() == DisplayFormat::Normal);
    assert_eq!(h.decimal_places(), 3);
}
