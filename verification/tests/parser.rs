use portfolio::command::{parse, Command, HistorySubCommand, ParseErrorKind};

#[test]
fn empty_input_is_no_command() {
    let e = parse("").unwrap_err();
    assert_eq!(e.kind, ParseErrorKind::NoCommand);
}

#[test]
fn whitespace_input_is_no_command() {
    let e = parse("   \t  \n ").unwrap_err();
    assert_eq!(e.kind, ParseErrorKind::NoCommand);
}

#[test]
fn unknown_command_lists_vocabulary() {
    let e = parse("frobnicate").unwrap_err();
    assert_eq!(e.kind, ParseErrorKind::UnknownCommand);
    for word in ["about", "contact", "skills", "projects", "diff", "conway", "history"] {
        assert!(e.message.contains(word));
    }
}

#[test]
fn plain_commands_parse() {
    assert_eq!(parse("about"), Ok(Command::About));
    assert_eq!(parse("contact"), Ok(Command::Contact));
    assert_eq!(parse("skills"), Ok(Command::Skills));
    assert_eq!(parse("projects"), Ok(Command::Projects));
    assert_eq!(parse("diff"), Ok(Command::Diff));
}

#[test]
fn plain_commands_reject_arguments() {
    for line in ["about me", "contact now", "skills rust", "projects all", "diff a b"] {
        let e = parse(line).unwrap_err();
        assert_eq!(e.kind, ParseErrorKind::UnexpectedArgument);
    }
}

#[test]
fn matching_is_case_insensitive() {
    assert_eq!(parse("AbOuT"), Ok(Command::About));
    assert_eq!(parse("  CONWAY   --ABOUT  "), Ok(Command::Conway { about: true }));
}

#[test]
fn conway_flag() {
    assert_eq!(parse("conway"), Ok(Command::Conway { about: false }));
    assert_eq!(parse("conway --about"), Ok(Command::Conway { about: true }));
    assert_eq!(parse("conway -a"), Ok(Command::Conway { about: true }));
    let e = parse("conway extra").unwrap_err();
    assert_eq!(e.kind, ParseErrorKind::UnexpectedArgument);
}

#[test]
fn history_subcommands() {
    assert_eq!(parse("history"), Ok(Command::History { sub: None }));
    assert_eq!(
        parse("history clear"),
        Ok(Command::History { sub: Some(HistorySubCommand::Clear) })
    );
    assert_eq!(
        parse("history index 2"),
        Ok(Command::History { sub: Some(HistorySubCommand::Index { num: 2 }) })
    );
    let e = parse("history index abc").unwrap_err();
    assert_eq!(e.kind, ParseErrorKind::InvalidValue);
}

#[test]
fn history_index_edges() {
    assert_eq!(
        parse("history index 0"),
        Ok(Command::History { sub: Some(HistorySubCommand::Index { num: 0 }) })
    );
    assert_eq!(
        parse("history index 18446744073709551615"),
        Ok(Command::History { sub: Some(HistorySubCommand::Index { num: u64::MAX }) })
    );
    let e = parse("history index 18446744073709551616").unwrap_err();
    assert_eq!(e.kind, ParseErrorKind::InvalidValue);
    let e = parse("history index").unwrap_err();
    assert_eq!(e.kind, ParseErrorKind::InvalidValue);
    let e = parse("history index 1 2").unwrap_err();
    assert_eq!(e.kind, ParseErrorKind::UnexpectedArgument);
    let e = parse("history bogus").unwrap_err();
    assert_eq!(e.kind, ParseErrorKind::UnexpectedArgument);
}

#[test]
fn help_is_a_structured_error() {
    let e = parse("help").unwrap_err();
    assert_eq!(e.kind, ParseErrorKind::Help);
    assert!(e.message.contains("USAGE"));
    let e = parse("--help").unwrap_err();
    assert_eq!(e.kind, ParseErrorKind::Help);
}

#[test]
fn help_anywhere_short_circuits() {
    let e = parse("conway --help").unwrap_err();
    assert_eq!(e.kind, ParseErrorKind::Help);
    assert!(e.message.contains("conway"));
    let e = parse("history help").unwrap_err();
    assert_eq!(e.kind, ParseErrorKind::Help);
    assert!(e.message.contains("history"));
    let e = parse("zzz --help").unwrap_err();
    assert_eq!(e.kind, ParseErrorKind::Help);
    assert!(e.message.contains("<command>"));
}

#[test]
fn multibyte_tokens_are_handled() {
    let e = parse("héllo").unwrap_err();
    assert_eq!(e.kind, ParseErrorKind::UnknownCommand);
}

#[test]
fn error_messages_carry_color_escapes() {
    let e = parse("frobnicate").unwrap_err();
    assert!(e.message.contains("\u{1b}[31m"));
}
