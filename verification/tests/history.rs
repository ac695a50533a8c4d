use portfolio::command::{Command, HistorySubCommand, ParseErrorKind};
use portfolio::history::HistoryStore;
use portfolio::shell::submit;

#[test]
fn entries_come_back_in_submission_order() {
    let mut h = HistoryStore::new();
    h.push("about".to_string());
    h.push("skills".to_string());
    assert_eq!(h.all(), &vec!["about".to_string(), "skills".to_string()]);
    assert_eq!(h.at(1), Some(&"about".to_string()));
    assert_eq!(h.at(2), Some(&"skills".to_string()));
    assert_eq!(h.at(3), None);
    assert_eq!(h.at(0), None);
}

#[test]
fn duplicates_are_kept() {
    let mut h = HistoryStore::new();
    h.push("about".to_string());
    h.push("about".to_string());
    assert_eq!(h.len(), 2);
    assert_eq!(h.at(2), Some(&"about".to_string()));
}

#[test]
fn clear_empties_immediately() {
    let mut h = HistoryStore::new();
    h.push("about".to_string());
    h.push("skills".to_string());
    h.clear();
    assert_eq!(h.len(), 0);
    assert!(h.all().is_empty());
    assert_eq!(h.at(1), None);
}

#[test]
fn submission_is_recorded_before_parsing() {
    let mut h = HistoryStore::new();
    let r = submit(&mut h, "conway");
    assert_eq!(r, Ok(Command::Conway { about: false }));
    assert_eq!(h.all(), &vec!["conway".to_string()]);
}

#[test]
fn unparseable_submission_still_grows_history_by_one() {
    let mut h = HistoryStore::new();
    let before = h.len();
    let r = submit(&mut h, "no such command");
    assert_eq!(r.unwrap_err().kind, ParseErrorKind::UnknownCommand);
    assert_eq!(h.len(), before + 1);
    assert_eq!(h.at(1), Some(&"no such command".to_string()));
}

#[test]
fn raw_text_is_recorded_not_normalized() {
    let mut h = HistoryStore::new();
    submit(&mut h, "  CONWAY  ").unwrap();
    assert_eq!(h.at(1), Some(&"  CONWAY  ".to_string()));
}

#[test]
fn history_clear_command_wipes_the_log() {
    let mut h = HistoryStore::new();
    submit(&mut h, "about").unwrap();
    submit(&mut h, "skills").unwrap();
    let r = submit(&mut h, "history clear");
    assert_eq!(r, Ok(Command::History { sub: Some(HistorySubCommand::Clear) }));
    assert_eq!(h.len(), 0);
    assert_eq!(h.at(1), None);
}

#[test]
fn history_show_commands_leave_the_log_alone() {
    let mut h = HistoryStore::new();
    submit(&mut h, "about").unwrap();
    let r = submit(&mut h, "history");
    assert_eq!(r, Ok(Command::History { sub: None }));
    let r = submit(&mut h, "history index 1");
    assert_eq!(r, Ok(Command::History { sub: Some(HistorySubCommand::Index { num: 1 }) }));
    assert_eq!(h.len(), 3);
    assert_eq!(h.at(1), Some(&"about".to_string()));
}
