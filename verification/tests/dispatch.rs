//! Dispatch of one invocation.

use tx::cli::{run, Action, Command};

#[test]
fn no_subcommand_records() {
    assert!(matches!(run(None), Action::Record));
}

#[test]
fn history_dispatches_with_limit() {
    match run(Some(Command::History { limit: 25 })) {
        Action::History { limit } => assert_eq!(limit, 25),
        _ => panic!("expected a history action"),
    }
}

#[test]
fn show_dispatches_with_id() {
    match run(Some(Command::Show { id: "a1b2c3d".to_owned() })) {
        Action::Show { id } => assert_eq!(id, "a1b2c3d"),
        _ => panic!("expected a show action"),
    }
}

#[test]
fn copy_dispatches_with_id() {
    match run(Some(Command::Copy { id: "764b948".to_owned() })) {
        Action::Copy { id } => assert_eq!(id, "764b948"),
        _ => panic!("expected a copy action"),
    }
}
