use ravensaid::cli::{parse_command, Command};

fn args(list: &[&str]) -> Vec<Vec<u8>> {
    list.iter().map(|s| s.as_bytes().to_vec()).collect()
}

#[test]
fn train_takes_optional_prefix() {
    match parse_command(&args(&["train", "second_"])) {
        Command::Train { prefix } => assert_eq!(prefix, b"second_".to_vec()),
        _ => panic!("expected the train command"),
    }
    match parse_command(&args(&["train"])) {
        Command::Train { prefix } => assert!(prefix.is_empty()),
        _ => panic!("expected the train command"),
    }
}

#[test]
fn run_requires_a_path() {
    match parse_command(&args(&["run", "model.nn"])) {
        Command::Run { path } => assert_eq!(path, b"model.nn".to_vec()),
        _ => panic!("expected the run command"),
    }
    assert!(matches!(
        parse_command(&args(&["run"])),
        Command::RunMissingPath
    ));
}

#[test]
fn unknown_or_missing_commands_ask_for_usage() {
    assert!(matches!(parse_command(&args(&[])), Command::Usage));
    assert!(matches!(parse_command(&args(&["help"])), Command::Usage));
    assert!(matches!(parse_command(&args(&["Train"])), Command::Usage));
    assert!(matches!(
        parse_command(&args(&["exit", "run"])),
        Command::Usage
    ));
}
