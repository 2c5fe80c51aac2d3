use cmdx::command::Command;
use cmdx::error::CmdxError;

#[test]
fn test_parse_valid() {
    let content = "docker system prune -af\nRemove all containers";
    let cmd = Command::parse("docker/prune", content, "test").unwrap();
    assert_eq!(cmd.command, "docker system prune -af");
    assert_eq!(cmd.explanation, "Remove all containers");
}

#[test]
fn test_parse_no_explanation() {
    let content = "git status";
    let cmd = Command::parse("git/status", content, "test").unwrap();
    assert_eq!(cmd.command, "git status");
    assert_eq!(cmd.explanation, "");
}

#[test]
fn parse_keeps_the_path_and_trims_both_lines() {
    let cmd = Command::parse("a/b", "  ls -la \t\r\n\u{3000}list files \n third line\n", "f").unwrap();
    assert_eq!(cmd, Command::new("a/b", "ls -la", "list files"));
}

#[test]
fn parse_refuses_an_empty_or_blank_first_line() {
    assert_eq!(Command::parse("p", "", "the/file"), Err(CmdxError::InvalidFormat("the/file".to_string())));
    assert_eq!(Command::parse("p", "\nexplained", "f"), Err(CmdxError::InvalidFormat("f".to_string())));
    assert_eq!(Command::parse("p", " \t \nx", "f"), Err(CmdxError::InvalidFormat("f".to_string())));
}

#[test]
fn parse_of_one_line_with_line_end_has_no_explanation() {
    let cmd = Command::parse("p", "echo hi\n", "f").unwrap();
    assert_eq!(cmd.command, "echo hi");
    assert_eq!(cmd.explanation, "");
}

#[test]
fn file_content_has_one_line_each() {
    let cmd = Command::new("a", "echo hi", "greet");
    assert_eq!(cmd.to_file_content(), "echo hi\ngreet\n");
    assert_eq!(Command::new("a", "x", "").to_file_content(), "x\n\n");
}

#[test]
fn file_content_parses_back() {
    let cmd = Command::new("git/log", "git log --oneline", "Short history");
    let back = Command::parse("git/log", &cmd.to_file_content(), "f").unwrap();
    assert_eq!(back, cmd);
}

#[test]
fn error_messages() {
    assert_eq!(CmdxError::NotFound("a/b".to_string()).message(), "Command not found: a/b");
    assert_eq!(CmdxError::AlreadyExists("r/a".to_string()).message(), "Command already exists: r/a");
    assert_eq!(CmdxError::InvalidPath("../x".to_string()).message(), "Invalid command path: ../x");
    assert_eq!(CmdxError::InvalidFormat("f".to_string()).message(), "Invalid command file format: f");
    assert_eq!(CmdxError::NotInitialized.message(), "Store not initialized. Run 'cmdx init' first.");
    assert_eq!(CmdxError::Config("bad".to_string()).message(), "Config error: bad");
    assert_eq!(CmdxError::Io("denied".to_string()).message(), "IO error: denied");
    assert_eq!(CmdxError::Execution("Exit code: 2".to_string()).message(), "Command execution failed: Exit code: 2");
}
