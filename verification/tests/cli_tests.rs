use cmdx::cli::{
    check_path, clipboard_tools, direct_action, is_yes, new_command, ClipboardTool, DirectAction,
};
use cmdx::command::Command;
use cmdx::error::CmdxError;
use cmdx::lookup::{resolve, top_matches};
use cmdx::store::Store;
use cmdx::transfer::{
    check_version, decimal_string, export_data, import_commands, import_data, tally, ExportData,
    ImportOutcome, EXPORT_VERSION,
};

fn seeded() -> Store {
    let mut store = Store::with_root("root");
    store.init().unwrap();
    for (p, c, e) in [
        ("git/status", "git status", "Show working tree status"),
        ("git/commit", "git commit -m", "Commit changes"),
        ("docker/ps", "docker ps -a", "List all containers"),
        ("docker/prune", "docker system prune -af", "Remove unused data"),
    ] {
        store.add(&Command::new(p, c, e), false).unwrap();
    }
    store.take_journal();
    store
}

#[test]
fn the_default_action_of_a_bare_path() {
    assert_eq!(direct_action("run"), DirectAction::Run);
    assert_eq!(direct_action("show"), DirectAction::Show);
    assert_eq!(direct_action("copy"), DirectAction::Copy);
    assert_eq!(direct_action(""), DirectAction::Copy);
    assert_eq!(direct_action("Run"), DirectAction::Copy);
    assert_eq!(direct_action("runs"), DirectAction::Copy);
}

#[test]
fn the_clipboard_tools_to_try() {
    assert_eq!(clipboard_tools("wl-copy"), vec![ClipboardTool::WlCopy]);
    assert_eq!(clipboard_tools("xclip"), vec![ClipboardTool::Xclip]);
    assert_eq!(clipboard_tools("xsel"), vec![ClipboardTool::Xsel]);
    let all = vec![ClipboardTool::WlCopy, ClipboardTool::Xclip, ClipboardTool::Xsel];
    assert_eq!(clipboard_tools("auto"), all);
    assert_eq!(clipboard_tools("pbcopy"), all);
    assert_eq!(clipboard_tools(""), all);
}

#[test]
fn paths_that_can_name_a_command() {
    for path in ["a", "a/b", "docker/prune", "git/stash/pop", "a.b/c..d", ".../x", "a b/c"] {
        assert_eq!(check_path(path), Ok(()), "path {:?}", path);
    }
    for path in ["", "/", "/a", "a/", "a//b", "..", "../a", "a/..", "a/../b", "//"] {
        assert_eq!(check_path(path), Err(CmdxError::InvalidPath(path.to_string())), "path {:?}", path);
    }
}

#[test]
fn a_new_command_needs_a_valid_path_and_a_command() {
    assert_eq!(new_command("a/b", "ls", "list"), Ok(Command::new("a/b", "ls", "list")));
    assert_eq!(new_command("a/b", "ls", ""), Ok(Command::new("a/b", "ls", "")));
    assert_eq!(new_command("/a", "ls", ""), Err(CmdxError::InvalidPath("/a".to_string())));
    assert_eq!(new_command("/a", "", ""), Err(CmdxError::InvalidPath("/a".to_string())));
    assert_eq!(
        new_command("a", "", "x"),
        Err(CmdxError::InvalidPath("Command cannot be empty".to_string()))
    );
}

#[test]
fn only_y_says_yes() {
    for answer in ["y", "Y", " y\n", "\ty  ", "Y\r\n"] {
        assert!(is_yes(answer), "answer {:?}", answer);
    }
    for answer in ["", "\n", "n", "yes", "yy", "y y", "no", "1"] {
        assert!(!is_yes(answer), "answer {:?}", answer);
    }
}

#[test]
fn resolve_takes_the_exact_path_first() {
    let mut store = seeded();
    store.add(&Command::new("ps", "ps aux", "Processes"), false).unwrap();
    assert_eq!(resolve(&store, "ps").unwrap().command, "ps aux");
    assert_eq!(resolve(&store, "docker/ps").unwrap().command, "docker ps -a");
}

#[test]
fn resolve_falls_back_to_the_best_match() {
    let store = seeded();
    assert_eq!(resolve(&store, "prune").unwrap().path, "docker/prune");
    assert_eq!(resolve(&store, "commit").unwrap().path, "git/commit");
    assert_eq!(resolve(&store, "COMMIT").unwrap().path, "git/commit");
}

#[test]
fn resolve_fails_where_nothing_matches_and_before_init() {
    let store = seeded();
    assert_eq!(
        resolve(&store, "xyz123notexist"),
        Err(CmdxError::NotFound("xyz123notexist".to_string()))
    );
    let mut empty = Store::with_root("root");
    assert_eq!(resolve(&empty, "git"), Err(CmdxError::NotInitialized));
    empty.init().unwrap();
    assert_eq!(resolve(&empty, "git"), Err(CmdxError::NotFound("git".to_string())));
}

#[test]
fn top_matches_are_the_first_of_the_ranking() {
    let commands = seeded().list(None).unwrap();
    let all = top_matches("", &commands, 10);
    assert_eq!(all.len(), 4);
    assert_eq!(all[0].0.path, "docker/prune");
    assert_eq!(all[3].0.path, "git/status");
    let two = top_matches("", &commands, 2);
    assert_eq!(two.len(), 2);
    assert_eq!(two[0].0.path, "docker/prune");
    assert_eq!(two[1].0.path, "docker/ps");
    assert!(top_matches("", &commands, 0).is_empty());
    assert_eq!(top_matches("git", &commands, 10).len(), 2);
}

#[test]
fn numbers_in_base_ten() {
    assert_eq!(decimal_string(0), "0");
    assert_eq!(decimal_string(7), "7");
    assert_eq!(decimal_string(10), "10");
    assert_eq!(decimal_string(1234567890), "1234567890");
    assert_eq!(decimal_string(u32::MAX), "4294967295");
}

#[test]
fn only_version_one_is_read() {
    assert_eq!(EXPORT_VERSION, 1);
    assert_eq!(check_version(1), Ok(()));
    assert_eq!(check_version(0), Err(CmdxError::Config("Unsupported export version: 0".to_string())));
    assert_eq!(check_version(2), Err(CmdxError::Config("Unsupported export version: 2".to_string())));
    assert_eq!(
        check_version(4294967295),
        Err(CmdxError::Config("Unsupported export version: 4294967295".to_string()))
    );
}

#[test]
fn export_has_version_one() {
    let commands = seeded().list(None).unwrap();
    let data = export_data(commands.clone());
    assert_eq!(data.version, 1);
    assert_eq!(data.commands, commands);
}

#[test]
fn import_skips_what_exists_and_goes_on_after_a_refusal() {
    let mut store = seeded();
    let commands = vec![
        Command::new("git/status", "changed", ""),
        Command::new("k8s/pods", "kubectl get pods", ""),
        Command::new("bad//path", "x", ""),
        Command::new("k8s/pods", "second", ""),
        Command::new("net/ip", "ip a", "Addresses"),
    ];
    let outcomes = import_commands(&mut store, &commands, false);
    assert_eq!(
        outcomes,
        vec![
            ImportOutcome::Skipped,
            ImportOutcome::Added,
            ImportOutcome::Failed(CmdxError::InvalidPath("bad//path".to_string())),
            ImportOutcome::Skipped,
            ImportOutcome::Added,
        ]
    );
    assert_eq!(tally(&outcomes), (2, 2));
    assert_eq!(store.get("git/status").unwrap().command, "git status");
    assert_eq!(store.get("k8s/pods").unwrap().command, "kubectl get pods");
    assert_eq!(store.all_paths().unwrap().len(), 6);
}

#[test]
fn import_with_force_overwrites() {
    let mut store = seeded();
    let commands =
        vec![Command::new("git/status", "changed", ""), Command::new("git/status", "again", "")];
    let outcomes = import_commands(&mut store, &commands, true);
    assert_eq!(outcomes, vec![ImportOutcome::Added, ImportOutcome::Added]);
    assert_eq!(tally(&outcomes), (2, 0));
    assert_eq!(store.get("git/status").unwrap().command, "again");
    assert_eq!(store.all_paths().unwrap().len(), 4);
}

#[test]
fn import_refuses_other_versions_and_changes_nothing() {
    let mut store = seeded();
    let data = ExportData { version: 2, commands: vec![Command::new("new/one", "x", "")] };
    assert_eq!(
        import_data(&mut store, &data, true),
        Err(CmdxError::Config("Unsupported export version: 2".to_string()))
    );
    let data = ExportData { version: 0, commands: vec![] };
    assert!(import_data(&mut store, &data, false).is_err());
    assert_eq!(store.all_paths().unwrap().len(), 4);
    assert!(store.take_journal().is_empty());
    let mut fresh = Store::with_root("root");
    let data = ExportData { version: 1, commands: vec![Command::new("a", "x", "")] };
    assert_eq!(import_data(&mut fresh, &data, false), Err(CmdxError::NotInitialized));
}

#[test]
fn import_of_version_one_stores_the_commands() {
    let mut store = Store::with_root("root");
    store.init().unwrap();
    let data = export_data(seeded().list(None).unwrap());
    let outcomes = import_data(&mut store, &data, false).unwrap();
    assert_eq!(tally(&outcomes), (4, 0));
    assert_eq!(store.list(None).unwrap(), data.commands);
    assert_eq!(tally(&vec![]), (0, 0));
}
