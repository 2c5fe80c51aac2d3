use cmdx::command::Command;
use cmdx::error::CmdxError;
use cmdx::keys::{action_for, apply, handle_key_event, Action, Key, KeyCode, CONTROL, NONE, SHIFT};
use cmdx::picker::{App, InputField, Mode};
use cmdx::store::{FsOp, Store};

fn key(code: KeyCode) -> Key {
    Key { code, modifiers: NONE }
}

fn ctrl(c: char) -> Key {
    Key { code: KeyCode::Char(c), modifiers: CONTROL }
}

fn seeded() -> (App, Store) {
    let mut store = Store::with_root("root");
    store.init().unwrap();
    for (p, c, e) in [
        ("git/status", "git status", "Show working tree status"),
        ("git/commit", "git commit -m", "Commit changes"),
        ("docker/ps", "docker ps -a", "List all containers"),
        ("docker/prune", "docker system prune -af", "Remove unused data"),
    ] {
        store.add(&Command::new(p, c, e), false).unwrap();
    }
    store.take_journal();
    let app = App::new(store.list(None).unwrap());
    (app, store)
}

fn type_text(app: &mut App, store: &mut Store, text: &str) {
    for c in text.chars() {
        handle_key_event(app, key(KeyCode::Char(c)), store);
    }
}

#[test]
fn keys_of_the_list() {
    let m = Mode::Normal;
    assert_eq!(action_for(m, key(KeyCode::Esc)), Action::Cancel);
    assert_eq!(action_for(m, ctrl('c')), Action::Cancel);
    assert_eq!(action_for(m, key(KeyCode::Enter)), Action::Select);
    assert_eq!(action_for(m, key(KeyCode::Up)), Action::MoveUp);
    assert_eq!(action_for(m, ctrl('k')), Action::MoveUp);
    assert_eq!(action_for(m, key(KeyCode::BackTab)), Action::MoveUp);
    assert_eq!(action_for(m, Key { code: KeyCode::BackTab, modifiers: SHIFT }), Action::MoveUp);
    assert_eq!(action_for(m, key(KeyCode::Down)), Action::MoveDown);
    assert_eq!(action_for(m, ctrl('j')), Action::MoveDown);
    assert_eq!(action_for(m, key(KeyCode::Tab)), Action::MoveDown);
    assert_eq!(action_for(m, Key { code: KeyCode::Tab, modifiers: CONTROL }), Action::Nothing);
    assert_eq!(action_for(m, key(KeyCode::F(1))), Action::ToggleHelp);
    assert_eq!(action_for(m, key(KeyCode::F(2))), Action::EnterAdd);
    assert_eq!(action_for(m, key(KeyCode::F(3))), Action::EnterEdit);
    assert_eq!(action_for(m, key(KeyCode::F(4))), Action::EnterDelete);
    assert_eq!(action_for(m, key(KeyCode::F(5))), Action::Nothing);
    assert_eq!(action_for(m, key(KeyCode::Left)), Action::CursorLeft);
    assert_eq!(action_for(m, ctrl('b')), Action::CursorLeft);
    assert_eq!(action_for(m, key(KeyCode::Right)), Action::CursorRight);
    assert_eq!(action_for(m, ctrl('f')), Action::CursorRight);
    assert_eq!(action_for(m, key(KeyCode::Home)), Action::CursorStart);
    assert_eq!(action_for(m, ctrl('a')), Action::CursorStart);
    assert_eq!(action_for(m, key(KeyCode::End)), Action::CursorEnd);
    assert_eq!(action_for(m, ctrl('e')), Action::CursorEnd);
    assert_eq!(action_for(m, key(KeyCode::Backspace)), Action::DeleteChar);
    assert_eq!(action_for(m, ctrl('h')), Action::DeleteChar);
    assert_eq!(action_for(m, key(KeyCode::Delete)), Action::DeleteCharForward);
    assert_eq!(action_for(m, ctrl('d')), Action::DeleteCharForward);
    assert_eq!(action_for(m, ctrl('u')), Action::ClearInput);
    assert_eq!(action_for(m, key(KeyCode::Char('k'))), Action::InsertChar('k'));
    assert_eq!(
        action_for(m, Key { code: KeyCode::Char('K'), modifiers: SHIFT }),
        Action::InsertChar('K')
    );
    assert_eq!(action_for(m, ctrl('x')), Action::Nothing);
    assert_eq!(
        action_for(m, Key { code: KeyCode::Char('c'), modifiers: CONTROL | SHIFT }),
        Action::Nothing
    );
    assert_eq!(action_for(m, Key { code: KeyCode::Char('x'), modifiers: 4 }), Action::Nothing);
    assert_eq!(action_for(m, key(KeyCode::Other)), Action::Nothing);
}

#[test]
fn keys_of_the_forms() {
    for m in [Mode::Add, Mode::Edit] {
        assert_eq!(action_for(m, key(KeyCode::Esc)), Action::Cancel);
        assert_eq!(action_for(m, key(KeyCode::Enter)), Action::Confirm);
        assert_eq!(action_for(m, key(KeyCode::Tab)), Action::NextField);
        assert_eq!(action_for(m, key(KeyCode::BackTab)), Action::PrevField);
        assert_eq!(action_for(m, key(KeyCode::Backspace)), Action::DeleteChar);
        assert_eq!(action_for(m, ctrl('u')), Action::ClearInput);
        assert_eq!(action_for(m, key(KeyCode::Char('q'))), Action::InsertChar('q'));
        assert_eq!(action_for(m, ctrl('c')), Action::Nothing);
        assert_eq!(action_for(m, ctrl('h')), Action::Nothing);
        assert_eq!(action_for(m, key(KeyCode::Up)), Action::Nothing);
        assert_eq!(action_for(m, key(KeyCode::Delete)), Action::Nothing);
        assert_eq!(action_for(m, key(KeyCode::F(2))), Action::Nothing);
    }
}

#[test]
fn keys_of_the_question_and_of_the_help() {
    let m = Mode::Delete;
    assert_eq!(action_for(m, key(KeyCode::Char('y'))), Action::Confirm);
    assert_eq!(action_for(m, Key { code: KeyCode::Char('Y'), modifiers: SHIFT }), Action::Confirm);
    assert_eq!(action_for(m, key(KeyCode::Char('n'))), Action::Cancel);
    assert_eq!(action_for(m, key(KeyCode::Char('N'))), Action::Cancel);
    assert_eq!(action_for(m, key(KeyCode::Esc)), Action::Cancel);
    assert_eq!(action_for(m, key(KeyCode::Enter)), Action::Nothing);
    assert_eq!(action_for(m, key(KeyCode::Char('x'))), Action::Nothing);
    let m = Mode::Help;
    assert_eq!(action_for(m, key(KeyCode::Esc)), Action::ToggleHelp);
    assert_eq!(action_for(m, key(KeyCode::Char('?'))), Action::ToggleHelp);
    assert_eq!(action_for(m, key(KeyCode::Char('q'))), Action::ToggleHelp);
    assert_eq!(action_for(m, key(KeyCode::F(1))), Action::Nothing);
    assert_eq!(action_for(m, key(KeyCode::Enter)), Action::Nothing);
}

#[test]
fn typing_docker_filters_to_the_two_docker_records() {
    let (mut app, mut store) = seeded();
    app.move_down();
    app.move_down();
    type_text(&mut app, &mut store, "docker");
    assert_eq!(app.input, "docker");
    assert_eq!(app.cursor_position, 6);
    assert_eq!(app.selected, 0);
    assert_eq!(app.scroll_offset, 0);
    let mut paths: Vec<&str> = app.filtered.iter().map(|h| app.commands[h.0].path.as_str()).collect();
    paths.sort();
    assert_eq!(paths, vec!["docker/prune", "docker/ps"]);
}

#[test]
fn help_changes_nothing_but_the_mode() {
    let (mut app, mut store) = seeded();
    type_text(&mut app, &mut store, "git");
    let filtered = app.filtered.clone();
    handle_key_event(&mut app, key(KeyCode::F(1)), &mut store);
    assert_eq!(app.mode, Mode::Help);
    handle_key_event(&mut app, key(KeyCode::Char('x')), &mut store);
    handle_key_event(&mut app, key(KeyCode::Enter), &mut store);
    assert_eq!(app.mode, Mode::Help);
    assert_eq!(app.input, "git");
    assert!(!app.should_quit);
    handle_key_event(&mut app, key(KeyCode::Char('q')), &mut store);
    assert_eq!(app.mode, Mode::Normal);
    assert_eq!(app.filtered, filtered);
    assert!(store.take_journal().is_empty());
}

#[test]
fn enter_ends_the_session_on_the_selected_record() {
    let (mut app, mut store) = seeded();
    handle_key_event(&mut app, key(KeyCode::Down), &mut store);
    handle_key_event(&mut app, key(KeyCode::Enter), &mut store);
    assert!(app.should_quit);
    assert_eq!(app.selected_command.unwrap().path, "docker/ps");
}

#[test]
fn a_new_command_is_added_through_the_form() {
    let (mut app, mut store) = seeded();
    handle_key_event(&mut app, key(KeyCode::F(2)), &mut store);
    assert_eq!(app.mode, Mode::Add);
    type_text(&mut app, &mut store, "k8s/pods");
    handle_key_event(&mut app, key(KeyCode::Tab), &mut store);
    type_text(&mut app, &mut store, "kubectl get pods -A");
    handle_key_event(&mut app, key(KeyCode::Tab), &mut store);
    type_text(&mut app, &mut store, "List all pods");
    handle_key_event(&mut app, key(KeyCode::Enter), &mut store);
    assert_eq!(app.mode, Mode::Normal);
    assert_eq!(app.message, Some(("Command added successfully".to_string(), false)));
    assert!(app.form_path.is_empty() && app.form_command.is_empty());
    assert!(app.form_description.is_empty());
    assert_eq!(app.commands.len(), 5);
    assert_eq!(app.commands[4], Command::new("k8s/pods", "kubectl get pods -A", "List all pods"));
    assert_eq!(app.filtered.len(), 5);
    assert_eq!(store.get("k8s/pods"), Ok(app.commands[4].clone()));
    assert_eq!(
        store.take_journal(),
        vec![
            FsOp::CreateDirAll("k8s".to_string()),
            FsOp::WriteFile("k8s/pods".to_string(), "kubectl get pods -A\nList all pods\n".to_string()),
        ]
    );
}

#[test]
fn an_incomplete_form_is_refused_and_kept() {
    let (mut app, mut store) = seeded();
    app.enter_add_mode();
    app.form_path = "only/path".to_string();
    app.confirm_action(&mut store);
    assert_eq!(app.mode, Mode::Add);
    assert_eq!(app.form_path, "only/path");
    assert_eq!(app.message, Some(("Path and command are required".to_string(), true)));
    assert_eq!(app.commands.len(), 4);
    assert_eq!(store.get("only/path"), Err(CmdxError::NotFound("only/path".to_string())));
    app.form_path = String::new();
    app.form_command = "cmd".to_string();
    app.confirm_action(&mut store);
    assert_eq!(app.mode, Mode::Add);
    assert_eq!(app.message, Some(("Path and command are required".to_string(), true)));
}

#[test]
fn adding_at_a_taken_path_shows_the_error_and_keeps_the_form() {
    let (mut app, mut store) = seeded();
    app.enter_add_mode();
    app.form_path = "git/status".to_string();
    app.form_command = "other".to_string();
    app.form_description = "text".to_string();
    app.confirm_action(&mut store);
    assert_eq!(app.mode, Mode::Add);
    assert_eq!(
        app.message,
        Some(("Error: Command already exists: root/git/status".to_string(), true))
    );
    assert_eq!(app.form_path, "git/status");
    assert_eq!(app.form_command, "other");
    assert_eq!(app.form_description, "text");
    assert_eq!(app.commands.len(), 4);
    assert_eq!(store.get("git/status").unwrap().command, "git status");
    app.form_path = "git//x".to_string();
    app.confirm_action(&mut store);
    assert_eq!(app.message, Some(("Error: Invalid command path: git//x".to_string(), true)));
    assert!(store.take_journal().is_empty());
}

#[test]
fn editing_replaces_the_record_in_the_list_and_in_the_store() {
    let (mut app, mut store) = seeded();
    // the list is in the order of the store: docker/prune, docker/ps, git/commit, git/status
    app.move_down();
    handle_key_event(&mut app, key(KeyCode::F(3)), &mut store);
    assert_eq!(app.mode, Mode::Edit);
    assert_eq!(app.editing_original_path, Some("docker/ps".to_string()));
    assert_eq!(app.active_field, InputField::Command);
    type_text(&mut app, &mut store, " -q");
    handle_key_event(&mut app, key(KeyCode::Enter), &mut store);
    assert_eq!(app.mode, Mode::Normal);
    assert_eq!(app.message, Some(("Command updated successfully".to_string(), false)));
    assert_eq!(app.editing_original_path, None);
    let edited = Command::new("docker/ps", "docker ps -a -q", "List all containers");
    assert_eq!(app.commands[1], edited);
    assert_eq!(app.commands.len(), 4);
    assert_eq!(store.get("docker/ps"), Ok(edited));
    assert_eq!(app.selected, 1);
}

#[test]
fn editing_the_path_moves_the_record() {
    let (mut app, mut store) = seeded();
    app.enter_edit_mode();
    app.form_path = "containers/prune".to_string();
    app.confirm_action(&mut store);
    assert_eq!(app.mode, Mode::Normal);
    assert_eq!(store.get("docker/prune"), Err(CmdxError::NotFound("docker/prune".to_string())));
    assert_eq!(store.get("containers/prune").unwrap().command, "docker system prune -af");
    assert_eq!(app.commands[0].path, "containers/prune");
    assert_eq!(
        store.all_paths().unwrap(),
        vec!["containers/prune", "docker/ps", "git/commit", "git/status"]
    );
}

#[test]
fn a_failed_edit_restores_the_original_record() {
    let (mut app, mut store) = seeded();
    app.enter_edit_mode();
    assert_eq!(app.form_path, "docker/prune");
    app.form_path = "git/status".to_string();
    app.form_command = "changed".to_string();
    app.form_description = "changed too".to_string();
    app.confirm_action(&mut store);
    assert_eq!(app.mode, Mode::Edit);
    assert_eq!(
        app.message,
        Some(("Error: Command already exists: root/git/status".to_string(), true))
    );
    assert_eq!(app.form_path, "git/status");
    assert_eq!(app.form_command, "changed");
    assert_eq!(app.editing_original_path, Some("docker/prune".to_string()));
    assert_eq!(
        store.get("docker/prune"),
        Ok(Command::new("docker/prune", "docker system prune -af", "Remove unused data"))
    );
    assert_eq!(store.get("git/status").unwrap().command, "git status");
    assert_eq!(app.commands[0].command, "docker system prune -af");
    assert_eq!(store.all_paths().unwrap().len(), 4);
}

#[test]
fn an_edit_of_a_record_that_the_store_lost_is_refused() {
    let (mut app, mut store) = seeded();
    app.enter_edit_mode();
    store.remove("docker/prune").unwrap();
    store.take_journal();
    app.form_command = "x".to_string();
    app.confirm_action(&mut store);
    assert_eq!(app.mode, Mode::Edit);
    assert_eq!(app.message, Some(("Error: Command not found: docker/prune".to_string(), true)));
    assert!(store.take_journal().is_empty());
}

#[test]
fn deleting_the_last_line_moves_the_selection_up() {
    let (mut app, mut store) = seeded();
    app.move_down();
    app.move_down();
    app.move_down();
    assert_eq!(app.selected, 3);
    handle_key_event(&mut app, key(KeyCode::F(4)), &mut store);
    assert_eq!(app.mode, Mode::Delete);
    handle_key_event(&mut app, key(KeyCode::Char('y')), &mut store);
    assert_eq!(app.mode, Mode::Normal);
    assert_eq!(app.message, Some(("Command deleted".to_string(), false)));
    assert_eq!(app.commands.len(), 3);
    assert_eq!(app.filtered.len(), 3);
    assert_eq!(app.selected, 2);
    assert_eq!(store.get("git/status"), Err(CmdxError::NotFound("git/status".to_string())));
    assert_eq!(store.take_journal(), vec![FsOp::RemoveFile("git/status".to_string())]);
}

#[test]
fn deleting_in_the_middle_keeps_the_selection() {
    let (mut app, mut store) = seeded();
    app.move_down();
    app.enter_delete_mode();
    app.confirm_action(&mut store);
    assert_eq!(app.selected, 1);
    assert_eq!(app.commands[app.filtered[app.selected].0].path, "git/commit");
    assert_eq!(store.all_paths().unwrap(), vec!["docker/prune", "git/commit", "git/status"]);
}

#[test]
fn deleting_the_only_match_empties_the_list() {
    let (mut app, mut store) = seeded();
    type_text(&mut app, &mut store, "container");
    assert_eq!(app.filtered.len(), 1);
    app.enter_delete_mode();
    app.confirm_action(&mut store);
    assert!(app.filtered.is_empty());
    assert_eq!(app.selected, 0);
    assert_eq!(app.commands.len(), 3);
    app.enter_delete_mode();
    assert_eq!(app.mode, Mode::Normal);
    app.enter_edit_mode();
    assert_eq!(app.mode, Mode::Normal);
}

#[test]
fn answering_no_deletes_nothing() {
    let (mut app, mut store) = seeded();
    app.enter_delete_mode();
    handle_key_event(&mut app, key(KeyCode::Char('n')), &mut store);
    assert_eq!(app.mode, Mode::Normal);
    assert_eq!(app.commands.len(), 4);
    assert_eq!(store.all_paths().unwrap().len(), 4);
    assert!(!app.should_quit);
}

#[test]
fn a_failed_delete_shows_the_error_and_goes_back_to_the_list() {
    let (mut app, mut store) = seeded();
    store.remove("docker/prune").unwrap();
    app.enter_delete_mode();
    app.confirm_action(&mut store);
    assert_eq!(app.mode, Mode::Normal);
    assert_eq!(app.message, Some(("Error: Command not found: docker/prune".to_string(), true)));
    assert_eq!(app.commands.len(), 4);
}

#[test]
fn apply_does_what_the_action_asks() {
    let (mut app, mut store) = seeded();
    apply(&mut app, Action::InsertChar('g'), &mut store);
    apply(&mut app, Action::InsertChar('t'), &mut store);
    apply(&mut app, Action::CursorLeft, &mut store);
    apply(&mut app, Action::InsertChar('i'), &mut store);
    assert_eq!(app.input, "git");
    assert_eq!(app.cursor_position, 2);
    apply(&mut app, Action::DeleteChar, &mut store);
    assert_eq!(app.input, "gt");
    assert_eq!(app.cursor_position, 1);
    apply(&mut app, Action::DeleteCharForward, &mut store);
    assert_eq!(app.input, "g");
    apply(&mut app, Action::CursorStart, &mut store);
    apply(&mut app, Action::DeleteChar, &mut store);
    assert_eq!(app.input, "g");
    apply(&mut app, Action::CursorEnd, &mut store);
    apply(&mut app, Action::DeleteCharForward, &mut store);
    assert_eq!(app.input, "g");
    apply(&mut app, Action::ClearInput, &mut store);
    assert_eq!(app.input, "");
    assert_eq!(app.filtered.len(), 4);
    apply(&mut app, Action::Nothing, &mut store);
    apply(&mut app, Action::Cancel, &mut store);
    assert!(app.should_quit);
    assert!(app.selected_command.is_none());
}

#[test]
fn the_query_is_edited_by_characters_not_bytes() {
    let (mut app, mut store) = seeded();
    type_text(&mut app, &mut store, "é日x");
    assert_eq!(app.cursor_position, 3);
    apply(&mut app, Action::CursorLeft, &mut store);
    apply(&mut app, Action::DeleteChar, &mut store);
    assert_eq!(app.input, "éx");
    assert_eq!(app.cursor_position, 1);
    apply(&mut app, Action::InsertChar('ß'), &mut store);
    assert_eq!(app.input, "éßx");
    apply(&mut app, Action::CursorEnd, &mut store);
    assert_eq!(app.cursor_position, 3);
    apply(&mut app, Action::CursorRight, &mut store);
    assert_eq!(app.cursor_position, 3);
}

#[test]
fn the_window_follows_the_selection() {
    let commands: Vec<Command> =
        (0..10).map(|i| Command::new(&format!("c/{}", i), "x", "")).collect();
    let mut app = App::new(commands);
    app.set_visible_height(3);
    assert_eq!(app.visible_range(), 0..3);
    for _ in 0..5 {
        app.move_down();
    }
    assert_eq!(app.selected, 5);
    assert_eq!(app.scroll_offset, 3);
    assert_eq!(app.visible_range(), 3..6);
    app.move_up();
    assert_eq!(app.scroll_offset, 3);
    app.move_up();
    app.move_up();
    assert_eq!(app.selected, 2);
    assert_eq!(app.scroll_offset, 2);
    app.set_visible_height(0);
    assert_eq!(app.visible_height, 1);
    assert_eq!(app.visible_range(), 2..3);
    app.set_visible_height(50);
    assert_eq!(app.visible_range(), 2..10);
}
