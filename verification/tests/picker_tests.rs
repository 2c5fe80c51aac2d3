use cmdx::command::Command;
use cmdx::picker::{App, InputField, Mode};

fn sample_commands() -> Vec<Command> {
    vec![
        Command::new("git/status", "git status", "Show working tree status"),
        Command::new("git/commit", "git commit -m", "Commit changes"),
        Command::new("docker/ps", "docker ps -a", "List all containers"),
        Command::new("docker/prune", "docker system prune -af", "Remove unused data"),
    ]
}

#[test]
fn test_app_new() {
    let commands = sample_commands();
    let app = App::new(commands.clone());

    assert_eq!(app.commands.len(), 4);
    assert_eq!(app.filtered.len(), 4);
    assert_eq!(app.selected, 0);
    assert_eq!(app.mode, Mode::Normal);
    assert!(app.input.is_empty());
    assert!(!app.should_quit);
}

#[test]
fn test_filter_by_command() {
    let mut app = App::new(sample_commands());

    app.insert_char('g');
    app.insert_char('i');
    app.insert_char('t');

    assert_eq!(app.filtered.len(), 2);
}

#[test]
fn test_filter_by_description() {
    let mut app = App::new(sample_commands());

    app.input = "container".to_string();
    app.cursor_position = 9;
    app.update_filter();

    assert_eq!(app.filtered.len(), 1);
    let (idx, _) = app.filtered[0];
    assert_eq!(app.commands[idx].path, "docker/ps");
}

#[test]
fn test_filter_by_path() {
    let mut app = App::new(sample_commands());

    app.input = "docker".to_string();
    app.cursor_position = 6;
    app.update_filter();

    assert_eq!(app.filtered.len(), 2);
}

#[test]
fn test_navigation_up_down() {
    let mut app = App::new(sample_commands());

    assert_eq!(app.selected, 0);

    app.move_down();
    assert_eq!(app.selected, 1);

    app.move_down();
    assert_eq!(app.selected, 2);

    app.move_up();
    assert_eq!(app.selected, 1);

    app.move_up();
    assert_eq!(app.selected, 0);

    // Should not go below 0
    app.move_up();
    assert_eq!(app.selected, 0);
}

#[test]
fn test_navigation_bounds() {
    let mut app = App::new(sample_commands());

    // Move to end
    app.move_down();
    app.move_down();
    app.move_down();
    assert_eq!(app.selected, 3);

    // Should not exceed bounds
    app.move_down();
    assert_eq!(app.selected, 3);
}

#[test]
fn test_select_current() {
    let mut app = App::new(sample_commands());

    app.move_down();
    app.select_current();

    assert!(app.should_quit);
    assert!(app.selected_command.is_some());
    assert_eq!(app.selected_command.unwrap().path, "git/commit");
}

#[test]
fn test_cancel_normal_mode() {
    let mut app = App::new(sample_commands());

    app.cancel();

    assert!(app.should_quit);
    assert!(app.selected_command.is_none());
}

#[test]
fn test_enter_add_mode() {
    let mut app = App::new(sample_commands());

    app.enter_add_mode();

    assert_eq!(app.mode, Mode::Add);
    assert!(app.form_path.is_empty());
    assert!(app.form_command.is_empty());
    assert!(app.form_description.is_empty());
    assert_eq!(app.active_field, InputField::Path);
}

#[test]
fn test_enter_edit_mode() {
    let mut app = App::new(sample_commands());

    app.move_down(); // Select git/commit
    app.enter_edit_mode();

    assert_eq!(app.mode, Mode::Edit);
    assert_eq!(app.form_path, "git/commit");
    assert_eq!(app.form_command, "git commit -m");
    assert_eq!(app.form_description, "Commit changes");
    assert_eq!(app.active_field, InputField::Command);
}

#[test]
fn test_enter_delete_mode() {
    let mut app = App::new(sample_commands());

    app.enter_delete_mode();

    assert_eq!(app.mode, Mode::Delete);
}

#[test]
fn test_toggle_help() {
    let mut app = App::new(sample_commands());

    assert_eq!(app.mode, Mode::Normal);

    app.toggle_help();
    assert_eq!(app.mode, Mode::Help);

    app.toggle_help();
    assert_eq!(app.mode, Mode::Normal);
}

#[test]
fn test_cancel_from_add_mode() {
    let mut app = App::new(sample_commands());

    app.enter_add_mode();
    app.form_path = "test/path".to_string();
    app.cancel();

    assert_eq!(app.mode, Mode::Normal);
    assert!(app.form_path.is_empty());
    assert!(!app.should_quit);
}

#[test]
fn test_field_navigation() {
    let mut app = App::new(sample_commands());

    app.enter_add_mode();
    assert_eq!(app.active_field, InputField::Path);

    app.next_field();
    assert_eq!(app.active_field, InputField::Command);

    app.next_field();
    assert_eq!(app.active_field, InputField::Description);

    app.next_field();
    assert_eq!(app.active_field, InputField::Path);

    app.prev_field();
    assert_eq!(app.active_field, InputField::Description);
}

#[test]
fn test_form_input() {
    let mut app = App::new(sample_commands());

    app.enter_add_mode();

    app.insert_char('t');
    app.insert_char('e');
    app.insert_char('s');
    app.insert_char('t');

    assert_eq!(app.form_path, "test");

    app.next_field();
    app.insert_char('c');
    app.insert_char('m');
    app.insert_char('d');

    assert_eq!(app.form_command, "cmd");
}

#[test]
fn test_form_delete_char() {
    let mut app = App::new(sample_commands());

    app.enter_add_mode();
    app.form_path = "test".to_string();

    app.delete_char();
    assert_eq!(app.form_path, "tes");

    app.delete_char();
    assert_eq!(app.form_path, "te");
}

#[test]
fn test_clear_input_normal_mode() {
    let mut app = App::new(sample_commands());

    app.input = "search".to_string();
    app.cursor_position = 6;

    app.clear_input();

    assert!(app.input.is_empty());
    assert_eq!(app.cursor_position, 0);
}

#[test]
fn test_clear_input_form_mode() {
    let mut app = App::new(sample_commands());

    app.enter_add_mode();
    app.form_path = "some/path".to_string();

    app.clear_input();

    assert!(app.form_path.is_empty());
}

#[test]
fn test_cursor_movement() {
    let mut app = App::new(sample_commands());

    app.input = "hello".to_string();
    app.cursor_position = 5;

    app.move_cursor_left();
    assert_eq!(app.cursor_position, 4);

    app.move_cursor_start();
    assert_eq!(app.cursor_position, 0);

    app.move_cursor_right();
    assert_eq!(app.cursor_position, 1);

    app.move_cursor_end();
    assert_eq!(app.cursor_position, 5);
}

#[test]
fn test_visible_range() {
    let mut app = App::new(sample_commands());
    app.set_visible_height(2);

    let range = app.visible_range();
    assert_eq!(range, 0..2);

    app.move_down();
    app.move_down();
    let range = app.visible_range();
    assert_eq!(range.start, 1);
}

#[test]
fn test_empty_commands() {
    let app = App::new(vec![]);

    assert!(app.commands.is_empty());
    assert!(app.filtered.is_empty());
    assert_eq!(app.selected, 0);
}

#[test]
fn test_filter_no_match() {
    let mut app = App::new(sample_commands());

    app.input = "xyz123notexist".to_string();
    app.cursor_position = 14;
    app.update_filter();

    assert!(app.filtered.is_empty());
}

#[test]
fn test_delete_char_forward() {
    let mut app = App::new(sample_commands());

    app.input = "hello".to_string();
    app.cursor_position = 2;

    app.delete_char_forward();
    assert_eq!(app.input, "helo");
}

#[test]
fn test_selected_resets_on_filter() {
    let mut app = App::new(sample_commands());

    app.move_down();
    app.move_down();
    assert_eq!(app.selected, 2);

    app.input = "git".to_string();
    app.cursor_position = 3;
    app.update_filter();

    // Selected should reset when filter changes
    assert_eq!(app.selected, 0);
}
