//! The keys of the picker: which key does what in which mode.

use crate::picker::{field_after, field_before, App, AppView, Mode};
use crate::store::{Store, StoreView};
use vstd::prelude::*;

verus! {

/// No modifier key is held.
pub const NONE: u8 = 0;

/// The shift key is held.
pub const SHIFT: u8 = 1;

/// The control key is held.
pub const CONTROL: u8 = 2;

/// The key that was pressed.
#[derive(Debug, Clone, Copy, PartialEq, Eq, Structural)]
pub enum KeyCode {
    Esc,
    Enter,
    Up,
    Down,
    Tab,
    BackTab,
    Left,
    Right,
    Home,
    End,
    Backspace,
    Delete,
    /// A function key, by its number.
    F(u8),
    /// A character key.
    Char(char),
    /// Any other key.
    Other,
}

/// A key press: the key, and the modifier keys held with it as the sum of
/// `SHIFT`, `CONTROL` and the values of others.
#[derive(Debug, Clone, Copy, PartialEq, Eq, Structural)]
pub struct Key {
    pub code: KeyCode,
    pub modifiers: u8,
}

/// What a key press asks of the picker.
#[derive(Debug, Clone, Copy, PartialEq, Eq, Structural)]
pub enum Action {
    Cancel,
    Select,
    MoveUp,
    MoveDown,
    EnterAdd,
    EnterEdit,
    EnterDelete,
    ToggleHelp,
    CursorLeft,
    CursorRight,
    CursorStart,
    CursorEnd,
    DeleteChar,
    DeleteCharForward,
    ClearInput,
    InsertChar(char),
    Confirm,
    NextField,
    PrevField,
    Nothing,
}

/// The control key alone is held with the character `c`.
pub open spec fn is_control(key: Key, c: char) -> bool {
    key.code == KeyCode::Char(c) && key.modifiers == CONTROL
}

/// What the key asks of the list.
pub open spec fn list_binding(key: Key) -> Action {
    if key.code == KeyCode::Esc || is_control(key, 'c') {
        Action::Cancel
    } else if key.code == KeyCode::Enter {
        Action::Select
    } else if key.code == KeyCode::Up || is_control(key, 'k') {
        Action::MoveUp
    } else if key.code == KeyCode::Down || is_control(key, 'j') {
        Action::MoveDown
    } else if key.code == KeyCode::Tab && key.modifiers == NONE {
        Action::MoveDown
    } else if key.code == KeyCode::BackTab {
        Action::MoveUp
    } else if key.code == KeyCode::F(2) {
        Action::EnterAdd
    } else if key.code == KeyCode::F(3) {
        Action::EnterEdit
    } else if key.code == KeyCode::F(4) {
        Action::EnterDelete
    } else if key.code == KeyCode::F(1) {
        Action::ToggleHelp
    } else if key.code == KeyCode::Left || is_control(key, 'b') {
        Action::CursorLeft
    } else if key.code == KeyCode::Right || is_control(key, 'f') {
        Action::CursorRight
    } else if key.code == KeyCode::Home || is_control(key, 'a') {
        Action::CursorStart
    } else if key.code == KeyCode::End || is_control(key, 'e') {
        Action::CursorEnd
    } else if key.code == KeyCode::Backspace || is_control(key, 'h') {
        Action::DeleteChar
    } else if key.code == KeyCode::Delete || is_control(key, 'd') {
        Action::DeleteCharForward
    } else if is_control(key, 'u') {
        Action::ClearInput
    } else if key.code is Char && (key.modifiers == NONE || key.modifiers == SHIFT) {
        Action::InsertChar(key.code->Char_0)
    } else {
        Action::Nothing
    }
}

/// What the key asks of a form.
pub open spec fn form_binding(key: Key) -> Action {
    if key.code == KeyCode::Esc {
        Action::Cancel
    } else if key.code == KeyCode::Enter {
        Action::Confirm
    } else if key.code == KeyCode::Tab && key.modifiers == NONE {
        Action::NextField
    } else if key.code == KeyCode::BackTab {
        Action::PrevField
    } else if key.code == KeyCode::Backspace {
        Action::DeleteChar
    } else if is_control(key, 'u') {
        Action::ClearInput
    } else if key.code is Char && (key.modifiers == NONE || key.modifiers == SHIFT) {
        Action::InsertChar(key.code->Char_0)
    } else {
        Action::Nothing
    }
}

/// What the key answers to the question whether to delete.
pub open spec fn question_binding(key: Key) -> Action {
    if key.code == KeyCode::Char('y') || key.code == KeyCode::Char('Y') {
        Action::Confirm
    } else if key.code == KeyCode::Char('n') || key.code == KeyCode::Char('N') || key.code
        == KeyCode::Esc {
        Action::Cancel
    } else {
        Action::Nothing
    }
}

/// What the key asks of the help.
pub open spec fn help_binding(key: Key) -> Action {
    if key.code == KeyCode::Esc || key.code == KeyCode::Char('?') || key.code == KeyCode::Char(
        'q',
    ) {
        Action::ToggleHelp
    } else {
        Action::Nothing
    }
}

/// What the key asks of the picker in the mode `mode`.
pub open spec fn binding(mode: Mode, key: Key) -> Action {
    match mode {
        Mode::Normal => list_binding(key),
        Mode::Add | Mode::Edit => form_binding(key),
        Mode::Delete => question_binding(key),
        Mode::Help => help_binding(key),
    }
}

/// `next` and `next_store` are the session `app` and the store `store` after
/// `action`. All but `Confirm` leave the store as it is.
pub open spec fn acted(
    app: AppView,
    store: StoreView,
    action: Action,
    next: AppView,
    next_store: StoreView,
) -> bool {
    match action {
        Action::Confirm => app.confirmed(store, next, next_store),
        _ => next_store == store && match action {
            Action::Cancel => next == app.cancelled(),
            Action::Select => next == app.chosen(),
            Action::MoveUp => next == app.moved_up(),
            Action::MoveDown => next == app.moved_down(),
            Action::EnterAdd => next == app.adding(),
            Action::EnterEdit => next == app.editing(),
            Action::EnterDelete => next == app.deleting(),
            Action::ToggleHelp => next == app.help_toggled(),
            Action::CursorLeft => next == app.cursor_left(),
            Action::CursorRight => next == app.cursor_right(),
            Action::CursorStart => next == app.cursor_start(),
            Action::CursorEnd => next == app.cursor_end(),
            Action::DeleteChar => app.erased(next),
            Action::DeleteCharForward => app.erased_forward(next),
            Action::ClearInput => app.cleared(next),
            Action::InsertChar(c) => app.typed(c, next),
            Action::NextField => next == (AppView {
                active_field: field_after(app.active_field),
                ..app
            }),
            Action::PrevField => next == (AppView {
                active_field: field_before(app.active_field),
                ..app
            }),
            _ => next == app,
        },
    }
}

/// Whether the control key alone is held with the character `c`.
fn control(key: Key, c: char) -> (r: bool)
    ensures
        r == is_control(key, c),
{
    match key.code {
        KeyCode::Char(k) => k == c && key.modifiers == CONTROL,
        _ => false,
    }
}

/// Whether the key is a character typed with no modifier but shift.
fn typed_char(key: Key) -> (r: Option<char>)
    ensures
        r is Some <==> key.code is Char && (key.modifiers == NONE || key.modifiers == SHIFT),
        r is Some ==> r->0 == key.code->Char_0,
{
    match key.code {
        KeyCode::Char(c) => if key.modifiers == NONE || key.modifiers == SHIFT {
            Some(c)
        } else {
            None
        },
        _ => None,
    }
}

/// What the key asks of the list.
fn list_action(key: Key) -> (r: Action)
    ensures
        r == list_binding(key),
{
    if control(key, 'c') {
        return Action::Cancel;
    }
    if control(key, 'k') {
        return Action::MoveUp;
    }
    if control(key, 'j') {
        return Action::MoveDown;
    }
    if control(key, 'b') {
        return Action::CursorLeft;
    }
    if control(key, 'f') {
        return Action::CursorRight;
    }
    if control(key, 'a') {
        return Action::CursorStart;
    }
    if control(key, 'e') {
        return Action::CursorEnd;
    }
    if control(key, 'h') {
        return Action::DeleteChar;
    }
    if control(key, 'd') {
        return Action::DeleteCharForward;
    }
    if control(key, 'u') {
        return Action::ClearInput;
    }
    match key.code {
        KeyCode::Esc => Action::Cancel,
        KeyCode::Enter => Action::Select,
        KeyCode::Up => Action::MoveUp,
        KeyCode::Down => Action::MoveDown,
        KeyCode::Tab => if key.modifiers == NONE {
            Action::MoveDown
        } else {
            Action::Nothing
        },
        KeyCode::BackTab => Action::MoveUp,
        KeyCode::F(n) => if n == 1 {
            Action::ToggleHelp
        } else if n == 2 {
            Action::EnterAdd
        } else if n == 3 {
            Action::EnterEdit
        } else if n == 4 {
            Action::EnterDelete
        } else {
            Action::Nothing
        },
        KeyCode::Left => Action::CursorLeft,
        KeyCode::Right => Action::CursorRight,
        KeyCode::Home => Action::CursorStart,
        KeyCode::End => Action::CursorEnd,
        KeyCode::Backspace => Action::DeleteChar,
        KeyCode::Delete => Action::DeleteCharForward,
        KeyCode::Char(_) => match typed_char(key) {
            Some(c) => Action::InsertChar(c),
            None => Action::Nothing,
        },
        KeyCode::Other => Action::Nothing,
    }
}

/// What the key asks of a form.
fn form_action(key: Key) -> (r: Action)
    ensures
        r == form_binding(key),
{
    match key.code {
        KeyCode::Esc => Action::Cancel,
        KeyCode::Enter => Action::Confirm,
        KeyCode::Tab => if key.modifiers == NONE {
            Action::NextField
        } else {
            Action::Nothing
        },
        KeyCode::BackTab => Action::PrevField,
        KeyCode::Backspace => Action::DeleteChar,
        KeyCode::Char(_) => if control(key, 'u') {
            Action::ClearInput
        } else {
            match typed_char(key) {
                Some(c) => Action::InsertChar(c),
                None => Action::Nothing,
            }
        },
        _ => Action::Nothing,
    }
}

/// What the key asks of the picker in the mode `mode`.
pub fn action_for(mode: Mode, key: Key) -> (r: Action)
    ensures
        r == binding(mode, key),
{
    match mode {
        Mode::Normal => list_action(key),
        Mode::Add | Mode::Edit => form_action(key),
        Mode::Delete => match key.code {
            KeyCode::Char(c) => if c == 'y' || c == 'Y' {
                Action::Confirm
            } else if c == 'n' || c == 'N' {
                Action::Cancel
            } else {
                Action::Nothing
            },
            KeyCode::Esc => Action::Cancel,
            _ => Action::Nothing,
        },
        Mode::Help => match key.code {
            KeyCode::Esc => Action::ToggleHelp,
            KeyCode::Char(c) => if c == '?' || c == 'q' {
                Action::ToggleHelp
            } else {
                Action::Nothing
            },
            _ => Action::Nothing,
        },
    }
}

/// Does to the session, and through it to the store, what `action` asks.
pub fn apply(app: &mut App, action: Action, store: &mut Store)
    requires
        old(app).wf(),
    ensures
        final(app).wf(),
        acted(old(app)@, old(store)@, action, final(app)@, final(store)@),
{
    match action {
        Action::Cancel => app.cancel(),
        Action::Select => app.select_current(),
        Action::MoveUp => app.move_up(),
        Action::MoveDown => app.move_down(),
        Action::EnterAdd => app.enter_add_mode(),
        Action::EnterEdit => app.enter_edit_mode(),
        Action::EnterDelete => app.enter_delete_mode(),
        Action::ToggleHelp => app.toggle_help(),
        Action::CursorLeft => app.move_cursor_left(),
        Action::CursorRight => app.move_cursor_right(),
        Action::CursorStart => app.move_cursor_start(),
        Action::CursorEnd => app.move_cursor_end(),
        Action::DeleteChar => app.delete_char(),
        Action::DeleteCharForward => app.delete_char_forward(),
        Action::ClearInput => app.clear_input(),
        Action::InsertChar(c) => app.insert_char(c),
        Action::Confirm => app.confirm_action(store),
        Action::NextField => app.next_field(),
        Action::PrevField => app.prev_field(),
        Action::Nothing => {},
    }
}

/// Takes a key press: does what the key asks in the mode of the session.
pub fn handle_key_event(app: &mut App, key: Key, store: &mut Store)
    requires
        old(app).wf(),
    ensures
        final(app).wf(),
        acted(
            old(app)@,
            old(store)@,
            binding(old(app).mode, key),
            final(app)@,
            final(store)@,
        ),
{
    let action = action_for(app.mode, key);
    apply(app, action, store);
}

} // verus!
