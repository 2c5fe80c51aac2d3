//! The interactive picker: the list of commands filtered by a query, the
//! selection and the window on it, and the forms that add, edit and delete
//! a command.

use crate::command::{views, Command, CommandView};
use crate::error::{join2, CmdxError, ErrorView};
use crate::path::is_ancestor;
use crate::store::{
    add_error, added, after_add, after_remove, got, has_leaf_above, has_leaf_under, remove_error,
    removed, Store, StoreView,
};
use crate::text::str_eq;
use crate::rank::{all_tied, is_ranking, is_search_result, scores_of, search};
use crate::text::{chars_of, string_of};
use vstd::prelude::*;
use vstd::string::*;

verus! {

/// What the picker is showing.
#[derive(Debug, Clone, Copy, PartialEq, Eq, Structural)]
pub enum Mode {
    /// The list, filtered by the query.
    Normal,
    /// The form for a new command.
    Add,
    /// The form for the selected command.
    Edit,
    /// The question whether to delete the selected command.
    Delete,
    /// The help.
    Help,
}

/// A field of the form.
#[derive(Debug, Clone, Copy, PartialEq, Eq, Structural)]
pub enum InputField {
    Path,
    Command,
    Description,
}

/// The state of a session of the picker. Positions in texts count
/// characters.
pub struct App {
    /// The query.
    pub input: String,
    /// Where in the query the cursor stands.
    pub cursor_position: usize,
    /// The commands, as last known.
    pub commands: Vec<Command>,
    /// The commands that match the query, as places in `commands` with
    /// their scores, the best first.
    pub filtered: Vec<(usize, i64)>,
    /// The place in `filtered` of the selected command.
    pub selected: usize,
    /// The place in `filtered` of the first line of the window.
    pub scroll_offset: usize,
    /// The number of lines of the window.
    pub visible_height: usize,
    /// Whether the session has ended.
    pub should_quit: bool,
    /// The command that the session ended on.
    pub selected_command: Option<Command>,
    pub mode: Mode,
    pub form_path: String,
    pub form_command: String,
    pub form_description: String,
    /// The field of the form that takes the input.
    pub active_field: InputField,
    /// The last message, and whether it reports an error.
    pub message: Option<(String, bool)>,
    /// The path of the command that the form edits.
    pub editing_original_path: Option<String>,
}

/// The state of a session, with its texts as sequences of characters.
pub struct AppView {
    pub input: Seq<char>,
    pub cursor_position: usize,
    pub commands: Seq<CommandView>,
    pub filtered: Seq<(usize, i64)>,
    pub selected: usize,
    pub scroll_offset: usize,
    pub visible_height: usize,
    pub should_quit: bool,
    pub selected_command: Option<CommandView>,
    pub mode: Mode,
    pub form_path: Seq<char>,
    pub form_command: Seq<char>,
    pub form_description: Seq<char>,
    pub active_field: InputField,
    pub message: Option<(Seq<char>, bool)>,
    pub editing_original_path: Option<Seq<char>>,
}

impl View for App {
    type V = AppView;

    open spec fn view(&self) -> AppView {
        AppView {
            input: self.input@,
            cursor_position: self.cursor_position,
            commands: views(self.commands@),
            filtered: self.filtered@,
            selected: self.selected,
            scroll_offset: self.scroll_offset,
            visible_height: self.visible_height,
            should_quit: self.should_quit,
            selected_command: match self.selected_command {
                Some(c) => Some(c@),
                None => None,
            },
            mode: self.mode,
            form_path: self.form_path@,
            form_command: self.form_command@,
            form_description: self.form_description@,
            active_field: self.active_field,
            message: match self.message {
                Some((m, e)) => Some((m@, e)),
                None => None,
            },
            editing_original_path: match self.editing_original_path {
                Some(p) => Some(p@),
                None => None,
            },
        }
    }
}

/// The first line of the window after the least move that brings the
/// selection into a window of `height` lines that began at `offset`.
pub open spec fn scrolled(offset: usize, selected: usize, height: usize) -> usize {
    if selected < offset {
        selected
    } else if selected - offset >= height {
        (selected - (height - 1)) as usize
    } else {
        offset
    }
}

/// The field after `field`, the first after the last.
pub open spec fn field_after(field: InputField) -> InputField {
    match field {
        InputField::Path => InputField::Command,
        InputField::Command => InputField::Description,
        InputField::Description => InputField::Path,
    }
}

/// The field before `field`, the last before the first.
pub open spec fn field_before(field: InputField) -> InputField {
    match field {
        InputField::Path => InputField::Description,
        InputField::Command => InputField::Path,
        InputField::Description => InputField::Command,
    }
}

impl AppView {
    /// The selection lies in the list and in the window, the hits lie in
    /// the commands, the cursor lies in the query, and the form that edits
    /// knows what it edits.
    pub open spec fn wf(self) -> bool {
        &&& self.visible_height >= 1
        &&& forall|k: int|
            0 <= k < self.filtered.len() ==> (#[trigger] self.filtered[k]).0 < self.commands.len()
        &&& (self.filtered.len() == 0 ==> self.selected == 0)
        &&& (self.filtered.len() > 0 ==> self.selected < self.filtered.len())
        &&& self.scroll_offset <= self.selected
        &&& self.selected - self.scroll_offset < self.visible_height
        &&& self.cursor_position <= self.input.len()
        &&& (self.mode == Mode::Edit ==> self.editing_original_path is Some)
    }

    /// The list shows what the query finds among the commands.
    pub open spec fn in_step(self) -> bool {
        is_ranking(self.filtered, scores_of(self.commands, self.input))
    }

    /// The selected command, where the list is not empty.
    pub open spec fn current(self) -> CommandView
        recommends
            self.wf(),
            self.filtered.len() > 0,
    {
        self.commands[self.filtered[self.selected as int].0 as int]
    }

    /// The session as it starts on `commands`.
    pub open spec fn start(commands: Seq<CommandView>) -> AppView {
        AppView {
            input: Seq::empty(),
            cursor_position: 0,
            commands,
            filtered: all_tied(commands.len()),
            selected: 0,
            scroll_offset: 0,
            visible_height: 10,
            should_quit: false,
            selected_command: None,
            mode: Mode::Normal,
            form_path: Seq::empty(),
            form_command: Seq::empty(),
            form_description: Seq::empty(),
            active_field: InputField::Path,
            message: None,
            editing_original_path: None,
        }
    }

    /// The selection moved to `selected`, and the window with it.
    pub open spec fn select(self, selected: usize) -> AppView {
        AppView {
            selected,
            scroll_offset: scrolled(self.scroll_offset, selected, self.visible_height),
            ..self
        }
    }

    /// The selection one line up, if there is one.
    pub open spec fn moved_up(self) -> AppView {
        if self.filtered.len() > 0 && self.selected > 0 {
            self.select((self.selected - 1) as usize)
        } else {
            self
        }
    }

    /// The selection one line down, if there is one.
    pub open spec fn moved_down(self) -> AppView {
        if self.filtered.len() > 0 && self.selected < self.filtered.len() - 1 {
            self.select((self.selected + 1) as usize)
        } else {
            self
        }
    }

    /// The window with `height` lines, at least one, moved to hold the
    /// selection.
    pub open spec fn resized(self, height: usize) -> AppView {
        let h = if height >= 1 {
            height
        } else {
            1
        };
        AppView { visible_height: h, scroll_offset: scrolled(self.scroll_offset, self.selected, h), ..self }
    }

    /// The session ended on the selected command; on none where the list is
    /// empty.
    pub open spec fn chosen(self) -> AppView {
        AppView {
            should_quit: true,
            selected_command: if self.filtered.len() > 0 {
                Some(self.current())
            } else {
                self.selected_command
            },
            ..self
        }
    }

    /// The form emptied.
    pub open spec fn form_cleared(self) -> AppView {
        AppView {
            form_path: Seq::empty(),
            form_command: Seq::empty(),
            form_description: Seq::empty(),
            editing_original_path: None,
            ..self
        }
    }

    /// Cancelled: the list ends the session, everything else goes back to
    /// the list, with the form emptied and the message gone.
    pub open spec fn cancelled(self) -> AppView {
        if self.mode == Mode::Normal {
            AppView { should_quit: true, ..self }
        } else {
            AppView { mode: Mode::Normal, message: None, ..self.form_cleared() }
        }
    }

    /// The form for a new command, empty.
    pub open spec fn adding(self) -> AppView {
        AppView {
            mode: Mode::Add,
            active_field: InputField::Path,
            message: None,
            ..self.form_cleared()
        }
    }

    /// The form for the selected command, filled with it; nothing changes
    /// where the list is empty.
    pub open spec fn editing(self) -> AppView {
        if self.filtered.len() > 0 {
            let c = self.current();
            AppView {
                form_path: c.path,
                form_command: c.command,
                form_description: c.explanation,
                editing_original_path: Some(c.path),
                mode: Mode::Edit,
                active_field: InputField::Command,
                message: None,
                ..self
            }
        } else {
            self
        }
    }

    /// The question whether to delete the selected command; nothing changes
    /// where the list is empty.
    pub open spec fn deleting(self) -> AppView {
        if self.filtered.len() > 0 {
            AppView { mode: Mode::Delete, message: None, ..self }
        } else {
            self
        }
    }

    /// The help shown, or hidden where it was shown.
    pub open spec fn help_toggled(self) -> AppView {
        AppView {
            mode: if self.mode == Mode::Help {
                Mode::Normal
            } else {
                Mode::Help
            },
            ..self
        }
    }

    /// The cursor one character to the left, if there is one.
    pub open spec fn cursor_left(self) -> AppView {
        AppView {
            cursor_position: if self.cursor_position > 0 {
                (self.cursor_position - 1) as usize
            } else {
                0
            },
            ..self
        }
    }

    /// The cursor one character to the right, if there is one.
    pub open spec fn cursor_right(self) -> AppView {
        AppView {
            cursor_position: if self.cursor_position < self.input.len() {
                (self.cursor_position + 1) as usize
            } else {
                self.cursor_position
            },
            ..self
        }
    }

    /// The cursor before the first character.
    pub open spec fn cursor_start(self) -> AppView {
        AppView { cursor_position: 0, ..self }
    }

    /// The cursor behind the last character.
    pub open spec fn cursor_end(self) -> AppView {
        AppView { cursor_position: self.input.len() as usize, ..self }
    }

    /// The first and, behind the last, the end of the lines of the window.
    pub open spec fn window(self) -> (int, int) {
        let end = self.scroll_offset + self.visible_height;
        (
            self.scroll_offset as int,
            if end <= self.filtered.len() {
                end
            } else {
                self.filtered.len() as int
            },
        )
    }
}

impl App {
    /// The invariant of a session.
    pub open spec fn wf(&self) -> bool {
        self@.wf()
    }

    /// A session on `commands`: all of them listed in their order, the first
    /// selected.
    pub fn new(commands: Vec<Command>) -> (r: Self)
        ensures
            r.wf(),
            r@ == AppView::start(views(commands@)),
    {
        let mut filtered: Vec<(usize, i64)> = Vec::new();
        let mut i: usize = 0;
        while i < commands.len()
            invariant
                i <= commands@.len(),
                filtered@ == all_tied(i as nat),
            decreases commands@.len() - i,
        {
            filtered.push((i, 0));
            assert(filtered@ =~= all_tied((i + 1) as nat));
            i += 1;
        }
        App {
            input: String::new(),
            cursor_position: 0,
            commands,
            filtered,
            selected: 0,
            scroll_offset: 0,
            visible_height: 10,
            should_quit: false,
            selected_command: None,
            mode: Mode::Normal,
            form_path: String::new(),
            form_command: String::new(),
            form_description: String::new(),
            active_field: InputField::Path,
            message: None,
            editing_original_path: None,
        }
    }

    /// Moves the window so that it holds the selection.
    fn ensure_visible(&mut self)
        requires
            old(self).visible_height >= 1,
        ensures
            final(self)@ == (AppView {
                scroll_offset: scrolled(
                    old(self).scroll_offset,
                    old(self).selected,
                    old(self).visible_height,
                ),
                ..old(self)@
            }),
    {
        if self.selected < self.scroll_offset {
            self.scroll_offset = self.selected;
        } else if self.selected - self.scroll_offset >= self.visible_height {
            self.scroll_offset = self.selected - (self.visible_height - 1);
        }
    }

    /// Moves the selection one line up; it stays on the first line.
    pub fn move_up(&mut self)
        requires
            old(self).wf(),
        ensures
            final(self).wf(),
            final(self)@ == old(self)@.moved_up(),
    {
        if !self.filtered.is_empty() && self.selected > 0 {
            self.selected -= 1;
            self.ensure_visible();
        }
    }

    /// Moves the selection one line down; it stays on the last line.
    pub fn move_down(&mut self)
        requires
            old(self).wf(),
        ensures
            final(self).wf(),
            final(self)@ == old(self)@.moved_down(),
    {
        if !self.filtered.is_empty() && self.selected < self.filtered.len() - 1 {
            self.selected += 1;
            self.ensure_visible();
        }
    }

    /// Gives the window `height` lines, at least one.
    pub fn set_visible_height(&mut self, height: usize)
        requires
            old(self).wf(),
        ensures
            final(self).wf(),
            final(self)@ == old(self)@.resized(height),
    {
        self.visible_height = if height >= 1 {
            height
        } else {
            1
        };
        self.ensure_visible();
    }

    /// Ends the session on the selected command.
    pub fn select_current(&mut self)
        requires
            old(self).wf(),
        ensures
            final(self).wf(),
            final(self)@ == old(self)@.chosen(),
    {
        if self.selected < self.filtered.len() {
            let idx = self.filtered[self.selected].0;
            self.selected_command = Some(self.commands[idx].duplicate());
        }
        self.should_quit = true;
    }

    /// Empties the form.
    fn clear_form(&mut self)
        ensures
            final(self)@ == old(self)@.form_cleared(),
    {
        self.form_path = String::new();
        self.form_command = String::new();
        self.form_description = String::new();
        self.editing_original_path = None;
    }

    /// Cancels: ends the session from the list, and goes back to the list
    /// from everything else.
    pub fn cancel(&mut self)
        requires
            old(self).wf(),
        ensures
            final(self).wf(),
            final(self)@ == old(self)@.cancelled(),
    {
        match self.mode {
            Mode::Normal => {
                self.should_quit = true;
            },
            _ => {
                self.mode = Mode::Normal;
                self.clear_form();
                self.message = None;
            },
        }
    }

    /// Moves the cursor one character to the left, if there is one.
    pub fn move_cursor_left(&mut self)
        requires
            old(self).wf(),
        ensures
            final(self).wf(),
            final(self)@ == old(self)@.cursor_left(),
    {
        if self.cursor_position > 0 {
            self.cursor_position -= 1;
        }
    }

    /// Moves the cursor one character to the right, if there is one.
    pub fn move_cursor_right(&mut self)
        requires
            old(self).wf(),
        ensures
            final(self).wf(),
            final(self)@ == old(self)@.cursor_right(),
    {
        if self.cursor_position < self.input.as_str().unicode_len() {
            self.cursor_position += 1;
        }
    }

    /// Moves the cursor before the first character.
    pub fn move_cursor_start(&mut self)
        requires
            old(self).wf(),
        ensures
            final(self).wf(),
            final(self)@ == old(self)@.cursor_start(),
    {
        self.cursor_position = 0;
    }

    /// Moves the cursor behind the last character.
    pub fn move_cursor_end(&mut self)
        requires
            old(self).wf(),
        ensures
            final(self).wf(),
            final(self)@ == old(self)@.cursor_end(),
    {
        self.cursor_position = self.input.as_str().unicode_len();
    }

    /// The places in the list of the lines of the window.
    pub fn visible_range(&self) -> (r: std::ops::Range<usize>)
        requires
            self.wf(),
        ensures
            r.start == self@.window().0,
            r.end == self@.window().1,
    {
        let start = self.scroll_offset;
        let end = if self.visible_height <= self.filtered.len() - self.scroll_offset {
            self.scroll_offset + self.visible_height
        } else {
            self.filtered.len()
        };
        start..end
    }

    /// Opens the form for a new command.
    pub fn enter_add_mode(&mut self)
        requires
            old(self).wf(),
        ensures
            final(self).wf(),
            final(self)@ == old(self)@.adding(),
    {
        self.mode = Mode::Add;
        self.clear_form();
        self.active_field = InputField::Path;
        self.message = None;
    }

    /// Opens the form for the selected command.
    pub fn enter_edit_mode(&mut self)
        requires
            old(self).wf(),
        ensures
            final(self).wf(),
            final(self)@ == old(self)@.editing(),
    {
        if self.selected < self.filtered.len() {
            let idx = self.filtered[self.selected].0;
            self.form_path = self.commands[idx].path.clone();
            self.form_command = self.commands[idx].command.clone();
            self.form_description = self.commands[idx].explanation.clone();
            self.editing_original_path = Some(self.commands[idx].path.clone());
            self.mode = Mode::Edit;
            self.active_field = InputField::Command;
            self.message = None;
        }
    }

    /// Asks whether to delete the selected command.
    pub fn enter_delete_mode(&mut self)
        requires
            old(self).wf(),
        ensures
            final(self).wf(),
            final(self)@ == old(self)@.deleting(),
    {
        if !self.filtered.is_empty() {
            self.mode = Mode::Delete;
            self.message = None;
        }
    }

    /// Shows the help, or hides it.
    pub fn toggle_help(&mut self)
        requires
            old(self).wf(),
        ensures
            final(self).wf(),
            final(self)@ == old(self)@.help_toggled(),
    {
        self.mode = if self.mode == Mode::Help {
            Mode::Normal
        } else {
            Mode::Help
        };
    }

    /// Makes the next field of the form the active one.
    pub fn next_field(&mut self)
        requires
            old(self).wf(),
        ensures
            final(self).wf(),
            final(self)@ == (AppView {
                active_field: field_after(old(self).active_field),
                ..old(self)@
            }),
    {
        self.active_field = match self.active_field {
            InputField::Path => InputField::Command,
            InputField::Command => InputField::Description,
            InputField::Description => InputField::Path,
        };
    }

    /// Makes the field before the active one the active one.
    pub fn prev_field(&mut self)
        requires
            old(self).wf(),
        ensures
            final(self).wf(),
            final(self)@ == (AppView {
                active_field: field_before(old(self).active_field),
                ..old(self)@
            }),
    {
        self.active_field = match self.active_field {
            InputField::Path => InputField::Description,
            InputField::Command => InputField::Path,
            InputField::Description => InputField::Command,
        };
    }
}

impl AppView {
    /// The query set to `input`, with the cursor at `cursor`.
    pub open spec fn with_query(self, input: Seq<char>, cursor: usize) -> AppView {
        AppView { input, cursor_position: cursor, ..self }
    }

    /// The text of the active field of the form.
    pub open spec fn active_text(self) -> Seq<char> {
        match self.active_field {
            InputField::Path => self.form_path,
            InputField::Command => self.form_command,
            InputField::Description => self.form_description,
        }
    }

    /// The text of the active field of the form set to `text`.
    pub open spec fn with_active_text(self, text: Seq<char>) -> AppView {
        match self.active_field {
            InputField::Path => AppView { form_path: text, ..self },
            InputField::Command => AppView { form_command: text, ..self },
            InputField::Description => AppView { form_description: text, ..self },
        }
    }

    /// Whether a form is open.
    pub open spec fn in_form(self) -> bool {
        self.mode == Mode::Add || self.mode == Mode::Edit
    }

    /// `next` is this session with its list made anew for its query and its
    /// commands, and the first line selected.
    pub open spec fn refiltered(self, next: AppView) -> bool {
        &&& next == (AppView { filtered: next.filtered, selected: 0, scroll_offset: 0, ..self })
        &&& is_search_result(next.filtered, self.commands, self.input)
    }

    /// Where the selection goes when the list has `len` lines: it stays
    /// where it lies in the list, and else goes to the last line if
    /// `to_last` is set and to the first if not.
    pub open spec fn settled_selection(self, len: nat, to_last: bool) -> usize {
        if self.selected < len {
            self.selected
        } else if to_last && len > 0 {
            (len - 1) as usize
        } else {
            0
        }
    }

    /// This session with the list `filtered`, the selection kept as far as
    /// that list allows, and the window moved from the top to hold it.
    pub open spec fn settle_on(self, filtered: Seq<(usize, i64)>, to_last: bool) -> AppView {
        let selected = self.settled_selection(filtered.len(), to_last);
        AppView {
            filtered,
            selected,
            scroll_offset: scrolled(0, selected, self.visible_height),
            ..self
        }
    }

    /// `next` is this session with its list made anew for its query and its
    /// commands, the selection kept as far as the list allows, and the
    /// window moved from the top to hold it.
    pub open spec fn settled(self, next: AppView, to_last: bool) -> bool {
        &&& next == self.settle_on(next.filtered, to_last)
        &&& is_search_result(next.filtered, self.commands, self.input)
    }

    /// `next` is this session after the character `c` was typed: in the
    /// list it enters the query at the cursor, which moves behind it, and
    /// the list is made anew; in a form it is added to the active field.
    pub open spec fn typed(self, c: char, next: AppView) -> bool {
        if self.mode == Mode::Normal {
            self.with_query(
                self.input.insert(self.cursor_position as int, c),
                (self.cursor_position + 1) as usize,
            ).refiltered(next)
        } else if self.in_form() {
            next == self.with_active_text(self.active_text().push(c))
        } else {
            next == self
        }
    }

    /// `next` is this session after the character before the cursor was
    /// deleted: in the list it leaves the query, if there is one, and the
    /// list is made anew; in a form the active field loses its last
    /// character.
    pub open spec fn erased(self, next: AppView) -> bool {
        if self.mode == Mode::Normal {
            if self.cursor_position > 0 {
                self.with_query(
                    self.input.remove(self.cursor_position - 1),
                    (self.cursor_position - 1) as usize,
                ).refiltered(next)
            } else {
                next == self
            }
        } else if self.in_form() {
            next == self.with_active_text(
                if self.active_text().len() > 0 {
                    self.active_text().drop_last()
                } else {
                    self.active_text()
                },
            )
        } else {
            next == self
        }
    }

    /// `next` is this session after the character at the cursor was
    /// deleted, which the list alone does and only where there is one.
    pub open spec fn erased_forward(self, next: AppView) -> bool {
        if self.mode == Mode::Normal && self.cursor_position < self.input.len() {
            self.with_query(
                self.input.remove(self.cursor_position as int),
                self.cursor_position,
            ).refiltered(next)
        } else {
            next == self
        }
    }

    /// `next` is this session after the input was cleared: the query in the
    /// list, with the list made anew, and the active field in a form.
    pub open spec fn cleared(self, next: AppView) -> bool {
        if self.mode == Mode::Normal {
            self.with_query(Seq::empty(), 0).refiltered(next)
        } else if self.in_form() {
            next == self.with_active_text(Seq::empty())
        } else {
            next == self
        }
    }
}

impl App {
    /// Makes the list anew for the query and the commands, and selects its
    /// first line.
    pub fn update_filter(&mut self)
        requires
            old(self).wf(),
        ensures
            final(self).wf(),
            old(self)@.refiltered(final(self)@),
    {
        self.filtered = search(self.input.as_str(), self.commands.as_slice());
        self.selected = 0;
        self.scroll_offset = 0;
        proof {
            let scores = scores_of(views(self.commands@), self.input@);
            assert forall|k: int| 0 <= k < self.filtered@.len() implies (
            #[trigger] self.filtered@[k]).0 < self.commands@.len() by {
                assert(self.filtered@[k].0 < scores.len());
            }
        }
    }

    /// Makes the list anew for the query and the commands, keeps the
    /// selection as far as the list allows, and moves the window from the
    /// top to hold it.
    fn settle(&mut self, to_last: bool)
        requires
            old(self).visible_height >= 1,
        ensures
            old(self)@.settled(final(self)@, to_last),
            final(self)@.cursor_position <= final(self)@.input.len() ==> (AppView {
                mode: Mode::Normal,
                ..final(self)@
            }).wf(),
    {
        self.filtered = search(self.input.as_str(), self.commands.as_slice());
        if self.selected >= self.filtered.len() {
            self.selected = if to_last && self.filtered.len() > 0 {
                self.filtered.len() - 1
            } else {
                0
            };
        }
        self.scroll_offset = 0;
        self.ensure_visible();
        proof {
            let scores = scores_of(views(self.commands@), self.input@);
            assert forall|k: int| 0 <= k < self.filtered@.len() implies (
            #[trigger] self.filtered@[k]).0 < self.commands@.len() by {
                assert(self.filtered@[k].0 < scores.len());
            }
        }
    }

    /// The characters of the active field of the form.
    fn active_chars(&self) -> (r: Vec<char>)
        ensures
            r@ == self@.active_text(),
    {
        match self.active_field {
            InputField::Path => chars_of(self.form_path.as_str()),
            InputField::Command => chars_of(self.form_command.as_str()),
            InputField::Description => chars_of(self.form_description.as_str()),
        }
    }

    /// Sets the text of the active field of the form.
    fn set_active(&mut self, text: String)
        ensures
            final(self)@ == old(self)@.with_active_text(text@),
    {
        match self.active_field {
            InputField::Path => {
                self.form_path = text;
            },
            InputField::Command => {
                self.form_command = text;
            },
            InputField::Description => {
                self.form_description = text;
            },
        }
    }

    /// Takes the character `c` that was typed.
    pub fn insert_char(&mut self, c: char)
        requires
            old(self).wf(),
        ensures
            final(self).wf(),
            old(self)@.typed(c, final(self)@),
    {
        match self.mode {
            Mode::Normal => {
                let mut v = chars_of(self.input.as_str());
                v.insert(self.cursor_position, c);
                let len = v.len();
                assert(self.cursor_position < len);
                self.input = string_of(&v);
                self.cursor_position += 1;
                self.update_filter();
            },
            Mode::Add | Mode::Edit => {
                let mut v = self.active_chars();
                v.push(c);
                self.set_active(string_of(&v));
            },
            _ => {},
        }
    }

    /// Deletes the character before the cursor.
    pub fn delete_char(&mut self)
        requires
            old(self).wf(),
        ensures
            final(self).wf(),
            old(self)@.erased(final(self)@),
    {
        match self.mode {
            Mode::Normal => {
                if self.cursor_position > 0 {
                    self.cursor_position -= 1;
                    let mut v = chars_of(self.input.as_str());
                    let _ = v.remove(self.cursor_position);
                    self.input = string_of(&v);
                    self.update_filter();
                }
            },
            Mode::Add | Mode::Edit => {
                let mut v = self.active_chars();
                let _ = v.pop();
                self.set_active(string_of(&v));
            },
            _ => {},
        }
    }

    /// Deletes the character at the cursor.
    pub fn delete_char_forward(&mut self)
        requires
            old(self).wf(),
        ensures
            final(self).wf(),
            old(self)@.erased_forward(final(self)@),
    {
        if self.mode == Mode::Normal {
            let mut v = chars_of(self.input.as_str());
            if self.cursor_position < v.len() {
                let _ = v.remove(self.cursor_position);
                self.input = string_of(&v);
                self.update_filter();
            }
        }
    }

    /// Clears the query, or the active field of the form.
    pub fn clear_input(&mut self)
        requires
            old(self).wf(),
        ensures
            final(self).wf(),
            old(self)@.cleared(final(self)@),
    {
        match self.mode {
            Mode::Normal => {
                self.input = String::new();
                self.cursor_position = 0;
                self.update_filter();
            },
            Mode::Add | Mode::Edit => {
                self.set_active(String::new());
            },
            _ => {},
        }
    }
}

/// The message that reports the error `e`.
pub open spec fn error_note(e: ErrorView) -> Option<(Seq<char>, bool)> {
    Some(("Error: "@ + e.message(), true))
}

/// The message that reports that `text` was done.
pub open spec fn done_note(text: Seq<char>) -> Option<(Seq<char>, bool)> {
    Some((text, false))
}

/// The place of the first of `commands` at or after `from` that lies at the
/// path `p`, or the length of `commands` where there is none.
pub open spec fn first_at(commands: Seq<CommandView>, p: Seq<char>, from: int) -> int
    decreases commands.len() - from,
{
    if from >= commands.len() {
        commands.len() as int
    } else if commands[from].path == p {
        from
    } else {
        first_at(commands, p, from + 1)
    }
}

/// `commands` with `c` in the place of the first command at the path `p`,
/// if there is one.
pub open spec fn replaced(commands: Seq<CommandView>, p: Seq<char>, c: CommandView) -> Seq<
    CommandView,
> {
    let k = first_at(commands, p, 0);
    if 0 <= k < commands.len() {
        commands.update(k, c)
    } else {
        commands
    }
}

impl AppView {
    /// The command that the form holds.
    pub open spec fn form_record(self) -> CommandView {
        CommandView {
            path: self.form_path,
            command: self.form_command,
            explanation: self.form_description,
        }
    }

    /// The form lacks the path or the command.
    pub open spec fn form_incomplete(self) -> bool {
        self.form_path.len() == 0 || self.form_command.len() == 0
    }

    /// This session with the message that the form is incomplete.
    pub open spec fn form_refused(self) -> AppView {
        AppView { message: Some(("Path and command are required"@, true)), ..self }
    }

    /// `next` is this session back in the list after its commands became
    /// `commands`: the list is made anew, the selection kept as far as the
    /// list allows, the form emptied if `clear` is set, and `text` the
    /// message.
    pub open spec fn back_in_list(
        self,
        next: AppView,
        commands: Seq<CommandView>,
        to_last: bool,
        clear: bool,
        text: Seq<char>,
    ) -> bool {
        let listed = (AppView { commands, ..self }).settle_on(next.filtered, to_last);
        let emptied = if clear {
            listed.form_cleared()
        } else {
            listed
        };
        &&& next == (AppView { mode: Mode::Normal, message: done_note(text), ..emptied })
        &&& is_search_result(next.filtered, commands, self.input)
    }

    /// The form for a new command was confirmed. An incomplete form is
    /// refused. Else the command of the form is added to the store, without
    /// overwriting: where that fails the error is shown and the form stays
    /// as it is; where it succeeds the command joins the commands at their
    /// end and the session is back in the list.
    pub open spec fn saved_new(self, store: StoreView, next: AppView, next_store: StoreView) -> bool {
        if self.form_incomplete() {
            next == self.form_refused() && next_store == store
        } else {
            let c = self.form_record();
            &&& next_store == after_add(store, c, false)
            &&& match add_error(store, c, false) {
                Some(e) => next == (AppView { message: error_note(e), ..self }),
                None => self.back_in_list(
                    next,
                    self.commands.push(c),
                    false,
                    true,
                    "Command added successfully"@,
                ),
            }
        }
    }

    /// The form for the command at `editing_original_path` was confirmed. An
    /// incomplete form is refused. Where the store does not hold the
    /// command the error is shown and nothing changes. Else the command is
    /// removed and the command of the form added, without overwriting.
    /// Where that fails the command that was removed is stored again, as it
    /// was, so that the store holds what it held; the error is shown and the
    /// form stays as it is. Where it succeeds the command of the form takes
    /// the place of the first of the commands at the path, and the session
    /// is back in the list.
    pub open spec fn saved_edit(self, store: StoreView, next: AppView, next_store: StoreView) -> bool
        recommends
            self.editing_original_path is Some,
    {
        if self.form_incomplete() {
            next == self.form_refused() && next_store == store
        } else {
            let p = self.editing_original_path->0;
            let c = self.form_record();
            match got(store, p) {
                Err(e) => next == (AppView { message: error_note(e), ..self }) && next_store
                    == store,
                Ok(original) => match add_error(removed(store, p), c, false) {
                    Some(e) => {
                        &&& next == (AppView { message: error_note(e), ..self })
                        &&& next_store == added(removed(store, p), original)
                        &&& next_store.leaves == store.leaves
                    },
                    None => {
                        &&& next_store == added(removed(store, p), c)
                        &&& self.back_in_list(
                            next,
                            replaced(self.commands, p, c),
                            false,
                            true,
                            "Command updated successfully"@,
                        )
                    },
                },
            }
        }
    }

    /// The deletion of the selected command was confirmed. Nothing happens
    /// where the list is empty. Else the command is removed from the store:
    /// where that fails the error is shown; where it succeeds the command
    /// leaves the commands, and the selection stays at its line or, where
    /// that line is gone, goes to the last. Either way the session is back
    /// in the list.
    pub open spec fn deleted(self, store: StoreView, next: AppView, next_store: StoreView) -> bool
        recommends
            self.wf(),
    {
        if self.filtered.len() == 0 {
            next == self && next_store == store
        } else {
            let idx = self.filtered[self.selected as int].0 as int;
            let p = self.commands[idx].path;
            &&& next_store == after_remove(store, p)
            &&& match remove_error(store, p) {
                Some(e) => next == (AppView { mode: Mode::Normal, message: error_note(e), ..self }),
                None => self.back_in_list(
                    next,
                    self.commands.remove(idx),
                    true,
                    false,
                    "Command deleted"@,
                ),
            }
        }
    }

    /// The open form or question was confirmed.
    pub open spec fn confirmed(self, store: StoreView, next: AppView, next_store: StoreView) -> bool
        recommends
            self.wf(),
    {
        match self.mode {
            Mode::Add => self.saved_new(store, next, next_store),
            Mode::Edit => self.saved_edit(store, next, next_store),
            Mode::Delete => self.deleted(store, next, next_store),
            _ => next == self && next_store == store,
        }
    }
}

impl App {
    /// Shows the error `e`.
    fn show_error(&mut self, e: &CmdxError)
        ensures
            final(self)@ == (AppView { message: error_note(e@), ..old(self)@ }),
    {
        let text = e.message();
        self.message = Some((join2("Error: ", text.as_str()), true));
    }

    /// Goes back to the list with the message `text`, after the commands
    /// have changed.
    fn back_to_list(&mut self, to_last: bool, clear: bool, text: &str)
        requires
            old(self).visible_height >= 1,
            old(self).cursor_position <= old(self).input@.len(),
        ensures
            final(self).wf(),
            old(self)@.back_in_list(final(self)@, old(self)@.commands, to_last, clear, text@),
    {
        self.settle(to_last);
        self.mode = Mode::Normal;
        if clear {
            self.clear_form();
        }
        self.message = Some((String::from_str(text), false));
    }

    /// Puts `cmd` in the place of the first command at the path `path`.
    fn replace_command(&mut self, path: &str, cmd: Command)
        ensures
            final(self)@ == (AppView {
                commands: replaced(old(self)@.commands, path@, cmd@),
                ..old(self)@
            }),
    {
        let ghost all = views(self.commands@);
        let mut i: usize = 0;
        while i < self.commands.len()
            invariant
                i <= self.commands@.len(),
                *self == *old(self),
                all == views(self.commands@),
                first_at(all, path@, 0) == first_at(all, path@, i as int),
            decreases self.commands@.len() - i,
        {
            assert(all[i as int].path == self.commands@[i as int].path@);
            if str_eq(self.commands[i].path.as_str(), path) {
                self.commands.set(i, cmd);
                assert(views(self.commands@) =~= all.update(i as int, cmd@));
                return ;
            }
            i += 1;
        }
    }

    /// Confirms the form for a new command.
    fn save_new_command(&mut self, store: &mut Store)
        requires
            old(self).wf(),
        ensures
            final(self).wf(),
            old(self)@.saved_new(old(store)@, final(self)@, final(store)@),
    {
        if self.form_path.as_str().is_empty() || self.form_command.as_str().is_empty() {
            self.message = Some((String::from_str("Path and command are required"), true));
            return ;
        }
        let cmd = Command::new(
            self.form_path.as_str(),
            self.form_command.as_str(),
            self.form_description.as_str(),
        );
        match store.add(&cmd, false) {
            Ok(()) => {
                let ghost c = cmd@;
                self.commands.push(cmd);
                assert(views(self.commands@) =~= old(self)@.commands.push(c));
                self.back_to_list(false, true, "Command added successfully");
            },
            Err(e) => {
                self.show_error(&e);
            },
        }
    }

    /// Confirms the form for the command at `editing_original_path`.
    fn save_edited_command(&mut self, store: &mut Store)
        requires
            old(self).wf(),
            old(self).editing_original_path is Some,
        ensures
            final(self).wf(),
            old(self)@.saved_edit(old(store)@, final(self)@, final(store)@),
    {
        if self.form_path.as_str().is_empty() || self.form_command.as_str().is_empty() {
            self.message = Some((String::from_str("Path and command are required"), true));
            return ;
        }
        let original_path = match &self.editing_original_path {
            Some(p) => p.clone(),
            None => String::new(),
        };
        let original = match store.get(original_path.as_str()) {
            Ok(c) => c,
            Err(e) => {
                self.show_error(&e);
                return ;
            },
        };
        let removal = store.remove(original_path.as_str());
        let cmd = Command::new(
            self.form_path.as_str(),
            self.form_command.as_str(),
            self.form_description.as_str(),
        );
        match store.add(&cmd, false) {
            Ok(()) => {
                self.replace_command(original_path.as_str(), cmd);
                self.back_to_list(false, true, "Command updated successfully");
            },
            Err(e) => {
                let ghost before = old(store)@.leaves;
                let ghost p = original_path@;
                proof {
                    assert(before.remove(p).insert(p, original@) =~= before);
                    assert(!has_leaf_under(before.remove(p), p)) by {
                        if has_leaf_under(before.remove(p), p) {
                            let q = choose|q: Seq<char>| #[trigger]
                                before.remove(p).contains_key(q) && is_ancestor(p, q);
                            assert(before.contains_key(q) && before.contains_key(p));
                        }
                    }
                    assert(!has_leaf_above(before.remove(p), p)) by {
                        if has_leaf_above(before.remove(p), p) {
                            let q = choose|q: Seq<char>| #[trigger]
                                before.remove(p).contains_key(q) && is_ancestor(q, p);
                            assert(before.contains_key(q) && before.contains_key(p));
                        }
                    }
                }
                let _ = store.add(&original, true);
                self.show_error(&e);
            },
        }
    }

    /// Confirms the deletion of the selected command.
    fn delete_selected_command(&mut self, store: &mut Store)
        requires
            old(self).wf(),
        ensures
            final(self).wf(),
            old(self)@.deleted(old(store)@, final(self)@, final(store)@),
    {
        if self.selected < self.filtered.len() {
            let idx = self.filtered[self.selected].0;
            let path = self.commands[idx].path.clone();
            match store.remove(path.as_str()) {
                Ok(()) => {
                    let _ = self.commands.remove(idx);
                    assert(views(self.commands@) =~= old(self)@.commands.remove(idx as int));
                    self.back_to_list(true, false, "Command deleted");
                },
                Err(e) => {
                    self.show_error(&e);
                    self.mode = Mode::Normal;
                },
            }
        }
    }

    /// Confirms the open form or question: saves the new command, saves the
    /// edited command, or deletes the selected one. An error of the store
    /// becomes a message; the session goes on.
    pub fn confirm_action(&mut self, store: &mut Store)
        requires
            old(self).wf(),
        ensures
            final(self).wf(),
            old(self)@.confirmed(old(store)@, final(self)@, final(store)@),
    {
        match self.mode {
            Mode::Add => self.save_new_command(store),
            Mode::Edit => self.save_edited_command(store),
            Mode::Delete => self.delete_selected_command(store),
            _ => {},
        }
    }
}

} // verus!
