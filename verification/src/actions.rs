//! The browser's reactions to key presses, and to the outcome of the file
//! work that some of them ask for (scanning, loading, saving, exporting).
//! Each key press yields the next state and a `Command` for the caller to
//! carry out; the caller reports the outcome back through one of the
//! completion methods.
use vstd::prelude::*;

use crate::app::{
    kept_in_order, selected_size, working_fonts, App, AppView, DiffDisplay, Screen,
};
use crate::library::human_bytes_text;
use crate::profile::{
    diff_profiles, is_diff_of, members, total_files_of, total_size_of, Profile,
};
use crate::text::{decimal, pop_char, push_char, push_decimal, trim, trimmed, views};

use std::path::PathBuf;

verus! {

/// A key press, as far as the browser tells keys apart.
#[derive(Debug, Clone, Copy, PartialEq, Eq, Structural)]
pub enum Key {
    Char(char),
    Up,
    Down,
    Enter,
    Esc,
    Backspace,
    Delete,
    Other,
}

/// A key with the state of the Control modifier.
#[derive(Debug, Clone, Copy, PartialEq, Eq, Structural)]
pub struct KeyPress {
    pub key: Key,
    pub ctrl: bool,
}

/// Which screen a rescan of the profiles folder leads to.
#[derive(Debug, Clone, Copy, PartialEq, Eq, Structural)]
pub enum Rescan {
    Load,
    Diff,
    Export,
}

/// Work for the caller after a key press.
pub enum Command {
    /// Nothing to do.
    Nothing,
    /// Leave the program.
    Quit,
    /// Scan the profiles folder, then call `after_rescan`.
    Rescan(Rescan),
    /// Create the profiles folder and write the profile to
    /// `<profiles_dir>/<name>.toml`, then call `save_dir_failed` or
    /// `save_written`.
    Save(Profile),
    /// Read the profile at this path, then call `load_finished`.
    Load(PathBuf),
    /// Read the profile at this path and export it, then call
    /// `export_load_failed` or `export_finished`.
    Export(PathBuf),
    /// Read the two profiles at these paths (the second only if the first
    /// could be read), then call `diff_finish`.
    Diff(PathBuf, PathBuf),
}

/// A `Command` with strings by their characters.
pub enum CommandView {
    Nothing,
    Quit,
    Rescan(Rescan),
    Save(Seq<char>, Seq<Seq<char>>),
    Load(PathBuf),
    Export(PathBuf),
    Diff(PathBuf, PathBuf),
}

impl View for Command {
    type V = CommandView;

    open spec fn view(&self) -> CommandView {
        match self {
            Command::Nothing => CommandView::Nothing,
            Command::Quit => CommandView::Quit,
            Command::Rescan(r) => CommandView::Rescan(*r),
            Command::Save(p) => CommandView::Save(p.name@, views(p.fonts@)),
            Command::Load(p) => CommandView::Load(*p),
            Command::Export(p) => CommandView::Export(*p),
            Command::Diff(a, b) => CommandView::Diff(*a, *b),
        }
    }
}

/// The character of a key, if it is one.
pub open spec fn key_char(k: Key) -> Option<char> {
    match k {
        Key::Char(c) => Some(c),
        _ => None,
    }
}

/// The key moves a list cursor up or down.
pub open spec fn is_up(k: Key) -> bool {
    k == Key::Up || k == Key::Char('k')
}

pub open spec fn is_down(k: Key) -> bool {
    k == Key::Down || k == Key::Char('j')
}

/// The key is the letter `c` in either case.
pub open spec fn is_letter(k: Key, lower: char, upper: char) -> bool {
    k == Key::Char(lower) || k == Key::Char(upper)
}

impl AppView {
    /// While the editor is shown, its cursor is on an item (or at 0 when the
    /// order is empty) and a dragged item is the one under the cursor.
    pub open spec fn inv(self) -> bool {
        self.screen == Screen::ProfileEditor ==> {
            &&& (self.profile_order.len() == 0 ==> self.editor_cursor == 0)
            &&& (self.profile_order.len() > 0 ==> self.editor_cursor < self.profile_order.len())
            &&& (self.editor_drag matches Some(d) ==> d == self.editor_cursor)
        }
    }

    /// The key press is one the state allows: in the editor, moving or
    /// removing an item needs the item to be there.
    pub open spec fn key_ok(self, k: KeyPress) -> bool {
        self.screen == Screen::ProfileEditor ==> {
            &&& (is_up(k.key) ==> self.editor_up_ok())
            &&& (is_down(k.key) ==> self.editor_down_ok())
            &&& (k.key == Key::Delete || is_letter(k.key, 'x', 'X') ==> self.editor_remove_ok())
        }
    }

    /// The profile the save dialog would write: the trimmed name and the
    /// slot order restricted to the selection; `None` for an empty name.
    pub open spec fn save_request(self) -> Option<(Seq<char>, Seq<Seq<char>>)> {
        let name = trimmed(self.input_buffer);
        if name.len() == 0 {
            None
        } else {
            Some((name, kept_in_order(self.profile_order, self.selected)))
        }
    }

    /// Enter in the save dialog.
    pub open spec fn on_save_enter(self) -> (AppView, CommandView) {
        match self.save_request() {
            None => (self.popup("Save failed: "@ + "Profile name cannot be empty"@), CommandView::Nothing),
            Some((name, fonts)) => (self, CommandView::Save(name, fonts)),
        }
    }

    /// Enter in the load dialog.
    pub open spec fn on_load_enter(self) -> (AppView, CommandView) {
        if self.load_cursor < self.saved_profiles.len() {
            (self, CommandView::Load(self.saved_profiles[self.load_cursor as int]))
        } else {
            (self.popup("Load failed: "@ + "No profile selected"@), CommandView::Nothing)
        }
    }

    /// Enter in the export dialog.
    pub open spec fn confirm_export(self) -> (AppView, CommandView) {
        if self.load_cursor < self.saved_profiles.len() {
            (self, CommandView::Export(self.saved_profiles[self.load_cursor as int]))
        } else {
            (self.popup("No profile selected."@), CommandView::Nothing)
        }
    }

    /// Enter in the diff dialog: the first pick remembers profile A, the
    /// second asks for both profiles to be read.
    pub open spec fn diff_select(self) -> (AppView, CommandView) {
        if self.diff_pick_step == 0 {
            if self.load_cursor < self.saved_profiles.len() {
                (
                    AppView {
                        diff_profile_a: Some(self.saved_profiles[self.load_cursor as int]),
                        diff_pick_step: 1,
                        ..self
                    },
                    CommandView::Nothing,
                )
            } else {
                (self, CommandView::Nothing)
            }
        } else if self.load_cursor < self.saved_profiles.len() && self.diff_profile_a is Some {
            (
                self,
                CommandView::Diff(
                    self.diff_profile_a.unwrap(),
                    self.saved_profiles[self.load_cursor as int],
                ),
            )
        } else {
            (self, CommandView::Nothing)
        }
    }

    /// The reaction to a key press.
    pub open spec fn on_key(self, k: KeyPress) -> (AppView, CommandView) {
        let key = k.key;
        match self.screen {
            Screen::Browser => if is_letter(key, 'q', 'Q') || (k.ctrl && key == Key::Char('c')) {
                (self, CommandView::Quit)
            } else if is_up(key) {
                (self.cursor_up(), CommandView::Nothing)
            } else if is_down(key) {
                (self.cursor_down(), CommandView::Nothing)
            } else if key == Key::Char(' ') {
                (self.toggle_selected(), CommandView::Nothing)
            } else if is_letter(key, 'a', 'A') {
                (self.select_all(), CommandView::Nothing)
            } else if is_letter(key, 'c', 'C') {
                (self.clear_selection(), CommandView::Nothing)
            } else if is_letter(key, 'e', 'E') {
                if self.selected.len() == 0 {
                    (
                        self.popup("Nothing selected \u{2014} toggle some fonts first."@),
                        CommandView::Nothing,
                    )
                } else {
                    (self.open_profile_editor(), CommandView::Nothing)
                }
            } else if is_letter(key, 's', 'S') {
                if self.selected.len() == 0 {
                    (self.popup("Nothing selected to save."@), CommandView::Nothing)
                } else {
                    (
                        AppView {
                            profile_order: working_fonts(self.profile_order, self.selected),
                            input_buffer: self.profile_name,
                            screen: Screen::SaveDialog,
                            ..self
                        },
                        CommandView::Nothing,
                    )
                }
            } else if is_letter(key, 'l', 'L') {
                (self, CommandView::Rescan(Rescan::Load))
            } else if is_letter(key, 'd', 'D') {
                (self, CommandView::Rescan(Rescan::Diff))
            } else if is_letter(key, 'x', 'X') {
                (self, CommandView::Rescan(Rescan::Export))
            } else {
                (self, CommandView::Nothing)
            },
            Screen::SaveDialog => if key == Key::Esc {
                (self.with_screen(Screen::Browser), CommandView::Nothing)
            } else if key == Key::Enter {
                self.on_save_enter()
            } else if key == Key::Backspace {
                (
                    AppView {
                        input_buffer: if self.input_buffer.len() > 0 {
                            self.input_buffer.drop_last()
                        } else {
                            self.input_buffer
                        },
                        ..self
                    },
                    CommandView::Nothing,
                )
            } else if key is Char {
                (
                    AppView { input_buffer: self.input_buffer.push(key_char(key).unwrap()), ..self },
                    CommandView::Nothing,
                )
            } else {
                (self, CommandView::Nothing)
            },
            Screen::LoadDialog => if key == Key::Esc {
                (self.with_screen(Screen::Browser), CommandView::Nothing)
            } else if is_up(key) {
                (self.load_cursor_up(), CommandView::Nothing)
            } else if is_down(key) {
                (self.load_cursor_down(), CommandView::Nothing)
            } else if key == Key::Enter {
                self.on_load_enter()
            } else {
                (self, CommandView::Nothing)
            },
            Screen::ProfileEditor => if key == Key::Esc {
                (AppView { editor_drag: None, screen: Screen::Browser, ..self }, CommandView::Nothing)
            } else if is_up(key) {
                (self.editor_cursor_up(), CommandView::Nothing)
            } else if is_down(key) {
                (self.editor_cursor_down(), CommandView::Nothing)
            } else if key == Key::Char(' ') {
                (self.editor_toggle_drag(), CommandView::Nothing)
            } else if key == Key::Delete || is_letter(key, 'x', 'X') {
                (self.editor_remove_item(), CommandView::Nothing)
            } else if is_letter(key, 's', 'S') {
                (
                    AppView {
                        input_buffer: self.profile_name,
                        screen: Screen::SaveDialog,
                        ..self
                    },
                    CommandView::Nothing,
                )
            } else {
                (self, CommandView::Nothing)
            },
            Screen::ExportPick => if key == Key::Esc {
                (self.with_screen(Screen::Browser), CommandView::Nothing)
            } else if is_up(key) {
                (self.load_cursor_up(), CommandView::Nothing)
            } else if is_down(key) {
                (self.load_cursor_down(), CommandView::Nothing)
            } else if key == Key::Enter {
                self.confirm_export()
            } else {
                (self, CommandView::Nothing)
            },
            Screen::ResultLog => if key == Key::Esc || key == Key::Char('q') {
                (self.with_screen(Screen::Browser), CommandView::Nothing)
            } else if is_up(key) {
                (self.log_scroll_up(), CommandView::Nothing)
            } else if is_down(key) {
                (self.log_scroll_down(self.result_log.len()), CommandView::Nothing)
            } else {
                (self, CommandView::Nothing)
            },
            Screen::DiffPick => if key == Key::Esc {
                (
                    AppView {
                        diff_pick_step: 0,
                        diff_profile_a: None,
                        screen: Screen::Browser,
                        ..self
                    },
                    CommandView::Nothing,
                )
            } else if is_up(key) {
                (self.load_cursor_up(), CommandView::Nothing)
            } else if is_down(key) {
                (self.load_cursor_down(), CommandView::Nothing)
            } else if key == Key::Enter {
                self.diff_select()
            } else {
                (self, CommandView::Nothing)
            },
            Screen::DiffView => if key == Key::Esc || is_letter(key, 'b', 'B') || key == Key::Char(
                'q',
            ) {
                (self.with_screen(Screen::Browser), CommandView::Nothing)
            } else {
                (self, CommandView::Nothing)
            },
            Screen::Popup => (self.with_screen(Screen::Browser), CommandView::Nothing),
        }
    }

    /// After the profiles folder was scanned for the dialog `purpose`.
    pub open spec fn after_rescan(self, purpose: Rescan, scanned: Seq<PathBuf>) -> AppView {
        let s = AppView { saved_profiles: scanned, ..self };
        match purpose {
            Rescan::Load => AppView { load_cursor: 0, screen: Screen::LoadDialog, ..s },
            Rescan::Diff => if scanned.len() < 2 {
                s.popup("Need at least 2 saved profiles to diff."@)
            } else {
                AppView {
                    load_cursor: 0,
                    diff_pick_step: 0,
                    diff_profile_a: None,
                    screen: Screen::DiffPick,
                    ..s
                }
            },
            Rescan::Export => if scanned.len() == 0 {
                s.popup("No saved profiles to export."@)
            } else {
                AppView { load_cursor: 0, screen: Screen::ExportPick, ..s }
            },
        }
    }

    /// The loaded profile becomes the working selection, its order kept
    /// exactly.
    pub open spec fn load_profile(self, name: Seq<char>, fonts: Seq<Seq<char>>) -> AppView {
        AppView { profile_name: name, selected: fonts.to_set(), profile_order: fonts, ..self }
    }

    /// The popup after a profile was written.
    pub open spec fn saved_message(self) -> Seq<char> {
        "Saved \""@ + self.profile_name + "\"  \u{b7}  "@ + decimal(self.profile_order.len())
            + " fonts  \u{b7}  "@ + human_bytes_text(selected_size(self.library, self.selected))
    }

    /// The first line of an export's result log.
    pub open spec fn export_header(name: Seq<char>, out: Seq<char>) -> Seq<char> {
        "Exported \""@ + name + "\" \u{2192} "@ + out
    }
}

/// `prefix` followed by `s`.
fn text_with(prefix: &str, s: &str) -> (r: String)
    ensures
        r@ == prefix@ + s@,
{
    let mut r = String::from_str(prefix);
    r.append(s);
    r
}

impl App {
    /// Whether the state allows the key press `k`.
    pub fn key_allowed(&self, k: KeyPress) -> (r: bool)
        ensures
            r == self@.key_ok(k),
    {
        if self.screen != Screen::ProfileEditor {
            return true;
        }
        let n = self.profile_order.len();
        let key = k.key;
        let up_ok = match self.editor_drag {
            Some(d) => self.editor_cursor == 0 || (0 < d && d < n),
            None => true,
        };
        let down_ok = match self.editor_drag {
            Some(d) => !(self.editor_cursor < n && n - self.editor_cursor > 1) || (d < n && n - d
                > 1),
            None => true,
        };
        let remove_ok = n == 0 || self.editor_cursor < n;
        let is_up = key == Key::Up || key == Key::Char('k');
        let is_down = key == Key::Down || key == Key::Char('j');
        let is_remove = key == Key::Delete || key == Key::Char('x') || key == Key::Char('X');
        (!is_up || up_ok) && (!is_down || down_ok) && (!is_remove || remove_ok)
    }

    /// Whether the editor invariant holds.
    pub fn inv_holds(&self) -> (r: bool)
        ensures
            r == self@.inv(),
    {
        if self.screen != Screen::ProfileEditor {
            return true;
        }
        let n = self.profile_order.len();
        let cursor_ok = if n == 0 {
            self.editor_cursor == 0
        } else {
            self.editor_cursor < n
        };
        let drag_ok = match self.editor_drag {
            Some(d) => d == self.editor_cursor,
            None => true,
        };
        cursor_ok && drag_ok
    }

    /// The path of the saved profile under the load cursor.
    pub fn selected_profile_path(&self) -> (r: Result<PathBuf, String>)
        ensures
            match r {
                Ok(p) => self.load_cursor < self.saved_profiles.len() && p
                    == self.saved_profiles@[self.load_cursor as int],
                Err(e) => self.load_cursor >= self.saved_profiles.len() && e@
                    == "No profile selected"@,
            },
    {
        if self.load_cursor < self.saved_profiles.len() {
            Ok(self.saved_profiles[self.load_cursor].clone())
        } else {
            Err(String::from_str("No profile selected"))
        }
    }

    /// Make a loaded profile the working one: its name, its fonts as the
    /// selection, and its order kept exactly.
    pub fn load_selected_profile(&mut self, profile: Profile)
        ensures
            final(self)@ == old(self)@.load_profile(profile.name@, views(profile.fonts@)),
            final(self).wf(),
    {
        let none: Vec<String> = Vec::new();
        let distinct = members(&profile.fonts, &none, false);
        assert(views(none@).to_set() =~= Set::<Seq<char>>::empty());
        assert(views(distinct@).to_set() =~= views(profile.fonts@).to_set());
        self.profile_name = profile.name;
        self.selected = distinct;
        self.profile_order = profile.fonts;
    }

    /// The profile the save dialog writes, or the reason it cannot.
    pub fn begin_save(&self) -> (r: Result<Profile, String>)
        ensures
            match r {
                Ok(p) => self@.save_request() == Some((p.name@, views(p.fonts@)))
                    && p.description is None,
                Err(e) => self@.save_request() is None && e@ == "Profile name cannot be empty"@,
            },
    {
        let name = trim(self.input_buffer.as_str());
        if name.unicode_len() == 0 {
            return Err(String::from_str("Profile name cannot be empty"));
        }
        Ok(Profile { name, description: None, fonts: self.kept_order() })
    }

    /// React to a key press; the returned command says what file work the
    /// caller has to do.
    pub fn handle_key(&mut self, k: KeyPress) -> (c: Command)
        requires
            old(self)@.key_ok(k),
        ensures
            (final(self)@, c@) == old(self)@.on_key(k),
            old(self)@.inv() ==> final(self)@.inv(),
            c matches Command::Save(p) ==> p.description is None,
            old(self).wf() ==> final(self).wf(),
    {
        let key = k.key;
        let up = key == Key::Up || key == Key::Char('k');
        let down = key == Key::Down || key == Key::Char('j');
        match self.screen {
            Screen::Browser => {
                if key == Key::Char('q') || key == Key::Char('Q') || (k.ctrl && key == Key::Char(
                    'c',
                )) {
                    return Command::Quit;
                } else if up {
                    self.cursor_up();
                } else if down {
                    self.cursor_down();
                } else if key == Key::Char(' ') {
                    self.toggle_selected();
                } else if key == Key::Char('a') || key == Key::Char('A') {
                    self.select_all();
                } else if key == Key::Char('c') || key == Key::Char('C') {
                    self.clear_selection();
                } else if key == Key::Char('e') || key == Key::Char('E') {
                    proof {
                        lemma_selection_empty(self.selected@);
                    }
                    if self.selected.len() == 0 {
                        self.show_popup(
                            String::from_str("Nothing selected \u{2014} toggle some fonts first."),
                        );
                    } else {
                        self.open_profile_editor();
                    }
                } else if key == Key::Char('s') || key == Key::Char('S') {
                    proof {
                        lemma_selection_empty(self.selected@);
                    }
                    if self.selected.len() == 0 {
                        self.show_popup(String::from_str("Nothing selected to save."));
                    } else {
                        let profile = self.working_profile();
                        self.profile_order = profile.fonts;
                        self.input_buffer = self.profile_name.clone();
                        self.screen = Screen::SaveDialog;
                    }
                } else if key == Key::Char('l') || key == Key::Char('L') {
                    return Command::Rescan(Rescan::Load);
                } else if key == Key::Char('d') || key == Key::Char('D') {
                    return Command::Rescan(Rescan::Diff);
                } else if key == Key::Char('x') || key == Key::Char('X') {
                    return Command::Rescan(Rescan::Export);
                }
                Command::Nothing
            },
            Screen::SaveDialog => {
                if key == Key::Esc {
                    self.screen = Screen::Browser;
                } else if key == Key::Enter {
                    match self.begin_save() {
                        Ok(p) => {
                            return Command::Save(p);
                        },
                        Err(e) => {
                            self.show_popup(text_with("Save failed: ", e.as_str()));
                        },
                    }
                } else if key == Key::Backspace {
                    let _ = pop_char(&mut self.input_buffer);
                } else {
                    match key {
                        Key::Char(c) => {
                            push_char(&mut self.input_buffer, c);
                        },
                        _ => {},
                    }
                }
                Command::Nothing
            },
            Screen::LoadDialog => {
                if key == Key::Esc {
                    self.screen = Screen::Browser;
                } else if up {
                    self.load_cursor_up();
                } else if down {
                    self.load_cursor_down();
                } else if key == Key::Enter {
                    match self.selected_profile_path() {
                        Ok(p) => {
                            return Command::Load(p);
                        },
                        Err(e) => {
                            self.show_popup(text_with("Load failed: ", e.as_str()));
                        },
                    }
                }
                Command::Nothing
            },
            Screen::ProfileEditor => {
                if key == Key::Esc {
                    self.editor_drag = None;
                    self.screen = Screen::Browser;
                } else if up {
                    self.editor_cursor_up();
                } else if down {
                    self.editor_cursor_down();
                } else if key == Key::Char(' ') {
                    self.editor_toggle_drag();
                } else if key == Key::Delete || key == Key::Char('x') || key == Key::Char('X') {
                    self.editor_remove_item();
                } else if key == Key::Char('s') || key == Key::Char('S') {
                    self.input_buffer = self.profile_name.clone();
                    self.screen = Screen::SaveDialog;
                }
                Command::Nothing
            },
            Screen::ExportPick => {
                if key == Key::Esc {
                    self.screen = Screen::Browser;
                } else if up {
                    self.load_cursor_up();
                } else if down {
                    self.load_cursor_down();
                } else if key == Key::Enter {
                    return self.confirm_export();
                }
                Command::Nothing
            },
            Screen::ResultLog => {
                if key == Key::Esc || key == Key::Char('q') {
                    self.screen = Screen::Browser;
                } else if up {
                    self.log_scroll_up();
                } else if down {
                    let n = self.result_log.len();
                    self.log_scroll_down(n);
                }
                Command::Nothing
            },
            Screen::DiffPick => {
                if key == Key::Esc {
                    self.diff_pick_step = 0;
                    self.diff_profile_a = None;
                    self.screen = Screen::Browser;
                } else if up {
                    self.load_cursor_up();
                } else if down {
                    self.load_cursor_down();
                } else if key == Key::Enter {
                    return self.diff_select();
                }
                Command::Nothing
            },
            Screen::DiffView => {
                if key == Key::Esc || key == Key::Char('b') || key == Key::Char('B') || key
                    == Key::Char('q') {
                    self.screen = Screen::Browser;
                }
                Command::Nothing
            },
            Screen::Popup => {
                self.screen = Screen::Browser;
                Command::Nothing
            },
        }
    }

    /// Enter in the export dialog: the profile under the cursor is to be
    /// read and exported, or a popup says that there is none.
    pub fn confirm_export(&mut self) -> (c: Command)
        ensures
            (final(self)@, c@) == old(self)@.confirm_export(),
            old(self).wf() ==> final(self).wf(),
    {
        if self.load_cursor < self.saved_profiles.len() {
            Command::Export(self.saved_profiles[self.load_cursor].clone())
        } else {
            self.show_popup(String::from_str("No profile selected."));
            Command::Nothing
        }
    }

    /// Enter in the diff dialog.
    pub fn diff_select(&mut self) -> (c: Command)
        ensures
            (final(self)@, c@) == old(self)@.diff_select(),
            old(self).wf() ==> final(self).wf(),
    {
        if self.diff_pick_step == 0 {
            if self.load_cursor < self.saved_profiles.len() {
                self.diff_profile_a = Some(self.saved_profiles[self.load_cursor].clone());
                self.diff_pick_step = 1;
            }
            Command::Nothing
        } else if self.load_cursor < self.saved_profiles.len() {
            match &self.diff_profile_a {
                Some(a) => Command::Diff(a.clone(), self.saved_profiles[self.load_cursor].clone()),
                None => Command::Nothing,
            }
        } else {
            Command::Nothing
        }
    }

    /// After the profiles folder was scanned for the dialog `purpose`.
    pub fn after_rescan(&mut self, purpose: Rescan, scanned: Vec<PathBuf>)
        ensures
            final(self)@ == old(self)@.after_rescan(purpose, scanned@),
            final(self)@.inv(),
            old(self).wf() ==> final(self).wf(),
    {
        self.reload_profiles(scanned);
        match purpose {
            Rescan::Load => {
                self.load_cursor = 0;
                self.screen = Screen::LoadDialog;
            },
            Rescan::Diff => {
                if self.saved_profiles.len() < 2 {
                    self.show_popup(String::from_str("Need at least 2 saved profiles to diff."));
                } else {
                    self.load_cursor = 0;
                    self.diff_pick_step = 0;
                    self.diff_profile_a = None;
                    self.screen = Screen::DiffPick;
                }
            },
            Rescan::Export => {
                if self.saved_profiles.len() == 0 {
                    self.show_popup(String::from_str("No saved profiles to export."));
                } else {
                    self.load_cursor = 0;
                    self.screen = Screen::ExportPick;
                }
            },
        }
    }

    /// After the profile of a `Load` command was read: on success it becomes
    /// the working profile and the editor opens; on failure a popup says why.
    pub fn load_finished(&mut self, loaded: Result<Profile, String>)
        ensures
            final(self)@ == match loaded {
                Ok(p) => AppView {
                    editor_cursor: 0,
                    editor_drag: None,
                    screen: Screen::ProfileEditor,
                    ..old(self)@.load_profile(p.name@, views(p.fonts@))
                },
                Err(e) => old(self)@.popup("Load failed: "@ + e@),
            },
            final(self)@.inv(),
            old(self).wf() ==> final(self).wf(),
    {
        match loaded {
            Ok(p) => {
                self.load_selected_profile(p);
                self.editor_cursor = 0;
                self.editor_drag = None;
                self.screen = Screen::ProfileEditor;
            },
            Err(e) => {
                self.show_popup(text_with("Load failed: ", e.as_str()));
            },
        }
    }

    /// The profiles folder could not be created.
    pub fn save_dir_failed(&mut self, err: String)
        ensures
            final(self)@ == old(self)@.popup(
                "Save failed: "@ + "Cannot create profiles dir: "@ + err@,
            ),
            final(self)@.inv(),
            old(self).wf() ==> final(self).wf(),
    {
        let mut msg = String::from_str("Save failed: ");
        msg.append("Cannot create profiles dir: ");
        msg.append(err.as_str());
        self.show_popup(msg);
    }

    /// The profile `name` was written (`Ok` with a fresh scan of the profiles
    /// folder) or writing it failed (`Err`); either way the working profile
    /// now has that name.
    pub fn save_written(&mut self, name: String, result: Result<Vec<PathBuf>, String>)
        requires
            result is Ok ==> selected_size(old(self)@.library, old(self)@.selected) <= u64::MAX,
        ensures
            final(self)@ == match result {
                Ok(scanned) => {
                    let s = AppView {
                        profile_name: name@,
                        saved_profiles: scanned@,
                        ..old(self)@
                    };
                    s.popup(s.saved_message())
                },
                Err(e) => AppView { profile_name: name@, ..old(self)@ }.popup(
                    "Save failed: "@ + e@,
                ),
            },
            final(self)@.inv(),
            old(self).wf() ==> final(self).wf(),
    {
        self.profile_name = name;
        match result {
            Ok(scanned) => {
                self.reload_profiles(scanned);
                let mut msg = String::from_str("Saved \"");
                msg.append(self.profile_name.as_str());
                msg.append("\"  \u{b7}  ");
                push_decimal(&mut msg, self.profile_order.len() as u64);
                msg.append(" fonts  \u{b7}  ");
                let human = self.selected_size_human();
                msg.append(human.as_str());
                self.show_popup(msg);
            },
            Err(e) => {
                self.show_popup(text_with("Save failed: ", e.as_str()));
            },
        }
    }

    /// A profile to export could not be read.
    pub fn export_load_failed(&mut self, err: String)
        ensures
            final(self)@ == old(self)@.popup("Load failed: "@ + err@),
            final(self)@.inv(),
            old(self).wf() ==> final(self).wf(),
    {
        self.show_popup(text_with("Load failed: ", err.as_str()));
    }

    /// An export of the profile `name` into the folder shown as `out`
    /// finished with the log of its slots, or failed.
    pub fn export_finished(
        &mut self,
        name: String,
        out: String,
        result: Result<Vec<String>, String>,
    )
        ensures
            final(self)@ == match result {
                Ok(log) => AppView {
                    result_log: seq![AppView::export_header(name@, out@)] + views(log@),
                    log_scroll: 0,
                    screen: Screen::ResultLog,
                    ..old(self)@
                },
                Err(e) => old(self)@.popup("Export failed: "@ + e@),
            },
            final(self)@.inv(),
            old(self).wf() ==> final(self).wf(),
    {
        match result {
            Ok(log) => {
                let mut header = String::from_str("Exported \"");
                header.append(name.as_str());
                header.append("\" \u{2192} ");
                header.append(out.as_str());
                let mut lines: Vec<String> = Vec::new();
                lines.push(header);
                let mut rest = log;
                let ghost rest_view = views(rest@);
                lines.append(&mut rest);
                assert(views(lines@) =~= seq![AppView::export_header(name@, out@)] + rest_view);
                self.result_log = lines;
                self.log_scroll = 0;
                self.screen = Screen::ResultLog;
            },
            Err(e) => {
                self.show_popup(text_with("Export failed: ", e.as_str()));
            },
        }
    }

    /// After the profiles of a `Diff` command were read: on success the
    /// comparison is shown, otherwise a popup names the profile that failed.
    pub fn diff_finish(&mut self, a: Result<Profile, String>, b: Result<Profile, String>)
        requires
            a matches Ok(pa) ==> (b matches Ok(pb) ==> {
                &&& total_size_of(old(self)@.library, views(pa.fonts@)) <= u64::MAX
                &&& total_files_of(old(self)@.library, views(pa.fonts@)) <= u64::MAX
                &&& total_size_of(old(self)@.library, views(pb.fonts@)) <= u64::MAX
                &&& total_files_of(old(self)@.library, views(pb.fonts@)) <= u64::MAX
            }),
        ensures
            final(self)@.inv(),
            match (a, b) {
                (Err(e), _) => final(self)@ == old(self)@.popup("Error loading A: "@ + e@),
                (Ok(_), Err(e)) => final(self)@ == old(self)@.popup("Error loading B: "@ + e@),
                (Ok(pa), Ok(pb)) => {
                    &&& final(self)@ == AppView {
                        diff_result: final(self)@.diff_result,
                        diff_pick_step: 0,
                        diff_profile_a: None,
                        screen: Screen::DiffView,
                        ..old(self)@
                    }
                    &&& final(self).diff_result matches Some(d) && d.name_a == pa.name && d.name_b
                        == pb.name && is_diff_of(d.diff, pa, pb) && d.size_a == total_size_of(
                        old(self)@.library,
                        views(pa.fonts@),
                    ) && d.size_b == total_size_of(old(self)@.library, views(pb.fonts@))
                        && d.files_a == total_files_of(old(self)@.library, views(pa.fonts@))
                        && d.files_b == total_files_of(old(self)@.library, views(pb.fonts@))
                },
            },
            old(self).wf() ==> final(self).wf(),
    {
        let pa = match a {
            Ok(p) => p,
            Err(e) => {
                self.show_popup(text_with("Error loading A: ", e.as_str()));
                return ;
            },
        };
        let pb = match b {
            Ok(p) => p,
            Err(e) => {
                self.show_popup(text_with("Error loading B: ", e.as_str()));
                return ;
            },
        };
        let diff = diff_profiles(&pa, &pb);
        let size_a = pa.total_size(&self.library);
        let size_b = pb.total_size(&self.library);
        let files_a = pa.total_files(&self.library);
        let files_b = pb.total_files(&self.library);
        self.diff_result = Some(
            DiffDisplay {
                name_a: pa.name.clone(),
                name_b: pb.name.clone(),
                diff,
                size_a,
                size_b,
                files_a,
                files_b,
            },
        );
        self.diff_pick_step = 0;
        self.diff_profile_a = None;
        self.screen = Screen::DiffView;
    }
}

/// The selection is empty exactly when its vector is.
pub proof fn lemma_selection_empty(v: Seq<String>)
    ensures
        (views(v).to_set().len() == 0) == (v.len() == 0),
{
    views(v).lemma_cardinality_of_empty_set_is_0();
}

} // verus!
