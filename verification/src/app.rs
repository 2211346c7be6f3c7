//! The browser's state: the library, the working selection and its slot
//! order, the saved profiles, the screen shown, and the cursors of each list.
use vstd::prelude::*;

use crate::library::{human_bytes, human_bytes_text, SoundFont};
use crate::profile::{contains_text, members, Profile, ProfileDiff};
use crate::sorting::{sort_distinct, strictly_sorted};
use crate::text::views;

use std::path::PathBuf;

verus! {

/// Which screen the interface is showing.
#[derive(Debug, Clone, Copy, PartialEq, Eq, Structural)]
pub enum Screen {
    Browser,
    SaveDialog,
    LoadDialog,
    /// Full-screen profile editor: shows the ordered font list for the
    /// current working selection and lets the user reorder it before saving.
    ProfileEditor,
    DiffPick,
    DiffView,
    /// Pick a saved profile to export to a folder.
    ExportPick,
    /// Scrollable result log of an export.
    ResultLog,
    Popup,
}

/// A comparison of two saved profiles, as shown on the diff screen.
pub struct DiffDisplay {
    pub name_a: String,
    pub name_b: String,
    pub diff: ProfileDiff,
    pub size_a: u64,
    pub size_b: u64,
    pub files_a: u64,
    pub files_b: u64,
}

/// The state of the browser. Paths are held as strings.
pub struct App {
    pub library: Vec<SoundFont>,
    pub library_path: PathBuf,
    pub cursor: usize,
    /// The selected font names; each name occurs once (see `wf`).
    pub selected: Vec<String>,
    /// Display name of the current working profile.
    pub profile_name: String,
    /// Ordered list for the current working profile (drives export slots).
    pub profile_order: Vec<String>,
    pub profiles_dir: PathBuf,
    pub saved_profiles: Vec<PathBuf>,
    pub screen: Screen,
    pub input_buffer: String,
    pub load_cursor: usize,
    /// Cursor position inside the profile editor list.
    pub editor_cursor: usize,
    /// When `Some(i)`, the item at index `i` is being dragged.
    pub editor_drag: Option<usize>,
    pub diff_pick_step: u8,
    pub diff_profile_a: Option<PathBuf>,
    pub diff_result: Option<DiffDisplay>,
    pub result_log: Vec<String>,
    pub log_scroll: usize,
    pub popup_message: String,
}

/// The abstract state of the browser: strings by their characters, the
/// selection as a set, paths as they are.
#[verifier::ext_equal]
pub struct AppView {
    pub library: Seq<SoundFont>,
    pub library_path: PathBuf,
    pub cursor: nat,
    pub selected: Set<Seq<char>>,
    pub profile_name: Seq<char>,
    pub profile_order: Seq<Seq<char>>,
    pub profiles_dir: PathBuf,
    pub saved_profiles: Seq<PathBuf>,
    pub screen: Screen,
    pub input_buffer: Seq<char>,
    pub load_cursor: nat,
    pub editor_cursor: nat,
    pub editor_drag: Option<nat>,
    pub diff_pick_step: u8,
    pub diff_profile_a: Option<PathBuf>,
    pub diff_result: Option<DiffDisplay>,
    pub result_log: Seq<Seq<char>>,
    pub log_scroll: nat,
    pub popup_message: Seq<char>,
}

impl View for App {
    type V = AppView;

    open spec fn view(&self) -> AppView {
        AppView {
            library: self.library@,
            library_path: self.library_path,
            cursor: self.cursor as nat,
            selected: views(self.selected@).to_set(),
            profile_name: self.profile_name@,
            profile_order: views(self.profile_order@),
            profiles_dir: self.profiles_dir,
            saved_profiles: self.saved_profiles@,
            screen: self.screen,
            input_buffer: self.input_buffer@,
            load_cursor: self.load_cursor as nat,
            editor_cursor: self.editor_cursor as nat,
            editor_drag: match self.editor_drag {
                Some(d) => Some(d as nat),
                None => None,
            },
            diff_pick_step: self.diff_pick_step,
            diff_profile_a: self.diff_profile_a,
            diff_result: self.diff_result,
            result_log: views(self.result_log@),
            log_scroll: self.log_scroll as nat,
            popup_message: self.popup_message@,
        }
    }
}

/// `s` with the elements at `i` and `j` exchanged.
pub open spec fn swap_at(s: Seq<Seq<char>>, i: int, j: int) -> Seq<Seq<char>> {
    s.update(i, s[j]).update(j, s[i])
}

/// `s` without any occurrence of `x`, the rest in order.
pub open spec fn without(s: Seq<Seq<char>>, x: Seq<char>) -> Seq<Seq<char>>
    decreases s.len(),
{
    if s.len() == 0 {
        s
    } else {
        let r = without(s.drop_last(), x);
        if s.last() == x {
            r
        } else {
            r.push(s.last())
        }
    }
}

/// The elements of `s` that are in `sel`, in order.
pub open spec fn kept_in_order(s: Seq<Seq<char>>, sel: Set<Seq<char>>) -> Seq<Seq<char>>
    decreases s.len(),
{
    if s.len() == 0 {
        s
    } else {
        let r = kept_in_order(s.drop_last(), sel);
        if sel.contains(s.last()) {
            r.push(s.last())
        } else {
            r
        }
    }
}

/// The elements of a finite set, listed in code-point order.
pub open spec fn sorted_listing(s: Set<Seq<char>>) -> Seq<Seq<char>> {
    choose|t: Seq<Seq<char>>| strictly_sorted(t) && t.to_set() == s
}

/// A strictly sorted listing of a set is its `sorted_listing`.
pub proof fn lemma_sorted_listing(t: Seq<Seq<char>>)
    requires
        strictly_sorted(t),
    ensures
        sorted_listing(t.to_set()) == t,
{
    let u = sorted_listing(t.to_set());
    assert(strictly_sorted(u) && u.to_set() == t.to_set());
    crate::sorting::lemma_strictly_sorted_unique(u, t);
}

/// The fonts of the working profile: the slot order, keeping only selected
/// fonts, then every selected font not in it, in code-point order.
pub open spec fn working_fonts(order: Seq<Seq<char>>, sel: Set<Seq<char>>) -> Seq<Seq<char>> {
    let kept = kept_in_order(order, sel);
    kept + sorted_listing(sel.difference(kept.to_set()))
}

/// The total size of the library fonts whose names are in `sel`.
pub open spec fn selected_size(lib: Seq<SoundFont>, sel: Set<Seq<char>>) -> nat
    decreases lib.len(),
{
    if lib.len() == 0 {
        0
    } else {
        selected_size(lib.drop_last(), sel) + if sel.contains(lib.last().name@) {
            lib.last().size_bytes as nat
        } else {
            0
        }
    }
}

/// The total file count of the library fonts whose names are in `sel`.
pub open spec fn selected_files(lib: Seq<SoundFont>, sel: Set<Seq<char>>) -> nat
    decreases lib.len(),
{
    if lib.len() == 0 {
        0
    } else {
        selected_files(lib.drop_last(), sel) + if sel.contains(lib.last().name@) {
            lib.last().file_count as nat
        } else {
            0
        }
    }
}

/// Selecting every library font in turn: each one not yet selected is
/// selected and appended to the order unless already there.
pub open spec fn select_each(
    sel: Set<Seq<char>>,
    order: Seq<Seq<char>>,
    names: Seq<Seq<char>>,
) -> (Set<Seq<char>>, Seq<Seq<char>>)
    decreases names.len(),
{
    if names.len() == 0 {
        (sel, order)
    } else {
        let (s, o) = select_each(sel, order, names.drop_last());
        let n = names.last();
        if s.contains(n) {
            (s, o)
        } else {
            (s.insert(n), if o.contains(n) {
                o
            } else {
                o.push(n)
            })
        }
    }
}

impl AppView {
    /// The state right after start-up.
    pub open spec fn initial(
        library: Seq<SoundFont>,
        library_path: PathBuf,
        profiles_dir: PathBuf,
        saved_profiles: Seq<PathBuf>,
    ) -> AppView {
        AppView {
            library,
            library_path,
            cursor: 0,
            selected: Set::empty(),
            profile_name: "new_profile"@,
            profile_order: Seq::empty(),
            profiles_dir,
            saved_profiles,
            screen: Screen::Browser,
            input_buffer: Seq::empty(),
            load_cursor: 0,
            editor_cursor: 0,
            editor_drag: None,
            diff_pick_step: 0,
            diff_profile_a: None,
            diff_result: None,
            result_log: Seq::empty(),
            log_scroll: 0,
            popup_message: Seq::empty(),
        }
    }

    pub open spec fn cursor_up(self) -> AppView {
        if self.cursor > 0 {
            AppView { cursor: (self.cursor - 1) as nat, ..self }
        } else {
            self
        }
    }

    pub open spec fn cursor_down(self) -> AppView {
        if self.cursor + 1 < self.library.len() {
            AppView { cursor: self.cursor + 1, ..self }
        } else {
            self
        }
    }

    pub open spec fn load_cursor_up(self) -> AppView {
        if self.load_cursor > 0 {
            AppView { load_cursor: (self.load_cursor - 1) as nat, ..self }
        } else {
            self
        }
    }

    pub open spec fn load_cursor_down(self) -> AppView {
        if self.load_cursor + 1 < self.saved_profiles.len() {
            AppView { load_cursor: self.load_cursor + 1, ..self }
        } else {
            self
        }
    }

    pub open spec fn log_scroll_up(self) -> AppView {
        if self.log_scroll > 0 {
            AppView { log_scroll: (self.log_scroll - 1) as nat, ..self }
        } else {
            self
        }
    }

    pub open spec fn log_scroll_down(self, max: nat) -> AppView {
        if self.log_scroll + 1 < max {
            AppView { log_scroll: self.log_scroll + 1, ..self }
        } else {
            self
        }
    }

    /// The editor operations are defined on these states: moving the cursor
    /// up while dragging needs the dragged item to have one above it.
    pub open spec fn editor_up_ok(self) -> bool {
        self.editor_cursor > 0 ==> (self.editor_drag matches Some(d) ==> 0 < d
            < self.profile_order.len())
    }

    pub open spec fn editor_down_ok(self) -> bool {
        self.editor_cursor + 1 < self.profile_order.len() ==> (self.editor_drag matches Some(d)
            ==> d + 1 < self.profile_order.len())
    }

    pub open spec fn editor_remove_ok(self) -> bool {
        self.profile_order.len() > 0 ==> self.editor_cursor < self.profile_order.len()
    }

    pub open spec fn editor_cursor_up(self) -> AppView {
        if self.editor_cursor > 0 {
            match self.editor_drag {
                Some(d) => AppView {
                    editor_cursor: (self.editor_cursor - 1) as nat,
                    profile_order: swap_at(self.profile_order, d as int, d - 1),
                    editor_drag: Some((d - 1) as nat),
                    ..self
                },
                None => AppView { editor_cursor: (self.editor_cursor - 1) as nat, ..self },
            }
        } else {
            self
        }
    }

    pub open spec fn editor_cursor_down(self) -> AppView {
        if self.editor_cursor + 1 < self.profile_order.len() {
            match self.editor_drag {
                Some(d) => AppView {
                    editor_cursor: self.editor_cursor + 1,
                    profile_order: swap_at(self.profile_order, d as int, d + 1 as int),
                    editor_drag: Some(d + 1),
                    ..self
                },
                None => AppView { editor_cursor: self.editor_cursor + 1, ..self },
            }
        } else {
            self
        }
    }

    pub open spec fn editor_toggle_drag(self) -> AppView {
        if self.editor_drag is Some {
            AppView { editor_drag: None, ..self }
        } else if self.profile_order.len() > 0 {
            AppView { editor_drag: Some(self.editor_cursor), ..self }
        } else {
            self
        }
    }

    pub open spec fn editor_remove_item(self) -> AppView {
        if self.profile_order.len() == 0 {
            self
        } else {
            let name = self.profile_order[self.editor_cursor as int];
            let order = self.profile_order.remove(self.editor_cursor as int);
            AppView {
                profile_order: order,
                selected: self.selected.remove(name),
                editor_cursor: if self.editor_cursor > 0 && self.editor_cursor >= order.len() {
                    (self.editor_cursor - 1) as nat
                } else {
                    self.editor_cursor
                },
                editor_drag: None,
                ..self
            }
        }
    }

    pub open spec fn toggle_selected(self) -> AppView {
        if self.cursor < self.library.len() {
            let name = self.library[self.cursor as int].name@;
            if self.selected.contains(name) {
                AppView {
                    selected: self.selected.remove(name),
                    profile_order: without(self.profile_order, name),
                    ..self
                }
            } else {
                AppView {
                    selected: self.selected.insert(name),
                    profile_order: if self.profile_order.contains(name) {
                        self.profile_order
                    } else {
                        self.profile_order.push(name)
                    },
                    ..self
                }
            }
        } else {
            self
        }
    }

    pub open spec fn select_all(self) -> AppView {
        let r = select_each(
            self.selected,
            self.profile_order,
            self.library.map_values(|f: SoundFont| f.name@),
        );
        AppView { selected: r.0, profile_order: r.1, ..self }
    }

    pub open spec fn clear_selection(self) -> AppView {
        AppView { selected: Set::empty(), profile_order: Seq::empty(), ..self }
    }

    pub open spec fn open_profile_editor(self) -> AppView {
        AppView {
            profile_order: working_fonts(self.profile_order, self.selected),
            editor_cursor: 0,
            editor_drag: None,
            screen: Screen::ProfileEditor,
            ..self
        }
    }

    pub open spec fn popup(self, msg: Seq<char>) -> AppView {
        AppView { popup_message: msg, screen: Screen::Popup, ..self }
    }

    pub open spec fn with_screen(self, screen: Screen) -> AppView {
        AppView { screen, ..self }
    }
}

/// Removes every occurrence of `name` from `v`, keeping the rest in order.
fn remove_all_text(v: &mut Vec<String>, name: &String)
    ensures
        views(final(v)@) == without(views(old(v)@), name@),
{
    let mut r: Vec<String> = Vec::new();
    let mut i: usize = 0;
    while i < v.len()
        invariant
            i <= v.len(),
            views(r@) == without(views(v@).take(i as int), name@),
        decreases v.len() - i,
    {
        proof {
            assert(views(v@).take(i + 1).drop_last() =~= views(v@).take(i as int));
        }
        if v[i] != *name {
            r.push(v[i].clone());
            proof {
                assert(views(r@) =~= without(views(v@).take(i as int), name@).push(v@[i as int]@));
            }
        }
        i = i + 1;
    }
    assert(views(v@).take(v.len() as int) =~= views(v@));
    *v = r;
}

/// What `without` leaves: the elements other than `x`.
pub proof fn lemma_without_set(s: Seq<Seq<char>>, x: Seq<char>)
    ensures
        without(s, x).to_set() == s.to_set().remove(x),
        !without(s, x).contains(x),
        !s.contains(x) ==> without(s, x) == s,
        s.no_duplicates() ==> without(s, x).no_duplicates(),
    decreases s.len(),
{
    if s.len() > 0 {
        lemma_without_set(s.drop_last(), x);
        if s.no_duplicates() {
            let r = without(s.drop_last(), x);
            assert(s.drop_last().no_duplicates());
            if s.last() != x {
                assert(!r.contains(s.last())) by {
                    if r.contains(s.last()) {
                        assert(r.to_set().contains(s.last()));
                        let k = choose|k: int| 0 <= k < s.drop_last().len() && s.drop_last()[k]
                            == s.last();
                        assert(s[k] == s[s.len() - 1]);
                    }
                }
            }
        }
        let r = without(s.drop_last(), x);
        crate::profile::lemma_push_to_set(r, s.last());
        crate::profile::lemma_push_to_set(s.drop_last(), s.last());
        assert(s =~= s.drop_last().push(s.last()));
        if !s.contains(x) {
            assert(!s.drop_last().contains(x)) by {
                if s.drop_last().contains(x) {
                    let k = choose|k: int| 0 <= k < s.drop_last().len() && s.drop_last()[k] == x;
                    assert(s[k] == x);
                }
            }
        }
        if s.last() != x {
            assert(!r.push(s.last()).contains(x)) by {
                if r.push(s.last()).contains(x) {
                    let k = choose|k: int| 0 <= k < r.push(s.last()).len() && r.push(s.last())[k] == x;
                    if k < r.len() {
                        assert(r[k] == x);
                    }
                }
            }
        }
        assert(without(s, x).to_set() =~= s.to_set().remove(x));
    } else {
        assert(s.to_set() =~= Set::<Seq<char>>::empty());
        assert(without(s, x).to_set() =~= s.to_set().remove(x));
    }
}

impl App {
    /// The selection holds each name once, as a set does.
    pub open spec fn wf(&self) -> bool {
        views(self.selected@).no_duplicates()
    }

    /// The state after start-up, with the profiles found in `profiles_dir`.
    pub fn new(
        library: Vec<SoundFont>,
        library_path: PathBuf,
        profiles_dir: PathBuf,
        saved_profiles: Vec<PathBuf>,
    ) -> (r: App)
        ensures
            r@ == AppView::initial(library@, library_path, profiles_dir, saved_profiles@),
            r.wf(),
    {
        let r = App {
            library,
            library_path,
            cursor: 0,
            selected: Vec::new(),
            profile_name: String::from_str("new_profile"),
            profile_order: Vec::new(),
            profiles_dir,
            saved_profiles,
            screen: Screen::Browser,
            input_buffer: String::new(),
            load_cursor: 0,
            editor_cursor: 0,
            editor_drag: None,
            diff_pick_step: 0,
            diff_profile_a: None,
            diff_result: None,
            result_log: Vec::new(),
            log_scroll: 0,
            popup_message: String::new(),
        };
        assert(views(r.selected@).to_set() =~= Set::<Seq<char>>::empty());
        assert(r@ =~= AppView::initial(
            r.library@,
            r.library_path,
            r.profiles_dir,
            r.saved_profiles@,
        ));
        r
    }

    /// Replace the list of saved profiles with a fresh scan of the profiles
    /// folder.
    pub fn reload_profiles(&mut self, scanned: Vec<PathBuf>)
        ensures
            final(self)@ == (AppView { saved_profiles: scanned@, ..old(self)@ }),
            old(self).wf() ==> final(self).wf(),
    {
        self.saved_profiles = scanned;
    }

    /// Replace the library with a fresh scan, keeping the cursor inside it.
    pub fn reload_library(&mut self, library: Vec<SoundFont>)
        ensures
            final(self)@ == (AppView {
                library: library@,
                cursor: if old(self).cursor >= library@.len() {
                    if library@.len() > 0 {
                        (library@.len() - 1) as nat
                    } else {
                        0
                    }
                } else {
                    old(self).cursor as nat
                },
                ..old(self)@
            }),
            old(self).wf() ==> final(self).wf(),
    {
        self.library = library;
        if self.cursor >= self.library.len() {
            self.cursor = if self.library.len() > 0 {
                self.library.len() - 1
            } else {
                0
            };
        }
    }

    pub fn cursor_up(&mut self)
        ensures
            final(self)@ == old(self)@.cursor_up(),
            old(self).wf() ==> final(self).wf(),
    {
        if self.cursor > 0 {
            self.cursor = self.cursor - 1;
        }
    }

    pub fn cursor_down(&mut self)
        ensures
            final(self)@ == old(self)@.cursor_down(),
            old(self).wf() ==> final(self).wf(),
    {
        if self.library.len() > 0 && self.cursor < self.library.len() - 1 {
            self.cursor = self.cursor + 1;
        }
    }

    pub fn load_cursor_up(&mut self)
        ensures
            final(self)@ == old(self)@.load_cursor_up(),
            old(self).wf() ==> final(self).wf(),
    {
        if self.load_cursor > 0 {
            self.load_cursor = self.load_cursor - 1;
        }
    }

    pub fn load_cursor_down(&mut self)
        ensures
            final(self)@ == old(self)@.load_cursor_down(),
            old(self).wf() ==> final(self).wf(),
    {
        if self.saved_profiles.len() > 0 && self.load_cursor < self.saved_profiles.len() - 1 {
            self.load_cursor = self.load_cursor + 1;
        }
    }

    pub fn log_scroll_up(&mut self)
        ensures
            final(self)@ == old(self)@.log_scroll_up(),
            old(self).wf() ==> final(self).wf(),
    {
        if self.log_scroll > 0 {
            self.log_scroll = self.log_scroll - 1;
        }
    }

    pub fn log_scroll_down(&mut self, max: usize)
        ensures
            final(self)@ == old(self)@.log_scroll_down(max as nat),
            old(self).wf() ==> final(self).wf(),
    {
        if max > 0 && self.log_scroll < max - 1 {
            self.log_scroll = self.log_scroll + 1;
        }
    }

    /// Move the editor cursor up; a dragged item moves with it.
    pub fn editor_cursor_up(&mut self)
        requires
            old(self)@.editor_up_ok(),
        ensures
            final(self)@ == old(self)@.editor_cursor_up(),
            old(self).wf() ==> final(self).wf(),
    {
        if self.editor_cursor > 0 {
            self.editor_cursor = self.editor_cursor - 1;
            if let Some(drag) = self.editor_drag {
                let a = self.profile_order[drag].clone();
                let b = self.profile_order[drag - 1].clone();
                self.profile_order.set(drag, b);
                self.profile_order.set(drag - 1, a);
                self.editor_drag = Some(drag - 1);
                assert(views(self.profile_order@) =~= swap_at(
                    views(old(self).profile_order@),
                    drag as int,
                    drag - 1,
                ));
            }
        }
    }

    /// Move the editor cursor down; a dragged item moves with it.
    pub fn editor_cursor_down(&mut self)
        requires
            old(self)@.editor_down_ok(),
        ensures
            final(self)@ == old(self)@.editor_cursor_down(),
            old(self).wf() ==> final(self).wf(),
    {
        let max = if self.profile_order.len() > 0 {
            self.profile_order.len() - 1
        } else {
            0
        };
        if self.editor_cursor < max {
            self.editor_cursor = self.editor_cursor + 1;
            if let Some(drag) = self.editor_drag {
                let a = self.profile_order[drag].clone();
                let b = self.profile_order[drag + 1].clone();
                self.profile_order.set(drag, b);
                self.profile_order.set(drag + 1, a);
                self.editor_drag = Some(drag + 1);
                assert(views(self.profile_order@) =~= swap_at(
                    views(old(self).profile_order@),
                    drag as int,
                    drag + 1,
                ));
            }
        }
    }

    /// Toggle grab/release of the item under the cursor.
    pub fn editor_toggle_drag(&mut self)
        ensures
            final(self)@ == old(self)@.editor_toggle_drag(),
            old(self).wf() ==> final(self).wf(),
    {
        if self.editor_drag.is_some() {
            self.editor_drag = None;
        } else if self.profile_order.len() > 0 {
            self.editor_drag = Some(self.editor_cursor);
        }
    }

    /// Remove the font under the cursor from the slot order and the
    /// selection.
    pub fn editor_remove_item(&mut self)
        requires
            old(self)@.editor_remove_ok(),
        ensures
            final(self)@ == old(self)@.editor_remove_item(),
            old(self).wf() ==> final(self).wf(),
    {
        if self.profile_order.len() == 0 {
            return ;
        }
        let name = self.profile_order.remove(self.editor_cursor);
        let ghost old_sel = views(self.selected@);
        remove_all_text(&mut self.selected, &name);
        proof {
            lemma_without_set(old_sel, name@);
        }
        if self.editor_cursor > 0 && self.editor_cursor >= self.profile_order.len() {
            self.editor_cursor = self.editor_cursor - 1;
        }
        self.editor_drag = None;
        assert(views(self.profile_order@) =~= views(old(self).profile_order@).remove(
            old(self).editor_cursor as int,
        ));
    }

    /// Select or deselect the font under the cursor; a newly selected font
    /// goes to the end of the slot order, a deselected one leaves it.
    pub fn toggle_selected(&mut self)
        ensures
            final(self)@ == old(self)@.toggle_selected(),
            old(self).wf() ==> final(self).wf(),
    {
        if self.cursor < self.library.len() {
            let name = self.library[self.cursor].name.clone();
            let ghost old_sel = views(self.selected@);
            let ghost old_order = views(self.profile_order@);
            if contains_text(&self.selected, &name) {
                remove_all_text(&mut self.selected, &name);
                remove_all_text(&mut self.profile_order, &name);
                proof {
                    lemma_without_set(old_sel, name@);
                }
            } else {
                self.selected.push(name.clone());
                proof {
                    assert(views(self.selected@) =~= old_sel.push(name@));
                    crate::profile::lemma_push_to_set(old_sel, name@);
                }
                if !contains_text(&self.profile_order, &name) {
                    self.profile_order.push(name);
                    assert(views(self.profile_order@) =~= old_order.push(name@));
                }
            }
        }
    }

    /// Build a profile from the current selection using the slot order:
    /// the ordered fonts still selected, then any selected font not yet in
    /// the order, alphabetically, so nothing is silently dropped.
    pub fn working_profile(&self) -> (r: Profile)
        ensures
            r.name == self.profile_name,
            r.description is None,
            views(r.fonts@) == working_fonts(self@.profile_order, self@.selected),
    {
        let mut fonts = self.kept_order();
        let mut extras = sort_distinct(&members(&self.selected, &fonts, false));
        proof {
            lemma_sorted_listing(views(extras@));
        }
        let ghost kept = views(fonts@);
        let ghost listed = views(extras@);
        fonts.append(&mut extras);
        assert(views(fonts@) =~= kept + listed);
        Profile { name: self.profile_name.clone(), description: None, fonts }
    }

    /// The fonts of the slot order that are still selected, in order.
    pub fn kept_order(&self) -> (r: Vec<String>)
        ensures
            views(r@) == kept_in_order(self@.profile_order, self@.selected),
    {
        let mut r: Vec<String> = Vec::new();
        let mut i: usize = 0;
        while i < self.profile_order.len()
            invariant
                i <= self.profile_order.len(),
                views(r@) == kept_in_order(views(self.profile_order@).take(i as int), self@.selected),
            decreases self.profile_order.len() - i,
        {
            proof {
                assert(views(self.profile_order@).take(i + 1).drop_last() =~= views(
                    self.profile_order@,
                ).take(i as int));
            }
            if contains_text(&self.selected, &self.profile_order[i]) {
                r.push(self.profile_order[i].clone());
                assert(views(r@) =~= kept_in_order(
                    views(self.profile_order@).take(i as int),
                    self@.selected,
                ).push(self.profile_order@[i as int]@));
            }
            i = i + 1;
        }
        assert(views(self.profile_order@).take(self.profile_order.len() as int) =~= views(
            self.profile_order@,
        ));
        r
    }

    /// Open the profile editor for the working selection, with the slot order
    /// synced to the working profile.
    pub fn open_profile_editor(&mut self)
        ensures
            final(self)@ == old(self)@.open_profile_editor(),
            old(self).wf() ==> final(self).wf(),
    {
        let profile = self.working_profile();
        self.profile_order = profile.fonts;
        self.editor_cursor = 0;
        self.editor_drag = None;
        self.screen = Screen::ProfileEditor;
    }

    /// Select every library font, appending each newly selected one to the
    /// slot order unless it is there already.
    pub fn select_all(&mut self)
        ensures
            final(self)@ == old(self)@.select_all(),
            old(self).wf() ==> final(self).wf(),
    {
        let ghost names = self@.library.map_values(|f: SoundFont| f.name@);
        let mut i: usize = 0;
        while i < self.library.len()
            invariant
                i <= self.library.len(),
                names == self.library@.map_values(|f: SoundFont| f.name@),
                self.library == old(self).library,
                old(self).wf() ==> self.wf(),
                ({
                    let r = select_each(
                        old(self)@.selected,
                        old(self)@.profile_order,
                        names.take(i as int),
                    );
                    self@ == AppView { selected: r.0, profile_order: r.1, ..old(self)@ }
                }),
            decreases self.library.len() - i,
        {
            proof {
                assert(names.take(i + 1).drop_last() =~= names.take(i as int));
                assert(names.take(i + 1).last() == self.library@[i as int].name@);
            }
            let name = self.library[i].name.clone();
            if !contains_text(&self.selected, &name) {
                let ghost old_sel = views(self.selected@);
                let ghost old_order = views(self.profile_order@);
                self.selected.push(name.clone());
                proof {
                    assert(views(self.selected@) =~= old_sel.push(name@));
                    crate::profile::lemma_push_to_set(old_sel, name@);
                }
                if !contains_text(&self.profile_order, &name) {
                    self.profile_order.push(name);
                    assert(views(self.profile_order@) =~= old_order.push(name@));
                }
            }
            i = i + 1;
        }
        assert(names.take(self.library.len() as int) =~= names);
    }

    /// Deselect everything and empty the slot order.
    pub fn clear_selection(&mut self)
        ensures
            final(self)@ == old(self)@.clear_selection(),
            old(self).wf() ==> final(self).wf(),
    {
        self.selected = Vec::new();
        self.profile_order = Vec::new();
        assert(views(self.selected@).to_set() =~= Set::<Seq<char>>::empty());
        assert(views(self.profile_order@) =~= Seq::<Seq<char>>::empty());
    }

    /// Show `msg` in a popup.
    pub fn show_popup(&mut self, msg: String)
        ensures
            final(self)@ == old(self)@.popup(msg@),
            old(self).wf() ==> final(self).wf(),
    {
        self.popup_message = msg;
        self.screen = Screen::Popup;
    }

    /// The sum of the sizes of the selected library fonts, or `None` where
    /// it does not fit in a `u64`.
    pub fn checked_total_selected_size(&self) -> (r: Option<u64>)
        ensures
            match r {
                Some(t) => t == selected_size(self@.library, self@.selected),
                None => selected_size(self@.library, self@.selected) > u64::MAX,
            },
    {
        let ghost sel = self@.selected;
        let mut total: u64 = 0;
        let mut i: usize = 0;
        while i < self.library.len()
            invariant
                sel == self@.selected,
                i <= self.library.len(),
                total == selected_size(self.library@.take(i as int), sel),
            decreases self.library.len() - i,
        {
            proof {
                assert(self.library@.take(i + 1).drop_last() =~= self.library@.take(i as int));
                lemma_selected_totals_prefix(self.library@, sel, i + 1);
            }
            if contains_text(&self.selected, &self.library[i].name) {
                let add = self.library[i].size_bytes;
                if total > u64::MAX - add {
                    return None;
                }
                total = total + add;
            }
            i = i + 1;
        }
        assert(self.library@.take(self.library.len() as int) =~= self.library@);
        Some(total)
    }

    /// The sum of the file counts of the selected library fonts, or `None`
    /// where it does not fit in a `u64`.
    pub fn checked_total_selected_files(&self) -> (r: Option<u64>)
        ensures
            match r {
                Some(t) => t == selected_files(self@.library, self@.selected),
                None => selected_files(self@.library, self@.selected) > u64::MAX,
            },
    {
        let ghost sel = self@.selected;
        let mut total: u64 = 0;
        let mut i: usize = 0;
        while i < self.library.len()
            invariant
                sel == self@.selected,
                i <= self.library.len(),
                total == selected_files(self.library@.take(i as int), sel),
            decreases self.library.len() - i,
        {
            proof {
                assert(self.library@.take(i + 1).drop_last() =~= self.library@.take(i as int));
                lemma_selected_totals_prefix(self.library@, sel, i + 1);
            }
            if contains_text(&self.selected, &self.library[i].name) {
                let add = self.library[i].file_count;
                if total > u64::MAX - add {
                    return None;
                }
                total = total + add;
            }
            i = i + 1;
        }
        assert(self.library@.take(self.library.len() as int) =~= self.library@);
        Some(total)
    }

    /// Total size of the selected library fonts.
    pub fn total_selected_size(&self) -> (r: u64)
        requires
            selected_size(self@.library, self@.selected) <= u64::MAX,
        ensures
            r == selected_size(self@.library, self@.selected),
    {
        match self.checked_total_selected_size() {
            Some(t) => t,
            None => 0,
        }
    }

    /// Total file count of the selected library fonts.
    pub fn total_selected_files(&self) -> (r: u64)
        requires
            selected_files(self@.library, self@.selected) <= u64::MAX,
        ensures
            r == selected_files(self@.library, self@.selected),
    {
        match self.checked_total_selected_files() {
            Some(t) => t,
            None => 0,
        }
    }

    /// Total size of the selected library fonts, human-readable.
    pub fn selected_size_human(&self) -> (r: String)
        requires
            selected_size(self@.library, self@.selected) <= u64::MAX,
        ensures
            r@ == human_bytes_text(selected_size(self@.library, self@.selected)),
    {
        human_bytes(self.total_selected_size())
    }
}

/// A prefix of the library totals no more than the whole library.
pub proof fn lemma_selected_totals_prefix(lib: Seq<SoundFont>, sel: Set<Seq<char>>, n: int)
    requires
        0 <= n <= lib.len(),
    ensures
        selected_size(lib.take(n), sel) <= selected_size(lib, sel),
        selected_files(lib.take(n), sel) <= selected_files(lib, sel),
    decreases lib.len(),
{
    if n < lib.len() {
        lemma_selected_totals_prefix(lib.drop_last(), sel, n);
        assert(lib.drop_last().take(n) =~= lib.take(n));
    } else {
        assert(lib.take(n) =~= lib);
    }
}

} // verus!
