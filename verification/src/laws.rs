//! Properties of the browser's operations taken together: what the working
//! profile holds, what one operation undoes of another, what every
//! operation keeps, how the totals of the selection and of the working
//! profile agree, and what the dialogs save, select, export and compare.
use vstd::prelude::*;

use crate::actions::{CommandView, Key, KeyPress, Rescan};
use crate::app::{
    kept_in_order, lemma_sorted_listing, lemma_without_set, select_each, selected_files,
    selected_size, sorted_listing, swap_at, without, working_fonts, AppView,
};
use crate::library::{find_font, find_font_from, lemma_find_font_from, SoundFont};
use crate::profile::{
    files_of_name, lemma_push_to_set, size_of_name, total_files_of, total_size_of,
};
use crate::sorting::{lemma_sorted_listing_exists, strictly_sorted};
use crate::text::{lemma_seq_lt_irreflexive, trimmed};

use std::path::PathBuf;

verus! {

/// The fonts kept from the order are the ordered fonts that are selected.
pub proof fn lemma_kept_in_order_set(order: Seq<Seq<char>>, sel: Set<Seq<char>>)
    ensures
        kept_in_order(order, sel).to_set() == order.to_set().intersect(sel),
    decreases order.len(),
{
    if order.len() == 0 {
        assert(order.to_set() =~= Set::<Seq<char>>::empty());
        assert(kept_in_order(order, sel).to_set() =~= order.to_set().intersect(sel));
    } else {
        let init = order.drop_last();
        lemma_kept_in_order_set(init, sel);
        lemma_push_to_set(init, order.last());
        lemma_push_to_set(kept_in_order(init, sel), order.last());
        assert(order =~= init.push(order.last()));
        assert(kept_in_order(order, sel).to_set() =~= order.to_set().intersect(sel));
    }
}

/// The elements of a concatenation are those of its parts.
pub proof fn lemma_concat_set(a: Seq<Seq<char>>, b: Seq<Seq<char>>)
    ensures
        (a + b).to_set() == a.to_set().union(b.to_set()),
{
    assert forall|x: Seq<char>| (a + b).to_set().contains(x) <==> a.to_set().union(
        b.to_set(),
    ).contains(x) by {
        if (a + b).to_set().contains(x) {
            let k = choose|k: int| 0 <= k < (a + b).len() && (a + b)[k] == x;
            if k < a.len() {
                assert(a[k] == x);
            } else {
                assert(b[k - a.len()] == x);
            }
        }
        if a.to_set().contains(x) {
            let k = choose|k: int| 0 <= k < a.len() && a[k] == x;
            assert((a + b)[k] == x);
        }
        if b.to_set().contains(x) {
            let k = choose|k: int| 0 <= k < b.len() && b[k] == x;
            assert((a + b)[k + a.len()] == x);
        }
    }
    assert((a + b).to_set() =~= a.to_set().union(b.to_set()));
}

/// The working profile holds exactly the selected fonts: none is silently
/// dropped and none is added.
pub proof fn law_working_profile_is_selection(order: Seq<Seq<char>>, sel: Set<Seq<char>>)
    requires
        sel.finite(),
    ensures
        working_fonts(order, sel).to_set() == sel,
{
    let kept = kept_in_order(order, sel);
    let rest = sel.difference(kept.to_set());
    lemma_kept_in_order_set(order, sel);
    lemma_sorted_listing_exists(rest);
    let t = choose|t: Seq<Seq<char>>| strictly_sorted(t) && t.to_set() == rest;
    lemma_sorted_listing(t);
    lemma_concat_set(kept, sorted_listing(rest));
    assert(working_fonts(order, sel).to_set() =~= sel);
}

/// Every element of `s` in `sel` is kept, so a sequence whose elements are
/// all selected is kept whole.
proof fn lemma_kept_all(s: Seq<Seq<char>>, sel: Set<Seq<char>>)
    requires
        forall|i: int| 0 <= i < s.len() ==> sel.contains(#[trigger] s[i]),
    ensures
        kept_in_order(s, sel) == s,
    decreases s.len(),
{
    if s.len() > 0 {
        assert(sel.contains(s[s.len() - 1]));
        lemma_kept_all(s.drop_last(), sel);
        assert(s =~= s.drop_last().push(s.last()));
    }
}

/// A loaded profile is the working profile again: selecting its fonts with
/// its order gives back its fonts in the same order, repeats included.
pub proof fn law_loaded_order_kept(fonts: Seq<Seq<char>>)
    ensures
        working_fonts(fonts, fonts.to_set()) == fonts,
{
    let sel = fonts.to_set();
    assert forall|i: int| 0 <= i < fonts.len() implies sel.contains(#[trigger] fonts[i]) by {}
    lemma_kept_all(fonts, sel);
    let e = Seq::<Seq<char>>::empty();
    assert(sel.difference(fonts.to_set()) =~= e.to_set());
    lemma_sorted_listing(e);
    assert(working_fonts(fonts, sel) =~= fonts);
}

/// Toggling the font under the cursor twice gives back the selection; when
/// the font was neither selected nor in the slot order, it gives back the
/// whole state.
pub proof fn law_toggle_twice(s: AppView)
    ensures
        s.toggle_selected().toggle_selected().selected == s.selected,
        s.cursor < s.library.len() && !s.selected.contains(s.library[s.cursor as int].name@)
            && !s.profile_order.contains(s.library[s.cursor as int].name@)
            ==> s.toggle_selected().toggle_selected() == s,
{
    if s.cursor < s.library.len() {
        let name = s.library[s.cursor as int].name@;
        let t = s.toggle_selected();
        if s.selected.contains(name) {
            assert(s.selected.remove(name).insert(name) =~= s.selected);
        } else {
            assert(s.selected.insert(name).remove(name) =~= s.selected);
            if !s.profile_order.contains(name) {
                let pushed = s.profile_order.push(name);
                assert(pushed.drop_last() =~= s.profile_order);
                assert(without(pushed, name) == without(s.profile_order, name));
                lemma_without_set(s.profile_order, name);
                assert(t.toggle_selected() =~= s);
            }
        }
    }
}

/// Dragging an item up and then down again restores the editor.
pub proof fn law_drag_up_then_down(s: AppView)
    requires
        s.inv(),
        s.screen == crate::app::Screen::ProfileEditor,
        s.editor_drag == Some(s.editor_cursor),
        s.editor_cursor > 0,
    ensures
        s.editor_cursor_up().editor_cursor_down() == s,
{
    let c = s.editor_cursor as int;
    assert(swap_at(swap_at(s.profile_order, c, c - 1), c - 1, c) =~= s.profile_order);
    assert(s.editor_cursor_up().editor_cursor_down() =~= s);
}

/// Dragging an item down and then up again restores the editor.
pub proof fn law_drag_down_then_up(s: AppView)
    requires
        s.inv(),
        s.screen == crate::app::Screen::ProfileEditor,
        s.editor_drag == Some(s.editor_cursor),
        s.editor_cursor + 1 < s.profile_order.len(),
    ensures
        s.editor_cursor_down().editor_cursor_up() == s,
{
    let c = s.editor_cursor as int;
    assert(swap_at(swap_at(s.profile_order, c, c + 1), c + 1, c) =~= s.profile_order);
    assert(s.editor_cursor_down().editor_cursor_up() =~= s);
}

/// The editor invariant holds at start-up, and every key press and every
/// completion keeps it (their contracts say so); a rescan never opens the
/// editor.
pub proof fn law_initial_state_valid(
    library: Seq<SoundFont>,
    library_path: PathBuf,
    profiles_dir: PathBuf,
    saved: Seq<PathBuf>,
)
    ensures
        AppView::initial(library, library_path, profiles_dir, saved).inv(),
{
}

/// Every key press keeps the editor invariant, and under the invariant
/// every key press is allowed.
pub proof fn law_keys_keep_invariant(s: AppView, k: KeyPress)
    requires
        s.inv(),
    ensures
        s.key_ok(k),
        s.on_key(k).0.inv(),
{
}

/// A rescan keeps the editor invariant.
pub proof fn law_rescan_keeps_invariant(s: AppView, purpose: Rescan, scanned: Seq<PathBuf>)
    requires
        s.inv(),
    ensures
        s.after_rescan(purpose, scanned).inv(),
{
}

/// The browser cursor stays on a font: moving it and toggling keep it in
/// the library.
pub proof fn law_cursor_stays_in_library(s: AppView)
    requires
        s.cursor < s.library.len(),
    ensures
        s.cursor_up().cursor < s.library.len(),
        s.cursor_down().cursor < s.library.len(),
        s.toggle_selected().cursor < s.library.len(),
{
}

/// Selecting all adds every library font to the selection, and only those.
pub proof fn law_select_all_selects_library(s: AppView)
    ensures
        s.select_all().selected == s.selected.union(
            s.library.map_values(|f: SoundFont| f.name@).to_set(),
        ),
{
    lemma_select_each(s.selected, s.profile_order, s.library.map_values(|f: SoundFont| f.name@));
}

proof fn lemma_select_each(sel: Set<Seq<char>>, order: Seq<Seq<char>>, names: Seq<Seq<char>>)
    ensures
        select_each(sel, order, names).0 == sel.union(names.to_set()),
    decreases names.len(),
{
    if names.len() == 0 {
        assert(names.to_set() =~= Set::<Seq<char>>::empty());
        assert(sel.union(names.to_set()) =~= sel);
    } else {
        lemma_select_each(sel, order, names.drop_last());
        lemma_push_to_set(names.drop_last(), names.last());
        assert(names =~= names.drop_last().push(names.last()));
        assert(select_each(sel, order, names).0 =~= sel.union(names.to_set()));
    }
}

/// Removing the item under the editor cursor takes exactly that entry out
/// of the slot order: the entries before the cursor stay where they are,
/// those after it move up by one, and the removed name leaves the
/// selection, which otherwise stays as it was.
pub proof fn law_remove_item(s: AppView)
    requires
        s.profile_order.len() > 0,
        s.editor_cursor < s.profile_order.len(),
    ensures
        s.editor_remove_item().profile_order.len() == s.profile_order.len() - 1,
        forall|i: int|
            0 <= i < s.editor_cursor ==> #[trigger] s.editor_remove_item().profile_order[i]
                == s.profile_order[i],
        forall|i: int|
            s.editor_cursor <= i < s.profile_order.len() - 1
                ==> #[trigger] s.editor_remove_item().profile_order[i] == s.profile_order[i + 1],
        !s.editor_remove_item().selected.contains(s.profile_order[s.editor_cursor as int]),
        forall|n: Seq<char>|
            n != s.profile_order[s.editor_cursor as int] ==> (
            #[trigger] s.editor_remove_item().selected.contains(n) == s.selected.contains(n)),
        s.editor_remove_item().editor_drag is None,
{
}

/// What the save dialog writes comes back unchanged when it is loaded: the
/// loaded state has the saved name, and its working profile lists the saved
/// fonts in the saved order.
pub proof fn law_save_then_load(s: AppView, t: AppView)
    requires
        s.save_request() is Some,
    ensures
        ({
            let (name, fonts) = s.save_request().unwrap();
            let loaded = t.load_profile(name, fonts);
            &&& loaded.profile_name == name
            &&& working_fonts(loaded.profile_order, loaded.selected) == fonts
        }),
{
    let (name, fonts) = s.save_request().unwrap();
    law_loaded_order_kept(fonts);
}

// ─── Totals of the selection and of the working profile ─────────────────────

/// No two fonts of `lib` share a name.
pub open spec fn names_distinct(lib: Seq<SoundFont>) -> bool {
    forall|i: int, j: int| 0 <= i < j < lib.len() ==> #[trigger] lib[i].name@ != #[trigger] lib[j].name@
}

/// Searching a library from `i` finds a match among all but the last font,
/// or else the last font when it has the name.
proof fn lemma_find_font_from_last(lib: Seq<SoundFont>, name: Seq<char>, i: int)
    requires
        0 <= i,
        lib.len() > 0,
    ensures
        find_font_from(lib, name, i) == match find_font_from(lib.drop_last(), name, i) {
            Some(j) => Some(j),
            None => if i < lib.len() && lib.last().name@ == name {
                Some(lib.len() - 1)
            } else {
                None
            },
        },
    decreases lib.len() - i,
{
    if i < lib.len() - 1 {
        assert(lib.drop_last()[i] == lib[i]);
        if lib[i].name@ != name {
            lemma_find_font_from_last(lib, name, i + 1);
        }
    } else {
        assert(find_font_from(lib.drop_last(), name, i) is None);
        assert(find_font_from(lib, name, i + 1) is None);
    }
}

/// In a library without repeated names, the size and file count of a name
/// split into those among all but the last font and those of the last font.
proof fn lemma_name_totals_last(lib: Seq<SoundFont>, name: Seq<char>)
    requires
        lib.len() > 0,
        names_distinct(lib),
    ensures
        size_of_name(lib, name) == size_of_name(lib.drop_last(), name) + if name
            == lib.last().name@ {
            lib.last().size_bytes as nat
        } else {
            0
        },
        files_of_name(lib, name) == files_of_name(lib.drop_last(), name) + if name
            == lib.last().name@ {
            lib.last().file_count as nat
        } else {
            0
        },
{
    let init = lib.drop_last();
    lemma_find_font_from_last(lib, name, 0);
    lemma_find_font_from(init, name, 0);
    if let Some(j) = find_font(init, name) {
        assert(init[j] == lib[j]);
        assert(lib[j].name@ != lib[lib.len() - 1].name@);
    }
}

/// Without repeated names on either side, the totals of `names` split into
/// those among all but the last library font and that font when it is named.
proof fn lemma_name_list_totals_last(lib: Seq<SoundFont>, names: Seq<Seq<char>>)
    requires
        lib.len() > 0,
        names_distinct(lib),
        names.no_duplicates(),
    ensures
        total_size_of(lib, names) == total_size_of(lib.drop_last(), names) + if names.contains(
            lib.last().name@,
        ) {
            lib.last().size_bytes as nat
        } else {
            0
        },
        total_files_of(lib, names) == total_files_of(lib.drop_last(), names) + if names.contains(
            lib.last().name@,
        ) {
            lib.last().file_count as nat
        } else {
            0
        },
    decreases names.len(),
{
    if names.len() > 0 {
        let init = names.drop_last();
        let x = names.last();
        assert(init.no_duplicates());
        lemma_name_list_totals_last(lib, init);
        lemma_name_totals_last(lib, x);
        let n = lib.last().name@;
        assert(names.contains(n) <==> (init.contains(n) || x == n)) by {
            if names.contains(n) {
                let k = choose|k: int| 0 <= k < names.len() && names[k] == n;
                if k < init.len() {
                    assert(init[k] == n);
                }
            }
            if init.contains(n) {
                let k = choose|k: int| 0 <= k < init.len() && init[k] == n;
                assert(names[k] == n);
            }
            assert(names[names.len() - 1] == x);
        }
        if init.contains(n) {
            let k = choose|k: int| 0 <= k < init.len() && init[k] == n;
            assert(names[k] == init[k]);
            assert(x != n);
        }
    }
}

/// Over an empty library every name weighs nothing.
proof fn lemma_name_list_totals_empty(lib: Seq<SoundFont>, names: Seq<Seq<char>>)
    requires
        lib.len() == 0,
    ensures
        total_size_of(lib, names) == 0,
        total_files_of(lib, names) == 0,
    decreases names.len(),
{
    if names.len() > 0 {
        lemma_name_list_totals_empty(lib, names.drop_last());
    }
}

/// Listing each selected name once, the totals of the listing are those of
/// the selected library fonts, when no two library fonts share a name.
proof fn lemma_listing_totals(lib: Seq<SoundFont>, names: Seq<Seq<char>>)
    requires
        names_distinct(lib),
        names.no_duplicates(),
    ensures
        total_size_of(lib, names) == selected_size(lib, names.to_set()),
        total_files_of(lib, names) == selected_files(lib, names.to_set()),
    decreases lib.len(),
{
    if lib.len() == 0 {
        lemma_name_list_totals_empty(lib, names);
    } else {
        let init = lib.drop_last();
        assert(names_distinct(init)) by {
            assert forall|i: int, j: int| 0 <= i < j < init.len() implies #[trigger] init[i].name@
                != #[trigger] init[j].name@ by {
                assert(init[i] == lib[i] && init[j] == lib[j]);
            }
        }
        lemma_listing_totals(init, names);
        lemma_name_list_totals_last(lib, names);
        assert(names.to_set().contains(lib.last().name@) == names.contains(lib.last().name@));
    }
}

/// The fonts kept from an order without repeats have no repeats.
proof fn lemma_kept_in_order_distinct(order: Seq<Seq<char>>, sel: Set<Seq<char>>)
    requires
        order.no_duplicates(),
    ensures
        kept_in_order(order, sel).no_duplicates(),
    decreases order.len(),
{
    if order.len() > 0 {
        let init = order.drop_last();
        let x = order.last();
        assert(init.no_duplicates());
        lemma_kept_in_order_distinct(init, sel);
        lemma_kept_in_order_set(init, sel);
        let kept = kept_in_order(init, sel);
        if sel.contains(x) {
            assert(!kept.contains(x)) by {
                if kept.contains(x) {
                    let k = choose|k: int| 0 <= k < kept.len() && kept[k] == x;
                    assert(kept.to_set().contains(x));
                    let m = choose|m: int| 0 <= m < init.len() && init[m] == x;
                    assert(order[m] == order[order.len() - 1]);
                }
            }
            assert forall|i: int, j: int| 0 <= i < j < kept.push(x).len() implies kept.push(x)[i]
                != kept.push(x)[j] by {
                if j == kept.len() {
                    assert(kept.push(x)[i] == kept[i]);
                    assert(kept.contains(kept[i]));
                }
            }
        }
    }
}

/// A strictly sorted listing has no repeats.
proof fn lemma_strictly_sorted_distinct(t: Seq<Seq<char>>)
    requires
        strictly_sorted(t),
    ensures
        t.no_duplicates(),
{
    assert forall|i: int, j: int| 0 <= i < t.len() && 0 <= j < t.len() && i != j implies t[i]
        != t[j] by {
        lemma_seq_lt_irreflexive(t[i]);
        if i < j {
            assert(crate::text::seq_lt(t[i], t[j]));
        } else {
            assert(crate::text::seq_lt(t[j], t[i]));
        }
    }
}

/// The working profile lists each selected font once when the slot order
/// has no repeats.
proof fn lemma_working_fonts_distinct(order: Seq<Seq<char>>, sel: Set<Seq<char>>)
    requires
        sel.finite(),
        order.no_duplicates(),
    ensures
        working_fonts(order, sel).no_duplicates(),
{
    let kept = kept_in_order(order, sel);
    let rest = sel.difference(kept.to_set());
    lemma_kept_in_order_distinct(order, sel);
    lemma_sorted_listing_exists(rest);
    let t = choose|t: Seq<Seq<char>>| strictly_sorted(t) && t.to_set() == rest;
    lemma_sorted_listing(t);
    let listed = sorted_listing(rest);
    lemma_strictly_sorted_distinct(listed);
    let w = kept + listed;
    assert forall|i: int, j: int| 0 <= i < j < w.len() implies w[i] != w[j] by {
        if j >= kept.len() && i < kept.len() {
            assert(w[i] == kept[i]);
            assert(w[j] == listed[j - kept.len()]);
            assert(kept.to_set().contains(kept[i]));
            assert(listed.to_set().contains(listed[j - kept.len()]));
        } else if i >= kept.len() {
            assert(w[i] == listed[i - kept.len()] && w[j] == listed[j - kept.len()]);
        } else {
            assert(w[i] == kept[i] && w[j] == kept[j]);
        }
    }
}

/// The totals of the working profile are the totals of the selection: the
/// size and file count that the browser shows for the selected fonts are
/// those of the profile that a save writes, when no two library fonts share
/// a name and the slot order has no repeats.
pub proof fn law_selected_totals_are_profile_totals(
    lib: Seq<SoundFont>,
    order: Seq<Seq<char>>,
    sel: Set<Seq<char>>,
)
    requires
        sel.finite(),
        names_distinct(lib),
        order.no_duplicates(),
    ensures
        total_size_of(lib, working_fonts(order, sel)) == selected_size(lib, sel),
        total_files_of(lib, working_fonts(order, sel)) == selected_files(lib, sel),
{
    lemma_working_fonts_distinct(order, sel);
    law_working_profile_is_selection(order, sel);
    lemma_listing_totals(lib, working_fonts(order, sel));
}

// ─── The dialogs: what is saved, selected, exported and compared ────────────

/// The save dialog writes, under the trimmed name, the entries of the slot
/// order that are selected, in slot order and with nothing else; an empty
/// name writes nothing. In particular a slot order whose entries are all
/// selected is written exactly as it stands.
pub proof fn law_save_writes_selected_slots(s: AppView, k: KeyPress)
    requires
        s.screen == crate::app::Screen::SaveDialog,
        k.key == Key::Enter,
    ensures
        trimmed(s.input_buffer).len() == 0 ==> s.save_request() is None
            && s.on_key(k).1 == CommandView::Nothing,
        trimmed(s.input_buffer).len() > 0 ==> s.save_request() == Some(
            (trimmed(s.input_buffer), s.profile_order.filter(|n: Seq<char>| s.selected.contains(n))),
        ) && s.on_key(k).1 == CommandView::Save(
            trimmed(s.input_buffer),
            s.profile_order.filter(|n: Seq<char>| s.selected.contains(n)),
        ),
        trimmed(s.input_buffer).len() > 0 && (forall|i: int|
            0 <= i < s.profile_order.len() ==> s.selected.contains(#[trigger] s.profile_order[i]))
            ==> s.on_key(k).1 == CommandView::Save(trimmed(s.input_buffer), s.profile_order),
{
    lemma_kept_is_filter(s.profile_order, s.selected);
    if forall|i: int|
        0 <= i < s.profile_order.len() ==> s.selected.contains(#[trigger] s.profile_order[i]) {
        lemma_kept_all(s.profile_order, s.selected);
    }
}

/// Keeping the selected entries of an order is filtering the order by the
/// selection.
proof fn lemma_kept_is_filter(order: Seq<Seq<char>>, sel: Set<Seq<char>>)
    ensures
        kept_in_order(order, sel) == order.filter(|n: Seq<char>| sel.contains(n)),
    decreases order.len(),
{
    reveal(Seq::filter);
    if order.len() > 0 {
        lemma_kept_is_filter(order.drop_last(), sel);
    }
}

/// The names of the library's fonts, in library order.
pub open spec fn library_names(lib: Seq<SoundFont>) -> Seq<Seq<char>> {
    lib.map_values(|f: SoundFont| f.name@)
}

/// Selecting all keeps the slot order as it was and only appends: each
/// appended name is a library font that was neither selected nor in the
/// order, none is appended twice, and every such library font is appended.
pub proof fn law_select_all_appends_to_order(s: AppView)
    ensures
        s.select_all().profile_order.len() >= s.profile_order.len(),
        s.select_all().profile_order.subrange(0, s.profile_order.len() as int) == s.profile_order,
        forall|k: int|
            s.profile_order.len() <= k < s.select_all().profile_order.len() ==> {
                let n = #[trigger] s.select_all().profile_order[k];
                &&& library_names(s.library).contains(n)
                &&& !s.selected.contains(n)
                &&& !s.profile_order.contains(n)
            },
        forall|k1: int, k2: int|
            s.profile_order.len() <= k1 < k2 < s.select_all().profile_order.len()
                ==> #[trigger] s.select_all().profile_order[k1]
                != #[trigger] s.select_all().profile_order[k2],
        forall|n: Seq<char>|
            #[trigger] library_names(s.library).contains(n) && !s.selected.contains(n)
                && !s.profile_order.contains(n) ==> s.select_all().profile_order.contains(n),
        forall|k1: int, k2: int, i: int|
            s.profile_order.len() <= k1 < k2 < s.select_all().profile_order.len() && 0 <= i
                < s.library.len() && #[trigger] library_names(s.library)[i]
                == #[trigger] s.select_all().profile_order[k2] ==> library_names(s.library).take(
                i,
            ).contains(#[trigger] s.select_all().profile_order[k1]),
{
    lemma_select_each_order(s.selected, s.profile_order, library_names(s.library));
    lemma_select_each_library_order(s.selected, s.profile_order, library_names(s.library));
}

/// The names that selecting each name appends come in the order of their
/// first occurrence among the names.
proof fn lemma_select_each_library_order(
    sel: Set<Seq<char>>,
    order: Seq<Seq<char>>,
    names: Seq<Seq<char>>,
)
    ensures
        forall|k1: int, k2: int, i: int|
            order.len() <= k1 < k2 < select_each(sel, order, names).1.len() && 0 <= i < names.len()
                && #[trigger] names[i] == #[trigger] select_each(sel, order, names).1[k2]
                ==> names.take(i).contains(#[trigger] select_each(sel, order, names).1[k1]),
    decreases names.len(),
{
    if names.len() > 0 {
        let init = names.drop_last();
        let n = names.last();
        lemma_select_each_library_order(sel, order, init);
        lemma_select_each_order(sel, order, init);
        lemma_select_each(sel, order, init);
        let (s0, o0) = select_each(sel, order, init);
        let o = select_each(sel, order, names).1;
        assert forall|k1: int, k2: int, i: int|
            order.len() <= k1 < k2 < o.len() && 0 <= i < names.len() && #[trigger] names[i]
                == #[trigger] o[k2] implies names.take(i).contains(#[trigger] o[k1]) by {
            assert(o[k1] == o0[k1]);
            assert(init.contains(o0[k1]));
            assert(s0.contains(o0[k1]));
            if i == names.len() - 1 {
                assert(names.take(i) =~= init);
            } else {
                assert(names[i] == init[i]);
                assert(names.take(i) =~= init.take(i));
                if k2 >= o0.len() {
                    assert(o[k2] == n);
                    assert(!s0.contains(n));
                    assert(init.contains(n)) by {
                        assert(init[i] == n);
                    }
                    assert(sel.union(init.to_set()).contains(n));
                } else {
                    assert(o[k2] == o0[k2]);
                }
            }
        }
    }
}

proof fn lemma_select_each_order(sel: Set<Seq<char>>, order: Seq<Seq<char>>, names: Seq<Seq<char>>)
    ensures
        ({
            let (s, o) = select_each(sel, order, names);
            &&& o.len() >= order.len()
            &&& o.subrange(0, order.len() as int) == order
            &&& forall|k: int|
                order.len() <= k < o.len() ==> {
                    &&& names.contains(#[trigger] o[k])
                    &&& !sel.contains(o[k])
                    &&& !order.contains(o[k])
                }
            &&& forall|k1: int, k2: int|
                order.len() <= k1 < k2 < o.len() ==> #[trigger] o[k1] != #[trigger] o[k2]
            &&& forall|n: Seq<char>|
                #[trigger] names.contains(n) && !sel.contains(n) && !order.contains(n)
                    ==> o.contains(n)
        }),
    decreases names.len(),
{
    if names.len() == 0 {
        assert(order.subrange(0, order.len() as int) =~= order);
    } else {
        let init = names.drop_last();
        let n = names.last();
        lemma_select_each_order(sel, order, init);
        lemma_select_each(sel, order, init);
        let (s0, o0) = select_each(sel, order, init);
        assert(names =~= init.push(n));
        assert forall|x: Seq<char>| init.contains(x) implies names.contains(x) by {
            let k = choose|k: int| 0 <= k < init.len() && init[k] == x;
            assert(names[k] == x);
        }
        assert(names.contains(n)) by {
            assert(names[names.len() - 1] == n);
        }
        assert forall|x: Seq<char>| names.contains(x) implies init.contains(x) || x == n by {
            let k = choose|k: int| 0 <= k < names.len() && names[k] == x;
            if k < init.len() {
                assert(init[k] == x);
            }
        }
        // An appended name comes from the earlier names, so it is selected by now.
        assert forall|k: int| order.len() <= k < o0.len() implies s0.contains(o0[k]) by {
            assert(init.contains(o0[k]));
        }
        if !s0.contains(n) {
            assert(!sel.contains(n));
            if o0.contains(n) {
                let k = choose|k: int| 0 <= k < o0.len() && o0[k] == n;
                if k >= order.len() {
                    assert(s0.contains(o0[k]));
                }
                assert(o0.subrange(0, order.len() as int)[k] == n);
                assert(order.contains(n));
            } else {
                let o = o0.push(n);
                assert(o.subrange(0, order.len() as int) =~= o0.subrange(0, order.len() as int));
                assert(!order.contains(n)) by {
                    if order.contains(n) {
                        let k = choose|k: int| 0 <= k < order.len() && order[k] == n;
                        assert(o0.subrange(0, order.len() as int)[k] == o0[k]);
                    }
                }
                assert forall|k: int| order.len() <= k < o.len() implies {
                    &&& names.contains(#[trigger] o[k])
                    &&& !sel.contains(o[k])
                    &&& !order.contains(o[k])
                } by {
                    if k < o0.len() {
                        assert(o[k] == o0[k]);
                    }
                }
                assert forall|k1: int, k2: int| order.len() <= k1 < k2 < o.len() implies #[trigger] o[k1]
                    != #[trigger] o[k2] by {
                    if k2 == o0.len() {
                        assert(o[k1] == o0[k1]);
                        assert(s0.contains(o0[k1]));
                    } else {
                        assert(o[k1] == o0[k1] && o[k2] == o0[k2]);
                    }
                }
                assert forall|x: Seq<char>| #[trigger] names.contains(x) && !sel.contains(x)
                    && !order.contains(x) implies o.contains(x) by {
                    if x == n {
                        assert(o[o0.len() as int] == n);
                    } else {
                        assert(init.contains(x));
                        let k = choose|k: int| 0 <= k < o0.len() && o0[k] == x;
                        assert(o[k] == x);
                    }
                }
            }
        }
        if s0.contains(n) || o0.contains(n) {
            assert forall|x: Seq<char>| #[trigger] names.contains(x) && !sel.contains(x)
                && !order.contains(x) implies o0.contains(x) by {
                if x == n && !init.contains(x) {
                    if s0.contains(n) {
                        assert(sel.union(init.to_set()).contains(n));
                    }
                } else {
                    assert(init.contains(x));
                }
            }
        }
    }
}

/// Enter in the export dialog asks to export exactly the saved profile
/// under the load cursor, and changes nothing else.
pub proof fn law_export_takes_profile_under_cursor(s: AppView, k: KeyPress)
    requires
        s.screen == crate::app::Screen::ExportPick,
        k.key == Key::Enter,
        s.load_cursor < s.saved_profiles.len(),
    ensures
        s.on_key(k) == (s, CommandView::Export(s.saved_profiles[s.load_cursor as int])),
{
}

/// The comparison dialog compares the two profiles picked, in the order
/// picked: the first Enter remembers the profile under the load cursor as
/// A, and after the cursor is moved to any saved profile the second Enter
/// asks for A against the profile now under the cursor.
pub proof fn law_diff_compares_the_picks(s: AppView, k: KeyPress, second: nat)
    requires
        s.screen == crate::app::Screen::DiffPick,
        s.diff_pick_step == 0,
        k.key == Key::Enter,
        s.load_cursor < s.saved_profiles.len(),
        second < s.saved_profiles.len(),
    ensures
        s.on_key(k).0.diff_profile_a == Some(s.saved_profiles[s.load_cursor as int]),
        s.on_key(k).0.diff_pick_step == 1,
        s.on_key(k).1 == CommandView::Nothing,
        (AppView { load_cursor: second, ..s.on_key(k).0 }).on_key(k).1 == CommandView::Diff(
            s.saved_profiles[s.load_cursor as int],
            s.saved_profiles[second as int],
        ),
{
}

/// Enter in the load dialog asks to read exactly the saved profile under the
/// load cursor; with no profile there, it reports that none is selected.
pub proof fn law_load_takes_profile_under_cursor(s: AppView, k: KeyPress)
    requires
        s.screen == crate::app::Screen::LoadDialog,
        k.key == Key::Enter,
    ensures
        s.load_cursor < s.saved_profiles.len() ==> s.on_key(k) == (
            s,
            CommandView::Load(s.saved_profiles[s.load_cursor as int]),
        ),
        s.load_cursor >= s.saved_profiles.len() ==> s.on_key(k).1 == CommandView::Nothing
            && s.on_key(k).0.screen == crate::app::Screen::Popup,
{
}

/// Taking every occurrence of `x` out of `s` is filtering `s` by `x`.
proof fn lemma_without_is_filter(s: Seq<Seq<char>>, x: Seq<char>)
    ensures
        without(s, x) == s.filter(|n: Seq<char>| n != x),
    decreases s.len(),
{
    reveal(Seq::filter);
    if s.len() > 0 {
        lemma_without_is_filter(s.drop_last(), x);
    }
}

/// Toggling the font under the cursor: a selected font leaves the selection
/// and every slot it held, the other slots keeping their order; an
/// unselected font joins the selection and takes a new last slot unless it
/// already has one.
pub proof fn law_toggle_selected(s: AppView)
    requires
        s.cursor < s.library.len(),
    ensures
        ({
            let n = s.library[s.cursor as int].name@;
            let t = s.toggle_selected();
            &&& s.selected.contains(n) ==> {
                &&& forall|x: Seq<char>|
                    #[trigger] t.selected.contains(x) == (s.selected.contains(x) && x != n)
                &&& t.profile_order == s.profile_order.filter(|m: Seq<char>| m != n)
            }
            &&& !s.selected.contains(n) ==> {
                &&& forall|x: Seq<char>|
                    #[trigger] t.selected.contains(x) == (s.selected.contains(x) || x == n)
                &&& s.profile_order.contains(n) ==> t.profile_order == s.profile_order
                &&& !s.profile_order.contains(n) ==> t.profile_order.len() == s.profile_order.len()
                    + 1 && t.profile_order.take(s.profile_order.len() as int) == s.profile_order
                    && t.profile_order.last() == n
            }
        }),
{
    let n = s.library[s.cursor as int].name@;
    lemma_without_is_filter(s.profile_order, n);
    assert(s.profile_order.push(n).take(s.profile_order.len() as int) =~= s.profile_order);
}

/// Dragging the item under the editor cursor one place up or down exchanges
/// it with its neighbour, leaves every other slot as it was, and keeps the
/// cursor and the drag on the moved item.
pub proof fn law_drag_moves_item(s: AppView)
    requires
        s.inv(),
        s.screen == crate::app::Screen::ProfileEditor,
        s.editor_drag == Some(s.editor_cursor),
    ensures
        s.editor_cursor > 0 ==> {
            let c = s.editor_cursor as int;
            let t = s.editor_cursor_up();
            &&& t.profile_order.len() == s.profile_order.len()
            &&& t.profile_order[c - 1] == s.profile_order[c]
            &&& t.profile_order[c] == s.profile_order[c - 1]
            &&& forall|i: int|
                0 <= i < s.profile_order.len() && i != c && i != c - 1
                    ==> #[trigger] t.profile_order[i] == s.profile_order[i]
            &&& t.editor_cursor == c - 1
            &&& t.editor_drag == Some(t.editor_cursor)
        },
        s.editor_cursor + 1 < s.profile_order.len() ==> {
            let c = s.editor_cursor as int;
            let t = s.editor_cursor_down();
            &&& t.profile_order.len() == s.profile_order.len()
            &&& t.profile_order[c + 1] == s.profile_order[c]
            &&& t.profile_order[c] == s.profile_order[c + 1]
            &&& forall|i: int|
                0 <= i < s.profile_order.len() && i != c && i != c + 1
                    ==> #[trigger] t.profile_order[i] == s.profile_order[i]
            &&& t.editor_cursor == c + 1
            &&& t.editor_drag == Some(t.editor_cursor)
        },
{
}

/// Without a drag, moving the editor cursor leaves the slot order alone.
pub proof fn law_editor_cursor_moves_without_drag(s: AppView)
    requires
        s.editor_drag is None,
    ensures
        s.editor_cursor_up().profile_order == s.profile_order,
        s.editor_cursor_down().profile_order == s.profile_order,
        s.editor_cursor > 0 ==> s.editor_cursor_up().editor_cursor == s.editor_cursor - 1,
        s.editor_cursor + 1 < s.profile_order.len() ==> s.editor_cursor_down().editor_cursor
            == s.editor_cursor + 1,
{
}

/// The working profile is the slot order restricted to the selection, in
/// slot order, followed by the selected fonts that have no slot, each once
/// and in code-point order.
pub proof fn law_working_profile_layout(order: Seq<Seq<char>>, sel: Set<Seq<char>>)
    requires
        sel.finite(),
    ensures
        ({
            let w = working_fonts(order, sel);
            let f = order.filter(|n: Seq<char>| sel.contains(n));
            let rest = w.subrange(f.len() as int, w.len() as int);
            &&& f.len() <= w.len()
            &&& w.subrange(0, f.len() as int) == f
            &&& strictly_sorted(rest)
            &&& rest.to_set() == sel.difference(order.to_set())
        }),
{
    let kept = kept_in_order(order, sel);
    let diff = sel.difference(kept.to_set());
    lemma_kept_is_filter(order, sel);
    lemma_kept_in_order_set(order, sel);
    lemma_sorted_listing_exists(diff);
    let t = choose|t: Seq<Seq<char>>| strictly_sorted(t) && t.to_set() == diff;
    lemma_sorted_listing(t);
    let w = working_fonts(order, sel);
    assert(w.subrange(0, kept.len() as int) =~= kept);
    assert(w.subrange(kept.len() as int, w.len() as int) =~= sorted_listing(diff));
    assert(diff =~= sel.difference(order.to_set()));
}

/// From the browser, `s` and then Enter (the name left as offered) saves
/// the working profile as it stands: its fonts in their slots, under the
/// working profile's trimmed name.
pub proof fn law_browser_save_writes_working_profile(s: AppView, ks: KeyPress, ke: KeyPress)
    requires
        s.screen == crate::app::Screen::Browser,
        s.selected.finite(),
        s.selected.len() > 0,
        ks.key == Key::Char('s'),
        !ks.ctrl,
        ke.key == Key::Enter,
        trimmed(s.profile_name).len() > 0,
    ensures
        s.on_key(ks).1 == CommandView::Nothing,
        s.on_key(ks).0.screen == crate::app::Screen::SaveDialog,
        s.on_key(ks).0.on_key(ke).1 == CommandView::Save(
            trimmed(s.profile_name),
            working_fonts(s.profile_order, s.selected),
        ),
{
    let w = working_fonts(s.profile_order, s.selected);
    law_working_profile_is_selection(s.profile_order, s.selected);
    assert forall|i: int| 0 <= i < w.len() implies s.selected.contains(#[trigger] w[i]) by {
        assert(w.to_set().contains(w[i]));
    }
    lemma_kept_all(w, s.selected);
}

/// A rescan shows the fresh list of saved profiles and opens the dialog it
/// was for with the cursor on the first profile, unless there are too few
/// profiles for it.
pub proof fn law_rescan_opens_dialog(s: AppView, purpose: Rescan, scanned: Seq<PathBuf>)
    ensures
        s.after_rescan(purpose, scanned).saved_profiles == scanned,
        purpose == Rescan::Load ==> s.after_rescan(purpose, scanned).screen
            == crate::app::Screen::LoadDialog && s.after_rescan(purpose, scanned).load_cursor == 0,
        purpose == Rescan::Diff && scanned.len() >= 2 ==> s.after_rescan(purpose, scanned).screen
            == crate::app::Screen::DiffPick && s.after_rescan(purpose, scanned).load_cursor == 0
            && s.after_rescan(purpose, scanned).diff_pick_step == 0 && s.after_rescan(
            purpose,
            scanned,
        ).diff_profile_a is None,
        purpose == Rescan::Diff && scanned.len() < 2 ==> s.after_rescan(purpose, scanned).screen
            == crate::app::Screen::Popup,
        purpose == Rescan::Export && scanned.len() > 0 ==> s.after_rescan(purpose, scanned).screen
            == crate::app::Screen::ExportPick && s.after_rescan(purpose, scanned).load_cursor == 0,
        purpose == Rescan::Export && scanned.len() == 0 ==> s.after_rescan(purpose, scanned).screen
            == crate::app::Screen::Popup,
{
}

} // verus!
