use sfont_manager::actions::{Command, Key, KeyPress, Rescan};
use sfont_manager::app::{App, Screen};
use sfont_manager::library::SoundFont;
use sfont_manager::profile::Profile;
use std::path::PathBuf;

fn path(s: &str) -> PathBuf {
    PathBuf::from(s)
}

fn font(name: &str, size: u64, files: u64) -> SoundFont {
    SoundFont { name: name.into(), path: path(&format!("/lib/{}", name)), size_bytes: size, file_count: files }
}

fn app() -> App {
    App::new(
        vec![font("Alpha", 1024, 2), font("Beta", 2048, 3), font("Gamma", 512, 1)],
        path("/lib"),
        path("/profiles"),
        vec![path("/profiles/a.toml"), path("/profiles/b.toml")],
    )
}

fn press(app: &mut App, c: char) -> Command {
    key(app, Key::Char(c))
}

fn key(app: &mut App, k: Key) -> Command {
    let p = KeyPress { key: k, ctrl: false };
    assert!(app.inv_holds());
    assert!(app.key_allowed(p));
    let c = app.handle_key(p);
    assert!(app.inv_holds());
    c
}

#[test]
fn new_app_starts_in_browser() {
    let a = app();
    assert_eq!(a.screen, Screen::Browser);
    assert_eq!(a.profile_name, "new_profile");
    assert_eq!(a.cursor, 0);
    assert!(a.selected.is_empty());
    assert_eq!(a.saved_profiles.len(), 2);
}

#[test]
fn cursor_moves_within_library() {
    let mut a = app();
    a.cursor_up();
    assert_eq!(a.cursor, 0);
    a.cursor_down();
    a.cursor_down();
    a.cursor_down();
    assert_eq!(a.cursor, 2);
    a.cursor_up();
    assert_eq!(a.cursor, 1);
}

#[test]
fn toggle_selects_and_orders() {
    let mut a = app();
    a.cursor = 1;
    a.toggle_selected();
    a.cursor = 0;
    a.toggle_selected();
    assert_eq!(a.profile_order, vec!["Beta", "Alpha"]);
    assert_eq!(a.selected.len(), 2);
    a.toggle_selected();
    assert_eq!(a.profile_order, vec!["Beta"]);
    assert!(!a.selected.contains(&"Alpha".to_string()));
}

#[test]
fn toggle_twice_restores_state() {
    let mut a = app();
    a.cursor = 2;
    a.toggle_selected();
    a.toggle_selected();
    assert!(a.selected.is_empty());
    assert!(a.profile_order.is_empty());
}

#[test]
fn working_profile_appends_unordered_selection_alphabetically() {
    let mut a = app();
    a.selected = vec!["Gamma".into(), "Alpha".into(), "Beta".into()];
    a.profile_order = vec!["Beta".into(), "Removed".into()];
    let p = a.working_profile();
    assert_eq!(p.name, "new_profile");
    assert_eq!(p.fonts, vec!["Beta", "Alpha", "Gamma"]);
}

#[test]
fn loaded_profile_keeps_its_order() {
    let mut a = app();
    a.load_selected_profile(Profile {
        name: "saved".into(),
        description: None,
        fonts: vec!["Gamma".into(), "Alpha".into()],
    });
    assert_eq!(a.profile_name, "saved");
    assert_eq!(a.working_profile().fonts, vec!["Gamma", "Alpha"]);
}

#[test]
fn loading_a_profile_with_repeats_selects_each_font_once() {
    let mut a = app();
    a.load_selected_profile(Profile {
        name: "twice".into(),
        description: None,
        fonts: vec!["Beta".into(), "Alpha".into(), "Beta".into()],
    });
    assert_eq!(a.selected, vec!["Beta", "Alpha"]);
    assert_eq!(a.profile_order, vec!["Beta", "Alpha", "Beta"]);
    assert_eq!(a.total_selected_size(), 3072);
    assert_eq!(a.total_selected_files(), 5);
}

#[test]
fn working_profile_totals_match_selected_totals() {
    let mut a = app();
    a.selected = vec!["Gamma".into(), "Alpha".into()];
    a.profile_order = vec!["Gamma".into(), "Beta".into()];
    let p = a.working_profile();
    assert_eq!(p.fonts, vec!["Gamma", "Alpha"]);
    assert_eq!(p.total_size(&a.library), a.total_selected_size());
    assert_eq!(p.total_files(&a.library), a.total_selected_files());
    assert_eq!(a.total_selected_size(), 1536);
}

#[test]
fn selected_totals() {
    let mut a = app();
    a.selected = vec!["Alpha".into(), "Gamma".into()];
    assert_eq!(a.total_selected_size(), 1536);
    assert_eq!(a.total_selected_files(), 3);
    assert_eq!(a.selected_size_human(), "1.5 KB");
}

#[test]
fn editor_drag_moves_item_and_back() {
    let mut a = app();
    a.selected = vec!["Alpha".into(), "Beta".into(), "Gamma".into()];
    a.profile_order = vec!["Alpha".into(), "Beta".into(), "Gamma".into()];
    a.open_profile_editor();
    assert_eq!(a.screen, Screen::ProfileEditor);
    key(&mut a, Key::Down);
    press(&mut a, ' ');
    assert_eq!(a.editor_drag, Some(1));
    key(&mut a, Key::Up);
    assert_eq!(a.profile_order, vec!["Beta", "Alpha", "Gamma"]);
    assert_eq!(a.editor_cursor, 0);
    key(&mut a, Key::Down);
    assert_eq!(a.profile_order, vec!["Alpha", "Beta", "Gamma"]);
    assert_eq!(a.editor_drag, Some(1));
    press(&mut a, ' ');
    assert_eq!(a.editor_drag, None);
}

#[test]
fn editor_remove_takes_item_out_of_selection() {
    let mut a = app();
    a.selected = vec!["Alpha".into(), "Beta".into()];
    a.profile_order = vec!["Alpha".into(), "Beta".into()];
    a.open_profile_editor();
    key(&mut a, Key::Down);
    key(&mut a, Key::Delete);
    assert_eq!(a.profile_order, vec!["Alpha"]);
    assert_eq!(a.selected, vec!["Alpha"]);
    assert_eq!(a.editor_cursor, 0);
}

#[test]
fn browser_keys() {
    let mut a = app();
    assert!(matches!(press(&mut a, 'a'), Command::Nothing));
    assert_eq!(a.profile_order, vec!["Alpha", "Beta", "Gamma"]);
    press(&mut a, 'C');
    assert!(a.selected.is_empty() && a.profile_order.is_empty());
    press(&mut a, 'e');
    assert_eq!(a.screen, Screen::Popup);
    assert_eq!(a.popup_message, "Nothing selected \u{2014} toggle some fonts first.");
    press(&mut a, 'z');
    assert_eq!(a.screen, Screen::Browser);
    assert!(matches!(press(&mut a, 'l'), Command::Rescan(Rescan::Load)));
    assert!(matches!(a.handle_key(KeyPress { key: Key::Char('c'), ctrl: true }), Command::Quit));
    assert!(matches!(press(&mut a, 'Q'), Command::Quit));
}

#[test]
fn save_flow() {
    let mut a = app();
    press(&mut a, ' ');
    press(&mut a, 's');
    assert_eq!(a.screen, Screen::SaveDialog);
    assert_eq!(a.input_buffer, "new_profile");
    for _ in 0.."new_profile".len() {
        key(&mut a, Key::Backspace);
    }
    for c in "  blue ".chars() {
        press(&mut a, c);
    }
    match key(&mut a, Key::Enter) {
        Command::Save(p) => {
            assert_eq!(p.name, "blue");
            assert_eq!(p.fonts, vec!["Alpha"]);
        }
        _ => panic!("expected a save"),
    }
    a.save_written("blue".to_string(), Ok(vec![path("/profiles/blue.toml")]));
    assert_eq!(a.screen, Screen::Popup);
    assert_eq!(a.profile_name, "blue");
    assert_eq!(a.popup_message, "Saved \"blue\"  \u{b7}  1 fonts  \u{b7}  1.0 KB");
}

#[test]
fn save_with_empty_name_fails() {
    let mut a = app();
    press(&mut a, ' ');
    press(&mut a, 's');
    a.input_buffer = "   ".to_string();
    assert!(matches!(key(&mut a, Key::Enter), Command::Nothing));
    assert_eq!(a.popup_message, "Save failed: Profile name cannot be empty");
}

#[test]
fn save_dir_failure_message() {
    let mut a = app();
    a.save_dir_failed("denied".to_string());
    assert_eq!(a.popup_message, "Save failed: Cannot create profiles dir: denied");
    assert_eq!(a.screen, Screen::Popup);
}

#[test]
fn load_flow() {
    let mut a = app();
    a.after_rescan(Rescan::Load, vec![path("/p/x.toml")]);
    assert_eq!(a.screen, Screen::LoadDialog);
    match key(&mut a, Key::Enter) {
        Command::Load(p) => assert_eq!(p, path("/p/x.toml")),
        _ => panic!("expected a load"),
    }
    a.load_finished(Ok(Profile { name: "x".into(), description: None, fonts: vec!["Beta".into()] }));
    assert_eq!(a.screen, Screen::ProfileEditor);
    assert_eq!(a.profile_order, vec!["Beta"]);
    a.load_finished(Err("bad toml".to_string()));
    assert_eq!(a.popup_message, "Load failed: bad toml");
}

#[test]
fn load_without_profiles_fails() {
    let mut a = app();
    a.after_rescan(Rescan::Load, vec![]);
    key(&mut a, Key::Enter);
    assert_eq!(a.popup_message, "Load failed: No profile selected");
}

#[test]
fn diff_needs_two_profiles() {
    let mut a = app();
    a.after_rescan(Rescan::Diff, vec![path("/p/one.toml")]);
    assert_eq!(a.popup_message, "Need at least 2 saved profiles to diff.");
    a.after_rescan(Rescan::Export, vec![]);
    assert_eq!(a.popup_message, "No saved profiles to export.");
}

#[test]
fn diff_flow() {
    let mut a = app();
    a.after_rescan(Rescan::Diff, vec![path("/p/a.toml"), path("/p/b.toml")]);
    assert_eq!(a.screen, Screen::DiffPick);
    assert!(matches!(key(&mut a, Key::Enter), Command::Nothing));
    assert_eq!(a.diff_pick_step, 1);
    key(&mut a, Key::Down);
    let (pa, pb) = match key(&mut a, Key::Enter) {
        Command::Diff(x, y) => (x, y),
        _ => panic!("expected a diff"),
    };
    assert_eq!((pa, pb), (path("/p/a.toml"), path("/p/b.toml")));
    let prof_a = Profile { name: "A".into(), description: None, fonts: vec!["Alpha".into(), "Beta".into()] };
    let prof_b = Profile { name: "B".into(), description: None, fonts: vec!["Beta".into(), "Gamma".into()] };
    a.diff_finish(Ok(prof_a), Ok(prof_b));
    assert_eq!(a.screen, Screen::DiffView);
    assert_eq!(a.diff_pick_step, 0);
    let d = a.diff_result.as_ref().unwrap();
    assert_eq!(d.name_a, "A");
    assert_eq!(d.size_a, 3072);
    assert_eq!(d.files_b, 4);
    assert_eq!(d.diff.only_in_a, vec!["Alpha"]);
    assert_eq!(d.diff.only_in_b, vec!["Gamma"]);
    assert_eq!(d.diff.in_both, vec!["Beta"]);
}

#[test]
fn diff_load_errors() {
    let mut a = app();
    a.diff_finish(Err("gone".into()), Err("unused".into()));
    assert_eq!(a.popup_message, "Error loading A: gone");
    let p = Profile::new("p".to_string());
    a.diff_finish(Ok(p), Err("gone".into()));
    assert_eq!(a.popup_message, "Error loading B: gone");
}

#[test]
fn export_flow() {
    let mut a = app();
    a.after_rescan(Rescan::Export, vec![path("/p/a.toml")]);
    assert_eq!(a.screen, Screen::ExportPick);
    match key(&mut a, Key::Enter) {
        Command::Export(p) => assert_eq!(p, path("/p/a.toml")),
        _ => panic!("expected an export"),
    }
    a.export_finished("a".to_string(), "/profiles/a".to_string(), Ok(vec!["SKIP X (not found in library)".to_string()]));
    assert_eq!(a.screen, Screen::ResultLog);
    assert_eq!(a.result_log, vec!["Exported \"a\" \u{2192} /profiles/a", "SKIP X (not found in library)"]);
    key(&mut a, Key::Down);
    assert_eq!(a.log_scroll, 1);
    key(&mut a, Key::Down);
    assert_eq!(a.log_scroll, 1);
    key(&mut a, Key::Up);
    assert_eq!(a.log_scroll, 0);
    a.export_finished("a".to_string(), "/x".to_string(), Err("disk full".to_string()));
    assert_eq!(a.popup_message, "Export failed: disk full");
}

#[test]
fn export_without_profile_selected() {
    let mut a = app();
    a.saved_profiles = vec![];
    a.screen = Screen::ExportPick;
    assert!(matches!(key(&mut a, Key::Enter), Command::Nothing));
    assert_eq!(a.popup_message, "No profile selected.");
}

#[test]
fn reload_library_clamps_cursor() {
    let mut a = app();
    a.cursor = 2;
    a.reload_library(vec![font("Solo", 1, 1)]);
    assert_eq!(a.cursor, 0);
    a.reload_library(vec![]);
    assert_eq!(a.cursor, 0);
}

#[test]
fn selected_profile_path_reports_missing() {
    let mut a = app();
    assert_eq!(a.selected_profile_path(), Ok(path("/profiles/a.toml")));
    a.load_cursor = 5;
    assert_eq!(a.selected_profile_path(), Err("No profile selected".to_string()));
}

#[test]
fn key_allowed_rejects_drag_out_of_range() {
    let mut a = app();
    a.profile_order = vec!["Alpha".into(), "Beta".into()];
    a.screen = Screen::ProfileEditor;
    a.editor_cursor = 1;
    a.editor_drag = Some(0);
    assert!(!a.key_allowed(KeyPress { key: Key::Up, ctrl: false }));
    assert!(a.key_allowed(KeyPress { key: Key::Char(' '), ctrl: false }));
    a.editor_drag = Some(1);
    assert!(a.key_allowed(KeyPress { key: Key::Up, ctrl: false }));
    a.editor_cursor = 5;
    assert!(!a.key_allowed(KeyPress { key: Key::Delete, ctrl: false }));
    assert!(!a.inv_holds());
}
