use sfont_manager::app::{App, DiffDisplay};
use sfont_manager::display::{delta_bytes, delta_count, log_line_kind, slot_label, LogLineKind};
use sfont_manager::library::{library_size, SoundFont};
use sfont_manager::profile::ProfileDiff;
use std::path::PathBuf;

#[test]
fn slot_labels_are_right_aligned() {
    assert_eq!(slot_label(0), format!("{:>3}. ", 1));
    assert_eq!(slot_label(41), " 42. ");
    assert_eq!(slot_label(998), "999. ");
    assert_eq!(slot_label(1233), "1234. ");
}

#[test]
fn deltas_have_signs() {
    assert_eq!(delta_count(3, 5), "+2");
    assert_eq!(delta_count(5, 3), "-2");
    assert_eq!(delta_count(4, 4), "0");
    assert_eq!(delta_bytes(0, 2048), "+2.0 KB");
    assert_eq!(delta_bytes(2048, 0), "-2.0 KB");
    assert_eq!(delta_bytes(7, 7), "=");
}

#[test]
fn log_lines_are_classified() {
    assert_eq!(log_line_kind(&"\u{2713} A  \u{2192}  1-A".to_string()), LogLineKind::Copied);
    assert_eq!(log_line_kind(&"SKIP B (not found in library)".to_string()), LogLineKind::Skipped);
    assert_eq!(log_line_kind(&"Exported \"p\" \u{2192} /x".to_string()), LogLineKind::Arrow);
    assert_eq!(log_line_kind(&"SKI".to_string()), LogLineKind::Other);
    assert_eq!(log_line_kind(&"".to_string()), LogLineKind::Other);
}

#[test]
fn slot_of_finds_first_position() {
    let mut app = App::new(vec![], PathBuf::from("/l"), PathBuf::from("/p"), vec![]);
    app.profile_order = vec!["x".into(), "y".into(), "x".into()];
    assert_eq!(app.slot_of(&"x".to_string()), Some(0));
    assert_eq!(app.slot_of(&"y".to_string()), Some(1));
    assert_eq!(app.slot_of(&"z".to_string()), None);
}

#[test]
fn diff_counts_and_library_total() {
    let d = DiffDisplay {
        name_a: "a".into(),
        name_b: "b".into(),
        diff: ProfileDiff {
            only_in_a: vec!["p".into()],
            only_in_b: vec!["q".into(), "r".into()],
            in_both: vec!["s".into()],
        },
        size_a: 0,
        size_b: 0,
        files_a: 0,
        files_b: 0,
    };
    assert_eq!(d.count_a(), 2);
    assert_eq!(d.count_b(), 3);
    let lib = vec![
        SoundFont { name: "a".into(), path: PathBuf::from("/a"), size_bytes: 5, file_count: 1 },
        SoundFont { name: "b".into(), path: PathBuf::from("/b"), size_bytes: 7, file_count: 1 },
    ];
    assert_eq!(library_size(&lib), Some(12));
    let big = vec![
        SoundFont { name: "a".into(), path: PathBuf::from("/a"), size_bytes: u64::MAX, file_count: 1 },
        SoundFont { name: "b".into(), path: PathBuf::from("/b"), size_bytes: 1, file_count: 1 },
    ];
    assert_eq!(library_size(&big), None);
}
