use sfont_manager::library::{
    dir_stats, human_bytes, join_components, library_from_folders, plan_export, ExportStep,
    FontFolder, SoundFont,
};
use std::path::{Path, PathBuf};

fn reference_human_bytes(bytes: u64) -> String {
    const KB: u64 = 1024;
    const MB: u64 = KB * 1024;
    const GB: u64 = MB * 1024;
    if bytes >= GB {
        format!("{:.2} GB", bytes as f64 / GB as f64)
    } else if bytes >= MB {
        format!("{:.2} MB", bytes as f64 / MB as f64)
    } else if bytes >= KB {
        format!("{:.1} KB", bytes as f64 / KB as f64)
    } else {
        format!("{} B", bytes)
    }
}

#[test]
fn human_bytes_examples() {
    assert_eq!(human_bytes(0), "0 B");
    assert_eq!(human_bytes(1023), "1023 B");
    assert_eq!(human_bytes(1024), "1.0 KB");
    assert_eq!(human_bytes(1536), "1.5 KB");
    assert_eq!(human_bytes(1048576), "1.00 MB");
    assert_eq!(human_bytes(5 * 1073741824), "5.00 GB");
}

#[test]
fn human_bytes_rounds_ties_to_even() {
    // 1024 + 256 bytes is exactly 1.25 KB, shown with one decimal.
    assert_eq!(human_bytes(1280), "1.2 KB");
    // 1.75 KB rounds up to the even digit.
    assert_eq!(human_bytes(1792), "1.8 KB");
}

#[test]
fn human_bytes_matches_float_formatting() {
    let mut values: Vec<u64> = (0..5000u64).collect();
    for shift in 0..64u32 {
        let p = 1u64 << shift;
        values.extend([p - 1, p, p + 1, p.wrapping_mul(3) / 2]);
    }
    let mut x: u64 = 0x9e37_79b9_7f4a_7c15;
    for _ in 0..20000 {
        x ^= x << 13;
        x ^= x >> 7;
        x ^= x << 17;
        values.push(x);
        values.push(x >> (x % 64));
    }
    values.extend([u64::MAX, u64::MAX - 1, (1u64 << 53) + 1, (1u64 << 54) + 2, (1u64 << 54) + 6]);
    for kb in 1..2048u64 {
        values.push(kb * 1024 + 512);
        values.push(kb * 1024 * 1024 + 5 * 1024 * 1024 / 1000);
    }
    for v in values {
        assert_eq!(human_bytes(v), reference_human_bytes(v), "bytes = {}", v);
    }
}

#[test]
fn size_human_uses_the_font_size() {
    let font = SoundFont { name: "A".into(), path: PathBuf::from("/lib/A"), size_bytes: 2048, file_count: 3 };
    assert_eq!(font.size_human(), "2.0 KB");
}

#[test]
fn join_components_uses_underscores() {
    let parts: Vec<String> = vec!["Tales".into(), "Bundle".into(), "Dooku".into()];
    assert_eq!(join_components(&parts), "Tales_Bundle_Dooku");
    assert_eq!(join_components(&vec![]), "");
    assert_eq!(join_components(&vec!["One".to_string()]), "One");
}

fn folder(parts: &[&str], path: &str, size: u64, count: u64) -> FontFolder {
    FontFolder {
        components: parts.iter().map(|s| s.to_string()).collect(),
        path: PathBuf::from(path),
        size_bytes: size,
        file_count: count,
    }
}

#[test]
fn library_is_named_skips_root_and_sorts_case_insensitively() {
    let found = vec![
        folder(&["zeta"], "/lib/zeta", 1, 1),
        folder(&[], "/lib", 9, 9),
        folder(&["Tales", "Bundle", "Dooku"], "/lib/Tales/Bundle/Dooku", 5, 2),
        folder(&["alpha"], "/lib/alpha", 3, 4),
        folder(&["Beta"], "/lib/Beta", 7, 1),
    ];
    let lib = library_from_folders(&found);
    let names: Vec<&str> = lib.iter().map(|f| f.name.as_str()).collect();
    assert_eq!(names, vec!["alpha", "Beta", "Tales_Bundle_Dooku", "zeta"]);
    assert_eq!(lib[2].path, PathBuf::from("/lib/Tales/Bundle/Dooku"));
    assert_eq!(lib[2].size_bytes, 5);
    assert_eq!(lib[2].file_count, 2);
}

#[test]
fn library_sort_is_stable_for_equal_keys() {
    let found = vec![
        folder(&["b"], "/lib/b-first", 1, 1),
        folder(&["A"], "/lib/A", 1, 1),
        folder(&["B"], "/lib/B", 1, 1),
        folder(&["a"], "/lib/a", 1, 1),
    ];
    let lib = library_from_folders(&found);
    let paths: Vec<&Path> = lib.iter().map(|f| f.path.as_path()).collect();
    let expected: Vec<&Path> = ["/lib/A", "/lib/a", "/lib/b-first", "/lib/B"].iter().map(Path::new).collect();
    assert_eq!(paths, expected);
}

#[test]
fn dir_stats_sums_and_counts() {
    assert_eq!(dir_stats(&vec![10, 20, 0]), Some((30, 3)));
    assert_eq!(dir_stats(&vec![]), Some((0, 0)));
    assert_eq!(dir_stats(&vec![u64::MAX, 1]), None);
}

fn leaves(library: &[SoundFont]) -> Vec<Option<String>> {
    library
        .iter()
        .map(|f| f.path.file_name().map(|n| n.to_string_lossy().to_string()))
        .collect()
}

#[test]
fn export_plan_numbers_slots_and_skips_unknown_fonts() {
    let library = vec![
        SoundFont { name: "Tales_Dooku".into(), path: PathBuf::from("/lib/Tales/Dooku"), size_bytes: 1, file_count: 1 },
        SoundFont { name: "Luke".into(), path: PathBuf::from("/lib/Luke"), size_bytes: 1, file_count: 1 },
    ];
    let names: Vec<String> = vec!["Luke".into(), "Missing".into(), "Tales_Dooku".into()];
    let plan = plan_export(&library, &leaves(&library), &names);
    assert_eq!(plan.len(), 3);
    match &plan[0] {
        ExportStep::Copy { name, source, dest_name, log } => {
            assert_eq!(name, "Luke");
            assert_eq!(source, &PathBuf::from("/lib/Luke"));
            assert_eq!(dest_name, "1-Luke");
            assert_eq!(log, "\u{2713} Luke  \u{2192}  1-Luke");
        }
        ExportStep::Skip { .. } => panic!("slot 1 should copy"),
    }
    match &plan[1] {
        ExportStep::Skip { log } => assert_eq!(log, "SKIP Missing (not found in library)"),
        ExportStep::Copy { .. } => panic!("slot 2 should be skipped"),
    }
    match &plan[2] {
        ExportStep::Copy { dest_name, source, .. } => {
            assert_eq!(dest_name, "3-Dooku");
            assert_eq!(source, &PathBuf::from("/lib/Tales/Dooku"));
        }
        ExportStep::Skip { .. } => panic!("slot 3 should copy"),
    }
}

#[test]
fn export_plan_falls_back_to_the_font_name_without_a_leaf() {
    let library = vec![SoundFont { name: "Root".into(), path: PathBuf::from("/"), size_bytes: 1, file_count: 1 }];
    let leaves = leaves(&library);
    assert_eq!(leaves, vec![None]);
    let names: Vec<String> = vec!["Root".into(), "Root".into()];
    let plan = plan_export(&library, &leaves, &names);
    match &plan[1] {
        ExportStep::Copy { dest_name, log, .. } => {
            assert_eq!(dest_name, "2-Root");
            assert_eq!(log, "\u{2713} Root  \u{2192}  2-Root");
        }
        ExportStep::Skip { .. } => panic!("slot 2 should copy"),
    }
}

#[test]
fn library_order_ignores_case() {
    let found = vec![
        folder(&["ZULU"], "/lib/ZULU", 1, 1),
        folder(&["mike"], "/lib/mike", 1, 1),
        folder(&["Alpha"], "/lib/Alpha", 1, 1),
    ];
    let lib = library_from_folders(&found);
    let names: Vec<&str> = lib.iter().map(|f| f.name.as_str()).collect();
    assert_eq!(names, vec!["Alpha", "mike", "ZULU"]);
}
