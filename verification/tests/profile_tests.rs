use sfont_manager::library::SoundFont;
use sfont_manager::profile::{diff_profiles, Profile};
use std::path::PathBuf;

fn profile(name: &str, fonts: &[&str]) -> Profile {
    Profile {
        name: name.to_string(),
        description: None,
        fonts: fonts.iter().map(|s| s.to_string()).collect(),
    }
}

fn library() -> Vec<SoundFont> {
    vec![
        SoundFont { name: "A".into(), path: PathBuf::from("/l/A"), size_bytes: 100, file_count: 1 },
        SoundFont { name: "B".into(), path: PathBuf::from("/l/B"), size_bytes: 20, file_count: 2 },
        SoundFont { name: "A".into(), path: PathBuf::from("/l/A2"), size_bytes: 999, file_count: 9 },
        SoundFont { name: "C".into(), path: PathBuf::from("/l/C"), size_bytes: 3, file_count: 3 },
    ]
}

#[test]
fn new_profile_is_empty() {
    let p = Profile::new("blue".to_string());
    assert_eq!(p.name, "blue");
    assert!(p.description.is_none());
    assert!(p.fonts.is_empty());
}

#[test]
fn totals_use_first_library_match_and_count_repeats() {
    let p = profile("p", &["A", "Missing", "B", "A"]);
    let lib = library();
    assert_eq!(p.total_size(&lib), 220);
    assert_eq!(p.total_files(&lib), 4);
    assert_eq!(p.checked_total_size(&lib), Some(220));
}

#[test]
fn totals_overflow_is_reported() {
    let lib = vec![SoundFont { name: "H".into(), path: PathBuf::from("/h"), size_bytes: u64::MAX, file_count: 1 }];
    let p = profile("p", &["H", "H"]);
    assert_eq!(p.checked_total_size(&lib), None);
    assert_eq!(p.checked_total_files(&lib), Some(2));
}

#[test]
fn diff_partitions_and_sorts() {
    let a = profile("a", &["zeta", "beta", "alpha", "beta"]);
    let b = profile("b", &["gamma", "beta", "Zulu"]);
    let d = diff_profiles(&a, &b);
    assert_eq!(d.only_in_a, vec!["alpha", "zeta"]);
    assert_eq!(d.only_in_b, vec!["Zulu", "gamma"]);
    assert_eq!(d.in_both, vec!["beta"]);
}

#[test]
fn diff_is_symmetric() {
    let a = profile("a", &["x", "y", "w"]);
    let b = profile("b", &["y", "z"]);
    let d1 = diff_profiles(&a, &b);
    let d2 = diff_profiles(&b, &a);
    assert_eq!(d1.only_in_a, d2.only_in_b);
    assert_eq!(d1.only_in_b, d2.only_in_a);
    assert_eq!(d1.in_both, d2.in_both);
    // Shared plus only-in-A count the distinct fonts of A.
    assert_eq!(d1.in_both.len() + d1.only_in_a.len(), 3);
}

#[test]
fn diff_of_identical_profiles_shares_everything() {
    let a = profile("a", &["m", "k"]);
    let d = diff_profiles(&a, &a);
    assert!(d.only_in_a.is_empty());
    assert!(d.only_in_b.is_empty());
    assert_eq!(d.in_both, vec!["k", "m"]);
}
