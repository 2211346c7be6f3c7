use sfont_manager::sorting::sort_distinct;
use sfont_manager::text::{chars_less, chars_of, push_decimal, trim};

#[test]
fn trim_matches_std_trim() {
    let samples = [
        "",
        "   ",
        "  name  ",
        "\tprofile\n",
        "a b",
        "\u{3000}wide\u{2003}",
        "\u{85}x\u{a0}",
        "no_space",
        " \u{200b}zero-width-is-not-space ",
    ];
    for s in samples.iter() {
        assert_eq!(trim(s), s.trim().to_string(), "trimming {:?}", s);
    }
}

#[test]
fn chars_order_matches_string_order() {
    let words = ["", "a", "A", "ab", "b", "abc", "Zeta", "zeta", "\u{e9}t\u{e9}", "e", "\u{1f600}", "~"];
    for a in words.iter() {
        for b in words.iter() {
            let ca = chars_of(a);
            let cb = chars_of(b);
            assert_eq!(chars_less(&ca, &cb), a < b, "{:?} < {:?}", a, b);
        }
    }
}

#[test]
fn sort_distinct_matches_std_sort() {
    let v: Vec<String> = ["pear", "Apple", "apple", "banana", "\u{e9}clair", "Zed", "b"]
        .iter()
        .map(|s| s.to_string())
        .collect();
    let mut expected = v.clone();
    expected.sort();
    assert_eq!(sort_distinct(&v), expected);
}

#[test]
fn decimal_rendering() {
    for n in [0u64, 7, 10, 99, 100, 12345, u64::MAX] {
        let mut s = String::from("x=");
        push_decimal(&mut s, n);
        assert_eq!(s, format!("x={}", n));
    }
}
