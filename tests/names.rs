use maimap::names::normalize_name;
use maimap::text::trim_text;

#[test]
fn normalize_trims_and_collapses_whitespace() {
    assert_eq!(normalize_name("  Arcade   A  "), "Arcade A");
    assert_eq!(normalize_name("\tArcade\n\nA\r"), "Arcade A");
}

#[test]
fn normalize_folds_unicode_spaces() {
    assert_eq!(normalize_name("万达广场\u{3000}店"), "万达广场 店");
    assert_eq!(normalize_name("A\u{00A0}\u{2003}B"), "A B");
}

#[test]
fn normalize_drops_invisible_characters() {
    assert_eq!(normalize_name("Arc\u{200B}ade"), "Arcade");
    assert_eq!(normalize_name("\u{FEFF}Arcade \u{200D} A"), "Arcade A");
}

#[test]
fn normalize_edge_cases() {
    assert_eq!(normalize_name(""), "");
    assert_eq!(normalize_name("   "), "");
    assert_eq!(normalize_name("\u{200B}"), "");
    assert_eq!(normalize_name("ArcadeA"), "ArcadeA");
}

#[test]
fn normalize_is_idempotent_on_examples() {
    for raw in ["  a  b ", "\u{3000}x\u{200B} y\t", "plain", " ", "a\u{2028}\u{2029}b"] {
        let once = normalize_name(raw);
        assert_eq!(normalize_name(&once), once);
    }
}

#[test]
fn trim_removes_outer_whitespace_only() {
    assert_eq!(trim_text("  No. 1  Road \n"), "No. 1  Road");
    assert_eq!(trim_text("\u{3000}上海市\u{3000}"), "上海市");
    assert_eq!(trim_text(""), "");
    assert_eq!(trim_text(" \t "), "");
}
