use lini::palette::css::{is_color_name, names};

#[test]
fn the_table_is_sorted_and_unique() {
    let table = names();
    let mut sorted = table.clone();
    sorted.sort_unstable();
    sorted.dedup();
    assert_eq!(sorted, table, "keep the table sorted and duplicate-free");
}

#[test]
fn names_read_case_insensitively() {
    assert!(is_color_name("cornflowerblue"));
    assert!(is_color_name("currentColor"));
    assert!(is_color_name("none"));
    // A Lini palette hue is a `--var`, never a bare word.
    assert!(!is_color_name("rose"));
    assert!(!is_color_name("xyzzy"));
}

#[test]
fn paint_keywords_and_upper_case_names_read() {
    assert!(is_color_name("AUTO"));
    assert!(is_color_name("RebeccaPurple"));
    assert!(!is_color_name("nonе"));
    assert_eq!(names().len(), 150);
}
