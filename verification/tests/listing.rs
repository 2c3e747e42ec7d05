use tinyharness_ui::tui::widgets::sidebar::{sort_listing, DirEntry};

fn entry(name: &str, is_dir: bool) -> DirEntry {
    DirEntry { name: name.to_string(), is_dir }
}

fn names(v: &[DirEntry]) -> Vec<String> {
    v.iter().map(|e| e.name.clone()).collect()
}

#[test]
fn listing_keeps_order_of_names_equal_ignoring_case() {
    let raw = vec![entry("b", false), entry("B", false), entry("a", false), entry("src", true)];
    assert_eq!(names(&sort_listing(&raw, true)), vec!["src", "a", "b", "B"]);
    let raw = vec![entry("B", false), entry("b", false), entry("a", false)];
    assert_eq!(names(&sort_listing(&raw, true)), vec!["a", "B", "b"]);
}

#[test]
fn listing_hides_dot_files_unless_shown() {
    let raw = vec![entry(".env", false), entry("main.rs", false)];
    assert_eq!(names(&sort_listing(&raw, false)), vec!["main.rs"]);
    assert_eq!(names(&sort_listing(&raw, true)), vec![".env", "main.rs"]);
}
