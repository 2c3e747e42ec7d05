use tinyharness_ui::ui::diff::{
    compute_diff, edit_diff_lines, hunk_ranges, render_diff_lines, write_preview_lines, DiffLine,
};

#[test]
fn test_compute_diff_identical() {
    let old = vec!["a", "b", "c"];
    let new = vec!["a", "b", "c"];
    let diff = compute_diff(&old, &new);
    assert_eq!(
        diff,
        vec![
            DiffLine::Keep("a"),
            DiffLine::Keep("b"),
            DiffLine::Keep("c"),
        ]
    );
}

#[test]
fn test_compute_diff_empty_to_lines() {
    let old: Vec<&str> = vec![];
    let new = vec!["a", "b"];
    let diff = compute_diff(&old, &new);
    assert_eq!(diff, vec![DiffLine::Add("a"), DiffLine::Add("b")]);
}

#[test]
fn test_compute_diff_lines_to_empty() {
    let old = vec!["a", "b"];
    let new: Vec<&str> = vec![];
    let diff = compute_diff(&old, &new);
    assert_eq!(diff, vec![DiffLine::Remove("a"), DiffLine::Remove("b")]);
}

#[test]
fn test_compute_diff_simple_insertion() {
    let old = vec!["a", "c"];
    let new = vec!["a", "b", "c"];
    let diff = compute_diff(&old, &new);
    assert_eq!(
        diff,
        vec![DiffLine::Keep("a"), DiffLine::Add("b"), DiffLine::Keep("c"),]
    );
}

#[test]
fn test_compute_diff_simple_deletion() {
    let old = vec!["a", "b", "c"];
    let new = vec!["a", "c"];
    let diff = compute_diff(&old, &new);
    assert_eq!(
        diff,
        vec![
            DiffLine::Keep("a"),
            DiffLine::Remove("b"),
            DiffLine::Keep("c"),
        ]
    );
}

#[test]
fn test_compute_diff_replace() {
    let old = vec!["a", "old", "c"];
    let new = vec!["a", "new", "c"];
    let diff = compute_diff(&old, &new);
    assert_eq!(
        diff,
        vec![
            DiffLine::Keep("a"),
            DiffLine::Remove("old"),
            DiffLine::Add("new"),
            DiffLine::Keep("c"),
        ]
    );
}

#[test]
fn test_compute_diff_multiple_changes() {
    let old = vec!["a", "b", "c", "d", "e"];
    let new = vec!["a", "x", "c", "y", "e"];
    let diff = compute_diff(&old, &new);
    assert_eq!(
        diff,
        vec![
            DiffLine::Keep("a"),
            DiffLine::Remove("b"),
            DiffLine::Add("x"),
            DiffLine::Keep("c"),
            DiffLine::Remove("d"),
            DiffLine::Add("y"),
            DiffLine::Keep("e"),
        ]
    );
}

#[test]
fn test_compute_diff_large_shift() {
    // Lines rearranged: the old "middle" section is removed and new lines added
    let old = vec!["keep1", "remove1", "remove2", "remove3", "keep2"];
    let new = vec!["keep1", "add1", "add2", "keep2"];
    let diff = compute_diff(&old, &new);
    let keeps: Vec<_> = diff
        .iter()
        .filter(|l| matches!(l, DiffLine::Keep(_)))
        .collect();
    let removes: Vec<_> = diff
        .iter()
        .filter(|l| matches!(l, DiffLine::Remove(_)))
        .collect();
    let adds: Vec<_> = diff
        .iter()
        .filter(|l| matches!(l, DiffLine::Add(_)))
        .collect();
    assert_eq!(keeps.len(), 2);
    assert_eq!(removes.len(), 3);
    assert_eq!(adds.len(), 2);
    // Keep lines should be in order
    assert!(matches!(keeps[0], DiffLine::Keep("keep1")));
    assert!(matches!(keeps[1], DiffLine::Keep("keep2")));
}

#[test]
fn test_compute_diff_both_empty() {
    let old: Vec<&str> = vec![];
    let new: Vec<&str> = vec![];
    let diff = compute_diff(&old, &new);
    assert!(diff.is_empty());
}

#[test]
fn test_compute_diff_single_line_change() {
    let old = vec!["hello world"];
    let new = vec!["hello rust"];
    let diff = compute_diff(&old, &new);
    assert_eq!(
        diff,
        vec![DiffLine::Remove("hello world"), DiffLine::Add("hello rust")]
    );
}

#[test]
fn test_compute_diff_prepend_and_append() {
    let old = vec!["b", "c"];
    let new = vec!["a", "b", "c", "d"];
    let diff = compute_diff(&old, &new);
    assert_eq!(
        diff,
        vec![
            DiffLine::Add("a"),
            DiffLine::Keep("b"),
            DiffLine::Keep("c"),
            DiffLine::Add("d"),
        ]
    );
}

#[test]
fn test_compute_diff_minimality() {
    // The diff should produce the minimum number of edits
    let old = vec!["a", "b", "c", "d", "e", "f"];
    let new = vec!["a", "c", "d", "e", "g"];
    let diff = compute_diff(&old, &new);
    let removes = diff
        .iter()
        .filter(|l| matches!(l, DiffLine::Remove(_)))
        .count();
    let adds = diff
        .iter()
        .filter(|l| matches!(l, DiffLine::Add(_)))
        .count();
    // Minimum: remove b, remove f, add g = 2 removes + 1 add = 3 edits
    assert_eq!(removes, 2);
    assert_eq!(adds, 1);
}

#[test]
fn test_compute_diff_longer_file() {
    // A more realistic scenario with many lines
    let old: Vec<String> = (0..50).map(|i| format!("line {}", i)).collect();
    let mut new = old.clone();
    // Change lines 10, 20, remove line 30, insert after line 40
    new[10] = "line 10 modified".to_string();
    new[20] = "line 20 modified".to_string();
    new.remove(30);
    new.insert(41, "inserted line".to_string());

    let old_refs: Vec<&str> = old.iter().map(|s| s.as_str()).collect();
    let new_refs: Vec<&str> = new.iter().map(|s| s.as_str()).collect();

    let diff = compute_diff(&old_refs, &new_refs);

    let removes = diff
        .iter()
        .filter(|l| matches!(l, DiffLine::Remove(_)))
        .count();
    let adds = diff
        .iter()
        .filter(|l| matches!(l, DiffLine::Add(_)))
        .count();
    // 3 removals (line 10 original, line 20 original, line 30) and 3 additions
    // (modified 10, modified 20, inserted)
    assert_eq!(removes, 3);
    assert_eq!(adds, 3);
}

#[test]
fn test_compute_diff_reorder() {
    // Swapping two unique lines
    let old = vec!["alpha", "beta"];
    let new = vec!["beta", "alpha"];
    let diff = compute_diff(&old, &new);
    // Both lines exist in both files, so one should be kept.
    // The minimal diff removes and re-adds the reordered line.
    let keeps = diff
        .iter()
        .filter(|l| matches!(l, DiffLine::Keep(_)))
        .count();
    assert!(keeps >= 1, "At least one line should be kept in a reorder");
}

#[test]
fn test_compute_diff_all_same_then_change() {
    // Large common prefix, then a change
    let old: Vec<&str> = vec!["line1", "line2", "line3", "line4", "line5", "old_ending"];
    let new: Vec<&str> = vec!["line1", "line2", "line3", "line4", "line5", "new_ending"];
    let diff = compute_diff(&old, &new);
    assert_eq!(
        diff,
        vec![
            DiffLine::Keep("line1"),
            DiffLine::Keep("line2"),
            DiffLine::Keep("line3"),
            DiffLine::Keep("line4"),
            DiffLine::Keep("line5"),
            DiffLine::Remove("old_ending"),
            DiffLine::Add("new_ending"),
        ]
    );
}


fn rule(box_color: bool, w: usize) -> String {
    let mut s = String::from("\x1b[2m  ");
    if box_color {
        s.push_str("\x1b[34m");
    }
    s.push_str(&" ".repeat(w));
    s.push(' ');
    s.push_str(&"┄".repeat(60));
    s.push_str(" \x1b[0m");
    s
}

#[test]
fn render_numbered_single_hunk() {
    let old = vec!["a", "b", "c"];
    let new = vec!["a", "x", "c"];
    let diff = compute_diff(&old, &new);
    let out = render_diff_lines(&diff, &old, &new, true);
    assert_eq!(
        out,
        vec![
            "   1 \x1b[2m a".to_string(),
            "\x1b[31m  -  \x1b[0m\x1b[31m b".to_string(),
            "\x1b[32m  +  \x1b[0m\x1b[32m x".to_string(),
            "   3 \x1b[2m c".to_string(),
        ]
    );
}

#[test]
fn render_two_hunks_with_separator() {
    let old: Vec<String> = (0..10).map(|i| format!("l{}", i)).collect();
    let mut new = old.clone();
    new[0] = "m0".to_string();
    new[9] = "m9".to_string();
    let o: Vec<&str> = old.iter().map(|s| s.as_str()).collect();
    let n: Vec<&str> = new.iter().map(|s| s.as_str()).collect();
    let diff = compute_diff(&o, &n);
    assert_eq!(hunk_ranges(&diff), vec![(0, 5), (7, 12)]);
    let out = render_diff_lines(&diff, &o, &n, false);
    assert_eq!(out.len(), 11);
    assert_eq!(out[0], "\x1b[31m  - \x1b[0ml0");
    assert_eq!(out[1], "\x1b[32m  + \x1b[0mm0");
    assert_eq!(out[2], "  \x1b[2m l1\x1b[0m");
    assert_eq!(out[5], format!("\x1b[2m  \x1b[34m{}\x1b[0m", "·".repeat(63)));
    assert_eq!(out[10], "\x1b[32m  + \x1b[0mm9");
}

#[test]
fn render_no_changes_is_empty() {
    let lines = vec!["a", "b"];
    let diff = compute_diff(&lines, &lines);
    assert!(render_diff_lines(&diff, &lines, &lines, true).is_empty());
    assert!(hunk_ranges(&diff).is_empty());
}

#[test]
fn write_preview_new_file() {
    let out = write_preview_lines("f.txt", None, "a\nb");
    let open = format!("\x1b[2m     \x1b[34m{} \x1b[0m", "┄".repeat(60));
    let close = format!("\x1b[2m     {} \x1b[0m", "┄".repeat(60));
    assert_eq!(
        out,
        vec![
            String::new(),
            "\x1b[1m  ── \x1b[34mNew file: f.txt\x1b[1m ──\x1b[0m".to_string(),
            open,
            "\x1b[32m  + \x1b[0ma".to_string(),
            "\x1b[32m  + \x1b[0mb".to_string(),
            close,
        ]
    );
}

#[test]
fn write_preview_unchanged_file() {
    let out = write_preview_lines("f.txt", Some("a\nb\n"), "a\nb");
    assert_eq!(
        out,
        vec![String::new(), "\x1b[1m  ── \x1b[34mNo changes in f.txt\x1b[1m ──\x1b[0m".to_string()]
    );
}

#[test]
fn write_preview_changed_file() {
    let out = write_preview_lines("f.txt", Some("a\nb\n"), "a\nc\n");
    assert_eq!(
        out,
        vec![
            String::new(),
            "\x1b[1m  ── \x1b[34mDiff for f.txt\x1b[1m ── \x1b[31m1-\x1b[32m1+\x1b[0m\x1b[0m".to_string(),
            rule(true, 2),
            "   1 \x1b[2m a".to_string(),
            "\x1b[31m  -  \x1b[0m\x1b[31m b".to_string(),
            "\x1b[32m  +  \x1b[0m\x1b[32m c".to_string(),
            rule(true, 2),
        ]
    );
}

#[test]
fn edit_diff_shows_context() {
    let out = edit_diff_lines("p", "l1\nl2\nl3\nl4\nl5\nl6\n", "l4", "L4\nX");
    assert_eq!(
        out,
        vec![
            String::new(),
            "\x1b[1m  ── \x1b[34mDiff for p\x1b[1m ──\x1b[0m".to_string(),
            rule(true, 2),
            "   2 \x1b[2m l2".to_string(),
            "   3 \x1b[2m l3".to_string(),
            "\x1b[31m  -  \x1b[0m\x1b[31m l4".to_string(),
            "\x1b[32m  +  \x1b[0m\x1b[32m L4".to_string(),
            "\x1b[32m  +  \x1b[0m\x1b[32m X".to_string(),
            "   5 \x1b[2m l5".to_string(),
            "   6 \x1b[2m l6".to_string(),
            rule(true, 2),
        ]
    );
}

#[test]
fn edit_diff_missing_text() {
    let out = edit_diff_lines("p", "abc", "zz", "y");
    assert_eq!(out, vec!["  \x1b[31m[diff error: 'old_str' not found in file]\x1b[0m".to_string()]);
}
