use tinyharness_ui::tui::event::{Event, Key, KeyEvent, Modifiers};
use tinyharness_ui::tui::layout::Rect;
use tinyharness_ui::tui::screen::Screen;
use tinyharness_ui::tui::widget::Widget;
use tinyharness_ui::tui::widgets::sidebar::{icon_for_entry, sort_listing, DirEntry, SidebarWidget};
use tinyharness_ui::tui::widgets::spinner::spinner_frame;

#[test]
fn test_sidebar_new() {
    let sidebar = SidebarWidget::new(".");
    assert!(sidebar.visible);
    assert!(sidebar.project_name.is_empty());
    assert_eq!(sidebar.scroll_offset(), 0);
    assert!(!sidebar.is_structure_mode());
}

#[test]
fn test_sidebar_scroll() {
    let mut sidebar = SidebarWidget::new(".");
    sidebar.scroll_down(5);
    assert_eq!(sidebar.scroll_offset(), 5);
    sidebar.scroll_up(3);
    assert_eq!(sidebar.scroll_offset(), 2);
    sidebar.scroll_home();
    assert_eq!(sidebar.scroll_offset(), 0);
}

#[test]
fn test_sidebar_render() {
    let mut screen = Screen::new(80, 24);
    let mut sidebar = SidebarWidget::new(".");
    sidebar.project_name = "TinyHarness".to_string();
    sidebar.project_type = "Rust".to_string();
    sidebar.build_command = "cargo build".to_string();
    sidebar.structure = vec!["src/  (main.rs)".to_string(), "Cargo.toml".to_string()];

    let area = Rect::new(60, 1, 20, 22);
    sidebar.render(area, &mut screen);

    // Should have rendered content in the sidebar area
    assert!(screen.get(1, 60).unwrap().char == '│');
}

#[test]
fn test_sidebar_hidden() {
    let mut screen = Screen::new(80, 24);
    let mut sidebar = SidebarWidget::new(".");
    sidebar.visible = false;

    let area = Rect::new(60, 1, 20, 22);
    sidebar.render(area, &mut screen);

    // Should not have rendered anything
    assert_eq!(screen.get(1, 60).unwrap().char, ' '); // default
}

#[test]
fn test_sidebar_content_height() {
    let mut sidebar = SidebarWidget::new(".");
    sidebar.project_name = "Test".to_string();
    sidebar.project_type = "Rust".to_string();
    sidebar.structure = vec!["a".to_string(), "b".to_string()];
    let height = sidebar.content_height();
    assert!(height > 0);
    // header(1) + name(1) + type(1) + spacer(1) + header(1) + 2 entries + spacer(1) = 8
    assert_eq!(height, 8);
}

#[test]
fn test_sidebar_scroll_render() {
    let mut screen = Screen::new(80, 24);
    let mut sidebar = SidebarWidget::new(".");
    sidebar.project_name = "Test".to_string();
    sidebar.project_type = "Rust".to_string();
    sidebar.structure = (0..50).map(|i| format!("file_{}.rs", i)).collect();

    let area = Rect::new(60, 1, 20, 22);
    sidebar.render(area, &mut screen);
    // Should render without panic even with many items

    // Scroll down and re-render
    sidebar.scroll_down(5);
    sidebar.render(area, &mut screen);
    assert_eq!(sidebar.scroll_offset(), 5);
}

#[test]
fn test_sidebar_structure_mode() {
    let mut sidebar = SidebarWidget::new(".");
    assert!(!sidebar.is_structure_mode());
    sidebar.enter_structure_mode();
    assert!(sidebar.is_structure_mode());
    sidebar.exit_structure_mode();
    assert!(!sidebar.is_structure_mode());
}

#[test]
fn test_sidebar_structure_navigation() {
    let mut sidebar = SidebarWidget::new(".");
    sidebar.enter_structure_mode();
    // Verify entries were loaded
    // (depends on the actual filesystem at test time, so just check no panic)
    let entries = sidebar.structure_entries().len();
    // Navigate within entries
    if entries > 1 {
        sidebar.set_structure_selected(0);
        // Simulate down arrow
        let event = Event::Key(KeyEvent {
            key: Key::Down,
            modifiers: Modifiers::new(),
        });
        sidebar.handle_event(&event);
        assert_eq!(sidebar.structure_selected(), 1);
        // Simulate up arrow
        let event = Event::Key(KeyEvent {
            key: Key::Up,
            modifiers: Modifiers::new(),
        });
        sidebar.handle_event(&event);
        assert_eq!(sidebar.structure_selected(), 0);
    }
}

#[test]
fn test_read_dir_sorted() {
    let raw = vec![
        DirEntry { name: "b.rs".to_string(), is_dir: false },
        DirEntry { name: "src".to_string(), is_dir: true },
        DirEntry { name: ".git".to_string(), is_dir: true },
        DirEntry { name: "A.md".to_string(), is_dir: false },
        DirEntry { name: "tests".to_string(), is_dir: true },
    ];
    let entries = sort_listing(&raw, false);
    let mut last_was_dir = true;
    for entry in &entries {
        if !last_was_dir && entry.is_dir {
            panic!("Directories should come before files in sorted listing");
        }
        last_was_dir = entry.is_dir;
    }
    let names: Vec<&str> = entries.iter().map(|e| e.name.as_str()).collect();
    assert_eq!(names, vec!["src", "tests", "A.md", "b.rs"]);
}

#[test]
fn test_format_breadcrumb() {
    let sidebar = SidebarWidget::new(".");
    // Test with workspace root == cwd (should show ".")
    let breadcrumb = sidebar.format_breadcrumb(30);
    // At least it shouldn't panic
    assert!(!breadcrumb.is_empty() || breadcrumb == ".");
}

// ── File filter tests ──────────────────────────────────────────────

#[test]
fn test_file_filter_basic() {
    let mut sidebar = SidebarWidget::new(".");
    sidebar.enter_structure_mode();
    // Add some entries manually
    sidebar.set_structure_entries(vec![
        DirEntry {
            name: "Cargo.toml".to_string(),
            is_dir: false,
        },
        DirEntry {
            name: "src".to_string(),
            is_dir: true,
        },
        DirEntry {
            name: "README.md".to_string(),
            is_dir: false,
        },
        DirEntry {
            name: "tests".to_string(),
            is_dir: true,
        },
    ]);
    // Filter by "cargo"
    sidebar.set_structure_filter("cargo");
    let filtered = sidebar.filtered_entries();
    assert_eq!(filtered.len(), 1);
    assert_eq!(filtered[0].name, "Cargo.toml");
}

#[test]
fn test_file_filter_case_insensitive() {
    let mut sidebar = SidebarWidget::new(".");
    sidebar.set_structure_entries(vec![
        DirEntry {
            name: "Cargo.toml".to_string(),
            is_dir: false,
        },
        DirEntry {
            name: "README.md".to_string(),
            is_dir: false,
        },
    ]);
    sidebar.set_structure_filter("CARGO");
    let filtered = sidebar.filtered_entries();
    assert_eq!(filtered.len(), 1);
    assert_eq!(filtered[0].name, "Cargo.toml");
}

#[test]
fn test_file_filter_empty_shows_all() {
    let mut sidebar = SidebarWidget::new(".");
    sidebar.set_structure_entries(vec![
        DirEntry {
            name: "a.rs".to_string(),
            is_dir: false,
        },
        DirEntry {
            name: "b.rs".to_string(),
            is_dir: false,
        },
    ]);
    sidebar.set_structure_filter("");
    let filtered = sidebar.filtered_entries();
    assert_eq!(filtered.len(), 2);
}

#[test]
fn test_file_filter_no_matches() {
    let mut sidebar = SidebarWidget::new(".");
    sidebar.set_structure_entries(vec![DirEntry {
        name: "a.rs".to_string(),
        is_dir: false,
    }]);
    sidebar.set_structure_filter("zzz");
    let filtered = sidebar.filtered_entries();
    assert!(filtered.is_empty());
}

#[test]
fn test_file_filter_slash_enters_filter_mode() {
    let mut sidebar = SidebarWidget::new(".");
    sidebar.enter_structure_mode();
    assert!(!sidebar.is_filter_active());
    let event = Event::Key(KeyEvent {
        key: Key::Char('/'),
        modifiers: Modifiers::new(),
    });
    sidebar.handle_event(&event);
    assert!(sidebar.is_filter_active());
    assert!(sidebar.structure_filter().is_empty());
}

#[test]
fn test_file_filter_escape_closes_filter() {
    let mut sidebar = SidebarWidget::new(".");
    sidebar.enter_structure_mode();
    sidebar.set_filter_active(true);
    sidebar.set_structure_filter("test");
    let event = Event::Key(KeyEvent {
        key: Key::Escape,
        modifiers: Modifiers::new(),
    });
    sidebar.handle_event(&event);
    assert!(!sidebar.is_filter_active());
    // Filter text is kept (so results remain visible)
    assert_eq!(sidebar.structure_filter(), "test");
}

#[test]
fn test_toggle_hidden_files() {
    let mut sidebar = SidebarWidget::new(".");
    assert!(!sidebar.show_hidden());
    sidebar.enter_structure_mode();
    let event = Event::Key(KeyEvent {
        key: Key::Char('.'),
        modifiers: Modifiers::new(),
    });
    sidebar.handle_event(&event);
    assert!(sidebar.show_hidden());
    sidebar.handle_event(&event);
    assert!(!sidebar.show_hidden());
}

#[test]
fn test_filter_type_chars() {
    let mut sidebar = SidebarWidget::new(".");
    sidebar.enter_structure_mode();
    sidebar.set_filter_active(true);
    let event = Event::Key(KeyEvent {
        key: Key::Char('r'),
        modifiers: Modifiers::new(),
    });
    sidebar.handle_event(&event);
    assert_eq!(sidebar.structure_filter(), "r");
    let event2 = Event::Key(KeyEvent {
        key: Key::Char('s'),
        modifiers: Modifiers::new(),
    });
    sidebar.handle_event(&event2);
    assert_eq!(sidebar.structure_filter(), "rs");
}

#[test]
fn test_filter_backspace() {
    let mut sidebar = SidebarWidget::new(".");
    sidebar.enter_structure_mode();
    sidebar.set_filter_active(true);
    sidebar.set_structure_filter("abc");
    let event = Event::Key(KeyEvent {
        key: Key::Backspace,
        modifiers: Modifiers::new(),
    });
    sidebar.handle_event(&event);
    assert_eq!(sidebar.structure_filter(), "ab");
}


fn press(k: Key) -> Event {
    Event::Key(KeyEvent { key: k, modifiers: Modifiers::new() })
}

#[test]
fn browser_enter_directory_and_back() {
    let mut sidebar = SidebarWidget::new("/w");
    sidebar.enter_structure_mode();
    assert_eq!(sidebar.listing_request(), Some(("/w".to_string(), false)));
    sidebar.apply_listing(vec![
        DirEntry { name: "z.txt".to_string(), is_dir: false },
        DirEntry { name: "src".to_string(), is_dir: true },
        DirEntry { name: ".hidden".to_string(), is_dir: false },
    ]);
    assert_eq!(sidebar.listing_request(), None);
    let names: Vec<String> = sidebar.structure_entries().into_iter().map(|e| e.name).collect();
    assert_eq!(names, vec!["src".to_string(), "z.txt".to_string()]);
    sidebar.handle_event(&press(Key::Enter));
    assert_eq!(sidebar.structure_cwd(), "/w/src");
    assert_eq!(sidebar.listing_request(), Some(("/w/src".to_string(), false)));
    sidebar.apply_listing(vec![DirEntry { name: "main.rs".to_string(), is_dir: false }]);
    assert_eq!(sidebar.format_breadcrumb(30), "src");
    sidebar.handle_event(&press(Key::Escape));
    assert_eq!(sidebar.structure_cwd(), "/w");
    assert_eq!(sidebar.structure_selected(), 0);
    sidebar.apply_listing(vec![DirEntry { name: "src".to_string(), is_dir: true }]);
    let action = sidebar.handle_event(&press(Key::Escape));
    assert!(matches!(action, tinyharness_ui::tui::widget::Action::ExitStructureMode));
    assert!(!sidebar.is_structure_mode());
}

#[test]
fn browser_paging_and_filter_substring() {
    let mut sidebar = SidebarWidget::new(".");
    sidebar.enter_structure_mode();
    let raw: Vec<DirEntry> = (0..30).map(|i| DirEntry { name: format!("f{:02}.rs", i), is_dir: false }).collect();
    sidebar.apply_listing(raw);
    sidebar.handle_event(&press(Key::PageDown));
    assert_eq!(sidebar.structure_selected(), 10);
    sidebar.handle_event(&press(Key::End));
    assert_eq!(sidebar.structure_selected(), 29);
    sidebar.handle_event(&press(Key::PageUp));
    assert_eq!(sidebar.structure_selected(), 19);
    sidebar.handle_event(&press(Key::Home));
    assert_eq!(sidebar.structure_selected(), 0);
    sidebar.set_structure_filter("F2");
    let names: Vec<String> = sidebar.filtered_entries().into_iter().map(|e| e.name).collect();
    assert_eq!(names.len(), 10);
    assert_eq!(names[0], "f20.rs");
    assert_eq!(sidebar.count_items_before_structure(), 3);
}

#[test]
fn sidebar_keys_outside_browser() {
    let mut sidebar = SidebarWidget::new(".");
    sidebar.handle_event(&press(Key::PageDown));
    assert_eq!(sidebar.scroll_offset(), 10);
    sidebar.handle_event(&press(Key::Up));
    assert_eq!(sidebar.scroll_offset(), 9);
    sidebar.handle_event(&press(Key::Home));
    assert_eq!(sidebar.scroll_offset(), 0);
    assert!(matches!(sidebar.handle_event(&press(Key::Tab)), tinyharness_ui::tui::widget::Action::CycleFocusForward));
}

#[test]
fn icons_follow_the_extension() {
    assert_eq!(icon_for_entry("src", true), "▸");
    assert_eq!(icon_for_entry("main.rs", false), "Σ");
    assert_eq!(icon_for_entry("Cargo.toml", false), "⚙");
    assert_eq!(icon_for_entry("a.b.json", false), "{ }");
    assert_eq!(icon_for_entry("ci.yml", false), "≡");
    assert_eq!(icon_for_entry(".gitignore", false), "○");
    assert_eq!(icon_for_entry("photo.webp", false), "◈");
    assert_eq!(icon_for_entry("Makefile", false), "·");
    assert_eq!(icon_for_entry("rs", false), "Σ");
    assert_eq!(DirEntry { name: "run.sh".to_string(), is_dir: false }.icon(), "$");
}

#[test]
fn breadcrumb_is_cut_from_the_left() {
    let mut sidebar = SidebarWidget::new("/w");
    sidebar.enter_structure_mode();
    sidebar.apply_listing(vec![DirEntry { name: "deeply".to_string(), is_dir: true }]);
    assert_eq!(sidebar.format_breadcrumb(30), ".");
    sidebar.handle_event(&press(Key::Enter));
    assert_eq!(sidebar.format_breadcrumb(30), "deeply");
    assert_eq!(sidebar.format_breadcrumb(4), "…ply");
    assert_eq!(sidebar.format_breadcrumb(1), "…");
}

#[test]
fn spinner_frames_in_order() {
    let frames: Vec<&str> = (0..10).map(spinner_frame).collect();
    assert_eq!(frames, vec!["⠋", "⠙", "⠹", "⠸", "⠼", "⠴", "⠦", "⠧", "⠇", "⠏"]);
}

#[test]
fn setters_fill_the_project_section() {
    let mut sidebar = SidebarWidget::new(".");
    sidebar.set_project(
        "TinyHarness".to_string(),
        "rust".to_string(),
        Some("main".to_string()),
        "cargo build".to_string(),
        "cargo test".to_string(),
    );
    sidebar.set_structure(vec!["src/  (main.rs)".to_string()]);
    sidebar.set_active_skills(vec![("review".to_string(), "reviews code".to_string())]);
    assert_eq!(sidebar.project_name, "TinyHarness");
    assert_eq!(sidebar.git_branch.as_deref(), Some("main"));
    assert_eq!(sidebar.structure.len(), 1);
    assert_eq!(sidebar.active_skills[0].0, "review");
    let mut screen = Screen::new(40, 20);
    sidebar.render(Rect::new(0, 0, 30, 20), &mut screen);
    let row: String = (0..30).map(|c| screen.get(1, c).map(|x| x.char).unwrap_or(' ')).collect();
    assert!(row.contains("Project"));
}
