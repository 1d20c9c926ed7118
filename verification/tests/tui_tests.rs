use aibundle::models::{IgnoreConfig, OutputFormat};
use aibundle::output::snapshot::{EntryKind, FsEntry};
use aibundle::tui::state::{PathSet, Trie, SearchState, SelectionState, ToggleDecision, SelectAllDecision, AppMessage, MessageType};
use aibundle::tui::components::{Modal, ModalType, FileList, HeaderView, StatusBar};
use aibundle::tui::handlers::{KeyboardHandler, Key, KeyAction, FileOpsHandler};
use aibundle::tui::listing::{process_for_display, gather_items_for_view, is_listed_before, recursive_search_helper_generic};
use aibundle::utils::{centered_rect, Rect};

fn file(path: &str) -> FsEntry {
    FsEntry { path: path.to_string(), kind: EntryKind::File, content: Some(String::new()), listing: None }
}

fn dir(path: &str, listing: &[&str]) -> FsEntry {
    FsEntry {
        path: path.to_string(),
        kind: EntryKind::Dir,
        content: None,
        listing: Some(listing.iter().map(|s| s.to_string()).collect()),
    }
}

fn config() -> IgnoreConfig {
    IgnoreConfig {
        use_default_ignores: true,
        use_gitignore: false,
        include_binary_files: false,
        extra_ignore_patterns: Vec::new(),
    }
}

fn strings(v: &[&str]) -> Vec<String> {
    v.iter().map(|s| s.to_string()).collect()
}

fn tree() -> Vec<FsEntry> {
    vec![
        dir("/r", &["/r/zeta.txt", "/r/Alpha", "/r/.hidden", "/r/node_modules", "/r/beta.rs"]),
        file("/r/zeta.txt"),
        dir("/r/Alpha", &["/r/Alpha/x.rs"]),
        file("/r/Alpha/x.rs"),
        file("/r/.hidden"),
        dir("/r/node_modules", &["/r/node_modules/m.js"]),
        file("/r/node_modules/m.js"),
        file("/r/beta.rs"),
    ]
}

#[test]
fn path_set_compares_by_components() {
    let mut s = PathSet::new();
    assert!(s.insert("a/b".to_string()));
    assert!(!s.insert("a//b".to_string()));
    assert!(s.contains("a/b/"));
    assert_eq!(s.len(), 1);
    assert!(s.remove("a/b"));
    assert!(!s.contains("a/b"));
    assert_eq!(s.len(), 0);
}

#[test]
fn trie_lists_paths_in_order() {
    let mut t = Trie::new();
    t.extend(strings(&["src/main.rs", "Cargo.toml", "src/lib.rs", "src/main.rs"]));
    assert_eq!(t.len(), 3);
    assert_eq!(t.to_vec(), strings(&["Cargo.toml", "src/lib.rs", "src/main.rs"]));
    t.clear();
    assert_eq!(t.len(), 0);
}

#[test]
fn search_state_edits_the_query() {
    let mut s = SearchState::new();
    s.handle_search_input('x');
    assert_eq!(s.search_query, "");
    s.toggle_search();
    s.handle_search_input('a');
    s.handle_search_input('\u{7}');
    s.handle_search_input('b');
    assert_eq!(s.search_query, "ab");
    s.handle_backspace();
    assert_eq!(s.search_query, "a");
    s.handle_search_input('/');
    assert!(!s.is_searching);
    s.clear_search();
    assert_eq!(s.search_query, "");
}

#[test]
fn toggling_a_selection_twice_restores_it() {
    let mut s = SearchState::new();
    s.toggle_selection("/r/a".to_string());
    assert!(s.is_selected("/r/a"));
    assert_eq!(s.selected_count(), 1);
    s.toggle_selection("/r/a".to_string());
    assert!(!s.is_selected("/r/a"));
    assert_eq!(s.selected_count(), 0);
}

#[test]
fn toggle_select_all_selects_then_clears() {
    let mut s = SearchState::new();
    let visible = strings(&["/r/a", "/r/b"]);
    s.toggle_select_all(&visible);
    assert_eq!(s.selected_count(), 2);
    s.toggle_select_all(&visible);
    assert_eq!(s.selected_count(), 0);
}

#[test]
fn matcher_uses_substrings_or_wildcards() {
    let mut s = SearchState::new();
    s.toggle_search();
    for c in "MAIN".chars() {
        s.handle_search_input(c);
    }
    let m = s.create_matcher();
    assert!(m.matches("src_main.rs"));
    assert!(!m.matches("lib.rs"));
    let mut g = SearchState::new();
    g.toggle_search();
    for c in "*.RS".chars() {
        g.handle_search_input(c);
    }
    let gm = g.create_matcher();
    assert!(gm.matches("lib.rs"));
    assert!(!gm.matches("lib.py"));
    let empty = SearchState::new().create_matcher();
    assert!(empty.matches("anything"));
}

#[test]
fn keyboard_decisions() {
    assert_eq!(KeyboardHandler::handle_key(false, None, false, Key::Down), KeyAction::MoveSelection(1));
    assert_eq!(KeyboardHandler::handle_key(false, None, false, Key::Char(' ')), KeyAction::ToggleSelection);
    assert_eq!(KeyboardHandler::handle_key(false, None, false, Key::Char('*')), KeyAction::ToggleSelectAll);
    assert_eq!(KeyboardHandler::handle_key(false, None, false, Key::Char('a')), KeyAction::ToggleSelectAll);
    assert_eq!(KeyboardHandler::handle_key(false, None, false, Key::Char('f')), KeyAction::ToggleOutputFormat);
    assert_eq!(KeyboardHandler::handle_key(false, None, true, Key::Char('x')), KeyAction::SearchInput('x'));
    assert_eq!(KeyboardHandler::handle_key(false, None, true, Key::Esc), KeyAction::ClearSearch);
    assert_eq!(KeyboardHandler::handle_key(true, None, false, Key::Char('q')), KeyAction::Nothing);
    assert_eq!(KeyboardHandler::handle_key(true, None, false, Key::Esc), KeyAction::CancelCounting);
    assert_eq!(KeyboardHandler::handle_key(false, Some(ModalType::Confirmation), false, Key::Char('Y')), KeyAction::ConfirmSave(true));
    assert_eq!(KeyboardHandler::handle_key(false, Some(ModalType::Info), false, Key::Char('j')), KeyAction::ModalNextPage);
}

#[test]
fn moving_the_highlight_stays_in_the_list() {
    let mut s = SelectionState::new();
    s.move_selection(5, 3);
    assert_eq!(s.selected, Some(2));
    s.move_selection(-10, 3);
    assert_eq!(s.selected, Some(0));
    s.move_selection(1, 0);
    assert_eq!(s.selected, None);
}

#[test]
fn toggle_decisions_respect_the_limit() {
    let items = strings(&["/r/..", "/r/a", "/r/d", "/r/d/x"]);
    let mut s = SelectionState::new();
    let selected = PathSet::new();
    assert!(matches!(s.decide_toggle(&items, &selected, false, true, false, 10), ToggleDecision::Nothing));
    assert!(matches!(s.decide_toggle(&items, &selected, true, true, false, 10), ToggleDecision::Nothing));
    s.move_selection(1, 4);
    assert!(matches!(s.decide_toggle(&items, &selected, false, false, false, 10), ToggleDecision::SelectFile));
    match s.decide_toggle(&items, &selected, false, false, false, 0) {
        ToggleDecision::Warn(m) => assert_eq!(m, "Cannot select file: selection limit (0) reached."),
        _ => panic!("expected a warning"),
    }
    s.move_selection(1, 4);
    match s.decide_toggle(&items, &selected, false, true, true, 10) {
        ToggleDecision::SelectFolder(children) => assert_eq!(children, strings(&["/r/d/x"])),
        _ => panic!("expected the folder selected"),
    }
    match s.decide_toggle(&items, &selected, false, true, true, 1) {
        ToggleDecision::Warn(m) => assert_eq!(m, "Cannot select folder: 1 visible children would exceed selection limit (1)"),
        _ => panic!("expected a warning"),
    }
    let mut sel2 = PathSet::new();
    sel2.insert("/r/d".to_string());
    assert!(matches!(s.decide_toggle(&items, &sel2, false, true, true, 10), ToggleDecision::Deselect));
}

#[test]
fn select_all_decisions() {
    let items = strings(&["/r/..", "/r/a", "/r/d"]);
    let dirs = vec![true, false, true];
    let selected = PathSet::new();
    let expanded = PathSet::new();
    match SelectionState::decide_select_all(&items, &dirs, &selected, &expanded, 10) {
        SelectAllDecision::SelectVisible(vis, scan) => {
            assert_eq!(vis, strings(&["/r/a", "/r/d"]));
            assert_eq!(scan, strings(&["/r/d"]));
        }
        _ => panic!("expected a selection"),
    }
    match SelectionState::decide_select_all(&items, &dirs, &selected, &expanded, 1) {
        SelectAllDecision::Warn(m) => assert_eq!(m, "Cannot select all: 2 visible items exceed selection limit (1)"),
        _ => panic!("expected a warning"),
    }
    let mut all = PathSet::new();
    all.insert("/r/a".to_string());
    all.insert("/r/d".to_string());
    assert!(matches!(SelectionState::decide_select_all(&items, &dirs, &all, &expanded, 10), SelectAllDecision::ClearAll));
}

#[test]
fn modal_texts_and_pages() {
    let m = Modal::copy_stats(3, 1, 42, "1.2 KB", &OutputFormat::Markdown);
    assert_eq!(m.message, "Copied to clipboard (Markdown)\n\nFiles: 3\nFolders: 1\nLines: 42\nSize: 1.2 KB");
    assert_eq!(m.width, 60);
    let mut long = Modal::new("1\n2\n3\n4\n5".to_string(), 40, 10);
    let (text, more) = long.get_visible_content(6);
    assert!(more);
    assert_eq!(text, "1\n2\n\nPage 1 of 3");
    long.next_page(6);
    let (text, _) = long.get_visible_content(6);
    assert_eq!(text, "3\n4\n\nPage 2 of 3");
    long.prev_page(6);
    assert_eq!(long.page, 0);
    let c = Modal::config_overwrite_confirmation("/home/u/.aibundle.config.toml");
    assert_eq!(c.modal_type, ModalType::Confirmation);
}

#[test]
fn list_lines_and_header() {
    assert_eq!(FileList::display_line("/r/src/main.rs", "/r", true, false), "  [X] 🦀 main.rs");
    assert_eq!(FileList::display_line("/r/src", "/r", false, true), "[ ] 📁 src/");
    assert_eq!(FileList::display_line("/r/..", "/r", false, true), "📁   ../");
    assert_eq!(FileList::get_icon("a/b.zzz", false), "📄");
    assert_eq!(HeaderView::search_text("ab", true), "Search: ab█ (Press / to finish, ESC to cancel)");
    assert!(HeaderView::title("/r").ends_with(" - /r "));
    let status = StatusBar::status_text(5, 2, false, true, false, false, OutputFormat::Xml, true);
    assert!(status.starts_with(" 5 items (2 selected) - Space: select"));
    assert!(status.contains("i: ignores [x], g: gitignore [ ], b: binary [ ]"));
}

#[test]
fn messages_keep_their_text() {
    let m = AppMessage::new("saved".to_string(), MessageType::Success);
    assert_eq!(m.content, "saved");
}

#[test]
fn listing_order_puts_directories_first() {
    assert!(is_listed_before("/r/b", true, "/r/a", false));
    assert!(is_listed_before("/r/.x", false, "/r/a", false));
    assert!(is_listed_before("/r/A", false, "/r/b", false));
    assert!(is_listed_before("/r/A", false, "/r/a", false));
    let raw = strings(&["/r/zeta.txt", "/r/beta.rs", "/r/Alpha", "/r/.hidden"]);
    let dirs = vec![false, false, true, false];
    let shown = process_for_display(&raw, &dirs, "", true, "/r", "/r");
    assert_eq!(shown, strings(&["/r/Alpha", "/r/.hidden", "/r/beta.rs", "/r/zeta.txt"]));
    let kept = process_for_display(&raw, &dirs, "ET", false, "/r/sub", "/r");
    assert_eq!(kept, strings(&["/r/sub/..", "/r/zeta.txt", "/r/beta.rs"]));
}

#[test]
fn tree_view_gathers_expanded_folders() {
    let mut expanded = PathSet::new();
    let mut out = Vec::new();
    let r = gather_items_for_view("/r", &mut out, 0, 10, &config(), &expanded, &tree(), &Vec::new());
    assert!(r.is_ok());
    assert_eq!(out, strings(&["/r/Alpha", "/r/.hidden", "/r/beta.rs", "/r/zeta.txt"]));
    expanded.insert("/r/Alpha".to_string());
    let mut out2 = Vec::new();
    let r2 = gather_items_for_view("/r", &mut out2, 0, 10, &config(), &expanded, &tree(), &Vec::new());
    assert!(r2.is_ok());
    assert_eq!(out2, strings(&["/r/Alpha", "/r/Alpha/x.rs", "/r/.hidden", "/r/beta.rs", "/r/zeta.txt"]));
    let unlisted = vec![FsEntry { path: "/q".to_string(), kind: EntryKind::Dir, content: None, listing: None }];
    let mut out3 = Vec::new();
    assert!(gather_items_for_view("/q", &mut out3, 0, 10, &config(), &expanded, &unlisted, &Vec::new()).is_err());
}

#[test]
fn loading_items_in_both_modes() {
    let expanded = PathSet::new();
    let mut trie = Trie::new();
    let shown = FileOpsHandler::load_items(&mut trie, false, "/r", "/r", "", &config(), &expanded, &tree(), &Vec::new());
    match shown {
        Ok(v) => assert_eq!(v, strings(&["/r/Alpha", "/r/.hidden", "/r/beta.rs", "/r/zeta.txt"])),
        Err(_) => panic!("the tree is listed"),
    }
    assert_eq!(trie.len(), 4);
    let rec = FileOpsHandler::load_items(&mut trie, true, "/r", "/r", "", &config(), &expanded, &tree(), &Vec::new());
    match rec {
        Ok(v) => assert_eq!(v, strings(&["/r/Alpha", "/r/.hidden", "/r/beta.rs", "/r/node_modules/m.js", "/r/Alpha/x.rs", "/r/zeta.txt"])),
        Err(_) => panic!("the tree is listed"),
    }
    let gitignored = strings(&["/r/zeta.txt"]);
    let mut cfg = config();
    cfg.use_gitignore = true;
    let filtered = FileOpsHandler::load_items(&mut trie, false, "/r", "/r", "", &cfg, &expanded, &tree(), &gitignored);
    match filtered {
        Ok(v) => assert_eq!(v, strings(&["/r/Alpha", "/r/.hidden", "/r/beta.rs"])),
        Err(_) => panic!("the tree is listed"),
    }
}

#[test]
fn recursive_search_expands_parents() {
    let mut trie = Trie::new();
    let mut s = SearchState::new();
    s.toggle_search();
    s.handle_search_input('x');
    let mut expanded = PathSet::new();
    let r = FileOpsHandler::update_search(&mut trie, &s, true, "/r", "/r", &config(), &mut expanded, &tree(), &Vec::new());
    assert!(r.is_ok());
    assert!(expanded.contains("/r/Alpha"));
    let mut found = PathSet::new();
    let m = s.create_matcher();
    assert!(recursive_search_helper_generic("/r/Alpha", 1, 4, &m, &mut found, &config(), &tree(), &Vec::new()));
    assert!(found.contains("/r/Alpha/x.rs"));
    assert_eq!(found.len(), 1);
}

#[test]
fn non_recursive_search_filters_by_name() {
    let mut trie = Trie::new();
    let mut s = SearchState::new();
    s.toggle_search();
    s.handle_search_input('a');
    let mut expanded = PathSet::new();
    let r = FileOpsHandler::update_search(&mut trie, &s, false, "/r", "/r", &config(), &mut expanded, &tree(), &Vec::new());
    match r {
        Ok(v) => assert_eq!(v, strings(&["/r/Alpha", "/r/beta.rs", "/r/zeta.txt"])),
        Err(_) => panic!("the tree is listed"),
    }
}

#[test]
fn folder_expansion_toggles_and_collapses() {
    let mut ex = PathSet::new();
    assert!(FileOpsHandler::toggle_folder_expansion(&mut ex, "/r/Alpha", true));
    assert!(ex.contains("/r/Alpha"));
    assert!(FileOpsHandler::toggle_folder_expansion(&mut ex, "/r/Alpha", true));
    assert!(!ex.contains("/r/Alpha"));
    assert!(!FileOpsHandler::toggle_folder_expansion(&mut ex, "/r/..", true));
    assert!(!FileOpsHandler::toggle_folder_expansion(&mut ex, "/r/zeta.txt", false));
    FileOpsHandler::expand_all(&mut ex, "/r", &config(), &tree(), &Vec::new());
    assert!(ex.contains("/r") && ex.contains("/r/Alpha"));
    assert!(!ex.contains("/r/node_modules"));
    assert_eq!(ex.len(), 2);
    ex.insert("/rx".to_string());
    ex.insert("/other".to_string());
    FileOpsHandler::collapse_all(&mut ex, "/r");
    assert!(!ex.contains("/r") && !ex.contains("/r/Alpha") && !ex.contains("/rx"));
    assert!(ex.contains("/other"));
}

#[test]
fn entering_directories() {
    assert_eq!(FileOpsHandler::enter_directory("/r/Alpha", true, "/r"), Some("/r/Alpha".to_string()));
    assert_eq!(FileOpsHandler::enter_directory("/r/Alpha/..", true, "/r/Alpha"), Some("/r".to_string()));
    assert_eq!(FileOpsHandler::enter_directory("/..", true, "/"), None);
    assert_eq!(FileOpsHandler::enter_directory("/r/zeta.txt", false, "/r"), None);
}

#[test]
fn selecting_a_folder_with_its_contents() {
    let mut sel = PathSet::new();
    SelectionState::update_folder_selection_recursive(&mut sel, "/r/Alpha", true, 10, &tree());
    assert!(sel.contains("/r/Alpha") && sel.contains("/r/Alpha/x.rs"));
    assert_eq!(sel.len(), 2);
    SelectionState::update_folder_selection_recursive(&mut sel, "/r/Alpha", false, 10, &tree());
    assert_eq!(sel.len(), 0);
    let mut small = PathSet::new();
    SelectionState::update_folder_selection_recursive(&mut small, "/r", true, 2, &tree());
    assert_eq!(small.len(), 2);
}

#[test]
fn finishing_a_counted_selection() {
    let mut sel = PathSet::new();
    sel.insert("/r/Alpha".to_string());
    let r = FileOpsHandler::finalize_single_selection(&mut sel, "/r/Alpha", true, 2, Some("/r/Alpha".to_string()), &Vec::new(), 10, &tree());
    assert!(r.is_none());
    assert!(sel.contains("/r/Alpha/x.rs"));
    let mut full = PathSet::new();
    full.insert("/r/zeta.txt".to_string());
    full.insert("/r/Alpha".to_string());
    let r2 = FileOpsHandler::finalize_single_selection(&mut full, "/r/Alpha", true, 2, Some("/r/Alpha".to_string()), &Vec::new(), 2, &tree());
    match r2 {
        Some(m) => {
            assert_eq!(m.message, "Selection limit (2) exceeded for Alpha. Tried to select 2 items (total would be 3).");
            assert_eq!(m.width, 75);
            assert_eq!(m.height, 6);
        }
        None => panic!("expected the limit dialog"),
    }
    assert!(!full.contains("/r/Alpha"));
    assert_eq!(full.len(), 1);
}

#[test]
fn centered_rectangles() {
    let r = centered_rect(10, 4, Rect { x: 0, y: 0, width: 30, height: 10 });
    assert_eq!((r.x, r.y, r.width, r.height), (10, 3, 10, 4));
    let big = centered_rect(50, 50, Rect { x: 2, y: 2, width: 30, height: 10 });
    assert_eq!((big.x, big.y, big.width, big.height), (2, 2, 30, 10));
}

use aibundle::tui::app::{activity_after, mark_ui_dirty_for_input, poll_timeout_ms, ActivityState, AppEvent, DirtyFlags, OperationId, RecentEvents};
use aibundle::tui::handlers::SearchHandler;
use aibundle::tui::views::MessageView;

#[test]
fn dirty_flags_follow_the_keys() {
    let mut f = DirtyFlags::new();
    assert!(!f.needs_redraw());
    mark_ui_dirty_for_input(&mut f, Key::Down, false, false);
    assert!(f.file_list && f.status_bar && !f.header);
    f.clear();
    mark_ui_dirty_for_input(&mut f, Key::Char('x'), false, true);
    assert!(f.search_bar && f.file_list && !f.status_bar);
    f.clear();
    mark_ui_dirty_for_input(&mut f, Key::Char('h'), false, false);
    assert!(f.full_redraw && f.header && f.modal);
    f.clear();
    mark_ui_dirty_for_input(&mut f, Key::Char('c'), true, false);
    assert!(f.modal && f.status_bar && !f.file_list);
}

#[test]
fn polling_slows_down_when_idle() {
    assert_eq!(activity_after(2000), ActivityState::Active);
    assert_eq!(activity_after(2001), ActivityState::Idle);
    assert_eq!(poll_timeout_ms(ActivityState::Active), 16);
    assert_eq!(poll_timeout_ms(ActivityState::Idle), 500);
}

#[test]
fn repeated_results_are_recognised() {
    let mut seen = RecentEvents::new();
    let done = AppEvent::SelectionCountComplete {
        operation_id: OperationId(7),
        path: "/r".to_string(),
        count: 1,
        optimistic_folder: None,
        optimistic_children: Vec::new(),
    };
    assert!(!seen.is_duplicate_event(&done));
    seen.track_event(&done);
    assert!(seen.is_duplicate_event(&done));
    assert!(!seen.is_duplicate_event(&AppEvent::CancelSelectionOperations));
    seen.track_event(&AppEvent::CancelSelectionOperations);
    assert!(!seen.is_duplicate_event(&done));
}

#[test]
fn typing_in_the_search_box() {
    let mut s = SearchState::new();
    SearchHandler::handle_search_input(&mut s, Some('a'));
    SearchHandler::handle_search_input(&mut s, Some('b'));
    assert_eq!(s.search_query, "ab");
    SearchHandler::handle_search_input(&mut s, None);
    SearchHandler::handle_search_input(&mut s, None);
    SearchHandler::handle_search_input(&mut s, None);
    assert_eq!(s.search_query, "");
}

#[test]
fn message_labels() {
    assert_eq!(MessageView::label(&MessageType::Info), "INFO: ");
    assert_eq!(MessageView::label(&MessageType::Error), "ERROR: ");
}

#[test]
fn parents_within_the_current_directory() {
    let items = strings(&["/r/a/b/c.txt", "/r/x.txt", "/elsewhere/y"]);
    assert_eq!(FileOpsHandler::parent_dirs_within(&items, "/r"), strings(&["/r/a/b", "/r/a"]));
    let files = FileOpsHandler::keep_files(&strings(&["/r/Alpha", "/r/beta.rs", "/r/none"]), &tree());
    assert_eq!(files, strings(&["/r/beta.rs"]));
}

#[test]
fn collapsing_after_expanding_leaves_the_folder_collapsed() {
    let mut ex = PathSet::new();
    FileOpsHandler::expand_all(&mut ex, "/r/Alpha", &config(), &tree(), &Vec::new());
    assert!(ex.contains("/r/Alpha"));
    FileOpsHandler::collapse_all(&mut ex, "/r/Alpha");
    assert!(!ex.contains("/r/Alpha"));
}

#[test]
fn deselecting_a_folder_adds_nothing() {
    let mut sel = PathSet::new();
    sel.insert("/r/beta.rs".to_string());
    SelectionState::update_folder_selection_recursive(&mut sel, "/r/Alpha", false, 10, &tree());
    assert_eq!(sel.len(), 1);
    assert!(sel.contains("/r/beta.rs"));
}

#[test]
fn clearing_and_listing_the_search_selection() {
    let mut s = SearchState::new();
    s.toggle_selection("/r/a".to_string());
    s.toggle_selection("/r/b".to_string());
    assert_eq!(s.get_selected_items(), strings(&["/r/a", "/r/b"]));
    s.clear_selections();
    assert_eq!(s.selected_count(), 0);
    assert!(s.get_selected_items().is_empty());
}

#[test]
fn short_dialogs_show_their_whole_text() {
    let mut modal = Modal::new("Line1\nLine2\nLine3".to_string(), 40, 3);
    let (content, has_more) = modal.get_visible_content(3);
    assert!(content.contains("Line1"));
    assert!(!has_more);
    modal.next_page(3);
    modal.prev_page(3);
    assert_eq!(modal.page, 0);
    assert_eq!((modal.width, modal.height), (40, 3));
}

#[test]
fn trie_lists_distinct_name_paths_in_order() {
    let mut once = Trie::new();
    once.insert("/r/b/x");
    once.insert("./a");
    let mut twice = Trie::new();
    twice.extend(vec!["./a".to_string(), "/r/b/x".to_string(), "/r/b/x".to_string()]);
    assert_eq!(once.to_vec(), vec!["a".to_string(), "r/b/x".to_string()]);
    assert_eq!(once.to_vec(), twice.to_vec());
    assert_eq!(twice.len(), 2);
}

#[test]
fn search_input_ignores_control_characters() {
    let mut s = SearchState::new();
    s.toggle_search();
    s.handle_search_input('a');
    s.handle_search_input('\u{7}');
    s.handle_search_input('\u{85}');
    s.handle_search_input('b');
    assert_eq!(s.search_query, "ab");
}
