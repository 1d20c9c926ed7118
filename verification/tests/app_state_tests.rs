use aibundle::models::{AppConfig, IgnoreConfig, ModeConfig, OutputFormat, DEFAULT_SELECTION_LIMIT};
use aibundle::output::snapshot::{EntryKind, FsEntry};
use aibundle::tui::app_state::AppState;
use aibundle::tui::components::{ModalType, HELP_TEXT};
use aibundle::tui::handlers::FileOpsHandler;
use aibundle::tui::state::{MessageType, SelectionState};

fn file(path: &str) -> FsEntry {
    FsEntry { path: path.to_string(), kind: EntryKind::File, content: Some(String::new()), listing: None }
}

fn dir(path: &str, listing: &[&str]) -> FsEntry {
    FsEntry {
        path: path.to_string(),
        kind: EntryKind::Dir,
        content: None,
        listing: Some(listing.iter().map(|s| s.to_string()).collect()),
    }
}

fn strings(v: &[&str]) -> Vec<String> {
    v.iter().map(|s| s.to_string()).collect()
}

fn tree() -> Vec<FsEntry> {
    vec![
        dir("/r", &["/r/zeta.txt", "/r/Alpha", "/r/node_modules", "/r/beta.rs"]),
        file("/r/zeta.txt"),
        dir("/r/Alpha", &["/r/Alpha/x.rs", "/r/Alpha/Deep"]),
        file("/r/Alpha/x.rs"),
        dir("/r/Alpha/Deep", &["/r/Alpha/Deep/y.rs"]),
        file("/r/Alpha/Deep/y.rs"),
        dir("/r/node_modules", &["/r/node_modules/m.js"]),
        file("/r/node_modules/m.js"),
        file("/r/beta.rs"),
    ]
}

fn empty_config() -> AppConfig {
    AppConfig {
        default_format: None,
        default_gitignore: None,
        default_ignore: None,
        default_line_numbers: None,
        default_recursive: None,
        selection_limit: Some(DEFAULT_SELECTION_LIMIT),
    }
}

fn ignores() -> IgnoreConfig {
    IgnoreConfig {
        use_default_ignores: true,
        use_gitignore: false,
        include_binary_files: false,
        extra_ignore_patterns: Vec::new(),
    }
}

fn state() -> AppState {
    AppState::new(empty_config(), "/r".to_string(), ignores())
}

#[test]
fn new_state_takes_the_configuration() {
    let s = state();
    assert_eq!(s.current_dir, "/r");
    assert_eq!(s.initial_dir, "/r");
    assert_eq!(s.output_format, OutputFormat::Llm);
    assert!(!s.show_line_numbers);
    assert!(!s.recursive);
    assert_eq!(s.selection_limit, 400);
    assert_eq!(s.item_count(), 0);
    assert_eq!(s.selected_count(), 0);
    assert!(s.get_display_items().is_empty());
    assert!(s.modal.is_none() && s.message.is_none() && !s.quit);
    let mut c = empty_config();
    c.default_format = Some("MD".to_string());
    c.default_line_numbers = Some(true);
    c.default_recursive = Some(true);
    c.selection_limit = None;
    let t = AppState::new(c, "/x".to_string(), ignores());
    assert_eq!(t.output_format, OutputFormat::Markdown);
    assert!(t.show_line_numbers);
    assert!(t.recursive);
    assert_eq!(t.selection_limit, DEFAULT_SELECTION_LIMIT);
    let mut bad = empty_config();
    bad.default_format = Some("yaml".to_string());
    assert_eq!(AppState::new(bad, "/x".to_string(), ignores()).output_format, OutputFormat::Llm);
}

#[test]
fn state_loads_and_answers_queries() {
    let mut s = state();
    assert!(s.load_items(&tree(), &Vec::new()).is_ok());
    assert_eq!(s.get_display_items().to_vec(), strings(&["/r/Alpha", "/r/beta.rs", "/r/zeta.txt"]));
    assert_eq!(s.item_count(), 3);
    s.selected_items.insert("/r/beta.rs".to_string());
    assert!(s.is_file_selected("/r/beta.rs"));
    assert!(!s.is_file_selected("/r/zeta.txt"));
    assert!(s.is_path_ignored("/r/node_modules", false));
    assert!(!s.is_path_ignored("/r/beta.rs", false));
    s.set_message("hello".to_string(), MessageType::Success);
    let m = s.message.as_ref().unwrap();
    assert_eq!(m.content, "hello");
    assert_eq!(m.message_type, MessageType::Success);
}

#[test]
fn loading_an_unlisted_directory_fails_and_keeps_the_list() {
    let mut s = state();
    assert!(s.load_items(&tree(), &Vec::new()).is_ok());
    let unlisted = vec![FsEntry { path: "/r".to_string(), kind: EntryKind::Dir, content: None, listing: None }];
    assert!(FileOpsHandler::load_items_nonrecursive(&mut s, &unlisted, &Vec::new()).is_err());
    assert_eq!(s.filtered_items, strings(&["/r/Alpha", "/r/beta.rs", "/r/zeta.txt"]));
    assert_eq!(s.item_count(), 0);
}

#[test]
fn ignore_toggles_reload_the_list() {
    let mut s = state();
    assert!(s.load_items(&tree(), &Vec::new()).is_ok());
    assert!(FileOpsHandler::toggle_default_ignores(&mut s, &tree(), &Vec::new()).is_ok());
    assert!(!s.ignore_config.use_default_ignores);
    assert_eq!(s.filtered_items, strings(&["/r/Alpha", "/r/node_modules", "/r/beta.rs", "/r/zeta.txt"]));
    assert!(FileOpsHandler::toggle_default_ignores(&mut s, &tree(), &Vec::new()).is_ok());
    assert_eq!(s.filtered_items, strings(&["/r/Alpha", "/r/beta.rs", "/r/zeta.txt"]));
    let gitignored = strings(&["/r/zeta.txt"]);
    assert!(FileOpsHandler::toggle_gitignore(&mut s, &tree(), &gitignored).is_ok());
    assert!(s.ignore_config.use_gitignore);
    assert_eq!(s.filtered_items, strings(&["/r/Alpha", "/r/beta.rs"]));
    assert!(FileOpsHandler::toggle_binary_files(&mut s, &tree(), &gitignored).is_ok());
    assert!(s.ignore_config.include_binary_files);
}

#[test]
fn format_and_line_number_toggles() {
    let mut s = state();
    FileOpsHandler::toggle_output_format(&mut s);
    assert_eq!(s.output_format, OutputFormat::Xml);
    FileOpsHandler::toggle_line_numbers(&mut s);
    assert!(s.show_line_numbers);
    FileOpsHandler::toggle_output_format(&mut s);
    FileOpsHandler::toggle_output_format(&mut s);
    assert_eq!(s.output_format, OutputFormat::Json);
    FileOpsHandler::toggle_line_numbers(&mut s);
    assert!(s.show_line_numbers);
}

#[test]
fn saving_asks_before_overwriting() {
    let mut s = state();
    assert!(FileOpsHandler::save_config(&mut s, "/h/c.toml".to_string(), false));
    assert!(s.modal.is_none() && s.pending_save_config_path.is_none());
    assert!(!FileOpsHandler::save_config(&mut s, "/h/c.toml".to_string(), true));
    let m = s.modal.as_ref().unwrap();
    assert_eq!(m.modal_type, ModalType::Confirmation);
    assert!(m.message.starts_with("Configuration file already exists:\n/h/c.toml"));
    assert_eq!(s.pending_save_config_path.as_deref(), Some("/h/c.toml"));
    assert_eq!(FileOpsHandler::handle_save_config_confirmation(&mut s, true), Some("/h/c.toml".to_string()));
    assert!(s.modal.is_none() && s.pending_save_config_path.is_none());
    assert_eq!(FileOpsHandler::handle_save_config_confirmation(&mut s, true), None);
    FileOpsHandler::save_config(&mut s, "/h/c.toml".to_string(), true);
    assert_eq!(FileOpsHandler::handle_save_config_confirmation(&mut s, false), None);
    assert_eq!(s.message.as_ref().unwrap().content, "Configuration save cancelled");
    assert_eq!(s.message.as_ref().unwrap().message_type, MessageType::Info);
    assert!(s.modal.is_none());
}

#[test]
fn the_saved_configuration_mirrors_the_state() {
    let mut s = state();
    s.ignore_config.extra_ignore_patterns = strings(&["*.log"]);
    s.show_line_numbers = true;
    let c = FileOpsHandler::config_to_save(&s);
    assert_eq!(c.default_format.as_deref(), Some("llm"));
    assert_eq!(c.default_gitignore, Some(false));
    assert_eq!(c.default_ignore, Some(strings(&["*.log"])));
    assert_eq!(c.default_line_numbers, Some(true));
    assert_eq!(c.default_recursive, Some(false));
    assert_eq!(c.selection_limit, Some(400));
    s.output_format = OutputFormat::Markdown;
    assert_eq!(FileOpsHandler::config_to_save(&s).default_format.as_deref(), Some("markdown"));
}

#[test]
fn help_is_shown_in_a_dialog() {
    let mut s = state();
    FileOpsHandler::show_help(&mut s);
    let m = s.modal.as_ref().unwrap();
    assert_eq!(m.message, HELP_TEXT);
    assert!(m.message.contains("Keyboard Shortcuts"));
    assert_eq!((m.width, m.height, m.page), (68, 32, 0));
}

#[test]
fn enter_moves_into_directories_and_back() {
    let mut s = state();
    assert!(s.load_items(&tree(), &Vec::new()).is_ok());
    s.is_searching = true;
    s.search_query = "a".to_string();
    let mut sel = SelectionState::new();
    sel.selected = Some(1);
    assert!(!FileOpsHandler::handle_enter(&mut s, &mut sel, false));
    assert_eq!(s.current_dir, "/r");
    sel.selected = Some(0);
    assert!(FileOpsHandler::handle_enter(&mut s, &mut sel, true));
    assert_eq!(s.current_dir, "/r/Alpha");
    assert!(!s.is_searching && s.search_query.is_empty());
    assert_eq!(sel.selected, Some(0));
    assert!(s.load_items(&tree(), &Vec::new()).is_ok());
    assert_eq!(s.filtered_items[0], "/r/Alpha/..");
    assert!(FileOpsHandler::handle_enter(&mut s, &mut sel, true));
    assert_eq!(s.current_dir, "/r");
    sel.selected = Some(99);
    assert!(!FileOpsHandler::handle_enter(&mut s, &mut sel, true));
}

#[test]
fn recursive_expansion_and_collapse() {
    let mut s = state();
    assert!(s.load_items(&tree(), &Vec::new()).is_ok());
    let mut sel = SelectionState::new();
    sel.selected = Some(0);
    assert!(FileOpsHandler::toggle_folder_expansion_recursive(&mut s, &mut sel, true, &tree(), &Vec::new()).is_ok());
    assert!(s.expanded_folders.contains("/r/Alpha"));
    assert!(s.expanded_folders.contains("/r/Alpha/Deep"));
    assert_eq!(
        s.filtered_items,
        strings(&["/r/Alpha", "/r/Alpha/Deep", "/r/Alpha/Deep/y.rs", "/r/Alpha/x.rs", "/r/beta.rs", "/r/zeta.txt"])
    );
    assert_eq!(sel.selected, Some(0));
    assert!(FileOpsHandler::toggle_folder_expansion_recursive(&mut s, &mut sel, true, &tree(), &Vec::new()).is_ok());
    assert_eq!(s.expanded_folders.len(), 0);
    assert_eq!(s.filtered_items, strings(&["/r/Alpha", "/r/beta.rs", "/r/zeta.txt"]));
    sel.selected = Some(1);
    assert!(FileOpsHandler::toggle_folder_expansion_recursive(&mut s, &mut sel, false, &tree(), &Vec::new()).is_ok());
    assert_eq!(s.expanded_folders.len(), 0);
}

#[test]
fn saved_tui_settings_apply() {
    let mut s = state();
    let mut t = ModeConfig::empty();
    t.format = Some("json".to_string());
    t.gitignore = Some(true);
    t.ignore = Some(strings(&["tmp"]));
    t.line_numbers = Some(true);
    t.source_dir = Some("/saved".to_string());
    t.selection_limit = Some(7);
    t.recursive = Some(true);
    s.apply_tui_config(&t, true);
    assert_eq!(s.output_format, OutputFormat::Json);
    assert!(s.ignore_config.use_gitignore);
    assert_eq!(s.ignore_config.extra_ignore_patterns, strings(&["tmp"]));
    assert!(s.show_line_numbers && s.recursive);
    assert_eq!(s.selection_limit, 7);
    assert_eq!(s.current_dir, "/r");
    s.apply_tui_config(&t, false);
    assert_eq!(s.current_dir, "/saved");
    t.format = Some("unknown".to_string());
    s.apply_tui_config(&t, false);
    assert_eq!(s.output_format, OutputFormat::Xml);
    s.apply_tui_config(&ModeConfig::empty(), false);
    assert_eq!(s.selection_limit, 7);
}

#[test]
fn backspace_on_the_parent_entry_goes_up() {
    let mut s = state();
    s.current_dir = "/r/Alpha".to_string();
    assert!(s.load_items(&tree(), &Vec::new()).is_ok());
    assert_eq!(s.filtered_items[0], "/r/Alpha/..");
    let mut sel = SelectionState::new();
    sel.selected = Some(1);
    assert!(!FileOpsHandler::go_to_parent(&mut s, &mut sel));
    sel.selected = Some(0);
    assert!(FileOpsHandler::go_to_parent(&mut s, &mut sel));
    assert_eq!(s.current_dir, "/r");
    assert_eq!(sel.selected, Some(0));
}

#[test]
fn select_all_selects_visible_items_and_what_lies_below() {
    let mut s = state();
    assert!(s.load_items(&tree(), &Vec::new()).is_ok());
    let dirs = vec![true, false, false];
    let mut sel = SelectionState::new();
    sel.toggle_select_all(&mut s, &dirs, &tree(), &Vec::new());
    for p in ["/r/Alpha", "/r/beta.rs", "/r/zeta.txt", "/r/Alpha/x.rs", "/r/Alpha/Deep", "/r/Alpha/Deep/y.rs"] {
        assert!(s.is_file_selected(p), "{p} is selected");
    }
    assert_eq!(s.selected_count(), 6);
    assert!(!s.selection_is_over_limit);
    sel.toggle_select_all(&mut s, &dirs, &tree(), &Vec::new());
    assert_eq!(s.selected_count(), 0);
    s.selection_limit = 2;
    sel.toggle_select_all(&mut s, &dirs, &tree(), &Vec::new());
    assert_eq!(s.selected_count(), 0);
    assert_eq!(
        s.message.as_ref().unwrap().content,
        "Cannot select all: 3 visible items exceed selection limit (2)"
    );
}

#[test]
fn toggling_a_folder_selects_it_within_the_limit() {
    let mut s = state();
    assert!(s.load_items(&tree(), &Vec::new()).is_ok());
    let mut sel = SelectionState::new();
    sel.selected = Some(0);
    sel.toggle_selection(&mut s, true, false, &tree(), &Vec::new());
    assert!(s.is_file_selected("/r/Alpha"));
    assert!(s.is_file_selected("/r/Alpha/Deep/y.rs"));
    assert_eq!(s.selected_count(), 4);
    sel.toggle_selection(&mut s, true, false, &tree(), &Vec::new());
    assert_eq!(s.selected_count(), 0);
    s.selection_limit = 2;
    sel.toggle_selection(&mut s, true, false, &tree(), &Vec::new());
    assert_eq!(s.selected_count(), 0);
    assert!(s.modal.as_ref().unwrap().message.starts_with("Selection limit (2) exceeded"));
    sel.selected = Some(1);
    sel.toggle_selection(&mut s, false, false, &tree(), &Vec::new());
    assert!(s.is_file_selected("/r/beta.rs"));
}

#[test]
fn cancelling_counts() {
    let mut s = state();
    s.is_counting = true;
    s.counting_path = Some("/r/Alpha".to_string());
    FileOpsHandler::show_help(&mut s);
    s.cancel_counting();
    assert!(!s.is_counting && s.counting_path.is_none() && s.modal.is_none());
    s.is_counting = true;
    s.optimistically_added_folder = Some("/r/Alpha".to_string());
    s.cancel_selection_operations();
    assert!(!s.is_counting && s.optimistically_added_folder.is_none());
}

#[test]
fn app_state_creation_starts_in_the_given_directory() {
    let s = AppState::new(AppConfig::default(), "/tmp/start".to_string(), IgnoreConfig::default());
    assert_eq!(s.current_dir, "/tmp/start");
    assert_eq!(s.output_format, OutputFormat::Xml);
    assert_eq!(s.selection_limit, DEFAULT_SELECTION_LIMIT);
    assert!(s.ignore_config.use_default_ignores && s.ignore_config.use_gitignore);
}

#[test]
fn toggling_recursion_highlights_the_first_line() {
    let mut s = state();
    let mut sel = SelectionState::new();
    sel.selected = Some(2);
    s.toggle_recursive(&mut sel);
    assert!(s.recursive);
    assert_eq!(sel.selected, Some(0));
    assert!(s.load_items(&tree(), &Vec::new()).is_ok());
    assert!(s.filtered_items.contains(&"/r/Alpha/Deep/y.rs".to_string()));
}
