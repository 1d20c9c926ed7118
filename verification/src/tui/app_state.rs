//! The state of the interface as a whole: the current directory, the items
//! shown, the selection and expansion sets, the settings and the dialog
//! shown, with the handlers that change it as a whole (the settings
//! toggles, the save confirmation, the help, entering a directory and
//! expanding a tree). The disk is read from a snapshot the caller hands in.

use vstd::prelude::*;
use crate::models::{ModeConfig, AppConfig, IgnoreConfig, OutputFormat, CopyStats, DEFAULT_SELECTION_LIMIT, parse_format_spec, next_format, format_debug};
use crate::text::{lowercase, to_lowercase};
use crate::cli::{copy_strings, same_strings, tui_format, tui_format_spec};
use crate::tui::state::{PathSet, Trie, AppMessage, MessageType, SelectionState, name_comps, parent_entry, select_all_outcome, SelectAllOutcome, SelectAllDecision, toggle_outcome, ToggleOutcome, ToggleDecision, lemma_toggle_within_limit};
use crate::tui::file_ops::{folder_selection, lemma_folder_deselection, lemma_folder_selection_within_limit, without_optimistic};
use crate::fs::{selection_count, count_selection_items, lemma_selection_count_bound};
use vstd::set_lib::{lemma_len_subset, lemma_len_union};
use crate::fs::{descendants, collect_folder_descendants, lemma_push_to_set};
use crate::text::{decimal, push_str, push_decimal, chars_to_string};
use crate::tui::components::{Modal, ModalType, HELP_TEXT};
use crate::tui::handlers::FileOpsHandler;
use crate::tui::file_ops::{loaded, collected, enter_target, ends_with_parent, ends_with_parent_exec, kept_after_collapse, expanded_below};
use crate::paths::{display_comps, parent_of};
use crate::output::snapshot::{FsEntry, comps_list};
use crate::output::directory::WalkError;
use crate::output::toplevel::texts;
use crate::fs::{ignored_in_state, is_path_ignored_in_state};
use crate::paths::components;

verus! {

/// Everything the interface holds between two key presses.
pub struct AppState {
    /// The directory shown.
    pub current_dir: String,
    /// The directory the interface started in; no `..` entry is shown there.
    pub initial_dir: String,
    /// Every item collected by the last load, by name components.
    pub items: Trie,
    /// The list shown, in order.
    pub filtered_items: Vec<String>,
    /// The selected paths.
    pub selected_items: PathSet,
    /// The expanded folders of the tree view.
    pub expanded_folders: PathSet,
    /// The search text.
    pub search_query: String,
    /// Whether a search is being typed.
    pub is_searching: bool,
    /// The format a copy writes.
    pub output_format: OutputFormat,
    /// Whether a copy numbers the lines of each file.
    pub show_line_numbers: bool,
    /// Whether the list holds every file below the current directory.
    pub recursive: bool,
    /// Which paths the list leaves out.
    pub ignore_config: IgnoreConfig,
    /// The most items that may be selected.
    pub selection_limit: usize,
    /// Whether the interface is to close.
    pub quit: bool,
    /// The message of the status line.
    pub message: Option<AppMessage>,
    /// The dialog shown over the list.
    pub modal: Option<Modal>,
    /// What the last copy wrote.
    pub last_copy_stats: Option<CopyStats>,
    /// Whether the items of a folder are being counted.
    pub is_counting: bool,
    /// The folder being counted.
    pub counting_path: Option<String>,
    /// A folder selected before its count came back.
    pub optimistically_added_folder: Option<String>,
    /// The children selected with that folder.
    pub optimistically_added_children: PathSet,
    /// Whether the selection went over the limit.
    pub selection_is_over_limit: bool,
    /// The configuration file waiting for the overwrite confirmation.
    pub pending_save_config_path: Option<String>,
}

/// The output format a configuration starts with: the one its default
/// format names, Llm when it names none or one that does not parse.
pub open spec fn config_format(config: AppConfig) -> OutputFormat {
    match config.default_format {
        Some(s) => match parse_format_spec(s@) {
            Some(f) => f,
            None => OutputFormat::Llm,
        },
        None => OutputFormat::Llm,
    }
}

/// `after` is `before` reloaded from `snap`: on success (`ok`) the list
/// shown is `loaded` and the trie holds the collected items by name; when
/// a directory of the tree view cannot be listed the trie is empty and the
/// list is kept. Nothing else changes.
pub open spec fn reloaded(before: AppState, after: AppState, snap: Seq<FsEntry>, gitignored: Seq<String>, ok: bool) -> bool {
    let gi = comps_list(gitignored);
    let c = collected(snap, gi, before.ignore_config, before.expanded_folders.view(), before.recursive, before.current_dir@);
    &&& after == (AppState { items: after.items, filtered_items: after.filtered_items, ..before })
    &&& match loaded(
        snap,
        gi,
        before.ignore_config,
        before.expanded_folders.view(),
        before.recursive,
        before.current_dir@,
        before.initial_dir@,
        before.search_query@,
    ) {
        Some(shown) => ok && texts(after.filtered_items@) == shown && after.items.view() == c.0.map_values(
            |p: Seq<char>| name_comps(components(p)),
        ).to_set(),
        None => !ok && after.items.view() == Set::<Seq<Seq<char>>>::empty() && after.filtered_items
            == before.filtered_items,
    }
}

impl AppState {
    /// The state of an interface started in `initial_dir`: nothing loaded,
    /// selected, expanded or searched; the format, line numbers, recursion
    /// and limit as `config` gives them (Llm, off, off and the default
    /// limit where it gives none).
    pub fn new(config: AppConfig, initial_dir: String, ignore_config: IgnoreConfig) -> (r: Self)
        ensures
            r.current_dir@ == initial_dir@,
            r.initial_dir@ == initial_dir@,
            r.items.view() == Set::<Seq<Seq<char>>>::empty(),
            r.filtered_items@.len() == 0,
            r.selected_items.view() == Set::<Seq<Seq<char>>>::empty(),
            r.expanded_folders.view() == Set::<Seq<Seq<char>>>::empty(),
            r.search_query@.len() == 0,
            !r.is_searching,
            r.output_format == config_format(config),
            r.show_line_numbers == config.default_line_numbers.unwrap_or(false),
            r.recursive == config.default_recursive.unwrap_or(false),
            r.ignore_config == ignore_config,
            r.selection_limit == config.selection_limit.unwrap_or(DEFAULT_SELECTION_LIMIT),
            !r.quit,
            r.message is None,
            r.modal is None,
            r.last_copy_stats is None,
            !r.is_counting,
            r.counting_path is None,
            r.optimistically_added_folder is None,
            r.optimistically_added_children.view() == Set::<Seq<Seq<char>>>::empty(),
            !r.selection_is_over_limit,
            r.pending_save_config_path is None,
    {
        let output_format = match &config.default_format {
            Some(s) => match OutputFormat::parse_format(s.as_str()) {
                Ok(f) => f,
                Err(_) => OutputFormat::Llm,
            },
            None => OutputFormat::Llm,
        };
        let show_line_numbers = match config.default_line_numbers {
            Some(b) => b,
            None => false,
        };
        let recursive = match config.default_recursive {
            Some(b) => b,
            None => false,
        };
        let selection_limit = match config.selection_limit {
            Some(n) => n,
            None => DEFAULT_SELECTION_LIMIT,
        };
        let items = Trie::new();
        proof {
            assert(items.view() =~= Set::<Seq<Seq<char>>>::empty());
        }
        AppState {
            current_dir: initial_dir.clone(),
            initial_dir,
            items,
            filtered_items: Vec::new(),
            selected_items: PathSet::new(),
            expanded_folders: PathSet::new(),
            search_query: String::new(),
            is_searching: false,
            output_format,
            show_line_numbers,
            recursive,
            ignore_config,
            selection_limit,
            quit: false,
            message: None,
            modal: None,
            last_copy_stats: None,
            is_counting: false,
            counting_path: None,
            optimistically_added_folder: None,
            optimistically_added_children: PathSet::new(),
            selection_is_over_limit: false,
            pending_save_config_path: None,
        }
    }

    /// The number of selected items.
    pub fn selected_count(&self) -> (r: usize)
        ensures
            r == self.selected_items.view().len(),
    {
        self.selected_items.len()
    }

    /// The number of items collected by the last load.
    pub fn item_count(&self) -> (r: usize)
        ensures
            r == self.items.view().len(),
    {
        self.items.len()
    }

    /// Whether `path` is selected.
    pub fn is_file_selected(&self, path: &str) -> (r: bool)
        ensures
            r == self.selected_items.view().contains(components(path@)),
    {
        self.selected_items.contains(path)
    }

    /// Whether the list leaves `path` out (see `ignored_in_state`);
    /// `gitignore_match` says whether a `.gitignore` file ignores it.
    pub fn is_path_ignored(&self, path: &str, gitignore_match: bool) -> (r: bool)
        ensures
            r == ignored_in_state(path@, self.ignore_config, gitignore_match),
    {
        is_path_ignored_in_state(path, &self.ignore_config, gitignore_match)
    }

    /// The list shown.
    pub fn get_display_items(&self) -> (r: &[String])
        ensures
            r@ == self.filtered_items@,
    {
        self.filtered_items.as_slice()
    }

    /// Shows `content` in the status line; nothing else changes.
    pub fn set_message(&mut self, content: String, message_type: MessageType)
        ensures
            final(self).message matches Some(m) && m.content@ == content@ && m.message_type == message_type,
            *final(self) == (AppState { message: final(self).message, ..*old(self) }),
    {
        self.message = Some(AppMessage::new(content, message_type));
    }

    /// Reloads the items from `snapshot` (see `reloaded`); `gitignored`
    /// lists the paths the `.gitignore` files ignore.
    pub fn load_items(&mut self, snapshot: &Vec<FsEntry>, gitignored: &Vec<String>) -> (r: Result<(), WalkError>)
        ensures
            reloaded(*old(self), *final(self), snapshot@, gitignored@, r is Ok),
    {
        let result = FileOpsHandler::load_items(
            &mut self.items,
            self.recursive,
            self.current_dir.as_str(),
            self.initial_dir.as_str(),
            self.search_query.as_str(),
            &self.ignore_config,
            &self.expanded_folders,
            snapshot,
            gitignored,
        );
        match result {
            Ok(v) => {
                self.filtered_items = v;
                Ok(())
            },
            Err(e) => Err(e),
        }
    }
}


/// `s` with the default ignores switched.
pub open spec fn with_default_ignores_switched(s: AppState) -> AppState {
    AppState { ignore_config: (IgnoreConfig { use_default_ignores: !s.ignore_config.use_default_ignores, ..s.ignore_config }), ..s }
}

/// `s` with the `.gitignore` rules switched.
pub open spec fn with_gitignore_switched(s: AppState) -> AppState {
    AppState { ignore_config: (IgnoreConfig { use_gitignore: !s.ignore_config.use_gitignore, ..s.ignore_config }), ..s }
}

/// `s` with the binary files switched.
pub open spec fn with_binary_switched(s: AppState) -> AppState {
    AppState { ignore_config: (IgnoreConfig { include_binary_files: !s.ignore_config.include_binary_files, ..s.ignore_config }), ..s }
}

impl FileOpsHandler {
    /// Reloads the items of the current directory (see `reloaded`); the
    /// state's own recursion flag decides the kind of list.
    pub fn load_items_nonrecursive(app_state: &mut AppState, snapshot: &Vec<FsEntry>, gitignored: &Vec<String>) -> (r: Result<(), WalkError>)
        ensures
            reloaded(*old(app_state), *final(app_state), snapshot@, gitignored@, r is Ok),
    {
        app_state.load_items(snapshot, gitignored)
    }

    /// Switches the default ignores and reloads the items.
    pub fn toggle_default_ignores(app_state: &mut AppState, snapshot: &Vec<FsEntry>, gitignored: &Vec<String>) -> (r: Result<(), WalkError>)
        ensures
            reloaded(with_default_ignores_switched(*old(app_state)), *final(app_state), snapshot@, gitignored@, r is Ok),
    {
        app_state.ignore_config.use_default_ignores = !app_state.ignore_config.use_default_ignores;
        app_state.load_items(snapshot, gitignored)
    }

    /// Switches the `.gitignore` rules and reloads the items.
    pub fn toggle_gitignore(app_state: &mut AppState, snapshot: &Vec<FsEntry>, gitignored: &Vec<String>) -> (r: Result<(), WalkError>)
        ensures
            reloaded(with_gitignore_switched(*old(app_state)), *final(app_state), snapshot@, gitignored@, r is Ok),
    {
        app_state.ignore_config.use_gitignore = !app_state.ignore_config.use_gitignore;
        app_state.load_items(snapshot, gitignored)
    }

    /// Switches whether binary files are included and reloads the items.
    pub fn toggle_binary_files(app_state: &mut AppState, snapshot: &Vec<FsEntry>, gitignored: &Vec<String>) -> (r: Result<(), WalkError>)
        ensures
            reloaded(with_binary_switched(*old(app_state)), *final(app_state), snapshot@, gitignored@, r is Ok),
    {
        app_state.ignore_config.include_binary_files = !app_state.ignore_config.include_binary_files;
        app_state.load_items(snapshot, gitignored)
    }

    /// Moves to the next output format; nothing else changes.
    pub fn toggle_output_format(app_state: &mut AppState)
        ensures
            *final(app_state) == (AppState { output_format: next_format(old(app_state).output_format), ..*old(app_state) }),
    {
        app_state.output_format = app_state.output_format.toggle();
    }

    /// Switches the line numbers, except in JSON mode, where nothing changes.
    pub fn toggle_line_numbers(app_state: &mut AppState)
        ensures
            *final(app_state) == if old(app_state).output_format == OutputFormat::Json {
                *old(app_state)
            } else {
                AppState { show_line_numbers: !old(app_state).show_line_numbers, ..*old(app_state) }
            },
    {
        if app_state.output_format != OutputFormat::Json {
            app_state.show_line_numbers = !app_state.show_line_numbers;
        }
    }

    /// Starts saving the configuration to `config_path`: when the file
    /// `exists`, asks for the overwrite and keeps the path waiting (returns
    /// false); otherwise returns true, the caller writing the file now.
    pub fn save_config(app_state: &mut AppState, config_path: String, exists: bool) -> (r: bool)
        ensures
            r == !exists,
            !exists ==> *final(app_state) == *old(app_state),
            exists ==> (final(app_state).modal matches Some(m) && m.message@ == "Configuration file already exists:\n"@
                + config_path@ + "\n\nDo you want to overwrite it?\n\n[Y] Yes, overwrite\n[N] No, cancel"@
                && m.modal_type == ModalType::Confirmation && m.width == 70 && m.height == 8 && m.page == 0),
            exists ==> (final(app_state).pending_save_config_path matches Some(p) && p@ == config_path@),
            exists ==> *final(app_state) == (AppState {
                modal: final(app_state).modal,
                pending_save_config_path: final(app_state).pending_save_config_path,
                ..*old(app_state)
            }),
    {
        if exists {
            app_state.modal = Some(Modal::config_overwrite_confirmation(config_path.as_str()));
            app_state.pending_save_config_path = Some(config_path);
            false
        } else {
            true
        }
    }

    /// The configuration a save writes: the state's format (its variant
    /// name in lowercase), gitignore, extra ignore patterns, line numbers,
    /// recursion and selection limit.
    pub fn config_to_save(app_state: &AppState) -> (r: AppConfig)
        ensures
            r.default_format matches Some(f) && f@ == lowercase(format_debug(app_state.output_format)),
            r.default_gitignore == Some(app_state.ignore_config.use_gitignore),
            r.default_ignore matches Some(v) && same_strings(v, app_state.ignore_config.extra_ignore_patterns),
            r.default_line_numbers == Some(app_state.show_line_numbers),
            r.default_recursive == Some(app_state.recursive),
            r.selection_limit == Some(app_state.selection_limit),
    {
        AppConfig {
            default_format: Some(to_lowercase(app_state.output_format.debug_name())),
            default_gitignore: Some(app_state.ignore_config.use_gitignore),
            default_ignore: Some(copy_strings(&app_state.ignore_config.extra_ignore_patterns)),
            default_line_numbers: Some(app_state.show_line_numbers),
            default_recursive: Some(app_state.recursive),
            selection_limit: Some(app_state.selection_limit),
        }
    }

    /// Answers the overwrite question: with a path waiting, closes the
    /// dialog and forgets the path; confirmed, returns the path to write;
    /// cancelled, says so in the status line. With none waiting, nothing
    /// changes.
    pub fn handle_save_config_confirmation(app_state: &mut AppState, confirmed: bool) -> (r: Option<String>)
        ensures
            match old(app_state).pending_save_config_path {
                None => r is None && *final(app_state) == *old(app_state),
                Some(p) => if confirmed {
                    r matches Some(q) && q@ == p@ && *final(app_state) == (AppState {
                        pending_save_config_path: None,
                        modal: None,
                        ..*old(app_state)
                    })
                } else {
                    &&& r is None
                    &&& final(app_state).message matches Some(m) && m.content@ == "Configuration save cancelled"@
                        && m.message_type == MessageType::Info
                    &&& *final(app_state) == (AppState {
                        pending_save_config_path: None,
                        modal: None,
                        message: final(app_state).message,
                        ..*old(app_state)
                    })
                },
            },
    {
        let path = match &app_state.pending_save_config_path {
            Some(p) => p.clone(),
            None => {
                return None;
            },
        };
        app_state.pending_save_config_path = None;
        app_state.modal = None;
        if confirmed {
            Some(path)
        } else {
            app_state.set_message(String::from_str("Configuration save cancelled"), MessageType::Info);
            None
        }
    }

    /// Shows the help dialog; nothing else changes.
    pub fn show_help(app_state: &mut AppState)
        ensures
            final(app_state).modal matches Some(m) && m.message@ == HELP_TEXT@ && m.width == 68 && m.height == 32
                && m.page == 0 && m.modal_type == ModalType::Info,
            *final(app_state) == (AppState { modal: final(app_state).modal, ..*old(app_state) }),
    {
        app_state.modal = Some(Modal::help());
    }
}


/// The index of the highlighted item when it lies in a list of `len`.
pub open spec fn highlighted_in(sel: SelectionState, len: nat) -> Option<usize> {
    match sel.selected {
        Some(i) => if i < len { Some(i) } else { None },
        None => None,
    }
}

impl FileOpsHandler {
    /// Enter on the highlighted item, a directory when `is_dir`: moves to
    /// it (to the current directory's parent for a `..` entry, see
    /// `enter_target`), ends the search and highlights the first line.
    /// Returns whether the directory changed; the caller then reads the new
    /// directory and reloads the items. Otherwise nothing changes.
    pub fn handle_enter(app_state: &mut AppState, selection_state: &mut SelectionState, is_dir: bool) -> (r: bool)
        ensures
            match highlighted_in(*old(selection_state), old(app_state).filtered_items@.len()) {
                Some(i) => {
                    let path = old(app_state).filtered_items@[i as int]@;
                    match enter_target(path, is_dir, old(app_state).current_dir@) {
                        Some(c) => {
                            &&& r
                            &&& final(app_state).current_dir@ == if ends_with_parent(path) { display_comps(c) } else { path }
                            &&& final(app_state).search_query@.len() == 0
                            &&& *final(app_state) == (AppState {
                                current_dir: final(app_state).current_dir,
                                search_query: final(app_state).search_query,
                                is_searching: false,
                                ..*old(app_state)
                            })
                            &&& *final(selection_state) == (SelectionState { selected: Some(0), ..*old(selection_state) })
                        },
                        None => !r && *final(app_state) == *old(app_state) && *final(selection_state) == *old(selection_state),
                    }
                },
                None => !r && *final(app_state) == *old(app_state) && *final(selection_state) == *old(selection_state),
            },
    {
        let i = match selection_state.selected {
            Some(i) => i,
            None => {
                return false;
            },
        };
        if i >= app_state.filtered_items.len() {
            return false;
        }
        let target = FileOpsHandler::enter_directory(app_state.filtered_items[i].as_str(), is_dir, app_state.current_dir.as_str());
        match target {
            Some(dir) => {
                app_state.current_dir = dir;
                app_state.is_searching = false;
                app_state.search_query = String::new();
                selection_state.selected = Some(0);
                true
            },
            None => false,
        }
    }

    /// Shift+Tab on the highlighted item, a directory when `is_dir` and not
    /// a `..` entry: collapses it with every expanded folder below it when
    /// it is expanded, otherwise expands it with every directory below it
    /// that is not ignored; then reloads the items and keeps the highlight
    /// within the new list. Otherwise nothing changes.
    pub fn toggle_folder_expansion_recursive(
        app_state: &mut AppState,
        selection_state: &mut SelectionState,
        is_dir: bool,
        snapshot: &Vec<FsEntry>,
        gitignored: &Vec<String>,
    ) -> (r: Result<(), WalkError>)
        ensures
            match highlighted_in(*old(selection_state), old(app_state).filtered_items@.len()) {
                Some(i) => {
                    let path = old(app_state).filtered_items@[i as int]@;
                    if is_dir && !ends_with_parent(path) {
                        let ex = old(app_state).expanded_folders;
                        &&& final(app_state).expanded_folders.view() == if ex.view().contains(components(path)) {
                            comps_list(kept_after_collapse(ex.members(), path)).to_set()
                        } else {
                            ex.view().union(
                                expanded_below(snapshot@, comps_list(gitignored@), old(app_state).ignore_config, path).map_values(
                                    |p: Seq<char>| components(p),
                                ).to_set(),
                            )
                        }
                        &&& reloaded(
                            (AppState { expanded_folders: final(app_state).expanded_folders, ..*old(app_state) }),
                            *final(app_state),
                            snapshot@,
                            gitignored@,
                            r is Ok,
                        )
                        &&& *final(selection_state) == if r is Ok {
                            SelectionState {
                                selected: Some(
                                    if i < final(app_state).filtered_items@.len() { i } else if final(app_state).filtered_items@.len()
                                        == 0 { 0 } else { (final(app_state).filtered_items@.len() - 1) as usize },
                                ),
                                ..*old(selection_state)
                            }
                        } else {
                            *old(selection_state)
                        }
                    } else {
                        r is Ok && *final(app_state) == *old(app_state) && *final(selection_state) == *old(selection_state)
                    }
                },
                None => r is Ok && *final(app_state) == *old(app_state) && *final(selection_state) == *old(selection_state),
            },
    {
        let i = match selection_state.selected {
            Some(i) => i,
            None => {
                return Ok(());
            },
        };
        if i >= app_state.filtered_items.len() {
            return Ok(());
        }
        let path = app_state.filtered_items[i].clone();
        if !is_dir || ends_with_parent_exec(path.as_str()) {
            return Ok(());
        }
        if app_state.expanded_folders.contains(path.as_str()) {
            FileOpsHandler::collapse_all(&mut app_state.expanded_folders, path.as_str());
        } else {
            FileOpsHandler::expand_all(
                &mut app_state.expanded_folders,
                path.as_str(),
                &app_state.ignore_config,
                snapshot,
                gitignored,
            );
        }
        match app_state.load_items(snapshot, gitignored) {
            Ok(()) => {},
            Err(e) => {
                return Err(e);
            },
        }
        let n = app_state.filtered_items.len();
        let last = if n == 0 { 0 } else { n - 1 };
        selection_state.selected = Some(if i < last { i } else { last });
        Ok(())
    }
}

impl FileOpsHandler {
    /// Backspace on the highlighted item: when it is the `..` entry and the
    /// current directory has a parent, moves to the parent and highlights
    /// the first line. Returns whether the directory changed; the caller
    /// then reads the new directory and reloads the items. Otherwise
    /// nothing changes.
    pub fn go_to_parent(app_state: &mut AppState, selection_state: &mut SelectionState) -> (r: bool)
        ensures
            match highlighted_in(*old(selection_state), old(app_state).filtered_items@.len()) {
                Some(i) => {
                    let path = old(app_state).filtered_items@[i as int]@;
                    match parent_of(components(old(app_state).current_dir@)) {
                        Some(c) => if parent_entry(path) {
                            &&& r
                            &&& final(app_state).current_dir@ == display_comps(c)
                            &&& *final(app_state) == (AppState { current_dir: final(app_state).current_dir, ..*old(app_state) })
                            &&& *final(selection_state) == (SelectionState { selected: Some(0), ..*old(selection_state) })
                        } else {
                            !r && *final(app_state) == *old(app_state) && *final(selection_state) == *old(selection_state)
                        },
                        None => !r && *final(app_state) == *old(app_state) && *final(selection_state) == *old(selection_state),
                    }
                },
                None => !r && *final(app_state) == *old(app_state) && *final(selection_state) == *old(selection_state),
            },
    {
        let i = match selection_state.selected {
            Some(i) => i,
            None => {
                return false;
            },
        };
        if i >= app_state.filtered_items.len() {
            return false;
        }
        if !ends_with_parent_exec(app_state.filtered_items[i].as_str()) {
            return false;
        }
        let target = FileOpsHandler::enter_directory(app_state.filtered_items[i].as_str(), true, app_state.current_dir.as_str());
        match target {
            Some(dir) => {
                app_state.current_dir = dir;
                selection_state.selected = Some(0);
                true
            },
            None => false,
        }
    }
}

/// Every path below the folders of `scan` that the traversal does not
/// ignore (see `descendants`), by components.
pub open spec fn scanned(snap: Seq<FsEntry>, gi: Seq<Seq<Seq<char>>>, cfg: IgnoreConfig, scan: Seq<Seq<char>>) -> Set<Seq<Seq<char>>>
    decreases scan.len(),
{
    if scan.len() == 0 {
        Set::empty()
    } else {
        scanned(snap, gi, cfg, scan.drop_last()).union(
            descendants(snap, gi, cfg, components(scan.last())).0.map_values(|p: Seq<char>| components(p)).to_set(),
        )
    }
}

/// The paths of a list, by components.
pub open spec fn comps_set(v: Seq<Seq<char>>) -> Set<Seq<Seq<char>>> {
    v.map_values(|p: Seq<char>| components(p)).to_set()
}

/// The warning shown when selecting all the visible items goes over the
/// limit.
pub open spec fn select_all_over_limit_message(limit: nat, total: nat) -> Seq<char> {
    "Selection limit ("@ + decimal(limit) + ") exceeded. "@ + decimal(total) + " items selected (all visible)."@
}

impl SelectionState {
    /// `a` or `*`: selects every visible item, or clears the selection when
    /// all of them are selected (see `select_all_outcome`); `dirs` tells
    /// which items of the list are directories. Selecting replaces the
    /// selection by the visible items with everything below the folders
    /// that are not expanded, read from `snapshot`; more visible items than
    /// the limit only bring a warning. Either way the counts under way stop.
    pub fn toggle_select_all(
        &mut self,
        app_state: &mut AppState,
        dirs: &Vec<bool>,
        snapshot: &Vec<FsEntry>,
        gitignored: &Vec<String>,
    )
        requires
            dirs@.len() == old(app_state).filtered_items@.len(),
        ensures
            *final(self) == *old(self),
            match select_all_outcome(
                old(app_state).filtered_items@,
                dirs@,
                old(app_state).selected_items.view(),
                old(app_state).expanded_folders.view(),
                old(app_state).selection_limit as nat,
            ) {
                SelectAllOutcome::ClearAll => {
                    &&& final(app_state).selected_items.view() == Set::<Seq<Seq<char>>>::empty()
                    &&& final(app_state).optimistically_added_children.view() == Set::<Seq<Seq<char>>>::empty()
                    &&& *final(app_state) == (AppState {
                        selected_items: final(app_state).selected_items,
                        optimistically_added_folder: None,
                        optimistically_added_children: final(app_state).optimistically_added_children,
                        selection_is_over_limit: false,
                        is_counting: false,
                        counting_path: None,
                        ..*old(app_state)
                    })
                },
                SelectAllOutcome::Warn(m) => {
                    &&& final(app_state).message matches Some(x) && x.content@ == m && x.message_type == MessageType::Warning
                    &&& *final(app_state) == (AppState { message: final(app_state).message, ..*old(app_state) })
                },
                SelectAllOutcome::SelectVisible(vis, scan) => {
                    let total = comps_set(vis).union(scanned(snapshot@, comps_list(gitignored@), old(app_state).ignore_config, scan));
                    let over = scan.len() == 0 && total.len() > old(app_state).selection_limit;
                    &&& final(app_state).selected_items.view() == total
                    &&& final(app_state).optimistically_added_children.view() == Set::<Seq<Seq<char>>>::empty()
                    &&& final(app_state).selection_is_over_limit == over
                    &&& if over {
                        final(app_state).message matches Some(x) && x.message_type == MessageType::Warning
                            && x.content@ == select_all_over_limit_message(old(app_state).selection_limit as nat, total.len())
                    } else {
                        final(app_state).message == old(app_state).message
                    }
                    &&& *final(app_state) == (AppState {
                        selected_items: final(app_state).selected_items,
                        optimistically_added_folder: None,
                        optimistically_added_children: final(app_state).optimistically_added_children,
                        selection_is_over_limit: final(app_state).selection_is_over_limit,
                        is_counting: false,
                        counting_path: None,
                        message: final(app_state).message,
                        ..*old(app_state)
                    })
                },
            },
    {
        let decision = SelectionState::decide_select_all(
            &app_state.filtered_items,
            dirs,
            &app_state.selected_items,
            &app_state.expanded_folders,
            app_state.selection_limit,
        );
        match decision {
            SelectAllDecision::ClearAll => {
                app_state.selected_items.clear();
                app_state.optimistically_added_folder = None;
                app_state.optimistically_added_children.clear();
                app_state.selection_is_over_limit = false;
                app_state.is_counting = false;
                app_state.counting_path = None;
            },
            SelectAllDecision::Warn(m) => {
                app_state.set_message(m, MessageType::Warning);
            },
            SelectAllDecision::SelectVisible(vis, scan) => {
                let ghost gi = comps_list(gitignored@);
                let ghost cfg = app_state.ignore_config;
                let mut sel = PathSet::new();
                let mut k: usize = 0;
                while k < vis.len()
                    invariant
                        k <= vis@.len(),
                        sel.view() == comps_set(texts(vis@).take(k as int)),
                    decreases vis@.len() - k,
                {
                    proof {
                        assert(texts(vis@).take(k + 1) =~= texts(vis@).take(k as int).push(vis@[k as int]@));
                        let t0 = texts(vis@).take(k as int);
                        assert(texts(vis@).take(k + 1).map_values(|p: Seq<char>| components(p)) =~= t0.map_values(
                            |p: Seq<char>| components(p),
                        ).push(components(vis@[k as int]@)));
                        lemma_push_to_set(t0.map_values(|p: Seq<char>| components(p)), components(vis@[k as int]@));
                    }
                    sel.insert(vis[k].clone());
                    k = k + 1;
                }
                proof {
                    assert(texts(vis@).take(vis@.len() as int) =~= texts(vis@));
                    assert(comps_set(texts(vis@)).union(scanned(snapshot@, gi, cfg, texts(scan@).take(0))) =~= comps_set(texts(vis@)));
                }
                let mut j: usize = 0;
                while j < scan.len()
                    invariant
                        j <= scan@.len(),
                        gi == comps_list(gitignored@),
                        cfg == app_state.ignore_config,
                        sel.view() == comps_set(texts(vis@)).union(scanned(snapshot@, gi, cfg, texts(scan@).take(j as int))),
                    decreases scan@.len() - j,
                {
                    proof {
                        assert(texts(scan@).take(j + 1).drop_last() =~= texts(scan@).take(j as int));
                        assert(texts(scan@).take(j + 1).last() == scan@[j as int]@);
                    }
                    let _ = collect_folder_descendants(scan[j].as_str(), &app_state.ignore_config, snapshot, gitignored, &mut sel);
                    proof {
                        let a = comps_set(texts(vis@));
                        let b = scanned(snapshot@, gi, cfg, texts(scan@).take(j as int));
                        let c = descendants(snapshot@, gi, cfg, components(scan@[j as int]@)).0.map_values(|p: Seq<char>| components(p)).to_set();
                        assert(a.union(b).union(c) =~= a.union(b.union(c)));
                    }
                    j = j + 1;
                }
                proof {
                    assert(texts(scan@).take(scan@.len() as int) =~= texts(scan@));
                }
                app_state.is_counting = false;
                app_state.counting_path = None;
                app_state.selected_items = sel;
                app_state.optimistically_added_folder = None;
                app_state.optimistically_added_children.clear();
                app_state.selection_is_over_limit = false;
                let total = app_state.selected_items.len();
                if scan.len() == 0 && total > app_state.selection_limit {
                    app_state.selection_is_over_limit = true;
                    let mut m: Vec<char> = Vec::new();
                    push_str(&mut m, "Selection limit (");
                    push_decimal(&mut m, app_state.selection_limit);
                    push_str(&mut m, ") exceeded. ");
                    push_decimal(&mut m, total);
                    push_str(&mut m, " items selected (all visible).");
                    app_state.set_message(chars_to_string(m.as_slice()), MessageType::Warning);
                }
            },
        }
    }
}

/// The selection after toggling on the folder `path` with its visible
/// children `ch`: the folder and children are selected ahead of their
/// count; then, when the limit is not `usize::MAX`, the items below the
/// folder are counted (a count that fails counts none) and the selection
/// is finished as `finalize_single_selection` does, unless the count does
/// not fit in a `usize` beside the selection.
pub open spec fn folder_toggled(
    snap: Seq<FsEntry>,
    gi: Seq<Seq<Seq<char>>>,
    cfg: IgnoreConfig,
    sel: Set<Seq<Seq<char>>>,
    path: Seq<char>,
    ch: Seq<Seq<char>>,
    limit: nat,
) -> Set<Seq<Seq<char>>> {
    let opt = sel.insert(components(path)).union(comps_set(ch));
    if limit >= usize::MAX {
        opt
    } else {
        let n: nat = match selection_count(snap, gi, cfg, limit, path) {
            Some(n) => n,
            None => 0,
        };
        if opt.len() + n > usize::MAX {
            opt
        } else {
            let s1 = opt.remove(components(path)).difference(comps_set(ch));
            if s1.len() + n <= limit {
                folder_selection(snap, s1, path, true, limit)
            } else {
                s1
            }
        }
    }
}

impl SelectionState {
    /// Space on the highlighted item (see `toggle_outcome`), a directory
    /// when `is_dir`, ignored by the `.gitignore` files when
    /// `gitignore_match`: nothing for no item, the parent entry or an
    /// ignored one; a selected item is deselected with what lies below it;
    /// a file is selected below the limit; a folder is selected with what
    /// lies below it (see `folder_toggled`), the limit dialog shown when it
    /// does not fit; otherwise a warning. The selection never grows past the
    /// limit.
    #[verifier::rlimit(50)]
    pub fn toggle_selection(
        &self,
        app_state: &mut AppState,
        is_dir: bool,
        gitignore_match: bool,
        snapshot: &Vec<FsEntry>,
        gitignored: &Vec<String>,
    )
        ensures
            final(app_state).selected_items.view().len() <= old(app_state).selected_items.view().len()
                || final(app_state).selected_items.view().len() <= old(app_state).selection_limit,
            match highlighted_in(*self, old(app_state).filtered_items@.len()) {
                None => *final(app_state) == *old(app_state),
                Some(i) => {
                    let path = old(app_state).filtered_items@[i as int]@;
                    let old_sel = old(app_state).selected_items.view();
                    let limit = old(app_state).selection_limit as nat;
                    match toggle_outcome(
                        self.selected,
                        old(app_state).filtered_items@,
                        old_sel,
                        old_sel.len(),
                        ignored_in_state(path, old(app_state).ignore_config, gitignore_match),
                        is_dir,
                        old(app_state).expanded_folders.view().contains(components(path)),
                        limit,
                    ) {
                        ToggleOutcome::Nothing => *final(app_state) == *old(app_state),
                        ToggleOutcome::Warn(m) => {
                            &&& final(app_state).message matches Some(x) && x.content@ == m && x.message_type == MessageType::Warning
                            &&& *final(app_state) == (AppState { message: final(app_state).message, ..*old(app_state) })
                        },
                        ToggleOutcome::Deselect => {
                            &&& final(app_state).selected_items.view() == folder_selection(snapshot@, old_sel, path, false, limit)
                            &&& *final(app_state) == (AppState { selected_items: final(app_state).selected_items, ..*old(app_state) })
                        },
                        ToggleOutcome::SelectFile => {
                            &&& final(app_state).selected_items.view() == old_sel.insert(components(path))
                            &&& *final(app_state) == (AppState { selected_items: final(app_state).selected_items, ..*old(app_state) })
                        },
                        ToggleOutcome::SelectFolder(ch) => {
                            &&& final(app_state).selected_items.view() == folder_toggled(
                                snapshot@,
                                comps_list(gitignored@),
                                old(app_state).ignore_config,
                                old_sel,
                                path,
                                ch,
                                limit,
                            )
                            &&& *final(app_state) == (AppState {
                                selected_items: final(app_state).selected_items,
                                modal: final(app_state).modal,
                                ..*old(app_state)
                            })
                        },
                    }
                },
            },
    {
        let ghost old_sel = app_state.selected_items.view();
        let ghost old_state = *app_state;
        let limit = app_state.selection_limit;
        let len0 = app_state.selected_items.len();
        let i = match self.selected {
            Some(i) => i,
            None => {
                return;
            },
        };
        if i >= app_state.filtered_items.len() {
            return;
        }
        let path = app_state.filtered_items[i].clone();
        let ignored = app_state.is_path_ignored(path.as_str(), gitignore_match);
        let expanded = app_state.expanded_folders.contains(path.as_str());
        let decision = self.decide_toggle(&app_state.filtered_items, &app_state.selected_items, ignored, is_dir, expanded, limit);
        proof {
            lemma_toggle_within_limit(
                self.selected,
                old_state.filtered_items@,
                old_sel,
                old_sel.len(),
                ignored,
                is_dir,
                expanded,
                limit as nat,
            );
        }
        match decision {
            ToggleDecision::Nothing => {},
            ToggleDecision::Warn(m) => {
                app_state.set_message(m, MessageType::Warning);
            },
            ToggleDecision::Deselect => {
                SelectionState::update_folder_selection_recursive(&mut app_state.selected_items, path.as_str(), false, limit, snapshot);
                proof {
                    lemma_folder_deselection(snapshot@, old_sel, path@, limit as nat);
                    lemma_len_subset(app_state.selected_items.view(), old_sel.remove(components(path@)));
                }
            },
            ToggleDecision::SelectFile => {
                app_state.selected_items.insert(path);
            },
            ToggleDecision::SelectFolder(children) => {
                let ghost ch = texts(children@);
                app_state.selected_items.insert(path.clone());
                let mut k: usize = 0;
                while k < children.len()
                    invariant
                        k <= children@.len(),
                        ch == texts(children@),
                        app_state.selected_items.view() == old_sel.insert(components(path@)).union(comps_set(ch.take(k as int))),
                        *app_state == (AppState { selected_items: app_state.selected_items, ..old_state }),
                    decreases children@.len() - k,
                {
                    proof {
                        let t0 = ch.take(k as int);
                        assert(ch.take(k + 1).map_values(|p: Seq<char>| components(p)) =~= t0.map_values(
                            |p: Seq<char>| components(p),
                        ).push(components(children@[k as int]@)));
                        lemma_push_to_set(t0.map_values(|p: Seq<char>| components(p)), components(children@[k as int]@));
                        assert(old_sel.insert(components(path@)).union(comps_set(ch.take(k + 1))) =~= old_sel.insert(
                            components(path@),
                        ).union(comps_set(t0)).insert(components(children@[k as int]@)));
                    }
                    app_state.selected_items.insert(children[k].clone());
                    k = k + 1;
                }
                proof {
                    assert(ch.take(ch.len() as int) =~= ch);
                    ch.map_values(|p: Seq<char>| components(p)).lemma_cardinality_of_set();
                    lemma_len_union(old_sel.insert(components(path@)), comps_set(ch));
                }
                let len1 = app_state.selected_items.len();
                if limit < usize::MAX {
                    let count = match count_selection_items(path.as_str(), &app_state.ignore_config, limit, snapshot, gitignored) {
                        Ok(n) => n,
                        Err(_) => 0,
                    };
                    if count <= usize::MAX - len1 {
                        let ghost opt = app_state.selected_items.view();
                        proof {
                            assert(comps_list(children@) =~= ch.map_values(|p: Seq<char>| components(p)));
                        }
                        let folder = path.clone();
                        proof {
                            lemma_selection_count_bound(snapshot@, comps_list(gitignored@), old_state.ignore_config, limit as nat, path@);
                            assert(folder@ == path@);
                            assert(count == match selection_count(snapshot@, comps_list(gitignored@), old_state.ignore_config, limit as nat, path@) {
                                Some(n) => n,
                                None => 0,
                            });
                        }
                        let modal = FileOpsHandler::finalize_single_selection(
                            &mut app_state.selected_items,
                            path.as_str(),
                            true,
                            count,
                            Some(folder),
                            &children,
                            limit,
                            snapshot,
                        );
                        proof {
                            let s1 = opt.remove(components(path@)).difference(comps_set(ch));
                            assert(without_optimistic(opt, Some(path@), children@) == s1);
                            assert(opt == old_sel.insert(components(path@)).union(comps_set(ch)));
                            assert(s1.subset_of(old_sel));
                            lemma_len_subset(s1, old_sel);
                            if s1.len() + count <= limit {
                                lemma_folder_selection_within_limit(snapshot@, s1, path@, limit as nat);
                            }
                        }
                        match modal {
                            Some(m) => {
                                app_state.modal = Some(m);
                            },
                            None => {},
                        }
                    }
                }
            },
        }
    }
}

impl AppState {
    /// `r`: switches between the tree view and the recursive list and
    /// highlights the first line; the caller then reloads the items (through
    /// the search when one is typed). Nothing else changes.
    pub fn toggle_recursive(&mut self, selection_state: &mut SelectionState)
        ensures
            *final(self) == (AppState { recursive: !old(self).recursive, ..*old(self) }),
            *final(selection_state) == (SelectionState { selected: Some(0), ..*old(selection_state) }),
    {
        self.recursive = !self.recursive;
        selection_state.selected = Some(0);
    }
}

impl AppState {
    /// Esc while counting: the count stops and its dialog closes; nothing
    /// else changes.
    pub fn cancel_counting(&mut self)
        ensures
            *final(self) == (AppState { is_counting: false, counting_path: None, modal: None, ..*old(self) }),
    {
        self.is_counting = false;
        self.counting_path = None;
        self.modal = None;
    }

    /// Cancels the selection operations under way: no count, no counted
    /// path, no folder or children selected ahead of their count; nothing
    /// else changes.
    pub fn cancel_selection_operations(&mut self)
        ensures
            final(self).optimistically_added_children.view() == Set::<Seq<Seq<char>>>::empty(),
            *final(self) == (AppState {
                is_counting: false,
                counting_path: None,
                optimistically_added_folder: None,
                optimistically_added_children: final(self).optimistically_added_children,
                ..*old(self)
            }),
    {
        self.is_counting = false;
        self.counting_path = None;
        self.optimistically_added_folder = None;
        self.optimistically_added_children.clear();
    }
}

impl AppState {
    /// Applies the saved `[tui]` settings: each one given replaces the
    /// state's (the format as `tui_format_spec` reads it, the gitignore
    /// switch, the extra ignore patterns, line numbers, the selection limit
    /// and recursion), and the saved source directory becomes the current
    /// one unless a directory was given explicitly.
    pub fn apply_tui_config(&mut self, tui: &ModeConfig, explicit_dir: bool)
        ensures
            final(self).output_format == match tui.format {
                Some(f) => tui_format_spec(f@),
                None => old(self).output_format,
            },
            final(self).ignore_config.use_gitignore == tui.gitignore.unwrap_or(old(self).ignore_config.use_gitignore),
            match tui.ignore {
                Some(v) => same_strings(final(self).ignore_config.extra_ignore_patterns, v),
                None => final(self).ignore_config.extra_ignore_patterns == old(self).ignore_config.extra_ignore_patterns,
            },
            final(self).show_line_numbers == tui.line_numbers.unwrap_or(old(self).show_line_numbers),
            final(self).current_dir@ == match tui.source_dir {
                Some(d) => if explicit_dir { old(self).current_dir@ } else { d@ },
                None => old(self).current_dir@,
            },
            final(self).selection_limit == tui.selection_limit.unwrap_or(old(self).selection_limit),
            final(self).recursive == tui.recursive.unwrap_or(old(self).recursive),
            *final(self) == (AppState {
                output_format: final(self).output_format,
                ignore_config: (IgnoreConfig {
                    use_gitignore: final(self).ignore_config.use_gitignore,
                    extra_ignore_patterns: final(self).ignore_config.extra_ignore_patterns,
                    ..old(self).ignore_config
                }),
                show_line_numbers: final(self).show_line_numbers,
                current_dir: final(self).current_dir,
                selection_limit: final(self).selection_limit,
                recursive: final(self).recursive,
                ..*old(self)
            }),
    {
        let format = match &tui.format {
            Some(f) => tui_format(f.as_str()),
            None => self.output_format,
        };
        let gitignore = match tui.gitignore {
            Some(g) => g,
            None => self.ignore_config.use_gitignore,
        };
        let line_numbers = match tui.line_numbers {
            Some(l) => l,
            None => self.show_line_numbers,
        };
        let limit = match tui.selection_limit {
            Some(n) => n,
            None => self.selection_limit,
        };
        let recursive = match tui.recursive {
            Some(b) => b,
            None => self.recursive,
        };
        self.output_format = format;
        self.ignore_config.use_gitignore = gitignore;
        self.show_line_numbers = line_numbers;
        self.selection_limit = limit;
        self.recursive = recursive;
        if let Some(v) = &tui.ignore {
            self.ignore_config.extra_ignore_patterns = copy_strings(v);
        }
        if !explicit_dir {
            if let Some(d) = &tui.source_dir {
                self.current_dir = d.clone();
            }
        }
    }
}

} // verus!
