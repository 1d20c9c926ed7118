//! The handlers of the terminal interface. The keyboard handler decides
//! what a key press does in the current state; carrying it out is the
//! caller's work.

use vstd::prelude::*;
use crate::tui::components::ModalType;
use crate::tui::state::SearchState;
use crate::text::{str_chars, chars_to_string};

verus! {

/// Copies the selection to the clipboard.
pub struct ClipboardHandler;

impl ClipboardHandler {
    /// The clipboard handler.
    pub fn new() -> Self {
        ClipboardHandler
    }
}

/// Dispatches key presses.
pub struct KeyboardHandler;

/// Loads, expands and selects files.
pub struct FileOpsHandler;

/// Runs searches.
pub struct SearchHandler;

/// A key press.
#[derive(Debug, Clone, Copy, PartialEq, Eq, Structural)]
pub enum Key {
    Char(char),
    Esc,
    Enter,
    Backspace,
    Up,
    Down,
    PageUp,
    PageDown,
    Home,
    End,
    Tab,
    BackTab,
    F(u8),
    Other,
}

/// What a key press does.
#[derive(Debug, Clone, Copy, PartialEq, Eq, Structural)]
pub enum KeyAction {
    Nothing,
    /// Stop the count under way and close its dialog.
    CancelCounting,
    /// Answer the confirmation dialog: overwrite or not.
    ConfirmSave(bool),
    CloseModal,
    ModalNextPage,
    ModalPrevPage,
    ClearSearch,
    ToggleSearch,
    SearchBackspace,
    SearchInput(char),
    /// Move the highlight by this many items.
    MoveSelection(i32),
    SelectFirst,
    SelectLast,
    OpenSelected,
    GoToParent,
    ToggleSelection,
    ToggleSelectAll,
    ToggleDefaultIgnores,
    ToggleGitignore,
    ToggleBinaryFiles,
    ToggleOutputFormat,
    ToggleLineNumbers,
    ToggleRecursive,
    ToggleFolderExpansion,
    ToggleFolderExpansionRecursive,
    SaveConfig,
    ShowHelp,
}

/// What a key press does: while counting only Esc acts (it cancels); with
/// a dialog open the key answers or pages it; while searching the key edits
/// the search; otherwise it is a command.
pub open spec fn key_action(is_counting: bool, modal: Option<ModalType>, is_searching: bool, key: Key) -> KeyAction {
    if is_counting {
        if key == Key::Esc { KeyAction::CancelCounting } else { KeyAction::Nothing }
    } else if modal == Some(ModalType::Confirmation) {
        match key {
            Key::Char(c) => if c == 'y' || c == 'Y' {
                KeyAction::ConfirmSave(true)
            } else if c == 'n' || c == 'N' {
                KeyAction::ConfirmSave(false)
            } else {
                KeyAction::Nothing
            },
            Key::Esc => KeyAction::ConfirmSave(false),
            _ => KeyAction::Nothing,
        }
    } else if modal == Some(ModalType::Info) {
        match key {
            Key::Esc => KeyAction::CloseModal,
            Key::Char(c) => if c == 'q' {
                KeyAction::CloseModal
            } else if c == 'j' {
                KeyAction::ModalNextPage
            } else if c == 'k' {
                KeyAction::ModalPrevPage
            } else {
                KeyAction::Nothing
            },
            Key::PageDown | Key::Down => KeyAction::ModalNextPage,
            Key::PageUp | Key::Up => KeyAction::ModalPrevPage,
            _ => KeyAction::Nothing,
        }
    } else if is_searching {
        match key {
            Key::Esc => KeyAction::ClearSearch,
            Key::Enter => KeyAction::ToggleSearch,
            Key::Backspace => KeyAction::SearchBackspace,
            Key::Char(c) => if c == '/' { KeyAction::ToggleSearch } else { KeyAction::SearchInput(c) },
            _ => KeyAction::Nothing,
        }
    } else {
        match key {
            Key::Down => KeyAction::MoveSelection(1i32),
            Key::Up => KeyAction::MoveSelection(-1i32),
            Key::PageDown => KeyAction::MoveSelection(10i32),
            Key::PageUp => KeyAction::MoveSelection(-10i32),
            Key::Home => KeyAction::SelectFirst,
            Key::End => KeyAction::SelectLast,
            Key::Enter => KeyAction::OpenSelected,
            Key::Backspace => KeyAction::GoToParent,
            Key::Tab => KeyAction::ToggleFolderExpansion,
            Key::BackTab => KeyAction::ToggleFolderExpansionRecursive,
            Key::F(n) => if n == 1 { KeyAction::ShowHelp } else { KeyAction::Nothing },
            Key::Char(c) => command_key(c),
            _ => KeyAction::Nothing,
        }
    }
}

/// The command a character key stands for outside dialogs and search.
pub open spec fn command_key(c: char) -> KeyAction {
    if c == 'j' {
        KeyAction::MoveSelection(1i32)
    } else if c == 'k' {
        KeyAction::MoveSelection(-1i32)
    } else if c == ' ' {
        KeyAction::ToggleSelection
    } else if c == 'a' || c == '*' {
        KeyAction::ToggleSelectAll
    } else if c == 'i' {
        KeyAction::ToggleDefaultIgnores
    } else if c == 'g' {
        KeyAction::ToggleGitignore
    } else if c == 'b' {
        KeyAction::ToggleBinaryFiles
    } else if c == 'f' {
        KeyAction::ToggleOutputFormat
    } else if c == 'n' {
        KeyAction::ToggleLineNumbers
    } else if c == 'r' {
        KeyAction::ToggleRecursive
    } else if c == '/' {
        KeyAction::ToggleSearch
    } else if c == 's' || c == 'S' {
        KeyAction::SaveConfig
    } else if c == '?' || c == 'h' {
        KeyAction::ShowHelp
    } else {
        KeyAction::Nothing
    }
}

/// The command of a character key (see `command_key`).
fn command_key_exec(c: char) -> (r: KeyAction)
    ensures
        r == command_key(c),
{
    if c == 'j' {
        KeyAction::MoveSelection(1i32)
    } else if c == 'k' {
        KeyAction::MoveSelection(-1i32)
    } else if c == ' ' {
        KeyAction::ToggleSelection
    } else if c == 'a' || c == '*' {
        KeyAction::ToggleSelectAll
    } else if c == 'i' {
        KeyAction::ToggleDefaultIgnores
    } else if c == 'g' {
        KeyAction::ToggleGitignore
    } else if c == 'b' {
        KeyAction::ToggleBinaryFiles
    } else if c == 'f' {
        KeyAction::ToggleOutputFormat
    } else if c == 'n' {
        KeyAction::ToggleLineNumbers
    } else if c == 'r' {
        KeyAction::ToggleRecursive
    } else if c == '/' {
        KeyAction::ToggleSearch
    } else if c == 's' || c == 'S' {
        KeyAction::SaveConfig
    } else if c == '?' || c == 'h' {
        KeyAction::ShowHelp
    } else {
        KeyAction::Nothing
    }
}

impl KeyboardHandler {
    /// The keyboard handler.
    pub fn new() -> Self {
        KeyboardHandler
    }

    /// What a key press does in the current state (see `key_action`); the
    /// caller performs the action.
    pub fn handle_key(is_counting: bool, modal: Option<ModalType>, is_searching: bool, key: Key) -> (r: KeyAction)
        ensures
            r == key_action(is_counting, modal, is_searching, key),
    {
        if is_counting {
            return if key == Key::Esc { KeyAction::CancelCounting } else { KeyAction::Nothing };
        }
        match modal {
            Some(ModalType::Confirmation) => {
                return match key {
                    Key::Char(c) => if c == 'y' || c == 'Y' {
                        KeyAction::ConfirmSave(true)
                    } else if c == 'n' || c == 'N' {
                        KeyAction::ConfirmSave(false)
                    } else {
                        KeyAction::Nothing
                    },
                    Key::Esc => KeyAction::ConfirmSave(false),
                    _ => KeyAction::Nothing,
                };
            },
            Some(ModalType::Info) => {
                return match key {
                    Key::Esc => KeyAction::CloseModal,
                    Key::Char(c) => if c == 'q' {
                        KeyAction::CloseModal
                    } else if c == 'j' {
                        KeyAction::ModalNextPage
                    } else if c == 'k' {
                        KeyAction::ModalPrevPage
                    } else {
                        KeyAction::Nothing
                    },
                    Key::PageDown | Key::Down => KeyAction::ModalNextPage,
                    Key::PageUp | Key::Up => KeyAction::ModalPrevPage,
                    _ => KeyAction::Nothing,
                };
            },
            None => {},
        }
        if is_searching {
            match key {
                Key::Esc => KeyAction::ClearSearch,
                Key::Enter => KeyAction::ToggleSearch,
                Key::Backspace => KeyAction::SearchBackspace,
                Key::Char(c) => if c == '/' { KeyAction::ToggleSearch } else { KeyAction::SearchInput(c) },
                _ => KeyAction::Nothing,
            }
        } else {
            match key {
                Key::Down => KeyAction::MoveSelection(1i32),
                Key::Up => KeyAction::MoveSelection(-1i32),
                Key::PageDown => KeyAction::MoveSelection(10i32),
                Key::PageUp => KeyAction::MoveSelection(-10i32),
                Key::Home => KeyAction::SelectFirst,
                Key::End => KeyAction::SelectLast,
                Key::Enter => KeyAction::OpenSelected,
                Key::Backspace => KeyAction::GoToParent,
                Key::Tab => KeyAction::ToggleFolderExpansion,
                Key::BackTab => KeyAction::ToggleFolderExpansionRecursive,
                Key::F(n) => if n == 1 { KeyAction::ShowHelp } else { KeyAction::Nothing },
                Key::Char(c) => command_key_exec(c),
                _ => KeyAction::Nothing,
            }
        }
    }
}

impl SearchHandler {
    /// A key typed while searching: a character is added to the query,
    /// `None` (Backspace) takes the last one off; the list is then searched
    /// again by the caller.
    pub fn handle_search_input(search_state: &mut SearchState, input: Option<char>)
        ensures
            final(search_state).search_query@ == match input {
                Some(c) => old(search_state).search_query@.push(c),
                None => if old(search_state).search_query@.len() > 0 {
                    old(search_state).search_query@.drop_last()
                } else {
                    old(search_state).search_query@
                },
            },
            final(search_state).is_searching == old(search_state).is_searching,
            final(search_state).selected_items.view() == old(search_state).selected_items.view(),
    {
        let mut q = str_chars(search_state.search_query.as_str());
        match input {
            Some(c) => q.push(c),
            None => {
                if q.len() > 0 {
                    q.pop();
                }
            },
        }
        search_state.search_query = chars_to_string(q.as_slice());
    }
}

} // verus!
