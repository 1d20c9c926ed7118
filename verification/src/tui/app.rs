//! The events and results of the interface's run loop.

use vstd::prelude::*;
use crate::tui::handlers::Key;
use crate::models::CopyStats;
use crate::text::{decimal, push_str, push_decimal, chars_to_string};

verus! {

/// Identifies an operation started in the background.
#[derive(Debug, Clone, Copy, PartialEq, Eq, Structural)]
pub struct OperationId(pub u64);

/// The figures printed after a copy.
#[derive(Debug, Clone, Copy, PartialEq, Eq, Structural)]
pub struct ClipboardPrintData {
    pub files: usize,
    pub folders: usize,
    pub line_count: usize,
    pub byte_size: usize,
}

/// What a run of the interface reports when it ends.
#[derive(Debug, Clone, Copy, PartialEq, Eq, Structural)]
pub enum AppRunResult {
    NoAction,
    CopyBlockedByLimit,
    Copied(ClipboardPrintData),
}

/// An event sent back to the interface by background work.
pub enum AppEvent {
    /// The items under a folder have been counted.
    SelectionCountComplete {
        operation_id: OperationId,
        path: String,
        count: usize,
        optimistic_folder: Option<String>,
        optimistic_children: Vec<String>,
    },
    /// The scan for selecting everything has finished.
    SelectAllScanComplete {
        operation_id: OperationId,
        total_potential_item_count: usize,
        final_selection_set: Vec<String>,
        initial_optimistic_set: Vec<String>,
    },
    /// Cancels the selection operations under way.
    CancelSelectionOperations,
}

/// Which parts of the screen need drawing again.
#[derive(Debug, Clone, Copy, PartialEq, Eq, Structural)]
pub struct DirtyFlags {
    pub file_list: bool,
    pub status_bar: bool,
    pub header: bool,
    pub modal: bool,
    pub search_bar: bool,
    pub full_redraw: bool,
}

impl DirtyFlags {
    /// Nothing to draw.
    pub fn new() -> (r: Self)
        ensures
            !r.needs_redraw_spec(),
    {
        DirtyFlags { file_list: false, status_bar: false, header: false, modal: false, search_bar: false, full_redraw: false }
    }

    /// Whether some part needs drawing.
    pub open spec fn needs_redraw_spec(&self) -> bool {
        self.file_list || self.status_bar || self.header || self.modal || self.search_bar || self.full_redraw
    }

    /// Marks every part.
    pub fn mark_all_dirty(&mut self)
        ensures
            *final(self) == (DirtyFlags { file_list: true, status_bar: true, header: true, modal: true, search_bar: true, full_redraw: true }),
    {
        self.file_list = true;
        self.status_bar = true;
        self.header = true;
        self.modal = true;
        self.search_bar = true;
        self.full_redraw = true;
    }

    /// Whether some part needs drawing.
    pub fn needs_redraw(&self) -> (r: bool)
        ensures
            r == self.needs_redraw_spec(),
    {
        self.file_list || self.status_bar || self.header || self.modal || self.search_bar || self.full_redraw
    }

    /// Marks nothing.
    pub fn clear(&mut self)
        ensures
            !final(self).needs_redraw_spec(),
    {
        self.file_list = false;
        self.status_bar = false;
        self.header = false;
        self.modal = false;
        self.search_bar = false;
        self.full_redraw = false;
    }
}

/// The parts a key press marks, added to `f`: moving and selecting mark the
/// list and the status bar; `/` and Esc also the search bar; typing while
/// searching the search bar and the list; `f` the status bar; Ctrl+C the
/// dialog and the status bar; `h` everything; any other key the status bar.
pub open spec fn dirty_after_key(f: DirtyFlags, key: Key, ctrl: bool, is_searching: bool) -> DirtyFlags {
    match key {
        Key::Up | Key::Down | Key::PageUp | Key::PageDown | Key::Home | Key::End | Key::Enter => DirtyFlags {
            file_list: true,
            status_bar: true,
            ..f
        },
        Key::Esc => DirtyFlags { search_bar: true, file_list: true, status_bar: true, ..f },
        Key::Backspace => if is_searching {
            DirtyFlags { search_bar: true, file_list: true, ..f }
        } else {
            DirtyFlags { status_bar: true, ..f }
        },
        Key::Char(c) => if c == ' ' {
            DirtyFlags { file_list: true, status_bar: true, ..f }
        } else if c == '/' {
            DirtyFlags { search_bar: true, file_list: true, status_bar: true, ..f }
        } else if is_searching {
            DirtyFlags { search_bar: true, file_list: true, ..f }
        } else if c == 'f' || c == 'F' {
            DirtyFlags { status_bar: true, ..f }
        } else if c == 'c' && ctrl {
            DirtyFlags { modal: true, status_bar: true, ..f }
        } else if c == 'h' || c == 'H' {
            DirtyFlags { file_list: true, status_bar: true, header: true, modal: true, search_bar: true, full_redraw: true }
        } else {
            DirtyFlags { status_bar: true, ..f }
        },
        _ => DirtyFlags { status_bar: true, ..f },
    }
}

/// Marks the parts a key press changes (see `dirty_after_key`).
pub fn mark_ui_dirty_for_input(flags: &mut DirtyFlags, key: Key, ctrl: bool, is_searching: bool)
    ensures
        *final(flags) == dirty_after_key(*old(flags), key, ctrl, is_searching),
{
    match key {
        Key::Up | Key::Down | Key::PageUp | Key::PageDown | Key::Home | Key::End | Key::Enter => {
            flags.file_list = true;
            flags.status_bar = true;
        },
        Key::Esc => {
            flags.search_bar = true;
            flags.file_list = true;
            flags.status_bar = true;
        },
        Key::Backspace => {
            if is_searching {
                flags.search_bar = true;
                flags.file_list = true;
            } else {
                flags.status_bar = true;
            }
        },
        Key::Char(c) => {
            if c == ' ' {
                flags.file_list = true;
                flags.status_bar = true;
            } else if c == '/' {
                flags.search_bar = true;
                flags.file_list = true;
                flags.status_bar = true;
            } else if is_searching {
                flags.search_bar = true;
                flags.file_list = true;
            } else if c == 'f' || c == 'F' {
                flags.status_bar = true;
            } else if c == 'c' && ctrl {
                flags.modal = true;
                flags.status_bar = true;
            } else if c == 'h' || c == 'H' {
                flags.mark_all_dirty();
            } else {
                flags.status_bar = true;
            }
        },
        _ => {
            flags.status_bar = true;
        },
    }
}

/// Whether the user is interacting or the interface is idle.
#[derive(Debug, Clone, Copy, PartialEq, Eq, Structural)]
pub enum ActivityState {
    Active,
    Idle,
}

/// After `elapsed_ms` milliseconds without input the interface is idle once
/// more than two seconds have passed.
pub fn activity_after(elapsed_ms: u64) -> (r: ActivityState)
    ensures
        r == (if elapsed_ms > 2000 { ActivityState::Idle } else { ActivityState::Active }),
{
    if elapsed_ms > 2000 {
        ActivityState::Idle
    } else {
        ActivityState::Active
    }
}

/// How long to wait for input, in milliseconds: 16 while active, 500 while
/// idle.
pub fn poll_timeout_ms(state: ActivityState) -> (r: u64)
    ensures
        r == (if state == ActivityState::Active { 16u64 } else { 500u64 }),
{
    match state {
        ActivityState::Active => 16,
        ActivityState::Idle => 500,
    }
}

/// The operations whose results arrived already.
pub struct RecentEvents {
    ids: Vec<u64>,
}

impl RecentEvents {
    /// The operations recorded.
    pub closed spec fn view(&self) -> Set<u64> {
        self.ids@.to_set()
    }

    /// No operation recorded.
    pub fn new() -> (r: Self)
        ensures
            r.view() == Set::<u64>::empty(),
    {
        let r = RecentEvents { ids: Vec::new() };
        proof {
            assert(r.view() =~= Set::<u64>::empty());
        }
        r
    }

    /// Whether the operation `id` is recorded.
    fn holds(&self, id: u64) -> (r: bool)
        ensures
            r == self.view().contains(id),
    {
        let mut i: usize = 0;
        while i < self.ids.len()
            invariant
                i <= self.ids@.len(),
                forall|k: int| 0 <= k < i ==> self.ids@[k] != id,
            decreases self.ids@.len() - i,
        {
            if self.ids[i] == id {
                proof {
                    assert(self.ids@.contains(id));
                }
                return true;
            }
            i = i + 1;
        }
        false
    }

    /// Whether the result of an operation arrived already; a cancellation
    /// is never a duplicate.
    pub fn is_duplicate_event(&self, event: &AppEvent) -> (r: bool)
        ensures
            r == match event {
                AppEvent::SelectionCountComplete { operation_id, .. } => self.view().contains(operation_id.0),
                AppEvent::SelectAllScanComplete { operation_id, .. } => self.view().contains(operation_id.0),
                AppEvent::CancelSelectionOperations => false,
            },
    {
        match event {
            AppEvent::SelectionCountComplete { operation_id, .. } => self.holds(operation_id.0),
            AppEvent::SelectAllScanComplete { operation_id, .. } => self.holds(operation_id.0),
            AppEvent::CancelSelectionOperations => false,
        }
    }

    /// Records that the result of an operation arrived; a cancellation
    /// forgets every operation.
    pub fn track_event(&mut self, event: &AppEvent)
        ensures
            final(self).view() == match event {
                AppEvent::SelectionCountComplete { operation_id, .. } => old(self).view().insert(operation_id.0),
                AppEvent::SelectAllScanComplete { operation_id, .. } => old(self).view().insert(operation_id.0),
                AppEvent::CancelSelectionOperations => Set::<u64>::empty(),
            },
    {
        let id = match event {
            AppEvent::SelectionCountComplete { operation_id, .. } => operation_id.0,
            AppEvent::SelectAllScanComplete { operation_id, .. } => operation_id.0,
            AppEvent::CancelSelectionOperations => {
                self.ids = Vec::new();
                proof {
                    assert(self.view() =~= Set::<u64>::empty());
                }
                return;
            },
        };
        if self.holds(id) {
            proof {
                assert(self.view().insert(id) =~= self.view());
            }
            return;
        }
        let ghost before = self.ids@;
        self.ids.push(id);
        proof {
            crate::fs::lemma_push_to_set(before, id);
        }
    }
}

/// What the run loop does with a key press before the keyboard handler
/// sees it.
#[derive(Debug, Clone, Copy, PartialEq, Eq, Structural)]
pub enum RunAction {
    /// Refuse to copy a selection that is over the limit, saying so; quit
    /// as well when `quit`.
    RefuseCopy { quit: bool },
    /// Copy the selection to the clipboard; quit as well when `quit`.
    Copy { quit: bool },
    /// Hand the key to the keyboard handler.
    Handle,
}

/// What the run loop does with a key outside search: `c` copies (and
/// quits with Ctrl), `q` copies and quits; over the limit neither copies,
/// and `q` still quits. Every other key, and every key while searching,
/// goes to the keyboard handler. A dialog does not stop `c` or `q`.
pub open spec fn run_action(is_searching: bool, over_limit: bool, key: Key, ctrl: bool) -> RunAction {
    let is_c = key == Key::Char('c');
    let is_q = key == Key::Char('q');
    if (is_c || is_q) && !is_searching {
        if over_limit {
            RunAction::RefuseCopy { quit: is_q }
        } else if is_c {
            RunAction::Copy { quit: ctrl }
        } else {
            RunAction::Copy { quit: true }
        }
    } else {
        RunAction::Handle
    }
}

/// What the run loop does with a key (see `run_action`).
pub fn run_key(is_searching: bool, over_limit: bool, key: Key, ctrl: bool) -> (r: RunAction)
    ensures
        r == run_action(is_searching, over_limit, key, ctrl),
{
    let is_c = key == Key::Char('c');
    let is_q = key == Key::Char('q');
    if (is_c || is_q) && !is_searching {
        if over_limit {
            RunAction::RefuseCopy { quit: is_q }
        } else if is_c {
            RunAction::Copy { quit: ctrl }
        } else {
            RunAction::Copy { quit: true }
        }
    } else {
        RunAction::Handle
    }
}

/// Whether a key cancels the counts under way: Esc always; Space, `a`
/// and `A` outside search.
pub open spec fn cancels_operations(is_searching: bool, key: Key) -> bool {
    match key {
        Key::Char(c) => (c == ' ' || c == 'a' || c == 'A') && !is_searching,
        Key::Esc => true,
        _ => false,
    }
}

/// Whether a key cancels the counts under way (see `cancels_operations`).
pub fn should_cancel_operations(is_searching: bool, key: Key) -> (r: bool)
    ensures
        r == cancels_operations(is_searching, key),
{
    match key {
        Key::Char(c) => (c == ' ' || c == 'a' || c == 'A') && !is_searching,
        Key::Esc => true,
        _ => false,
    }
}

/// The message shown when a copy is refused, for `selected` items.
pub fn over_limit_message(selected: usize) -> (r: String)
    ensures
        r@ == "Selection over limit ("@ + decimal(selected as nat) + ") items. Deselect items to copy."@,
{
    let mut m: Vec<char> = Vec::new();
    push_str(&mut m, "Selection over limit (");
    push_decimal(&mut m, selected);
    push_str(&mut m, ") items. Deselect items to copy.");
    chars_to_string(m.as_slice())
}

/// What a run reports when it ends: a blocked copy when the selection is
/// over the limit and something was copied; otherwise the last copy's
/// counts with the lines and bytes of the copied text (`copied`; none
/// known gives 0 and 0); nothing when no copy was made.
pub open spec fn exit_outcome(over_limit: bool, last: Option<CopyStats>, copied: Option<(usize, usize)>) -> AppRunResult {
    match last {
        Some(s) => if over_limit {
            AppRunResult::CopyBlockedByLimit
        } else {
            AppRunResult::Copied(ClipboardPrintData {
                files: s.files,
                folders: s.folders,
                line_count: match copied { Some(c) => c.0, None => 0 },
                byte_size: match copied { Some(c) => c.1, None => 0 },
            })
        },
        None => AppRunResult::NoAction,
    }
}

/// What a run reports when it ends (see `exit_outcome`).
pub fn exit_result(over_limit: bool, last: Option<CopyStats>, copied: Option<(usize, usize)>) -> (r: AppRunResult)
    ensures
        r == exit_outcome(over_limit, last, copied),
{
    match last {
        Some(s) => if over_limit {
            AppRunResult::CopyBlockedByLimit
        } else {
            let (line_count, byte_size) = match copied {
                Some(c) => c,
                None => (0, 0),
            };
            AppRunResult::Copied(ClipboardPrintData { files: s.files, folders: s.folders, line_count, byte_size })
        },
        None => AppRunResult::NoAction,
    }
}

} // verus!
