use aibundle::models::CopyStats;
use aibundle::tui::app::{
    exit_result, over_limit_message, run_key, should_cancel_operations, AppEvent, AppRunResult, ClipboardPrintData,
    OperationId, RunAction,
};
use aibundle::tui::handlers::Key;
use std::time::Duration;

#[test]
fn test_app_event_variants() {
    let _selection_complete = AppEvent::SelectionCountComplete {
        operation_id: OperationId(1),
        path: "/test".to_string(),
        count: 42,
        optimistic_folder: None,
        optimistic_children: Vec::new(),
    };
    let _select_all_complete = AppEvent::SelectAllScanComplete {
        operation_id: OperationId(2),
        total_potential_item_count: 100,
        final_selection_set: Vec::new(),
        initial_optimistic_set: Vec::new(),
    };
    let _cancel_operations = AppEvent::CancelSelectionOperations;
    let (tx, rx) = std::sync::mpsc::sync_channel::<AppEvent>(10);
    tx.send(AppEvent::CancelSelectionOperations).unwrap();
    match rx.recv_timeout(Duration::from_millis(100)) {
        Ok(AppEvent::CancelSelectionOperations) => {}
        _ => panic!("Should receive CancelSelectionOperations event"),
    }
}

#[test]
fn run_loop_keys_copy_and_quit() {
    assert_eq!(run_key(false, false, Key::Char('q'), false), RunAction::Copy { quit: true });
    assert_eq!(run_key(false, false, Key::Char('c'), false), RunAction::Copy { quit: false });
    assert_eq!(run_key(false, false, Key::Char('c'), true), RunAction::Copy { quit: true });
    assert_eq!(run_key(false, true, Key::Char('q'), false), RunAction::RefuseCopy { quit: true });
    assert_eq!(run_key(false, true, Key::Char('c'), false), RunAction::RefuseCopy { quit: false });
    assert_eq!(run_key(true, false, Key::Char('q'), false), RunAction::Handle);
    assert_eq!(run_key(false, false, Key::Char('x'), false), RunAction::Handle);
    assert_eq!(over_limit_message(401), "Selection over limit (401) items. Deselect items to copy.");
}

#[test]
fn keys_that_cancel_counts() {
    assert!(should_cancel_operations(true, Key::Esc));
    assert!(should_cancel_operations(false, Key::Char(' ')));
    assert!(should_cancel_operations(false, Key::Char('A')));
    assert!(!should_cancel_operations(true, Key::Char('a')));
    assert!(!should_cancel_operations(false, Key::Char('x')));
}

#[test]
fn what_a_run_reports() {
    let stats = CopyStats { files: 2, folders: 1 };
    assert_eq!(exit_result(false, None, None), AppRunResult::NoAction);
    assert_eq!(exit_result(true, Some(stats), Some((5, 40))), AppRunResult::CopyBlockedByLimit);
    assert_eq!(
        exit_result(false, Some(stats), Some((5, 40))),
        AppRunResult::Copied(ClipboardPrintData { files: 2, folders: 1, line_count: 5, byte_size: 40 })
    );
    assert_eq!(
        exit_result(false, Some(stats), None),
        AppRunResult::Copied(ClipboardPrintData { files: 2, folders: 1, line_count: 0, byte_size: 0 })
    );
}
