//! What the clipboard receives: the selection written in the chosen
//! format.

use vstd::prelude::*;
use crate::models::{OutputFormat, CopyStats, IgnoreConfig};
use crate::output::snapshot::FsEntry;
use crate::output::json::JsonOutputError;
use crate::output::{bundle, format_selected_items};
use crate::tui::state::PathSet;
use crate::tui::handlers::ClipboardHandler;

verus! {

impl ClipboardHandler {
    /// The selection written in `output_format` relative to `current_dir`
    /// (see `bundle`), or `No items selected.` with nothing counted when the
    /// selection is empty; fails only when the JSON text does not parse.
    pub fn format_selected_items(
        selected_items: &PathSet,
        current_dir: &str,
        output_format: OutputFormat,
        show_line_numbers: bool,
        ignore_config: &IgnoreConfig,
        snapshot: &Vec<FsEntry>,
    ) -> (r: Result<(String, CopyStats), JsonOutputError>)
        ensures
            selected_items.view().len() == 0 ==> (r matches Ok((s, st)) && s@ == "No items selected."@ && st.files == 0
                && st.folders == 0),
            selected_items.view().len() > 0 ==> {
                let b = bundle(
                    snapshot@,
                    selected_items.members(),
                    current_dir@,
                    output_format,
                    show_line_numbers,
                    ignore_config.include_binary_files,
                );
                &&& (r is Ok <==> b is Some)
                &&& (r matches Ok((s, st)) ==> b == Some((s@, st.files as nat, st.folders as nat)))
            },
    {
        if selected_items.len() == 0 {
            return Ok(("No items selected.".to_string(), CopyStats { files: 0, folders: 0 }));
        }
        let items = selected_items.to_vec();
        format_selected_items(&items, current_dir, output_format, show_line_numbers, ignore_config, snapshot)
    }
}

} // verus!
