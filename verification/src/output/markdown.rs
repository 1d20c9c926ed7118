//! The Markdown format: each file in a fenced block labelled with its path,
//! each directory under a heading followed by its selected entries.

use vstd::prelude::*;
use crate::models::{OutputFormat, CopyStats, IgnoreConfig};
use crate::output::snapshot::FsEntry;
use crate::output::toplevel::{tree_output, format_tree_output};

verus! {

/// The Markdown output for a selection and the files and folders it holds
/// (see `tree_output`): the items listed at the top, in path order.
pub fn format_markdown_output(
    selected_items: &Vec<String>,
    current_dir: &str,
    show_line_numbers: bool,
    ignore_config: &IgnoreConfig,
    snapshot: &Vec<FsEntry>,
) -> (r: (String, CopyStats))
    ensures
        ({
            let t = tree_output(snapshot@, selected_items@, current_dir@, OutputFormat::Markdown, show_line_numbers, ignore_config.include_binary_files);
            &&& r.0@ == t.0
            &&& r.1.files == t.1
            &&& r.1.folders == t.2
        }),
{
    format_tree_output(selected_items, current_dir, OutputFormat::Markdown, show_line_numbers, ignore_config, snapshot)
}

} // verus!
