//! The XML format: each file as a `file` element holding its escaped
//! content, each directory as a `folder` element holding its selected
//! entries.

use vstd::prelude::*;
use crate::models::{OutputFormat, CopyStats, IgnoreConfig};
use crate::output::snapshot::FsEntry;
use crate::output::toplevel::{tree_output, tree_output_texts, format_tree_output, lemma_tree_output_texts};
use crate::fs::{list_files, list_walk};
use crate::paths::components;

verus! {

/// What the XML format writes for a selection (see `tree_output`); with
/// nothing selected it writes every file and directory below the current
/// directory, as `list_files` lists them, so that a call with an empty
/// selection bundles the whole directory.
pub open spec fn xml_output(
    snap: Seq<FsEntry>,
    selected: Seq<String>,
    current_dir: Seq<char>,
    sln: bool,
    include_binary: bool,
) -> (Seq<char>, nat, nat) {
    if selected.len() == 0 {
        tree_output_texts(
            snap,
            list_walk(snap, seq![components(current_dir)], Set::empty()),
            current_dir,
            OutputFormat::Xml,
            sln,
            include_binary,
        )
    } else {
        tree_output(snap, selected, current_dir, OutputFormat::Xml, sln, include_binary)
    }
}

/// The XML output and the files and folders it holds (see `xml_output`):
/// the items listed at the top, in path order.
pub fn format_xml_output(
    selected_items: &Vec<String>,
    current_dir: &str,
    show_line_numbers: bool,
    ignore_config: &IgnoreConfig,
    snapshot: &Vec<FsEntry>,
) -> (r: (String, CopyStats))
    ensures
        ({
            let t = xml_output(snapshot@, selected_items@, current_dir@, show_line_numbers, ignore_config.include_binary_files);
            &&& r.0@ == t.0
            &&& r.1.files == t.1
            &&& r.1.folders == t.2
        }),
{
    if selected_items.len() == 0 {
        let all = list_files(current_dir, snapshot);
        let r = format_tree_output(&all, current_dir, OutputFormat::Xml, show_line_numbers, ignore_config, snapshot);
        proof {
            lemma_tree_output_texts(snapshot@, all@, current_dir@, OutputFormat::Xml, show_line_numbers, ignore_config.include_binary_files);
        }
        r
    } else {
        format_tree_output(selected_items, current_dir, OutputFormat::Xml, show_line_numbers, ignore_config, snapshot)
    }
}

} // verus!
