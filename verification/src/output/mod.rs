//! The output formats: XML, Markdown, JSON and the LLM report.

pub mod format;
pub mod snapshot;
pub mod directory;
pub mod toplevel;
pub mod xml;
pub mod markdown;
pub mod json;
pub mod tree;
pub mod deps;
pub mod report;
pub mod llm;

use vstd::prelude::*;
use crate::models::{OutputFormat, CopyStats, IgnoreConfig};
use crate::output::snapshot::FsEntry;
use crate::output::format::{json_valid, json_pretty_text};
use crate::output::toplevel::tree_output;
use crate::output::json::{json_compact, capped, JsonOutputError, format_json_output};
use crate::output::xml::{format_xml_output, xml_output};
use crate::output::markdown::format_markdown_output;
use crate::output::llm::{llm_output, format_llm_output};

verus! {

/// The bundle a format writes for a selection, with the files and folders
/// it counts; `None` when the JSON array is not accepted by serde_json.
pub open spec fn bundle(
    snap: Seq<FsEntry>,
    selected: Seq<String>,
    base_dir: Seq<char>,
    fmt: OutputFormat,
    show_line_numbers: bool,
    include_binary: bool,
) -> Option<(Seq<char>, nat, nat)> {
    match fmt {
        OutputFormat::Json => {
            let c = json_compact(snap, selected, base_dir, include_binary);
            if json_valid(c.0) {
                Some((json_pretty_text(c.0), capped(c.1), capped(c.2)))
            } else {
                None
            }
        },
        OutputFormat::Llm => Some(llm_output(snap, selected, base_dir, include_binary)),
        OutputFormat::Xml => Some(xml_output(snap, selected, base_dir, show_line_numbers, include_binary)),
        OutputFormat::Markdown => Some(tree_output(snap, selected, base_dir, fmt, show_line_numbers, include_binary)),
    }
}

/// Writes the selection in the chosen format (see `bundle`); JSON never
/// shows line numbers.
pub fn format_selected_items(
    selected_items: &Vec<String>,
    base_dir: &str,
    output_format: OutputFormat,
    show_line_numbers: bool,
    ignore_config: &IgnoreConfig,
    snapshot: &Vec<FsEntry>,
) -> (r: Result<(String, CopyStats), JsonOutputError>)
    ensures
        ({
            let b = bundle(snapshot@, selected_items@, base_dir@, output_format, show_line_numbers, ignore_config.include_binary_files);
            &&& (r is Ok <==> b is Some)
            &&& (r matches Ok((s, st)) ==> b == Some((s@, st.files as nat, st.folders as nat)))
        }),
{
    match output_format {
        OutputFormat::Json => format_json_output(selected_items, base_dir, ignore_config, snapshot),
        OutputFormat::Markdown => Ok(format_markdown_output(selected_items, base_dir, show_line_numbers, ignore_config, snapshot)),
        OutputFormat::Xml => Ok(format_xml_output(selected_items, base_dir, show_line_numbers, ignore_config, snapshot)),
        OutputFormat::Llm => Ok(format_llm_output(selected_items, base_dir, ignore_config, snapshot)),
    }
}

} // verus!
