//! The JSON format: an array with one object per item listed at the top.
//! The library writes the array compactly and has serde_json parse it and
//! write it back pretty-printed; a directory's contents are the text of its
//! walk, kept only when serde_json accepts it as an array.

use vstd::prelude::*;
use crate::text::{push_chars, push_str, str_chars, chars_to_string};
use crate::paths::{components, comps_view, parse_components};
use crate::models::{OutputFormat, CopyStats, IgnoreConfig};
use crate::output::format::{
    json_escaped, json_escape, output_binary, is_binary_file, json_valid, json_pretty_text,
    json_parses, json_pretty,
};
use crate::output::snapshot::{FsEntry, EntryKind, kind_of, lookup_index, relative_display, comps_list};
use crate::output::directory::{walk_dir, walk_dir_exec, content_of, opt_text, sel_view, parse_selection};
use crate::output::toplevel::{top_items, top_level_items, texts, top_shown};
use crate::text::replace_char_chars;

verus! {

/// A JSON string literal.
pub open spec fn json_str(s: Seq<char>) -> Seq<char> {
    seq!['"'] + json_escaped(s) + seq!['"']
}

/// The array of a directory's walk text: `[]` when the walk wrote nothing
/// or when serde_json does not accept `[` + text + `]`.
pub open spec fn contents_array(walked: Seq<char>, parses: bool) -> Seq<char> {
    if walked.len() == 0 || !parses {
        "[]"@
    } else {
        seq!['['] + walked + seq![']']
    }
}

/// The object for a directory listed at the top.
pub open spec fn json_dir_object(rel: Seq<char>, contents: Seq<char>) -> Seq<char> {
    "{\"type\":\"directory\",\"path\":"@ + json_str(rel) + ",\"contents\":"@ + contents + "}"@
}

/// The object for a file listed at the top, if any, and whether it counts:
/// binary files only when included, text files only when their content was
/// read.
pub open spec fn json_file_object(rel: Seq<char>, binary: bool, content: Option<Seq<char>>, include_binary: bool) -> Option<Seq<char>> {
    if binary {
        if include_binary {
            Some("{\"type\":\"file\",\"path\":"@ + json_str(rel) + ",\"binary\":true}"@)
        } else {
            None
        }
    } else {
        match content {
            Some(c) => Some(
                "{\"type\":\"file\",\"path\":"@ + json_str(rel) + ",\"binary\":false,\"content\":"@ + json_str(c) + "}"@,
            ),
            None => None,
        }
    }
}

/// The object written for an item `p` listed at the top (if any) and the
/// files and folders it counts; a directory counts as a folder whether or
/// not its walk succeeded, and gets an object only when it did.
pub open spec fn json_item(
    snap: Seq<FsEntry>,
    sel: Seq<Seq<Seq<char>>>,
    cc: Seq<Seq<char>>,
    include_binary: bool,
    p: Seq<char>,
) -> (Option<Seq<char>>, nat, nat) {
    let pc = components(p);
    let rel = top_shown(p, cc);
    match kind_of(snap, pc) {
        EntryKind::File => {
            let o = json_file_object(rel, output_binary(p), content_of(snap, pc), include_binary);
            (o, if o is Some { 1 } else { 0 }, 0)
        },
        EntryKind::Dir => {
            let w = walk_dir(snap, sel, cc, OutputFormat::Json, false, include_binary, pc);
            if w.3 {
                let arr = contents_array(w.0, json_valid(seq!['['] + w.0 + seq![']']));
                (Some(json_dir_object(rel, arr)), w.1, w.2 + 1)
            } else {
                (None, 0, 1)
            }
        },
        EntryKind::Missing => (None, 0, 0),
    }
}

/// The objects of the items listed at the top, joined with commas, and the
/// files and folders counted.
pub open spec fn json_items(
    snap: Seq<FsEntry>,
    sel: Seq<Seq<Seq<char>>>,
    cc: Seq<Seq<char>>,
    include_binary: bool,
    items: Seq<Seq<char>>,
) -> (Seq<char>, nat, nat)
    decreases items.len(),
{
    if items.len() == 0 {
        (seq![], 0, 0)
    } else {
        let prev = json_items(snap, sel, cc, include_binary, items.drop_last());
        let t = json_item(snap, sel, cc, include_binary, items.last());
        match t.0 {
            Some(o) => (
                if prev.0.len() == 0 { o } else { prev.0 + seq![','] + o },
                prev.1 + t.1,
                prev.2 + t.2,
            ),
            None => (prev.0, prev.1 + t.1, prev.2 + t.2),
        }
    }
}

/// The compact JSON array for a selection, before pretty-printing.
pub open spec fn json_compact(snap: Seq<FsEntry>, selected: Seq<String>, current_dir: Seq<char>, include_binary: bool) -> (Seq<char>, nat, nat) {
    let t = json_items(snap, comps_list(selected), components(current_dir), include_binary, top_items(selected));
    (seq!['['] + t.0 + seq![']'], t.1, t.2)
}

/// `n`, or the largest `usize` when `n` is larger.
pub open spec fn capped(n: nat) -> nat {
    if n <= usize::MAX {
        n
    } else {
        usize::MAX as nat
    }
}

/// The JSON output could not be written.
#[derive(Debug, Clone, Copy, PartialEq, Eq, Structural)]
pub enum JsonOutputError {
    /// serde_json did not accept the array the library wrote.
    Unparsable,
}

/// Appends a JSON string literal.
fn push_json_str(out: &mut Vec<char>, s: &str)
    ensures
        final(out)@ == old(out)@ + json_str(s@),
{
    let ghost start = out@;
    out.push('"');
    let e = json_escape(s);
    push_chars(out, e.as_slice());
    out.push('"');
    proof {
        assert(out@ =~= start + json_str(s@));
    }
}

/// The object of a directory listed at the top, given the text of its walk
/// and whether serde_json accepts that text inside brackets.
pub fn json_directory_object(rel: &str, walked: &str, parses: bool) -> (r: String)
    ensures
        r@ == json_dir_object(rel@, contents_array(walked@, parses)),
{
    let mut out: Vec<char> = Vec::new();
    push_str(&mut out, "{\"type\":\"directory\",\"path\":");
    push_json_str(&mut out, rel);
    push_str(&mut out, ",\"contents\":");
    let w = str_chars(walked);
    if w.len() == 0 || !parses {
        push_str(&mut out, "[]");
    } else {
        out.push('[');
        push_chars(&mut out, w.as_slice());
        out.push(']');
    }
    push_str(&mut out, "}");
    proof {
        assert(out@ =~= json_dir_object(rel@, contents_array(walked@, parses)));
    }
    chars_to_string(out.as_slice())
}

/// The object of a file listed at the top, if it gets one.
pub fn json_file_entry(rel: &str, binary: bool, content: &Option<String>, include_binary: bool) -> (r: Option<String>)
    ensures
        opt_text(r) == json_file_object(rel@, binary, opt_text(*content), include_binary),
{
    let mut out: Vec<char> = Vec::new();
    if binary {
        if include_binary {
            push_str(&mut out, "{\"type\":\"file\",\"path\":");
            push_json_str(&mut out, rel);
            push_str(&mut out, ",\"binary\":true}");
            proof {
                assert(out@ =~= json_file_object(rel@, binary, opt_text(*content), include_binary)->0);
            }
            Some(chars_to_string(out.as_slice()))
        } else {
            None
        }
    } else {
        match content {
            Some(c) => {
                push_str(&mut out, "{\"type\":\"file\",\"path\":");
                push_json_str(&mut out, rel);
                push_str(&mut out, ",\"binary\":false,\"content\":");
                push_json_str(&mut out, c.as_str());
                push_str(&mut out, "}");
                proof {
                    assert(out@ =~= json_file_object(rel@, binary, opt_text(*content), include_binary)->0);
                }
                Some(chars_to_string(out.as_slice()))
            },
            None => None,
        }
    }
}

/// The object for an item `p` (parsed as `pc`) listed at the top.
fn json_item_exec(
    snap: &Vec<FsEntry>,
    selc: &Vec<Vec<Vec<char>>>,
    cc: &Vec<Vec<char>>,
    include_binary: bool,
    p: &str,
    pc: &Vec<Vec<char>>,
) -> (r: (Option<String>, usize, usize))
    requires
        comps_view(pc@) == components(p@),
    ensures
        ({
            let t = json_item(snap@, sel_view(selc@), comps_view(cc@), include_binary, p@);
            &&& opt_text(r.0) == t.0
            &&& r.1 == t.1
            &&& r.2 == t.2
        }),
{
    let shown_raw = relative_display(p, pc, cc);
    let rel_chars = replace_char_chars(shown_raw.as_slice(), '\\', '/');
    let rel = chars_to_string(rel_chars.as_slice());
    let idx = lookup_index(snap, pc);
    let j: usize = match idx {
        Some(j) => j,
        None => snap.len(),
    };
    let kind = if j < snap.len() {
        snap[j].kind
    } else {
        EntryKind::Missing
    };
    proof {
        assert(kind == kind_of(snap@, comps_view(pc@)));
    }
    match kind {
        EntryKind::File => {
            let binary = is_binary_file(p);
            proof {
                assert(opt_text(snap@[j as int].content) == content_of(snap@, comps_view(pc@)));
            }
            let o = json_file_entry(rel.as_str(), binary, &snap[j].content, include_binary);
            if o.is_some() {
                (o, 1, 0)
            } else {
                (o, 0, 0)
            }
        },
        EntryKind::Dir => {
            let mut sub: Vec<char> = Vec::new();
            let (sf, sd, ok) = walk_dir_exec(snap, selc, cc, OutputFormat::Json, false, include_binary, pc, &mut sub);
            if ok {
                let mut bracketed: Vec<char> = Vec::new();
                bracketed.push('[');
                push_chars(&mut bracketed, sub.as_slice());
                bracketed.push(']');
                let bracketed_text = chars_to_string(bracketed.as_slice());
                let blen = bracketed.len();
                proof {
                    assert(bracketed@ =~= seq!['['] + sub@ + seq![']']);
                }
                let parses = json_parses(bracketed_text.as_str());
                let walked = chars_to_string(sub.as_slice());
                let o = json_directory_object(rel.as_str(), walked.as_str(), parses);
                (Some(o), sf, sd + 1)
            } else {
                (None, 0, 1)
            }
        },
        EntryKind::Missing => (None, 0, 0),
    }
}

/// The JSON output for a selection: the array of `json_compact`,
/// pretty-printed by serde_json; an error when serde_json does not accept
/// the array.
pub fn format_json_output(
    selected_items: &Vec<String>,
    current_dir: &str,
    ignore_config: &IgnoreConfig,
    snapshot: &Vec<FsEntry>,
) -> (r: Result<(String, CopyStats), JsonOutputError>)
    ensures
        ({
            let c = json_compact(snapshot@, selected_items@, current_dir@, ignore_config.include_binary_files);
            &&& (r is Ok <==> json_valid(c.0))
            &&& (r matches Ok((s, st)) ==> s@ == json_pretty_text(c.0) && st.files == capped(c.1) && st.folders == capped(c.2))
        }),
{
    let selc = parse_selection(selected_items);
    let cc = parse_components(current_dir);
    proof {
        assert(comps_view(cc@) =~= components(current_dir@));
    }
    let (items, itemsc) = top_level_items(selected_items);
    let ghost iv = texts(items@);
    let ghost sel = sel_view(selc@);
    let ghost ccv = comps_view(cc@);
    let ib = ignore_config.include_binary_files;
    let mut body: Vec<char> = Vec::new();
    let mut files: usize = 0;
    let mut folders: usize = 0;
    let mut i: usize = 0;
    while i < items.len()
        invariant
            iv == texts(items@),
            sel == sel_view(selc@),
            ccv == comps_view(cc@),
            itemsc@.len() == items@.len(),
            forall|k: int| 0 <= k < itemsc@.len() ==> comps_view(#[trigger] itemsc@[k]@) == components(items@[k]@),
            i <= items@.len(),
            ({
                let t = json_items(snapshot@, sel, ccv, ib, iv.take(i as int));
                &&& body@ == t.0
                &&& files == capped(t.1)
                &&& folders == capped(t.2)
            }),
        decreases items@.len() - i,
    {
        proof {
            assert(iv.take(i + 1).drop_last() =~= iv.take(i as int));
            assert(iv.take(i + 1).last() == items@[i as int]@);
        }
        let (o, f, d) = json_item_exec(snapshot, &selc, &cc, ib, items[i].as_str(), &itemsc[i]);
        match o {
            Some(text) => {
                let ghost before = body@;
                if body.len() > 0 {
                    body.push(',');
                }
                let tv = str_chars(text.as_str());
                push_chars(&mut body, tv.as_slice());
                proof {
                    let t = json_items(snapshot@, sel, ccv, ib, iv.take(i + 1));
                    assert(body@ =~= t.0);
                }
            },
            None => {},
        }
        files = files.saturating_add(f);
        folders = folders.saturating_add(d);
        i = i + 1;
    }
    proof {
        assert(iv.take(items@.len() as int) =~= iv);
    }
    let mut compact: Vec<char> = Vec::new();
    compact.push('[');
    push_chars(&mut compact, body.as_slice());
    compact.push(']');
    let compact_text = chars_to_string(compact.as_slice());
    proof {
        assert(compact@ =~= json_compact(snapshot@, selected_items@, current_dir@, ib).0);
    }
    match json_pretty(compact_text.as_str()) {
        Some(s) => Ok((s, CopyStats { files, folders })),
        None => Err(JsonOutputError::Unparsable),
    }
}

} // verus!
