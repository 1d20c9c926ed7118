//! The walk of a selected directory shared by the XML, Markdown and JSON
//! formats: the entries of its listing that are themselves selected are
//! written in listing order, files with their content and directories with
//! their own selected entries, each path shown relative to the base
//! directory.

use vstd::prelude::*;
use crate::text::{push_chars, push_str, replace_char, replace_char_chars, str_chars, chars_to_string};
use crate::paths::{components, comps_view, parse_components, strip_prefix_of, display_comps};
use vstd::std_specs::iter::IteratorSpec;
use crate::models::{OutputFormat, CopyStats, IgnoreConfig};
use crate::output::format::{
    xml_escaped, xml_escape, json_escaped, json_escape, file_content_text,
    format_file_content_chars, output_binary, is_binary_file,
};
use crate::output::snapshot::{
    FsEntry, EntryKind, lookup, kind_of, comps_in, lookup_index, display_parsed, strip_parsed,
    comps_list, parse_all,
};

verus! {

/// The components of each selected path.
pub open spec fn sel_view(selc: Seq<Vec<Vec<char>>>) -> Seq<Seq<Seq<char>>> {
    selc.map_values(|x: Vec<Vec<char>>| comps_view(x@))
}

/// The greatest component count among `sel`.
pub open spec fn max_len(sel: Seq<Seq<Seq<char>>>) -> nat
    decreases sel.len(),
{
    if sel.len() == 0 {
        0
    } else {
        let m = max_len(sel.drop_last());
        if sel.last().len() > m {
            sel.last().len()
        } else {
            m
        }
    }
}

/// How many more levels a walk from `dir` can descend through selected
/// directories.
pub open spec fn depth_left(sel: Seq<Seq<Seq<char>>>, dir: Seq<Seq<char>>) -> nat {
    if dir.len() <= max_len(sel) {
        (max_len(sel) + 1 - dir.len()) as nat
    } else {
        0
    }
}

/// Every selected path has at most `max_len` components.
pub proof fn lemma_max_len(sel: Seq<Seq<Seq<char>>>, x: Seq<Seq<char>>)
    requires
        sel.contains(x),
    ensures
        x.len() <= max_len(sel),
    decreases sel.len(),
{
    if sel.last() != x {
        let i = choose|i: int| 0 <= i < sel.len() && sel[i] == x;
        assert(sel.drop_last()[i] == x);
        lemma_max_len(sel.drop_last(), x);
    }
}

/// The file's text recorded in the snapshot, if any.
pub open spec fn content_of(snap: Seq<FsEntry>, c: Seq<Seq<char>>) -> Option<Seq<char>> {
    match lookup(snap, c) {
        Some(e) => match e.content {
            Some(t) => Some(t@),
            None => None,
        },
        None => None,
    }
}

/// What a format writes for a file shown as `rel`, and whether it counts
/// the file: binary files only when they are included; in XML and Markdown
/// a text file is counted even when its content could not be read; in JSON
/// it is left out then. The LLM format writes nothing here and counts only
/// included binary files.
pub open spec fn file_piece(
    fmt: OutputFormat,
    rel: Seq<char>,
    binary: bool,
    content: Option<Seq<char>>,
    sln: bool,
    include_binary: bool,
) -> (Seq<char>, nat) {
    match fmt {
        OutputFormat::Xml => if binary {
            if include_binary {
                ("<file name=\""@ + rel + "\">\n</file>\n"@, 1)
            } else {
                (seq![], 0)
            }
        } else {
            (
                "<file name=\""@ + rel + "\">\n"@ + match content {
                    Some(c) => xml_escaped(file_content_text(c, sln)),
                    None => seq![],
                } + "</file>\n"@,
                1,
            )
        },
        OutputFormat::Markdown => if binary {
            if include_binary {
                ("```"@ + rel + "\n<binary file>\n```\n\n"@, 1)
            } else {
                (seq![], 0)
            }
        } else {
            (
                "```"@ + rel + "\n"@ + match content {
                    Some(c) => file_content_text(c, sln),
                    None => seq![],
                } + "```\n\n"@,
                1,
            )
        },
        OutputFormat::Json => if binary {
            if include_binary {
                ("{\"type\":\"file\",\"path\":\""@ + rel + "\",\"binary\":true}"@, 1)
            } else {
                (seq![], 0)
            }
        } else {
            match content {
                Some(c) => (
                    "{\"type\":\"file\",\"path\":\""@ + rel + "\",\"binary\":false,\"content\":\""@
                        + json_escaped(c) + "\"}"@,
                    1,
                ),
                None => (seq![], 0),
            }
        },
        OutputFormat::Llm => if binary && include_binary {
            (seq![], 1)
        } else {
            (seq![], 0)
        },
    }
}

/// What a format writes before and after the entries of a nested
/// directory shown as `rel`, and whether it counts the directory.
pub open spec fn dir_open(fmt: OutputFormat, rel: Seq<char>) -> Seq<char> {
    match fmt {
        OutputFormat::Xml => "<folder name=\""@ + rel + "\">\n"@,
        OutputFormat::Markdown => "### "@ + rel + "/\n\n"@,
        OutputFormat::Json => "{\"type\":\"directory\",\"path\":\""@ + rel + "\",\"contents\":["@,
        OutputFormat::Llm => seq![],
    }
}

/// See `dir_open`.
pub open spec fn dir_close(fmt: OutputFormat) -> Seq<char> {
    match fmt {
        OutputFormat::Xml => "</folder>\n"@,
        OutputFormat::Markdown => seq![],
        OutputFormat::Json => "]}"@,
        OutputFormat::Llm => seq![],
    }
}

/// See `dir_open`.
pub open spec fn dir_counted(fmt: OutputFormat) -> nat {
    match fmt {
        OutputFormat::Json => 0,
        _ => 1,
    }
}

/// The text a walk writes for a path, relative to the base.
pub open spec fn shown(rest: Seq<Seq<char>>) -> Seq<char> {
    replace_char(display_comps(rest), '\\', '/')
}

/// The walk of the directory with components `dir`: the text written,
/// the files and folders counted, and whether every directory on the way
/// could be listed. When one could not, the text stops after the opening of
/// the directory that failed and the counts are meaningless.
pub open spec fn walk_dir(
    snap: Seq<FsEntry>,
    sel: Seq<Seq<Seq<char>>>,
    base: Seq<Seq<char>>,
    fmt: OutputFormat,
    sln: bool,
    include_binary: bool,
    dir: Seq<Seq<char>>,
) -> (Seq<char>, nat, nat, bool)
    decreases depth_left(sel, dir), 2nat, 0nat,
{
    match lookup(snap, dir) {
        Some(d) => match d.listing {
            Some(l) => walk_entries(snap, sel, base, fmt, sln, include_binary, dir, l@, l@.len()),
            None => (seq![], 0, 0, false),
        },
        None => (seq![], 0, 0, false),
    }
}

/// The walk over the first `n` entries of the listing `l` of `dir`: entries
/// that are not selected are passed over; in JSON a comma separates an
/// entry that writes an object from the objects written before it, so the
/// text is a comma-separated list of objects.
pub open spec fn walk_entries(
    snap: Seq<FsEntry>,
    sel: Seq<Seq<Seq<char>>>,
    base: Seq<Seq<char>>,
    fmt: OutputFormat,
    sln: bool,
    include_binary: bool,
    dir: Seq<Seq<char>>,
    l: Seq<String>,
    n: nat,
) -> (Seq<char>, nat, nat, bool)
    decreases depth_left(sel, dir), 1nat, n,
{
    if n == 0 || n > l.len() {
        (seq![], 0, 0, true)
    } else {
        let prev = walk_entries(snap, sel, base, fmt, sln, include_binary, dir, l, (n - 1) as nat);
        let e = l[n - 1]@;
        if !prev.3 || !sel.contains(components(e)) {
            prev
        } else {
            let p = walk_entry(snap, sel, base, fmt, sln, include_binary, dir, e);
            let comma: Seq<char> = if fmt == OutputFormat::Json && prev.0.len() > 0 && p.0.len() > 0 {
                seq![',']
            } else {
                seq![]
            };
            (prev.0 + comma + p.0, prev.1 + p.1, prev.2 + p.2, p.3)
        }
    }
}

/// What a selected entry `e` of the listing of `dir` adds: nothing when it
/// does not lie under the base; otherwise its file piece, or its directory
/// opened, walked and closed.
pub open spec fn walk_entry(
    snap: Seq<FsEntry>,
    sel: Seq<Seq<Seq<char>>>,
    base: Seq<Seq<char>>,
    fmt: OutputFormat,
    sln: bool,
    include_binary: bool,
    dir: Seq<Seq<char>>,
    e: Seq<char>,
) -> (Seq<char>, nat, nat, bool)
    decreases depth_left(sel, dir), 0nat, 0nat,
{
    let ec = components(e);
    match strip_prefix_of(ec, base) {
        None => (seq![], 0, 0, true),
        Some(rest) => {
            let rel = shown(rest);
            match kind_of(snap, ec) {
                EntryKind::File => {
                    let p = file_piece(fmt, rel, output_binary(e), content_of(snap, ec), sln, include_binary);
                    (p.0, p.1, 0, true)
                },
                EntryKind::Dir => if fmt == OutputFormat::Llm || ec.len() <= dir.len() || !sel.contains(ec) {
                    (dir_open(fmt, rel) + dir_close(fmt), 0, dir_counted(fmt), true)
                } else {
                    proof {
                        lemma_max_len(sel, ec);
                    }
                    let sub = walk_dir(snap, sel, base, fmt, sln, include_binary, ec);
                    if sub.3 {
                        (dir_open(fmt, rel) + sub.0 + dir_close(fmt), sub.1, sub.2 + dir_counted(fmt), true)
                    } else {
                        (dir_open(fmt, rel), 0, 0, false)
                    }
                },
                EntryKind::Missing => (seq![], 0, 0, true),
            }
        },
    }
}

/// Once a walk has failed, the later entries change nothing.
proof fn lemma_walk_entries_stops(
    snap: Seq<FsEntry>,
    sel: Seq<Seq<Seq<char>>>,
    base: Seq<Seq<char>>,
    fmt: OutputFormat,
    sln: bool,
    include_binary: bool,
    dir: Seq<Seq<char>>,
    l: Seq<String>,
    n: nat,
    m: nat,
)
    requires
        n <= m <= l.len(),
        !walk_entries(snap, sel, base, fmt, sln, include_binary, dir, l, n).3,
    ensures
        walk_entries(snap, sel, base, fmt, sln, include_binary, dir, l, m)
            == walk_entries(snap, sel, base, fmt, sln, include_binary, dir, l, n),
    decreases m - n,
{
    if m > n {
        lemma_walk_entries_stops(snap, sel, base, fmt, sln, include_binary, dir, l, n, (m - 1) as nat);
    }
}

/// The view of an optional string.
pub open spec fn opt_text(o: Option<String>) -> Option<Seq<char>> {
    match o {
        Some(t) => Some(t@),
        None => None,
    }
}

/// Appends what `file_piece` writes and returns whether the file counts.
pub(crate) fn push_file_piece(
    out: &mut Vec<char>,
    fmt: OutputFormat,
    rel: &[char],
    binary: bool,
    content: &Option<String>,
    sln: bool,
    include_binary: bool,
) -> (r: usize)
    ensures
        final(out)@ == old(out)@ + file_piece(fmt, rel@, binary, opt_text(*content), sln, include_binary).0,
        r == file_piece(fmt, rel@, binary, opt_text(*content), sln, include_binary).1,
        r <= 1,
        fmt != OutputFormat::Llm ==> r <= final(out)@.len() - old(out)@.len(),
{
    proof {
        reveal_strlit("\">\n</file>\n");
        reveal_strlit("</file>\n");
        reveal_strlit("\n<binary file>\n```\n\n");
        reveal_strlit("```\n\n");
        reveal_strlit("\",\"binary\":true}");
        reveal_strlit("\"}");
    }
    let ghost start = out@;
    let ghost piece = file_piece(fmt, rel@, binary, opt_text(*content), sln, include_binary);
    match fmt {
        OutputFormat::Xml => {
            if binary {
                if include_binary {
                    push_str(out, "<file name=\"");
                    push_chars(out, rel);
                    push_str(out, "\">\n</file>\n");
                    proof {
                        assert(out@ =~= start + piece.0);
                    }
                    1
                } else {
                    proof {
                        assert(out@ =~= start + piece.0);
                    }
                    0
                }
            } else {
                push_str(out, "<file name=\"");
                push_chars(out, rel);
                push_str(out, "\">\n");
                let ghost mid = out@;
                match content {
                    Some(c) => {
                        let cv = str_chars(c.as_str());
                        let formatted = format_file_content_chars(cv.as_slice(), sln);
                        let escaped = xml_escape(formatted.as_slice());
                        push_chars(out, escaped.as_slice());
                    },
                    None => {},
                }
                push_str(out, "</file>\n");
                proof {
                    assert(out@ =~= start + piece.0);
                }
                1
            }
        },
        OutputFormat::Markdown => {
            if binary {
                if include_binary {
                    push_str(out, "```");
                    push_chars(out, rel);
                    push_str(out, "\n<binary file>\n```\n\n");
                    proof {
                        assert(out@ =~= start + piece.0);
                    }
                    1
                } else {
                    proof {
                        assert(out@ =~= start + piece.0);
                    }
                    0
                }
            } else {
                push_str(out, "```");
                push_chars(out, rel);
                push_str(out, "\n");
                match content {
                    Some(c) => {
                        let cv = str_chars(c.as_str());
                        let formatted = format_file_content_chars(cv.as_slice(), sln);
                        push_chars(out, formatted.as_slice());
                    },
                    None => {},
                }
                push_str(out, "```\n\n");
                proof {
                    assert(out@ =~= start + piece.0);
                }
                1
            }
        },
        OutputFormat::Json => {
            if binary {
                if include_binary {
                    push_str(out, "{\"type\":\"file\",\"path\":\"");
                    push_chars(out, rel);
                    push_str(out, "\",\"binary\":true}");
                    proof {
                        assert(out@ =~= start + piece.0);
                    }
                    1
                } else {
                    proof {
                        assert(out@ =~= start + piece.0);
                    }
                    0
                }
            } else {
                match content {
                    Some(c) => {
                        push_str(out, "{\"type\":\"file\",\"path\":\"");
                        push_chars(out, rel);
                        push_str(out, "\",\"binary\":false,\"content\":\"");
                        let escaped = json_escape(c.as_str());
                        push_chars(out, escaped.as_slice());
                        push_str(out, "\"}");
                        proof {
                            assert(out@ =~= start + piece.0);
                        }
                        1
                    },
                    None => {
                        proof {
                            assert(out@ =~= start + piece.0);
                        }
                        0
                    },
                }
            }
        },
        OutputFormat::Llm => {
            proof {
                assert(out@ =~= start + piece.0);
            }
            if binary && include_binary {
                1
            } else {
                0
            }
        },
    }
}

/// Appends `dir_open(fmt, rel)`.
fn push_dir_open(out: &mut Vec<char>, fmt: OutputFormat, rel: &[char])
    ensures
        final(out)@ == old(out)@ + dir_open(fmt, rel@),
        fmt != OutputFormat::Llm ==> final(out)@.len() > old(out)@.len(),
{
    proof {
        reveal_strlit("\">\n");
        reveal_strlit("/\n\n");
        reveal_strlit("\",\"contents\":[");
    }
    let ghost start = out@;
    match fmt {
        OutputFormat::Xml => {
            push_str(out, "<folder name=\"");
            push_chars(out, rel);
            push_str(out, "\">\n");
        },
        OutputFormat::Markdown => {
            push_str(out, "### ");
            push_chars(out, rel);
            push_str(out, "/\n\n");
        },
        OutputFormat::Json => {
            push_str(out, "{\"type\":\"directory\",\"path\":\"");
            push_chars(out, rel);
            push_str(out, "\",\"contents\":[");
        },
        OutputFormat::Llm => {},
    }
    proof {
        assert(out@ =~= start + dir_open(fmt, rel@));
    }
}

/// Appends `dir_close(fmt)`.
fn push_dir_close(out: &mut Vec<char>, fmt: OutputFormat)
    ensures
        final(out)@ == old(out)@ + dir_close(fmt),
{
    let ghost start = out@;
    match fmt {
        OutputFormat::Xml => push_str(out, "</folder>\n"),
        OutputFormat::Markdown => {},
        OutputFormat::Json => push_str(out, "]}"),
        OutputFormat::Llm => {},
    }
    proof {
        assert(out@ =~= start + dir_close(fmt));
    }
}

/// The counts of a successful walk fit in the text it wrote, except in the
/// LLM format, which writes nothing.
pub open spec fn counts_fit(fmt: OutputFormat, files: nat, folders: nat, written: int) -> bool {
    fmt == OutputFormat::Llm || files + folders <= written
}

/// Appends the walk of the directory with components `dirc` (see `walk_dir`).
pub(crate) fn walk_dir_exec(
    snap: &Vec<FsEntry>,
    selc: &Vec<Vec<Vec<char>>>,
    basec: &Vec<Vec<char>>,
    fmt: OutputFormat,
    sln: bool,
    include_binary: bool,
    dirc: &Vec<Vec<char>>,
    out: &mut Vec<char>,
) -> (r: (usize, usize, bool))
    ensures
        ({
            let w = walk_dir(snap@, sel_view(selc@), comps_view(basec@), fmt, sln, include_binary, comps_view(dirc@));
            &&& final(out)@ == old(out)@ + w.0
            &&& r.2 == w.3
            &&& w.3 ==> r.0 == w.1 && r.1 == w.2
            &&& w.3 ==> counts_fit(fmt, w.1, w.2, final(out)@.len() - old(out)@.len())
        }),
    decreases depth_left(sel_view(selc@), comps_view(dirc@)), 2nat,
{
    let ghost sel = sel_view(selc@);
    let ghost base = comps_view(basec@);
    let ghost dir = comps_view(dirc@);
    let ghost start = out@;
    let k = match lookup_index(snap, dirc) {
        Some(k) => k,
        None => {
            proof {
                assert(out@ =~= start + seq![]);
            }
            return (0, 0, false);
        },
    };
    let l = match &snap[k].listing {
        Some(l) => l,
        None => {
            proof {
                assert(out@ =~= start + seq![]);
            }
            return (0, 0, false);
        },
    };
    let ghost lv = l@;
    proof {
        assert(walk_dir(snap@, sel, base, fmt, sln, include_binary, dir)
            == walk_entries(snap@, sel, base, fmt, sln, include_binary, dir, lv, lv.len()));
    }
    let mut files: usize = 0;
    let mut folders: usize = 0;
    let start_len = out.len();
    let mut i: usize = 0;
    proof {
        assert(out@ =~= start + seq![]);
        assert(lv.take(0) =~= Seq::<String>::empty());
    }
    while i < l.len()
        invariant
            sel == sel_view(selc@),
            base == comps_view(basec@),
            dir == comps_view(dirc@),
            lv == l@,
            i <= lv.len(),
            ({
                let w = walk_entries(snap@, sel, base, fmt, sln, include_binary, dir, lv, i as nat);
                &&& w.3
                &&& out@ == start + w.0
                &&& files == w.1
                &&& folders == w.2
                &&& if fmt == OutputFormat::Llm { files + folders <= i } else { files + folders <= out@.len() - start.len() }
            }),
            start == old(out)@,
            start_len == start.len(),
            walk_dir(snap@, sel, base, fmt, sln, include_binary, dir)
                == walk_entries(snap@, sel, base, fmt, sln, include_binary, dir, lv, lv.len()),
        decreases lv.len() - i,
    {
        let (f2, d2, ok) = walk_step(snap, selc, basec, fmt, sln, include_binary, dirc, l, i, out, files, folders, start_len, Ghost(start));
        if !ok {
            proof {
                lemma_walk_entries_stops(snap@, sel, base, fmt, sln, include_binary, dir, lv, (i + 1) as nat, lv.len());
            }
            return (0, 0, false);
        }
        files = f2;
        folders = d2;
        i = i + 1;
    }
    (files, folders, true)
}

/// One entry of a directory's walk: appends what `walk_entries` adds for
/// entry `i` of the listing `l`; `start_len` is the length of the text
/// before the directory's first entry.
#[verifier::rlimit(40)]
fn walk_step(
    snap: &Vec<FsEntry>,
    selc: &Vec<Vec<Vec<char>>>,
    basec: &Vec<Vec<char>>,
    fmt: OutputFormat,
    sln: bool,
    include_binary: bool,
    dirc: &Vec<Vec<char>>,
    l: &Vec<String>,
    i: usize,
    out: &mut Vec<char>,
    files: usize,
    folders: usize,
    start_len: usize,
    Ghost(start): Ghost<Seq<char>>,
) -> (r: (usize, usize, bool))
    requires
        i < l@.len(),
        start_len == start.len(),
        ({
            let w = walk_entries(snap@, sel_view(selc@), comps_view(basec@), fmt, sln, include_binary, comps_view(dirc@), l@, i as nat);
            &&& w.3
            &&& old(out)@ == start + w.0
            &&& files == w.1
            &&& folders == w.2
            &&& if fmt == OutputFormat::Llm { files + folders <= i } else { files + folders <= old(out)@.len() - start.len() }
        }),
    ensures
        ({
            let w = walk_entries(snap@, sel_view(selc@), comps_view(basec@), fmt, sln, include_binary, comps_view(dirc@), l@, (i + 1) as nat);
            &&& final(out)@ == start + w.0
            &&& r.2 == w.3
            &&& w.3 ==> r.0 == w.1 && r.1 == w.2
            &&& w.3 ==> if fmt == OutputFormat::Llm { r.0 + r.1 <= i + 1 } else { r.0 + r.1 <= final(out)@.len() - start.len() }
        }),
    decreases depth_left(sel_view(selc@), comps_view(dirc@)), 1nat,
{
    let ghost sel = sel_view(selc@);
    let ghost base = comps_view(basec@);
    let ghost dir = comps_view(dirc@);
    let ghost lv = l@;
    let ghost before = out@;
    let e: &String = &l[i];
    let ec = parse_components(e.as_str());
    let ghost ecv = comps_view(ec@);
    proof {
        assert(ecv == components(lv[i as int]@));
    }
    if !comps_in(selc, &ec) {
        return (files, folders, true);
    }
    let ghost prev = walk_entries(snap@, sel, base, fmt, sln, include_binary, dir, lv, i as nat);
    let mut piece: Vec<char> = Vec::new();
    let (df, dd, ok) = walk_entry_exec(snap, selc, basec, fmt, sln, include_binary, dirc, e.as_str(), &ec, &mut piece);
    let ghost p = walk_entry(snap@, sel, base, fmt, sln, include_binary, dir, lv[i as int]@);
    proof {
        assert(piece@ =~= p.0);
    }
    let ghost comma: Seq<char> = if fmt == OutputFormat::Json && prev.0.len() > 0 && p.0.len() > 0 {
        seq![',']
    } else {
        seq![]
    };
    if fmt == OutputFormat::Json && out.len() > start_len && piece.len() > 0 {
        out.push(',');
    }
    proof {
        assert(out@ =~= before + comma);
    }
    push_chars(out, piece.as_slice());
    let olen = out.len();
    let llen = l.len();
    proof {
        let w1 = walk_entries(snap@, sel, base, fmt, sln, include_binary, dir, lv, (i + 1) as nat);
        assert(w1 == (prev.0 + comma + p.0, prev.1 + p.1, prev.2 + p.2, p.3));
        assert(out@ =~= start + w1.0);
    }
    if !ok {
        return (files, folders, false);
    }
    (files + df, folders + dd, true)
}

/// Appends what `walk_entry` adds for the selected entry `e` (parsed as `ec`).
#[verifier::rlimit(40)]
fn walk_entry_exec(
    snap: &Vec<FsEntry>,
    selc: &Vec<Vec<Vec<char>>>,
    basec: &Vec<Vec<char>>,
    fmt: OutputFormat,
    sln: bool,
    include_binary: bool,
    dirc: &Vec<Vec<char>>,
    e: &str,
    ec: &Vec<Vec<char>>,
    out: &mut Vec<char>,
) -> (r: (usize, usize, bool))
    requires
        comps_view(ec@) == components(e@),
        sel_view(selc@).contains(comps_view(ec@)),
    ensures
        ({
            let w = walk_entry(snap@, sel_view(selc@), comps_view(basec@), fmt, sln, include_binary, comps_view(dirc@), e@);
            &&& final(out)@ == old(out)@ + w.0
            &&& r.2 == w.3
            &&& w.3 ==> r.0 == w.1 && r.1 == w.2
            &&& w.3 ==> if fmt == OutputFormat::Llm { r.0 + r.1 <= 1 } else { r.0 + r.1 <= final(out)@.len() - old(out)@.len() }
        }),
    decreases depth_left(sel_view(selc@), comps_view(dirc@)), 0nat,
{
    let ghost sel = sel_view(selc@);
    let ghost base = comps_view(basec@);
    let ghost dir = comps_view(dirc@);
    let ghost ecv = comps_view(ec@);
    let ghost start = out@;
    let rest = match strip_parsed(ec, basec) {
        None => {
            proof {
                assert(out@ =~= start + seq![]);
            }
            return (0, 0, true);
        },
        Some(rest) => rest,
    };
    let shown_raw = display_parsed(rest.as_slice());
    let rel = replace_char_chars(shown_raw.as_slice(), '\\', '/');
    proof {
        assert(rel@ == shown(comps_view(rest@)));
    }
    let idx = lookup_index(snap, ec);
    let j: usize = match idx {
        Some(j) => j,
        None => snap.len(),
    };
    let kind = if j < snap.len() {
        snap[j].kind
    } else {
        EntryKind::Missing
    };
    proof {
        assert(kind == kind_of(snap@, ecv));
    }
    match kind {
        EntryKind::File => {
            let binary = is_binary_file(e);
            proof {
                assert(opt_text(snap@[j as int].content) == content_of(snap@, ecv));
            }
            let counted = push_file_piece(out, fmt, rel.as_slice(), binary, &snap[j].content, sln, include_binary);
            (counted, 0, true)
        },
        EntryKind::Dir => {
            if fmt == OutputFormat::Llm || ec.len() <= dirc.len() {
                push_dir_open(out, fmt, rel.as_slice());
                push_dir_close(out, fmt);
                proof {
                    assert(out@ =~= start + walk_entry(snap@, sel, base, fmt, sln, include_binary, dir, e@).0);
                }
                if fmt != OutputFormat::Json {
                    (0, 1, true)
                } else {
                    (0, 0, true)
                }
            } else {
                push_dir_open(out, fmt, rel.as_slice());
                proof {
                    lemma_max_len(sel, ecv);
                }
                let mut sub: Vec<char> = Vec::new();
                let (sf, sd, ok) = walk_dir_exec(snap, selc, basec, fmt, sln, include_binary, ec, &mut sub);
                if !ok {
                    return (0, 0, false);
                }
                push_chars(out, sub.as_slice());
                push_dir_close(out, fmt);
                let olen = out.len();
                proof {
                    assert(out@ =~= start + walk_entry(snap@, sel, base, fmt, sln, include_binary, dir, e@).0);
                }
                if fmt != OutputFormat::Json {
                    (sf, sd + 1, true)
                } else {
                    (sf, sd, true)
                }
            }
        },
        EntryKind::Missing => {
            proof {
                assert(out@ =~= start + seq![]);
            }
            (0, 0, true)
        },
    }
}

/// A directory on the way of a walk could not be listed.
#[derive(Debug, Clone, Copy, PartialEq, Eq, Structural)]
pub enum WalkError {
    UnreadableDirectory,
}

/// The components of every selected path, parsed.
pub fn parse_selection(selected_items: &Vec<String>) -> (r: Vec<Vec<Vec<char>>>)
    ensures
        sel_view(r@) == comps_list(selected_items@),
{
    let r = parse_all(selected_items);
    proof {
        assert(sel_view(r@) =~= comps_list(selected_items@));
    }
    r
}

/// Appends to `output` the entries of the directory `path` that are
/// selected, in listing order, in the given format (see `walk_dir`), each
/// shown relative to `base_path`; fails when a directory on the way cannot
/// be listed, after writing what came before it.
pub fn process_directory(
    path: &str,
    output: &mut String,
    base_path: &str,
    selected_items: &Vec<String>,
    output_format: OutputFormat,
    show_line_numbers: bool,
    ignore_config: &IgnoreConfig,
    snapshot: &Vec<FsEntry>,
) -> (r: Result<CopyStats, WalkError>)
    ensures
        ({
            let w = walk_dir(
                snapshot@,
                comps_list(selected_items@),
                components(base_path@),
                output_format,
                show_line_numbers,
                ignore_config.include_binary_files,
                components(path@),
            );
            &&& final(output)@ == old(output)@ + w.0
            &&& (r is Ok <==> w.3)
            &&& (r matches Ok(s) ==> s.files == w.1 && s.folders == w.2)
        }),
{
    let selc = parse_selection(selected_items);
    let basec = parse_components(base_path);
    let dirc = parse_components(path);
    let mut buf = str_chars(output.as_str());
    let (files, folders, ok) = walk_dir_exec(
        snapshot,
        &selc,
        &basec,
        output_format,
        show_line_numbers,
        ignore_config.include_binary_files,
        &dirc,
        &mut buf,
    );
    *output = chars_to_string(buf.as_slice());
    proof {
        assert(comps_view(dirc@) == components(path@));
        assert(comps_view(basec@) == components(base_path@));
        assert(sel_view(selc@) == comps_list(selected_items@));
    }
    if ok {
        Ok(CopyStats { files, folders })
    } else {
        Err(WalkError::UnreadableDirectory)
    }
}

} // verus!
