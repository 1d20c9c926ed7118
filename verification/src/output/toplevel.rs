//! The selected items a format lists at the top: the distinct selected
//! paths whose parent is not itself selected, in path order; and how the
//! XML and Markdown formats write each of them.

use vstd::prelude::*;
use crate::text::{push_chars, push_str, replace_char, replace_char_chars, chars_to_string};
use crate::paths::{components, comps_view, parse_components, parent_of, comps_lt, comps_less, lemma_comps_lt_asym, lemma_comps_lt_trans, lemma_comps_lt_total};
use crate::models::{OutputFormat, CopyStats, IgnoreConfig};
use crate::output::format::output_binary;
use crate::output::format::is_binary_file;
use crate::output::snapshot::{
    FsEntry, EntryKind, kind_of, comps_in, comps_eq, lookup_index, relative_text, relative_display,
    comps_list,
};
use crate::output::directory::{
    walk_dir, file_piece, content_of, opt_text, sel_view, parse_selection, counts_fit,
    walk_dir_exec, push_file_piece,
};

verus! {

/// The paths of `v` with repeats (by components) left out, each kept where
/// it first occurs, as a set of paths keeps them.
pub open spec fn distinct_paths(v: Seq<Seq<char>>) -> Seq<Seq<char>>
    decreases v.len(),
{
    if v.len() == 0 {
        seq![]
    } else {
        let d = distinct_paths(v.drop_last());
        if path_listed(d, v.last()) {
            d
        } else {
            d.push(v.last())
        }
    }
}

/// Whether a path with the components of `p` is in `d`.
pub open spec fn path_listed(d: Seq<Seq<char>>, p: Seq<char>) -> bool {
    exists|i: int| 0 <= i < d.len() && components(#[trigger] d[i]) == components(p)
}

/// Whether a format lists `p` at the top: its parent is not selected.
pub open spec fn is_top(p: Seq<char>, sel: Seq<Seq<Seq<char>>>) -> bool {
    match parent_of(components(p)) {
        Some(q) => !sel.contains(q),
        None => true,
    }
}

/// The paths of `v` that are listed at the top, in order.
pub open spec fn keep_top(v: Seq<Seq<char>>, sel: Seq<Seq<Seq<char>>>) -> Seq<Seq<char>>
    decreases v.len(),
{
    if v.len() == 0 {
        seq![]
    } else if is_top(v.last(), sel) {
        keep_top(v.drop_last(), sel).push(v.last())
    } else {
        keep_top(v.drop_last(), sel)
    }
}

/// `x` inserted into `s` before the first path that follows it.
pub open spec fn insert_by_path(x: Seq<char>, s: Seq<Seq<char>>) -> Seq<Seq<char>>
    decreases s.len(),
{
    if s.len() == 0 {
        seq![x]
    } else if comps_lt(components(x), components(s[0])) {
        seq![x] + s
    } else {
        seq![s[0]] + insert_by_path(x, s.drop_first())
    }
}

/// `s` sorted by path order (insertion sort).
pub open spec fn sort_by_path(s: Seq<Seq<char>>) -> Seq<Seq<char>>
    decreases s.len(),
{
    if s.len() == 0 {
        seq![]
    } else {
        insert_by_path(s.last(), sort_by_path(s.drop_last()))
    }
}

/// The texts of a list of strings.
pub open spec fn texts(v: Seq<String>) -> Seq<Seq<char>> {
    v.map_values(|s: String| s@)
}

/// The items a format lists at the top for a selection.
pub open spec fn top_items(selected: Seq<String>) -> Seq<Seq<char>> {
    sort_by_path(keep_top(distinct_paths(texts(selected)), comps_list(selected)))
}

/// The distinct selected paths, with their parsed components.
pub(crate) fn distinct_selection(selected: &Vec<String>) -> (r: (Vec<String>, Vec<Vec<Vec<char>>>))
    ensures
        texts(r.0@) == distinct_paths(texts(selected@)),
        r.1@.len() == r.0@.len(),
        forall|k: int| 0 <= k < r.1@.len() ==> comps_view(#[trigger] r.1@[k]@) == components(r.0@[k]@),
{
    let mut out: Vec<String> = Vec::new();
    let mut outc: Vec<Vec<Vec<char>>> = Vec::new();
    let ghost tv = texts(selected@);
    let mut i: usize = 0;
    while i < selected.len()
        invariant
            tv == texts(selected@),
            i <= selected@.len(),
            texts(out@) == distinct_paths(tv.take(i as int)),
            outc@.len() == out@.len(),
            forall|k: int| 0 <= k < outc@.len() ==> comps_view(#[trigger] outc@[k]@) == components(out@[k]@),
        decreases selected@.len() - i,
    {
        let c = parse_components(selected[i].as_str());
        proof {
            assert(tv.take(i + 1).drop_last() =~= tv.take(i as int));
            assert(tv.take(i + 1).last() == selected@[i as int]@);
            assert(comps_view(c@) =~= components(selected@[i as int]@));
        }
        let listed = comps_in(&outc, &c);
        proof {
            let d = texts(out@);
            if listed {
                let k = choose|k: int| 0 <= k < outc@.len() && sel_view(outc@)[k] == comps_view(c@);
                assert(components(d[k]) == components(selected@[i as int]@));
                assert(path_listed(d, selected@[i as int]@));
            } else {
                if path_listed(d, selected@[i as int]@) {
                    let k = choose|k: int| 0 <= k < d.len() && components(#[trigger] d[k]) == components(selected@[i as int]@);
                    assert(sel_view(outc@)[k] == comps_view(c@));
                    assert(false);
                }
            }
        }
        if !listed {
            out.push(selected[i].clone());
            outc.push(c);
            proof {
                assert(texts(out@) =~= distinct_paths(tv.take(i + 1)));
            }
        }
        i = i + 1;
    }
    proof {
        assert(tv.take(selected@.len() as int) =~= tv);
    }
    (out, outc)
}

/// A copy of the first `n` components of a parsed path.
fn copy_comps(c: &Vec<Vec<char>>, n: usize) -> (r: Vec<Vec<char>>)
    requires
        n <= c@.len(),
    ensures
        comps_view(r@) == comps_view(c@).take(n as int),
{
    let mut out: Vec<Vec<char>> = Vec::new();
    let mut k: usize = 0;
    while k < n
        invariant
            n <= c@.len(),
            k <= n,
            comps_view(out@) == comps_view(c@).take(k as int),
        decreases n - k,
    {
        let mut piece: Vec<char> = Vec::new();
        push_chars(&mut piece, c[k].as_slice());
        let ghost before = out@;
        out.push(piece);
        k = k + 1;
        proof {
            assert(piece@ == c@[k - 1]@);
            assert(comps_view(out@) =~= comps_view(before).push(piece@));
            assert(comps_view(out@) =~= comps_view(c@).take(k as int));
        }
    }
    out
}

/// Whether the parent of a parsed path is among the selected paths.
fn parent_selected(c: &Vec<Vec<char>>, selc: &Vec<Vec<Vec<char>>>) -> (r: bool)
    ensures
        r == !is_top_comps(comps_view(c@), sel_view(selc@)),
{
    let n = c.len();
    if n == 0 {
        return false;
    }
    let root = ['/'];
    proof {
        assert(root@ =~= seq!['/']);
        assert(comps_view(c@).last() == c@[n - 1]@);
    }
    if crate::text::chars_eq(c[n - 1].as_slice(), root.as_slice()) {
        return false;
    }
    let parent = copy_comps(c, n - 1);
    proof {
        assert(comps_view(c@).drop_last() =~= comps_view(c@).take(n - 1));
    }
    comps_in(selc, &parent)
}

/// `is_top` on components.
pub open spec fn is_top_comps(c: Seq<Seq<char>>, sel: Seq<Seq<Seq<char>>>) -> bool {
    match parent_of(c) {
        Some(q) => !sel.contains(q),
        None => true,
    }
}

/// Inserts `x` (parsed as `xc`) into the path-ordered list `s` (parsed as `sc`).
fn insert_path(
    s: &mut Vec<String>,
    sc: &mut Vec<Vec<Vec<char>>>,
    x: String,
    xc: Vec<Vec<char>>,
)
    requires
        comps_view(xc@) == components(x@),
        old(sc)@.len() == old(s)@.len(),
        forall|k: int| 0 <= k < old(sc)@.len() ==> comps_view(#[trigger] old(sc)@[k]@) == components(old(s)@[k]@),
    ensures
        texts(final(s)@) == insert_by_path(x@, texts(old(s)@)),
        final(sc)@.len() == final(s)@.len(),
        forall|k: int| 0 <= k < final(sc)@.len() ==> comps_view(#[trigger] final(sc)@[k]@) == components(final(s)@[k]@),
{
    let ghost t = texts(s@);
    let mut j: usize = 0;
    let mut found = false;
    proof {
        assert(t.skip(0) =~= t);
        assert(t.take(0) + insert_by_path(x@, t) =~= insert_by_path(x@, t));
    }
    while !found && j < s.len()
        invariant
            t == texts(s@),
            j <= s@.len(),
            sc@.len() == s@.len(),
            forall|k: int| 0 <= k < sc@.len() ==> comps_view(#[trigger] sc@[k]@) == components(s@[k]@),
            comps_view(xc@) == components(x@),
            insert_by_path(x@, t) == t.take(j as int) + insert_by_path(x@, t.skip(j as int)),
            found ==> j < t.len() && comps_lt(components(x@), components(t[j as int])),
        decreases s@.len() - j, if found { 0int } else { 1int },
    {
        if comps_less(&xc, &sc[j]) {
            found = true;
        } else {
            proof {
                let r = t.skip(j as int);
                assert(r[0] == t[j as int]);
                assert(r.drop_first() =~= t.skip(j + 1));
                assert(t.take(j + 1) =~= t.take(j as int) + seq![t[j as int]]);
            }
            j = j + 1;
        }
    }
    proof {
        if j < t.len() {
            let r = t.skip(j as int);
            assert(r[0] == t[j as int]);
            assert(insert_by_path(x@, r) == seq![x@] + r);
        } else {
            assert(t.skip(j as int) =~= Seq::<Seq<char>>::empty());
        }
    }
    s.insert(j, x);
    sc.insert(j, xc);
    proof {
        assert(texts(s@) =~= insert_by_path(x@, t));
    }
}

/// The items listed at the top for a selection (see `top_items`), with
/// their parsed components.
pub fn top_level_items(selected: &Vec<String>) -> (r: (Vec<String>, Vec<Vec<Vec<char>>>))
    ensures
        texts(r.0@) == top_items(selected@),
        r.1@.len() == r.0@.len(),
        forall|k: int| 0 <= k < r.1@.len() ==> comps_view(#[trigger] r.1@[k]@) == components(r.0@[k]@),
{
    let selc = parse_selection(selected);
    let (d, dc) = distinct_selection(selected);
    let ghost sel = comps_list(selected@);
    let mut kept: Vec<String> = Vec::new();
    let mut keptc: Vec<Vec<Vec<char>>> = Vec::new();
    let mut i: usize = 0;
    while i < d.len()
        invariant
            sel == comps_list(selected@),
            sel_view(selc@) == sel,
            dc@.len() == d@.len(),
            forall|k: int| 0 <= k < dc@.len() ==> comps_view(#[trigger] dc@[k]@) == components(d@[k]@),
            i <= d@.len(),
            texts(kept@) == keep_top(texts(d@).take(i as int), sel),
            keptc@.len() == kept@.len(),
            forall|k: int| 0 <= k < keptc@.len() ==> comps_view(#[trigger] keptc@[k]@) == components(kept@[k]@),
        decreases d@.len() - i,
    {
        proof {
            assert(texts(d@).take(i + 1).drop_last() =~= texts(d@).take(i as int));
            assert(texts(d@).take(i + 1).last() == d@[i as int]@);
            assert(comps_view(dc@[i as int]@) == components(d@[i as int]@));
        }
        if !parent_selected(&dc[i], &selc) {
            kept.push(d[i].clone());
            let cp = copy_comps(&dc[i], dc[i].len());
            proof {
                assert(comps_view(dc@[i as int]@).take(dc@[i as int]@.len() as int) =~= comps_view(dc@[i as int]@));
            }
            keptc.push(cp);
            proof {
                assert(texts(kept@) =~= keep_top(texts(d@).take(i + 1), sel));
            }
        }
        i = i + 1;
    }
    proof {
        assert(texts(d@).take(d@.len() as int) =~= texts(d@));
    }
    let mut sorted: Vec<String> = Vec::new();
    let mut sortedc: Vec<Vec<Vec<char>>> = Vec::new();
    let ghost kv = texts(kept@);
    let mut m: usize = 0;
    while m < kept.len()
        invariant
            kv == texts(kept@),
            keptc@.len() == kept@.len(),
            forall|k: int| 0 <= k < keptc@.len() ==> comps_view(#[trigger] keptc@[k]@) == components(kept@[k]@),
            m <= kept@.len(),
            texts(sorted@) == sort_by_path(kv.take(m as int)),
            sortedc@.len() == sorted@.len(),
            forall|k: int| 0 <= k < sortedc@.len() ==> comps_view(#[trigger] sortedc@[k]@) == components(sorted@[k]@),
        decreases kept@.len() - m,
    {
        proof {
            assert(kv.take(m + 1).drop_last() =~= kv.take(m as int));
            assert(kv.take(m + 1).last() == kept@[m as int]@);
        }
        let cp = copy_comps(&keptc[m], keptc[m].len());
        proof {
            assert(comps_view(keptc@[m as int]@).take(keptc@[m as int]@.len() as int) =~= comps_view(keptc@[m as int]@));
        }
        insert_path(&mut sorted, &mut sortedc, kept[m].clone(), cp);
        m = m + 1;
    }
    proof {
        assert(kv.take(kept@.len() as int) =~= kv);
    }
    (sorted, sortedc)
}

/// How XML and Markdown open a directory listed at the top.
pub open spec fn top_dir_open(fmt: OutputFormat, rel: Seq<char>) -> Seq<char> {
    match fmt {
        OutputFormat::Xml => "<folder name=\""@ + rel + "\">\n"@,
        OutputFormat::Markdown => "## "@ + rel + "/\n\n"@,
        _ => seq![],
    }
}

/// How XML and Markdown close a directory listed at the top.
pub open spec fn top_dir_close(fmt: OutputFormat) -> Seq<char> {
    match fmt {
        OutputFormat::Xml => "</folder>\n"@,
        _ => seq![],
    }
}

/// Whether a directory listed at the top counts as a folder itself:
/// in Markdown it does, in XML only the folders inside it count.
pub open spec fn top_dir_counted(fmt: OutputFormat) -> nat {
    match fmt {
        OutputFormat::Markdown => 1,
        _ => 0,
    }
}

/// The path a format shows for an item listed at the top: relative to the
/// current directory (see `relative_text`), backslashes turned into slashes.
pub open spec fn top_shown(p: Seq<char>, cc: Seq<Seq<char>>) -> Seq<char> {
    replace_char(relative_text(p, cc), '\\', '/')
}

/// What XML or Markdown writes for an item `p` listed at the top, and the
/// files and folders it counts: a file as in a walk; a directory opened,
/// walked from the current directory `cc` and closed, its walk's text kept
/// even when the walk failed but its counts only when it succeeded.
pub open spec fn top_item(
    snap: Seq<FsEntry>,
    sel: Seq<Seq<Seq<char>>>,
    cc: Seq<Seq<char>>,
    fmt: OutputFormat,
    sln: bool,
    include_binary: bool,
    p: Seq<char>,
) -> (Seq<char>, nat, nat) {
    let pc = components(p);
    let rel = top_shown(p, cc);
    match kind_of(snap, pc) {
        EntryKind::File => {
            let f = file_piece(fmt, rel, output_binary(p), content_of(snap, pc), sln, include_binary);
            (f.0, f.1, 0)
        },
        EntryKind::Dir => {
            let w = walk_dir(snap, sel, cc, fmt, sln, include_binary, pc);
            (
                top_dir_open(fmt, rel) + w.0 + top_dir_close(fmt),
                if w.3 { w.1 } else { 0 },
                (if w.3 { w.2 } else { 0 }) + top_dir_counted(fmt),
            )
        },
        EntryKind::Missing => (seq![], 0, 0),
    }
}

/// The XML or Markdown text of the items listed at the top, in order, with
/// the files and folders counted.
pub open spec fn top_text(
    snap: Seq<FsEntry>,
    sel: Seq<Seq<Seq<char>>>,
    cc: Seq<Seq<char>>,
    fmt: OutputFormat,
    sln: bool,
    include_binary: bool,
    items: Seq<Seq<char>>,
) -> (Seq<char>, nat, nat)
    decreases items.len(),
{
    if items.len() == 0 {
        (seq![], 0, 0)
    } else {
        let prev = top_text(snap, sel, cc, fmt, sln, include_binary, items.drop_last());
        let t = top_item(snap, sel, cc, fmt, sln, include_binary, items.last());
        (prev.0 + t.0, prev.1 + t.1, prev.2 + t.2)
    }
}

/// The whole XML or Markdown output for a selection.
pub open spec fn tree_output(
    snap: Seq<FsEntry>,
    selected: Seq<String>,
    current_dir: Seq<char>,
    fmt: OutputFormat,
    sln: bool,
    include_binary: bool,
) -> (Seq<char>, nat, nat) {
    top_text(snap, comps_list(selected), components(current_dir), fmt, sln, include_binary, top_items(selected))
}

/// The XML or Markdown output for selected paths given as texts.
pub open spec fn tree_output_texts(
    snap: Seq<FsEntry>,
    sel: Seq<Seq<char>>,
    current_dir: Seq<char>,
    fmt: OutputFormat,
    sln: bool,
    include_binary: bool,
) -> (Seq<char>, nat, nat) {
    let sc = sel.map_values(|p: Seq<char>| components(p));
    top_text(snap, sc, components(current_dir), fmt, sln, include_binary, sort_by_path(keep_top(distinct_paths(sel), sc)))
}

/// The output for a selection depends on the texts of its paths alone.
pub proof fn lemma_tree_output_texts(
    snap: Seq<FsEntry>,
    selected: Seq<String>,
    current_dir: Seq<char>,
    fmt: OutputFormat,
    sln: bool,
    include_binary: bool,
)
    ensures
        tree_output(snap, selected, current_dir, fmt, sln, include_binary)
            == tree_output_texts(snap, texts(selected), current_dir, fmt, sln, include_binary),
{
    assert(comps_list(selected) =~= texts(selected).map_values(|p: Seq<char>| components(p)));
}

/// Appends what `top_item` writes for a directory shown as `rel`.
fn push_top_dir(
    out: &mut Vec<char>,
    snap: &Vec<FsEntry>,
    selc: &Vec<Vec<Vec<char>>>,
    cc: &Vec<Vec<char>>,
    fmt: OutputFormat,
    sln: bool,
    include_binary: bool,
    pc: &Vec<Vec<char>>,
    rel: &[char],
) -> (r: (usize, usize))
    requires
        fmt == OutputFormat::Xml || fmt == OutputFormat::Markdown,
    ensures
        ({
            let w = walk_dir(snap@, sel_view(selc@), comps_view(cc@), fmt, sln, include_binary, comps_view(pc@));
            &&& final(out)@ == old(out)@ + (top_dir_open(fmt, rel@) + w.0 + top_dir_close(fmt))
            &&& r.0 == (if w.3 { w.1 } else { 0 })
            &&& r.1 == (if w.3 { w.2 } else { 0 }) + top_dir_counted(fmt)
            &&& r.0 + r.1 <= final(out)@.len() - old(out)@.len()
        }),
{
    proof {
        reveal_strlit("\">\n");
        reveal_strlit("/\n\n");
    }
    let ghost start = out@;
    if fmt == OutputFormat::Xml {
        push_str(out, "<folder name=\"");
        push_chars(out, rel);
        push_str(out, "\">\n");
    } else {
        push_str(out, "## ");
        push_chars(out, rel);
        push_str(out, "/\n\n");
    }
    let ghost opened = out@;
    proof {
        assert(opened =~= start + top_dir_open(fmt, rel@));
    }
    let mut sub: Vec<char> = Vec::new();
    let (sf, sd, ok) = walk_dir_exec(snap, selc, cc, fmt, sln, include_binary, pc, &mut sub);
    push_chars(out, sub.as_slice());
    if fmt == OutputFormat::Xml {
        push_str(out, "</folder>\n");
    }
    let olen = out.len();
    proof {
        let w = walk_dir(snap@, sel_view(selc@), comps_view(cc@), fmt, sln, include_binary, comps_view(pc@));
        assert(out@ =~= start + (top_dir_open(fmt, rel@) + w.0 + top_dir_close(fmt)));
    }
    let f = if ok { sf } else { 0 };
    let d = if ok { sd } else { 0 };
    if fmt == OutputFormat::Markdown {
        (f, d + 1)
    } else {
        (f, d)
    }
}

/// Appends `top_item` for `p` (parsed as `pc`).
fn push_top_item(
    out: &mut Vec<char>,
    snap: &Vec<FsEntry>,
    selc: &Vec<Vec<Vec<char>>>,
    cc: &Vec<Vec<char>>,
    fmt: OutputFormat,
    sln: bool,
    include_binary: bool,
    p: &str,
    pc: &Vec<Vec<char>>,
) -> (r: (usize, usize))
    requires
        fmt == OutputFormat::Xml || fmt == OutputFormat::Markdown,
        comps_view(pc@) == components(p@),
    ensures
        ({
            let t = top_item(snap@, sel_view(selc@), comps_view(cc@), fmt, sln, include_binary, p@);
            &&& final(out)@ == old(out)@ + t.0
            &&& r.0 == t.1
            &&& r.1 == t.2
            &&& r.0 + r.1 <= final(out)@.len() - old(out)@.len()
        }),
{
    let ghost start = out@;
    let shown_raw = relative_display(p, pc, cc);
    let rel = replace_char_chars(shown_raw.as_slice(), '\\', '/');
    let idx = lookup_index(snap, pc);
    let j: usize = match idx {
        Some(j) => j,
        None => snap.len(),
    };
    let kind = if j < snap.len() {
        snap[j].kind
    } else {
        EntryKind::Missing
    };
    proof {
        assert(kind == kind_of(snap@, comps_view(pc@)));
    }
    match kind {
        EntryKind::File => {
            let binary = is_binary_file(p);
            proof {
                assert(opt_text(snap@[j as int].content) == content_of(snap@, comps_view(pc@)));
            }
            let counted = push_file_piece(out, fmt, rel.as_slice(), binary, &snap[j].content, sln, include_binary);
            (counted, 0)
        },
        EntryKind::Dir => push_top_dir(out, snap, selc, cc, fmt, sln, include_binary, pc, rel.as_slice()),
        EntryKind::Missing => {
            proof {
                assert(out@ =~= start + seq![]);
            }
            (0, 0)
        },
    }
}

/// The XML or Markdown output for a selection (see `tree_output`).
pub(crate) fn format_tree_output(
    selected_items: &Vec<String>,
    current_dir: &str,
    fmt: OutputFormat,
    show_line_numbers: bool,
    ignore_config: &IgnoreConfig,
    snapshot: &Vec<FsEntry>,
) -> (r: (String, CopyStats))
    requires
        fmt == OutputFormat::Xml || fmt == OutputFormat::Markdown,
    ensures
        ({
            let t = tree_output(snapshot@, selected_items@, current_dir@, fmt, show_line_numbers, ignore_config.include_binary_files);
            &&& r.0@ == t.0
            &&& r.1.files == t.1
            &&& r.1.folders == t.2
        }),
{
    let selc = parse_selection(selected_items);
    let cc = parse_components(current_dir);
    proof {
        assert(comps_view(cc@) =~= components(current_dir@));
    }
    let (items, itemsc) = top_level_items(selected_items);
    let ghost iv = texts(items@);
    let ghost sel = sel_view(selc@);
    let ghost ccv = comps_view(cc@);
    let ib = ignore_config.include_binary_files;
    let mut out: Vec<char> = Vec::new();
    let mut files: usize = 0;
    let mut folders: usize = 0;
    let mut i: usize = 0;
    while i < items.len()
        invariant
            iv == texts(items@),
            sel == sel_view(selc@),
            ccv == comps_view(cc@),
            itemsc@.len() == items@.len(),
            forall|k: int| 0 <= k < itemsc@.len() ==> comps_view(#[trigger] itemsc@[k]@) == components(items@[k]@),
            fmt == OutputFormat::Xml || fmt == OutputFormat::Markdown,
            i <= items@.len(),
            ({
                let t = top_text(snapshot@, sel, ccv, fmt, show_line_numbers, ib, iv.take(i as int));
                &&& out@ == t.0
                &&& files == t.1
                &&& folders == t.2
            }),
            files + folders <= out@.len(),
        decreases items@.len() - i,
    {
        proof {
            assert(iv.take(i + 1).drop_last() =~= iv.take(i as int));
            assert(iv.take(i + 1).last() == items@[i as int]@);
        }
        let (f, d) = push_top_item(&mut out, snapshot, &selc, &cc, fmt, show_line_numbers, ib, items[i].as_str(), &itemsc[i]);
        let olen = out.len();
        files = files + f;
        folders = folders + d;
        i = i + 1;
    }
    proof {
        assert(iv.take(items@.len() as int) =~= iv);
    }
    (chars_to_string(out.as_slice()), CopyStats { files, folders })
}

/// Each item listed at the top is written whole, in place, in the text of
/// all the items.
proof fn lemma_top_text_has_item(
    snap: Seq<FsEntry>,
    sel: Seq<Seq<Seq<char>>>,
    cc: Seq<Seq<char>>,
    fmt: OutputFormat,
    sln: bool,
    include_binary: bool,
    items: Seq<Seq<char>>,
    k: int,
)
    requires
        0 <= k < items.len(),
    ensures
        exists|a: Seq<char>, b: Seq<char>|
            top_text(snap, sel, cc, fmt, sln, include_binary, items).0 == a + top_item(snap, sel, cc, fmt, sln, include_binary, items[k]).0 + b,
    decreases items.len(),
{
    let prev = top_text(snap, sel, cc, fmt, sln, include_binary, items.drop_last());
    let t = top_item(snap, sel, cc, fmt, sln, include_binary, items.last());
    if k == items.len() - 1 {
        assert(prev.0 + t.0 == prev.0 + t.0 + Seq::<char>::empty());
    } else {
        lemma_top_text_has_item(snap, sel, cc, fmt, sln, include_binary, items.drop_last(), k);
        assert(items.drop_last()[k] == items[k]);
        let piece = top_item(snap, sel, cc, fmt, sln, include_binary, items[k]).0;
        let (a, b) = choose|a: Seq<char>, b: Seq<char>| prev.0 == a + piece + b;
        assert(prev.0 + t.0 == a + piece + (b + t.0));
    }
}

/// The XML and Markdown outputs write every item listed at the top (each
/// selected path whose parent is not selected) whole: a file with its
/// content, a directory with what its walk writes.
pub proof fn lemma_tree_output_has_every_item(
    snap: Seq<FsEntry>,
    selected: Seq<String>,
    current_dir: Seq<char>,
    fmt: OutputFormat,
    sln: bool,
    include_binary: bool,
    k: int,
)
    requires
        0 <= k < top_items(selected).len(),
    ensures
        exists|a: Seq<char>, b: Seq<char>|
            tree_output(snap, selected, current_dir, fmt, sln, include_binary).0 == a + top_item(
                snap,
                comps_list(selected),
                components(current_dir),
                fmt,
                sln,
                include_binary,
                top_items(selected)[k],
            ).0 + b,
{
    lemma_top_text_has_item(snap, comps_list(selected), components(current_dir), fmt, sln, include_binary, top_items(selected), k);
}

/// Whether the paths are in strictly increasing path order.
pub open spec fn paths_sorted(s: Seq<Seq<char>>) -> bool {
    forall|i: int, j: int| 0 <= i < j < s.len() ==> comps_lt(components(#[trigger] s[i]), components(#[trigger] s[j]))
}

/// Whether no two paths have the same components.
pub open spec fn paths_distinct(s: Seq<Seq<char>>) -> bool {
    forall|i: int, j: int| 0 <= i < j < s.len() ==> components(#[trigger] s[i]) != components(#[trigger] s[j])
}

/// Inserting a path not listed keeps the list sorted and adds only it.
proof fn lemma_insert_by_path(x: Seq<char>, s: Seq<Seq<char>>)
    requires
        paths_sorted(s),
        forall|i: int| 0 <= i < s.len() ==> components(#[trigger] s[i]) != components(x),
    ensures
        paths_sorted(insert_by_path(x, s)),
        insert_by_path(x, s).to_multiset() == s.to_multiset().insert(x),
    decreases s.len(),
{
    broadcast use vstd::multiset::group_multiset_axioms, vstd::seq_lib::group_to_multiset_ensures;

    let r = insert_by_path(x, s);
    if s.len() == 0 {
        assert(seq![x] =~= Seq::<Seq<char>>::empty().push(x));
    } else if comps_lt(components(x), components(s[0])) {
        vstd::seq_lib::lemma_multiset_commutative(seq![x], s);
        assert(seq![x] =~= Seq::<Seq<char>>::empty().push(x));
        assert forall|i: int, j: int| 0 <= i < j < r.len() implies comps_lt(components(#[trigger] r[i]), components(#[trigger] r[j])) by {
            if i == 0 {
                assert(r[j] == s[j - 1]);
                if j - 1 > 0 {
                    lemma_comps_lt_trans(components(x), components(s[0]), components(s[j - 1]));
                }
            } else {
                assert(r[i] == s[i - 1] && r[j] == s[j - 1]);
            }
        }
    } else {
        let rest = s.drop_first();
        assert forall|i: int, j: int| 0 <= i < j < rest.len() implies comps_lt(components(#[trigger] rest[i]), components(#[trigger] rest[j])) by {
            assert(rest[i] == s[i + 1] && rest[j] == s[j + 1]);
        }
        assert forall|i: int| 0 <= i < rest.len() implies components(#[trigger] rest[i]) != components(x) by {
            assert(rest[i] == s[i + 1]);
        }
        lemma_insert_by_path(x, rest);
        let t = insert_by_path(x, rest);
        assert(s =~= seq![s[0]] + rest);
        vstd::seq_lib::lemma_multiset_commutative(seq![s[0]], t);
        vstd::seq_lib::lemma_multiset_commutative(seq![s[0]], rest);
        assert(components(s[0]) != components(x));
        lemma_comps_lt_total(components(x), components(s[0]));
        assert forall|i: int, j: int| 0 <= i < j < r.len() implies comps_lt(components(#[trigger] r[i]), components(#[trigger] r[j])) by {
            if i == 0 {
                assert(r[j] == t[j - 1]);
                assert(t.to_multiset().count(t[j - 1]) > 0);
                if t[j - 1] != x {
                    assert(rest.to_multiset().count(t[j - 1]) > 0);
                    assert(rest.contains(t[j - 1]));
                    let k = choose|k: int| 0 <= k < rest.len() && rest[k] == t[j - 1];
                    assert(s[k + 1] == rest[k]);
                }
            } else {
                assert(r[i] == t[i - 1] && r[j] == t[j - 1]);
            }
        }
    }
}

/// Sorting distinct paths gives them in strictly increasing path order.
proof fn lemma_sort_by_path(s: Seq<Seq<char>>)
    requires
        paths_distinct(s),
    ensures
        paths_sorted(sort_by_path(s)),
        sort_by_path(s).to_multiset() == s.to_multiset(),
    decreases s.len(),
{
    broadcast use vstd::multiset::group_multiset_axioms, vstd::seq_lib::group_to_multiset_ensures;

    if s.len() > 0 {
        let init = s.drop_last();
        assert forall|i: int, j: int| 0 <= i < j < init.len() implies components(#[trigger] init[i]) != components(#[trigger] init[j]) by {
            assert(init[i] == s[i] && init[j] == s[j]);
        }
        lemma_sort_by_path(init);
        let t = sort_by_path(init);
        assert forall|i: int| 0 <= i < t.len() implies components(#[trigger] t[i]) != components(s.last()) by {
            assert(t.to_multiset().count(t[i]) > 0);
            assert(init.contains(t[i]));
            let k = choose|k: int| 0 <= k < init.len() && init[k] == t[i];
            assert(s[k] == init[k]);
            assert(s.last() == s[s.len() - 1]);
        }
        lemma_insert_by_path(s.last(), t);
        assert(s =~= init.push(s.last()));
    }
}

/// Leaving repeats out gives distinct paths.
proof fn lemma_distinct_paths(v: Seq<Seq<char>>)
    ensures
        paths_distinct(distinct_paths(v)),
    decreases v.len(),
{
    if v.len() > 0 {
        lemma_distinct_paths(v.drop_last());
        let d = distinct_paths(v.drop_last());
        if !path_listed(d, v.last()) {
            let e = d.push(v.last());
            assert forall|i: int, j: int| 0 <= i < j < e.len() implies components(#[trigger] e[i]) != components(#[trigger] e[j]) by {
                if j == e.len() - 1 {
                    assert(e[i] == d[i]);
                    assert(e[j] == v.last());
                } else {
                    assert(e[i] == d[i] && e[j] == d[j]);
                }
            }
        }
    }
}

/// Keeping some paths keeps them distinct.
proof fn lemma_keep_top_distinct(v: Seq<Seq<char>>, sel: Seq<Seq<Seq<char>>>)
    requires
        paths_distinct(v),
    ensures
        paths_distinct(keep_top(v, sel)),
        forall|i: int| 0 <= i < keep_top(v, sel).len() ==> v.contains(#[trigger] keep_top(v, sel)[i]),
    decreases v.len(),
{
    if v.len() > 0 {
        let init = v.drop_last();
        assert forall|i: int, j: int| 0 <= i < j < init.len() implies components(#[trigger] init[i]) != components(#[trigger] init[j]) by {
            assert(init[i] == v[i] && init[j] == v[j]);
        }
        lemma_keep_top_distinct(init, sel);
        let k = keep_top(init, sel);
        assert forall|i: int| 0 <= i < k.len() implies v.contains(#[trigger] k[i]) by {
            let t = choose|t: int| 0 <= t < init.len() && init[t] == k[i];
            assert(v[t] == init[t]);
        }
        if is_top(v.last(), sel) {
            let e = k.push(v.last());
            assert forall|i: int, j: int| 0 <= i < j < e.len() implies components(#[trigger] e[i]) != components(#[trigger] e[j]) by {
                if j == e.len() - 1 {
                    assert(e[i] == k[i]);
                    let t = choose|t: int| 0 <= t < init.len() && init[t] == k[i];
                    assert(v[t] == init[t]);
                    assert(v[v.len() - 1] == v.last());
                } else {
                    assert(e[i] == k[i] && e[j] == k[j]);
                }
            }
            assert forall|i: int| 0 <= i < e.len() implies v.contains(#[trigger] e[i]) by {
                if i == e.len() - 1 {
                    assert(v[v.len() - 1] == e[i]);
                } else {
                    assert(e[i] == k[i]);
                }
            }
        }
    }
}

/// The items listed at the top come in strictly increasing path order, so
/// no path is listed twice.
pub proof fn lemma_top_items_sorted(selected: Seq<String>)
    ensures
        paths_sorted(top_items(selected)),
{
    lemma_distinct_paths(texts(selected));
    lemma_keep_top_distinct(distinct_paths(texts(selected)), comps_list(selected));
    lemma_sort_by_path(keep_top(distinct_paths(texts(selected)), comps_list(selected)));
}

/// Leaving repeats out keeps only given paths, and one for each.
proof fn lemma_distinct_paths_members(v: Seq<Seq<char>>)
    ensures
        forall|i: int| 0 <= i < distinct_paths(v).len() ==> v.contains(#[trigger] distinct_paths(v)[i]),
        forall|j: int| 0 <= j < v.len() ==> path_listed(distinct_paths(v), #[trigger] v[j]),
    decreases v.len(),
{
    if v.len() > 0 {
        let init = v.drop_last();
        lemma_distinct_paths_members(init);
        let d = distinct_paths(init);
        assert forall|i: int| 0 <= i < d.len() implies v.contains(#[trigger] d[i]) by {
            let t = choose|t: int| 0 <= t < init.len() && init[t] == d[i];
            assert(v[t] == init[t]);
        }
        if path_listed(d, v.last()) {
            assert forall|j: int| 0 <= j < v.len() implies path_listed(d, #[trigger] v[j]) by {
                if j < init.len() {
                    assert(init[j] == v[j]);
                }
            }
        } else {
            let e = d.push(v.last());
            assert forall|i: int| 0 <= i < e.len() implies v.contains(#[trigger] e[i]) by {
                if i == e.len() - 1 {
                    assert(v[v.len() - 1] == e[i]);
                } else {
                    assert(e[i] == d[i]);
                }
            }
            assert forall|j: int| 0 <= j < v.len() implies path_listed(e, #[trigger] v[j]) by {
                if j < init.len() {
                    assert(init[j] == v[j]);
                    assert(path_listed(d, init[j]));
                    let k = choose|k: int| 0 <= k < d.len() && components(#[trigger] d[k]) == components(init[j]);
                    assert(e[k] == d[k]);
                } else {
                    assert(e[e.len() - 1] == v[j]);
                }
            }
        }
    }
}

/// Keeping the top paths keeps exactly the given paths whose parent is not
/// selected.
proof fn lemma_keep_top_members(v: Seq<Seq<char>>, sel: Seq<Seq<Seq<char>>>)
    ensures
        forall|i: int| 0 <= i < keep_top(v, sel).len() ==> is_top(#[trigger] keep_top(v, sel)[i], sel),
        forall|j: int| 0 <= j < v.len() && is_top(#[trigger] v[j], sel) ==> keep_top(v, sel).contains(v[j]),
    decreases v.len(),
{
    if v.len() > 0 {
        let init = v.drop_last();
        lemma_keep_top_members(init, sel);
        let k = keep_top(init, sel);
        if is_top(v.last(), sel) {
            let e = k.push(v.last());
            assert forall|i: int| 0 <= i < e.len() implies is_top(#[trigger] e[i], sel) by {
                if i < k.len() {
                    assert(e[i] == k[i]);
                }
            }
            assert forall|j: int| 0 <= j < v.len() && is_top(#[trigger] v[j], sel) implies e.contains(v[j]) by {
                if j < init.len() {
                    assert(init[j] == v[j]);
                    let t = choose|t: int| 0 <= t < k.len() && k[t] == init[j];
                    assert(e[t] == k[t]);
                } else {
                    assert(e[e.len() - 1] == v[j]);
                }
            }
        } else {
            assert forall|j: int| 0 <= j < v.len() && is_top(#[trigger] v[j], sel) implies k.contains(v[j]) by {
                if j < init.len() {
                    assert(init[j] == v[j]);
                }
            }
        }
    }
}

/// The items listed at the top are selected paths whose parent is not
/// selected, and every such selected path is listed (by its components).
pub proof fn lemma_top_items_members(selected: Seq<String>)
    ensures
        forall|i: int| 0 <= i < top_items(selected).len() ==> texts(selected).contains(#[trigger] top_items(selected)[i])
            && is_top(top_items(selected)[i], comps_list(selected)),
        forall|j: int| 0 <= j < selected.len() && is_top(#[trigger] selected[j]@, comps_list(selected))
            ==> exists|i: int| 0 <= i < top_items(selected).len() && components(#[trigger] top_items(selected)[i]) == components(selected[j]@),
{
    broadcast use vstd::multiset::group_multiset_axioms, vstd::seq_lib::group_to_multiset_ensures;

    let v = texts(selected);
    let sel = comps_list(selected);
    let d = distinct_paths(v);
    let k = keep_top(d, sel);
    let t = top_items(selected);
    lemma_distinct_paths(v);
    lemma_distinct_paths_members(v);
    lemma_keep_top_distinct(d, sel);
    lemma_keep_top_members(d, sel);
    lemma_sort_by_path(k);
    assert forall|i: int| 0 <= i < t.len() implies v.contains(#[trigger] t[i]) && is_top(t[i], sel) by {
        assert(t.to_multiset().count(t[i]) > 0);
        assert(k.contains(t[i]));
        let a = choose|a: int| 0 <= a < k.len() && k[a] == t[i];
        assert(d.contains(k[a]));
    }
    assert forall|j: int| 0 <= j < selected.len() && is_top(#[trigger] selected[j]@, sel) implies exists|i: int|
        0 <= i < t.len() && components(#[trigger] t[i]) == components(selected[j]@) by {
        assert(v[j] == selected[j]@);
        assert(path_listed(d, v[j]));
        let a = choose|a: int| 0 <= a < d.len() && components(#[trigger] d[a]) == components(v[j]);
        assert(is_top(d[a], sel));
        assert(k.contains(d[a]));
        assert(k.to_multiset().count(d[a]) > 0);
        assert(t.contains(d[a]));
        let b = choose|b: int| 0 <= b < t.len() && t[b] == d[a];
        assert(components(t[b]) == components(selected[j]@));
    }
}

} // verus!
