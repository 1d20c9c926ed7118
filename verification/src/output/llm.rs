//! The LLM format: what is gathered from the selection (the files shown,
//! the project tree, the files analysed for dependencies, the counts) and
//! the report written from it.

use vstd::prelude::*;
use crate::text::{str_chars, chars_to_string, chars_eq, replace_char_chars};
use crate::paths::{
    components, comps_view, parse_components, strip_prefix_of, is_absolute_comps, file_name_of,
    file_name_comps,
};
use crate::models::{CopyStats, IgnoreConfig, FileDependencies, Node};
use crate::output::format::{output_binary, is_binary_file};
use crate::output::snapshot::{
    FsEntry, EntryKind, lookup, kind_of, comps_eq, lookup_index, relative_display, strip_parsed,
};
use crate::output::directory::{content_of, opt_text};
use crate::output::toplevel::{distinct_paths, texts, top_shown, distinct_selection};
use crate::output::tree::{TreeV, tree_add, node_view, add_path_to_tree, view_children};
use crate::output::deps::{analyze_dependencies, deps_of, distinct_texts, fc_paths, fc_contents};
use crate::output::report::{llm_report, deps_view, DepsV, files_view, format_llm_output_internal};

verus! {

/// The components of a selected path below the current directory `cc`:
/// all of them when `cc` is `.` and the path is relative, those after `cc`
/// when it is a prefix, all of them otherwise.
pub open spec fn rel_comps(p: Seq<char>, cc: Seq<Seq<char>>) -> Seq<Seq<char>> {
    let pc = components(p);
    if cc == seq![seq!['.']] && !is_absolute_comps(pc) {
        pc
    } else {
        match strip_prefix_of(pc, cc) {
            Some(r) => r,
            None => pc,
        }
    }
}

/// Whether a file's content is read for the report: it is not binary, or
/// binary files are included.
pub open spec fn readable(p: Seq<char>, include_binary: bool) -> bool {
    !output_binary(p) || include_binary
}

/// The file `e` with its text shown relative to `cc`, when it is a file
/// whose content is read and was read.
pub open spec fn file_entry(snap: Seq<FsEntry>, cc: Seq<Seq<char>>, include_binary: bool, e: Seq<char>) -> Seq<(Seq<char>, Seq<char>)> {
    if kind_of(snap, components(e)) == EntryKind::File && readable(e, include_binary) {
        match content_of(snap, components(e)) {
            Some(c) => seq![(top_shown(e, cc), c)],
            None => seq![],
        }
    } else {
        seq![]
    }
}

/// The files among the first `n` entries of a listing.
pub open spec fn listed_files(snap: Seq<FsEntry>, cc: Seq<Seq<char>>, include_binary: bool, l: Seq<String>, n: int) -> Seq<(Seq<char>, Seq<char>)>
    decreases n,
{
    if n <= 0 || n > l.len() {
        seq![]
    } else {
        listed_files(snap, cc, include_binary, l, n - 1) + file_entry(snap, cc, include_binary, l[n - 1]@)
    }
}

/// The listing of the directory with components `c`, if it could be read.
pub open spec fn listing_of(snap: Seq<FsEntry>, c: Seq<Seq<char>>) -> Option<Seq<String>> {
    match lookup(snap, c) {
        Some(e) => match e.listing {
            Some(l) => Some(l@),
            None => None,
        },
        None => None,
    }
}

/// The files directly in the directory `p`.
pub open spec fn dir_files(snap: Seq<FsEntry>, cc: Seq<Seq<char>>, include_binary: bool, p: Seq<char>) -> Seq<(Seq<char>, Seq<char>)> {
    match listing_of(snap, components(p)) {
        Some(l) => listed_files(snap, cc, include_binary, l, l.len() as int),
        None => seq![],
    }
}

/// What the report gathers: the files shown, the tree, and the numbers of
/// files and folders selected.
pub type Gathered = (Seq<(Seq<char>, Seq<char>)>, TreeV, nat, nat);

/// What the first `n` selected items contribute to the report. An item at
/// the current directory itself is passed over; every other one is added to
/// the tree; a file is counted and shown when read; a directory is counted
/// and the files directly in it are shown.
pub open spec fn gather(
    snap: Seq<FsEntry>,
    cc: Seq<Seq<char>>,
    include_binary: bool,
    items: Seq<Seq<char>>,
    root: TreeV,
    n: int,
) -> Gathered
    decreases n,
{
    if n <= 0 || n > items.len() {
        (seq![], root, 0, 0)
    } else {
        let g = gather(snap, cc, include_binary, items, root, n - 1);
        let p = items[n - 1];
        let rel = rel_comps(p, cc);
        if rel.len() == 0 {
            g
        } else {
            let kind = kind_of(snap, components(p));
            let tree = tree_add(g.1, rel, 0, kind == EntryKind::Dir);
            match kind {
                EntryKind::File => (g.0 + file_entry(snap, cc, include_binary, p), tree, g.2 + 1, g.3),
                EntryKind::Dir => (g.0 + dir_files(snap, cc, include_binary, p), tree, g.2, g.3 + 1),
                EntryKind::Missing => (g.0, tree, g.2, g.3),
            }
        }
    }
}

/// The greatest component count among the snapshot's paths.
pub open spec fn snap_depth(snap: Seq<FsEntry>) -> nat
    decreases snap.len(),
{
    if snap.len() == 0 {
        0
    } else {
        let m = snap_depth(snap.drop_first());
        let d = components(snap[0].path@).len();
        if d > m {
            d
        } else {
            m
        }
    }
}

/// A path found in the snapshot has at most `snap_depth` components.
pub proof fn lemma_snap_depth(snap: Seq<FsEntry>, c: Seq<Seq<char>>)
    requires
        lookup(snap, c) is Some,
    ensures
        c.len() <= snap_depth(snap),
    decreases snap.len(),
{
    if components(snap[0].path@) != c {
        lemma_snap_depth(snap.drop_first(), c);
    }
}

/// How many more levels a walk from `dir` can descend.
pub open spec fn snap_left(snap: Seq<FsEntry>, dir: Seq<Seq<char>>) -> nat {
    if dir.len() <= snap_depth(snap) {
        (snap_depth(snap) + 1 - dir.len()) as nat
    } else {
        0
    }
}

/// Every file below the directory `dir`, whether selected or not, in
/// listing order, depth first.
pub open spec fn all_files_below(snap: Seq<FsEntry>, cc: Seq<Seq<char>>, include_binary: bool, dir: Seq<Seq<char>>) -> Seq<(Seq<char>, Seq<char>)>
    decreases snap_left(snap, dir), 1nat, 0nat,
{
    match listing_of(snap, dir) {
        Some(l) => all_files_in(snap, cc, include_binary, dir, l, l.len() as int),
        None => seq![],
    }
}

/// The files below the first `n` entries of the listing `l` of `dir`.
pub open spec fn all_files_in(
    snap: Seq<FsEntry>,
    cc: Seq<Seq<char>>,
    include_binary: bool,
    dir: Seq<Seq<char>>,
    l: Seq<String>,
    n: int,
) -> Seq<(Seq<char>, Seq<char>)>
    decreases snap_left(snap, dir), 0nat, n,
{
    if n <= 0 || n > l.len() {
        seq![]
    } else {
        let prev = all_files_in(snap, cc, include_binary, dir, l, n - 1);
        let e = l[n - 1]@;
        let ec = components(e);
        match kind_of(snap, ec) {
            EntryKind::File => prev + file_entry(snap, cc, include_binary, e),
            EntryKind::Dir => if ec.len() > dir.len() {
                proof {
                    lemma_snap_depth(snap, ec);
                }
                prev + all_files_below(snap, cc, include_binary, ec)
            } else {
                prev
            },
            EntryKind::Missing => prev,
        }
    }
}

/// The files analysed for dependencies, from the first `n` selected items:
/// each selected file whose content is read, and every file below each
/// selected directory.
pub open spec fn analysed(snap: Seq<FsEntry>, cc: Seq<Seq<char>>, include_binary: bool, items: Seq<Seq<char>>, n: int) -> Seq<(Seq<char>, Seq<char>)>
    decreases n,
{
    if n <= 0 || n > items.len() {
        seq![]
    } else {
        let prev = analysed(snap, cc, include_binary, items, n - 1);
        let p = items[n - 1];
        match kind_of(snap, components(p)) {
            EntryKind::File => prev + file_entry(snap, cc, include_binary, p),
            EntryKind::Dir => prev + all_files_below(snap, cc, include_binary, components(p)),
            EntryKind::Missing => prev,
        }
    }
}

/// The dependency records of the files analysed: one per distinct path, in
/// order of first appearance (see `deps_of`).
pub open spec fn dependency_table(files: Seq<(Seq<char>, Seq<char>)>) -> Seq<DepsV> {
    let paths = files.map_values(|f: (Seq<char>, Seq<char>)| f.0);
    let contents = files.map_values(|f: (Seq<char>, Seq<char>)| f.1);
    distinct_texts(paths).map_values(|fp: Seq<char>| (fp, deps_of(paths, contents, fp).0, deps_of(paths, contents, fp).1))
}

/// The name of the tree's root: the current directory's file name, or
/// `root`.
pub open spec fn root_name(cc: Seq<Seq<char>>) -> Seq<char> {
    match file_name_of(cc) {
        Some(n) => n,
        None => "root"@,
    }
}

/// The LLM output for a selection and the files and folders counted.
pub open spec fn llm_output(snap: Seq<FsEntry>, selected: Seq<String>, current_dir: Seq<char>, include_binary: bool) -> (Seq<char>, nat, nat) {
    let cc = components(current_dir);
    let items = distinct_paths(texts(selected));
    let root = TreeV { name: root_name(cc), is_dir: true, children: Some(seq![]) };
    let g = gather(snap, cc, include_binary, items, root, items.len() as int);
    let deps = dependency_table(analysed(snap, cc, include_binary, items, items.len() as int));
    (llm_report(g.0, current_dir, g.1, deps, g.2), g.2, g.3)
}

/// The components of a selected path below the current directory (see
/// `rel_comps`).
fn rel_comps_exec(pc: &Vec<Vec<char>>, cc: &Vec<Vec<char>>) -> (r: Vec<Vec<char>>)
    ensures
        forall|p: Seq<char>| components(p) == comps_view(pc@) ==> comps_view(r@) == #[trigger] rel_comps(p, comps_view(cc@)),
{
    let mut dot_name: Vec<char> = Vec::new();
    dot_name.push('.');
    let mut dot: Vec<Vec<char>> = Vec::new();
    dot.push(dot_name);
    proof {
        assert(dot@[0]@ =~= seq!['.']);
        assert(comps_view(dot@) =~= seq![seq!['.']]);
    }
    let root = ['/'];
    proof {
        assert(root@ =~= seq!['/']);
    }
    let abs = pc.len() > 0 && chars_eq(pc[0].as_slice(), root.as_slice());
    proof {
        assert(abs == is_absolute_comps(comps_view(pc@)));
    }
    if comps_eq(cc, &dot) && !abs {
        return copy_path(pc);
    }
    match strip_parsed(pc, cc) {
        Some(rest) => rest,
        None => copy_path(pc),
    }
}

/// A copy of a parsed path.
fn copy_path(pc: &Vec<Vec<char>>) -> (r: Vec<Vec<char>>)
    ensures
        comps_view(r@) == comps_view(pc@),
{
    let mut out: Vec<Vec<char>> = Vec::new();
    let mut i: usize = 0;
    while i < pc.len()
        invariant
            i <= pc@.len(),
            comps_view(out@) == comps_view(pc@).take(i as int),
        decreases pc@.len() - i,
    {
        let mut piece: Vec<char> = Vec::new();
        crate::text::push_chars(&mut piece, pc[i].as_slice());
        let ghost before = out@;
        out.push(piece);
        i = i + 1;
        proof {
            assert(comps_view(out@) =~= comps_view(before).push(piece@));
            assert(comps_view(out@) =~= comps_view(pc@).take(i as int));
        }
    }
    proof {
        assert(comps_view(pc@).take(pc@.len() as int) =~= comps_view(pc@));
    }
    out
}

/// The view of a list of files.
pub open spec fn pairs_view(v: Seq<(String, String)>) -> Seq<(Seq<char>, Seq<char>)> {
    v.map_values(|e: (String, String)| (e.0@, e.1@))
}

/// Appends `file_entry` for `e`.
fn push_file_entry(
    out: &mut Vec<(String, String)>,
    snap: &Vec<FsEntry>,
    cc: &Vec<Vec<char>>,
    include_binary: bool,
    e: &str,
)
    ensures
        pairs_view(final(out)@) == pairs_view(old(out)@) + file_entry(snap@, comps_view(cc@), include_binary, e@),
{
    let ghost before = out@;
    let ec = parse_components(e);
    proof {
        assert(comps_view(ec@) =~= components(e@));
    }
    let idx = lookup_index(snap, &ec);
    match idx {
        Some(j) => {
            if snap[j].kind == EntryKind::File && (!is_binary_file(e) || include_binary) {
                match &snap[j].content {
                    Some(c) => {
                        let shown_raw = relative_display(e, &ec, cc);
                        let shown = replace_char_chars(shown_raw.as_slice(), '\\', '/');
                        let st = chars_to_string(shown.as_slice());
                        let ct = c.clone();
                        out.push((st, ct));
                        proof {
                            assert(pairs_view(out@) =~= pairs_view(before) + file_entry(snap@, comps_view(cc@), include_binary, e@));
                        }
                    },
                    None => {
                        proof {
                            assert(pairs_view(out@) =~= pairs_view(before) + file_entry(snap@, comps_view(cc@), include_binary, e@));
                        }
                    },
                }
            } else {
                proof {
                    assert(pairs_view(out@) =~= pairs_view(before) + file_entry(snap@, comps_view(cc@), include_binary, e@));
                }
            }
        },
        None => {
            proof {
                assert(pairs_view(out@) =~= pairs_view(before) + file_entry(snap@, comps_view(cc@), include_binary, e@));
            }
        },
    }
}

/// Appends the files directly in the directory `p` (see `dir_files`).
fn push_dir_files(
    out: &mut Vec<(String, String)>,
    snap: &Vec<FsEntry>,
    cc: &Vec<Vec<char>>,
    include_binary: bool,
    p: &str,
)
    ensures
        pairs_view(final(out)@) == pairs_view(old(out)@) + dir_files(snap@, comps_view(cc@), include_binary, p@),
{
    let ghost start = pairs_view(out@);
    let pc = parse_components(p);
    proof {
        assert(comps_view(pc@) =~= components(p@));
    }
    match lookup_index(snap, &pc) {
        Some(k) => match &snap[k].listing {
            Some(l) => {
                let mut i: usize = 0;
                while i < l.len()
                    invariant
                        i <= l@.len(),
                        pairs_view(out@) == start + listed_files(snap@, comps_view(cc@), include_binary, l@, i as int),
                    decreases l@.len() - i,
                {
                    push_file_entry(out, snap, cc, include_binary, l[i].as_str());
                    i = i + 1;
                    proof {
                        assert(pairs_view(out@) =~= start + listed_files(snap@, comps_view(cc@), include_binary, l@, i as int));
                    }
                }
            },
            None => {
                proof {
                    assert(pairs_view(out@) =~= start + dir_files(snap@, comps_view(cc@), include_binary, p@));
                }
            },
        },
        None => {
            proof {
                assert(pairs_view(out@) =~= start + dir_files(snap@, comps_view(cc@), include_binary, p@));
            }
        },
    }
}

/// Appends every file below the directory `dirc` (see `all_files_below`).
fn push_all_below(
    out: &mut Vec<(String, String)>,
    snap: &Vec<FsEntry>,
    cc: &Vec<Vec<char>>,
    include_binary: bool,
    dirc: &Vec<Vec<char>>,
)
    ensures
        pairs_view(final(out)@) == pairs_view(old(out)@) + all_files_below(snap@, comps_view(cc@), include_binary, comps_view(dirc@)),
    decreases snap_left(snap@, comps_view(dirc@)),
{
    let ghost start = pairs_view(out@);
    let ghost dir = comps_view(dirc@);
    let ghost ccv = comps_view(cc@);
    match lookup_index(snap, dirc) {
        Some(k) => match &snap[k].listing {
            Some(l) => {
                let mut i: usize = 0;
                while i < l.len()
                    invariant
                        i <= l@.len(),
                        dir == comps_view(dirc@),
                        ccv == comps_view(cc@),
                        pairs_view(out@) == start + all_files_in(snap@, ccv, include_binary, dir, l@, i as int),
                    decreases l@.len() - i,
                {
                    let ghost before = pairs_view(out@);
                    let ec = parse_components(l[i].as_str());
                    proof {
                        assert(comps_view(ec@) =~= components(l@[i as int]@));
                    }
                    let idx = lookup_index(snap, &ec);
                    let j: usize = match idx {
                        Some(j) => j,
                        None => snap.len(),
                    };
                    let kind = if j < snap.len() {
                        snap[j].kind
                    } else {
                        EntryKind::Missing
                    };
                    proof {
                        assert(kind == kind_of(snap@, comps_view(ec@)));
                    }
                    match kind {
                        EntryKind::File => {
                            push_file_entry(out, snap, cc, include_binary, l[i].as_str());
                        },
                        EntryKind::Dir => {
                            if ec.len() > dirc.len() {
                                proof {
                                    lemma_snap_depth(snap@, comps_view(ec@));
                                }
                                push_all_below(out, snap, cc, include_binary, &ec);
                            }
                        },
                        EntryKind::Missing => {},
                    }
                    i = i + 1;
                    proof {
                        assert(pairs_view(out@) =~= start + all_files_in(snap@, ccv, include_binary, dir, l@, i as int));
                    }
                }
                proof {
                    assert(listing_of(snap@, dir) == Some(l@));
                }
            },
            None => {
                proof {
                    assert(pairs_view(out@) =~= start + all_files_below(snap@, ccv, include_binary, dir));
                }
            },
        },
        None => {
            proof {
                assert(pairs_view(out@) =~= start + all_files_below(snap@, ccv, include_binary, dir));
            }
        },
    }
}

/// The dependency records of `analyze_dependencies` are `dependency_table`.
proof fn lemma_dependency_table(fc: Seq<(String, String)>, r: Seq<(String, FileDependencies)>)
    requires
        r.len() == distinct_texts(fc_paths(fc)).len(),
        forall|k: int| 0 <= k < r.len() ==> {
            &&& (#[trigger] r[k]).0@ == distinct_texts(fc_paths(fc))[k]
            &&& deps_of(fc_paths(fc), fc_contents(fc), r[k].0@)
                == (crate::output::deps::string_views(r[k].1.internal_deps@), crate::output::deps::string_views(r[k].1.external_deps@))
        },
    ensures
        deps_view(r) == dependency_table(pairs_view(fc)),
{
    let files = pairs_view(fc);
    assert(files.map_values(|f: (Seq<char>, Seq<char>)| f.0) =~= fc_paths(fc));
    assert(files.map_values(|f: (Seq<char>, Seq<char>)| f.1) =~= fc_contents(fc));
    assert(deps_view(r) =~= dependency_table(files));
}

/// What the report gathers from the selected items (see `gather`).
fn gather_exec(
    snapshot: &Vec<FsEntry>,
    cc: &Vec<Vec<char>>,
    ib: bool,
    items: &Vec<String>,
    itemsc: &Vec<Vec<Vec<char>>>,
    root: Node,
) -> (r: (Vec<(String, String)>, Node, usize, usize))
    requires
        itemsc@.len() == items@.len(),
        forall|k: int| 0 <= k < itemsc@.len() ==> comps_view(#[trigger] itemsc@[k]@) == components(items@[k]@),
    ensures
        ({
            let g = gather(snapshot@, comps_view(cc@), ib, texts(items@), node_view(root), items@.len() as int);
            &&& pairs_view(r.0@) == g.0
            &&& node_view(r.1) == g.1
            &&& r.2 == g.2
            &&& r.3 == g.3
        }),
{
    let ghost ccv = comps_view(cc@);
    let ghost iv = texts(items@);
    let ghost root_v = node_view(root);
    let mut root = root;
    let mut files: Vec<(String, String)> = Vec::new();
    let mut file_count: usize = 0;
    let mut folder_count: usize = 0;
    let mut i: usize = 0;
    while i < items.len()
        invariant
            iv == texts(items@),
            ccv == comps_view(cc@),
            itemsc@.len() == items@.len(),
            forall|k: int| 0 <= k < itemsc@.len() ==> comps_view(#[trigger] itemsc@[k]@) == components(items@[k]@),
            i <= items@.len(),
            ({
                let g = gather(snapshot@, ccv, ib, iv, root_v, i as int);
                &&& pairs_view(files@) == g.0
                &&& node_view(root) == g.1
                &&& file_count == g.2
                &&& folder_count == g.3
            }),
            file_count + folder_count <= i,
        decreases items@.len() - i,
    {
        let ghost p = items@[i as int]@;
        proof {
            assert(iv[i as int] == p);
        }
        let rel = rel_comps_exec(&itemsc[i], &cc);
        if rel.len() > 0 {
            let idx = lookup_index(snapshot, &itemsc[i]);
            let j: usize = match idx {
                Some(j) => j,
                None => snapshot.len(),
            };
            let kind = if j < snapshot.len() {
                snapshot[j].kind
            } else {
                EntryKind::Missing
            };
            proof {
                assert(kind == kind_of(snapshot@, components(p)));
            }
            add_path_to_tree(&mut root, &rel, kind == EntryKind::Dir);
            match kind {
                EntryKind::File => {
                    file_count = file_count + 1;
                    push_file_entry(&mut files, snapshot, cc, ib, items[i].as_str());
                },
                EntryKind::Dir => {
                    folder_count = folder_count + 1;
                    push_dir_files(&mut files, snapshot, cc, ib, items[i].as_str());
                },
                EntryKind::Missing => {},
            }
        }
        i = i + 1;
    }
    (files, root, file_count, folder_count)
}

/// The files analysed for dependencies (see `analysed`).
fn analysed_exec(
    snapshot: &Vec<FsEntry>,
    cc: &Vec<Vec<char>>,
    ib: bool,
    items: &Vec<String>,
    itemsc: &Vec<Vec<Vec<char>>>,
) -> (r: Vec<(String, String)>)
    requires
        itemsc@.len() == items@.len(),
        forall|k: int| 0 <= k < itemsc@.len() ==> comps_view(#[trigger] itemsc@[k]@) == components(items@[k]@),
    ensures
        pairs_view(r@) == analysed(snapshot@, comps_view(cc@), ib, texts(items@), items@.len() as int),
{
    let ghost ccv = comps_view(cc@);
    let ghost iv = texts(items@);
    let mut all: Vec<(String, String)> = Vec::new();
    let mut m: usize = 0;
    while m < items.len()
        invariant
            iv == texts(items@),
            ccv == comps_view(cc@),
            itemsc@.len() == items@.len(),
            forall|k: int| 0 <= k < itemsc@.len() ==> comps_view(#[trigger] itemsc@[k]@) == components(items@[k]@),
            m <= items@.len(),
            pairs_view(all@) == analysed(snapshot@, ccv, ib, iv, m as int),
        decreases items@.len() - m,
    {
        let ghost p = items@[m as int]@;
        proof {
            assert(iv[m as int] == p);
        }
        let idx = lookup_index(snapshot, &itemsc[m]);
        let j: usize = match idx {
            Some(j) => j,
            None => snapshot.len(),
        };
        let kind = if j < snapshot.len() {
            snapshot[j].kind
        } else {
            EntryKind::Missing
        };
        proof {
            assert(kind == kind_of(snapshot@, components(p)));
        }
        match kind {
            EntryKind::File => push_file_entry(&mut all, snapshot, cc, ib, items[m].as_str()),
            EntryKind::Dir => push_all_below(&mut all, snapshot, cc, ib, &itemsc[m]),
            EntryKind::Missing => {},
        }
        m = m + 1;
    }
    all
}

/// The LLM output for a selection and the files and folders counted (see
/// `llm_output`).
pub fn format_llm_output(
    selected_items: &Vec<String>,
    current_dir: &str,
    ignore_config: &IgnoreConfig,
    snapshot: &Vec<FsEntry>,
) -> (r: (String, CopyStats))
    ensures
        ({
            let o = llm_output(snapshot@, selected_items@, current_dir@, ignore_config.include_binary_files);
            &&& r.0@ == o.0
            &&& r.1.files == o.1
            &&& r.1.folders == o.2
        }),
{
    let ib = ignore_config.include_binary_files;
    let cc = parse_components(current_dir);
    proof {
        assert(comps_view(cc@) =~= components(current_dir@));
    }
    let ghost ccv = comps_view(cc@);
    let (items, itemsc) = distinct_selection(selected_items);
    let name = match file_name_comps(&cc) {
        Some(n) => chars_to_string(n.as_slice()),
        None => String::from_str("root"),
    };
    let root = Node { name, is_dir: true, children: Some(Vec::new()) };
    proof {
        reveal_strlit("root");
        assert(node_view(root) =~= TreeV { name: root_name(ccv), is_dir: true, children: Some(seq![]) });
    }
    let (files, tree, file_count, folder_count) = gather_exec(snapshot, &cc, ib, &items, &itemsc, root);
    let all = analysed_exec(snapshot, &cc, ib, &items, &itemsc);
    let deps = analyze_dependencies(&all, current_dir);
    proof {
        lemma_dependency_table(all@, deps@);
        assert(files_view(files@) == pairs_view(files@));
    }
    let mut output = String::new();
    format_llm_output_internal(&mut output, &files, current_dir, &tree, &deps, file_count, folder_count);
    (output, CopyStats { files: file_count, folders: folder_count })
}

} // verus!
