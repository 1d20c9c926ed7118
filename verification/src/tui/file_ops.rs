//! File operations of the interface that change its sets of paths:
//! selecting or deselecting a folder with what lies below it, expanding and
//! collapsing folders, and the decisions of entering a directory and of
//! finishing a counted selection. The disk is read from a snapshot the
//! caller hands in.

use vstd::prelude::*;
use crate::paths::{components, comps_view, parse_components, file_name_of, parent_of};
use crate::output::snapshot::{FsEntry, EntryKind, kind_of, lookup_index};
use crate::output::llm::{listing_of, snap_left, snap_depth, lemma_snap_depth};
use crate::tui::state::{PathSet, SelectionState, Trie, SearchState, SearchMatcher, search_matches, name_comps, toggled};
use crate::tui::listing::{gathered, display_list, items_view, process_for_display, gather_items_for_view, search_found, search_found_in, search_exec, ItemV};
use crate::fs::{list_walk, list_files};
use crate::output::directory::WalkError;
use crate::paths::strip_prefix_of;
use crate::tui::handlers::FileOpsHandler;
use crate::text::{starts_with, chars_starts_with, str_chars, chars_to_string, decimal, push_decimal, push_str, push_chars};
use crate::tui::components::{Modal, ModalType};
use crate::paths::file_name;
use crate::paths::display_comps;
use crate::output::snapshot::display_parsed;
use crate::output::snapshot::{comps_list, comps_eq, comps_in, parse_all, strip_parsed};
use crate::output::toplevel::texts;
use crate::fs::{ignored_in_state, is_path_ignored_in_state, lemma_push_to_set};
use crate::models::IgnoreConfig;

verus! {

/// One path selected (when the limit allows or it is already selected) or
/// deselected.
pub open spec fn sel_step(sel: Set<Seq<Seq<char>>>, c: Seq<Seq<char>>, selected: bool, limit: nat) -> Set<Seq<Seq<char>>> {
    if selected {
        if sel.len() < limit || sel.contains(c) {
            sel.insert(c)
        } else {
            sel
        }
    } else {
        sel.remove(c)
    }
}

/// The selection after selecting (or deselecting) `path` and what lies
/// below it: a directory is handled first, then its entries in listing
/// order; when selecting, a full selection stops at the first entry not
/// already selected, and a directory is left alone when the selection is
/// full and does not hold it.
pub open spec fn folder_selection(
    snap: Seq<FsEntry>,
    sel: Set<Seq<Seq<char>>>,
    path: Seq<char>,
    selected: bool,
    limit: nat,
) -> Set<Seq<Seq<char>>>
    decreases snap_left(snap, components(path)), 1nat, 0nat,
{
    let c = components(path);
    if kind_of(snap, c) == EntryKind::Dir {
        if selected && !(sel.len() < limit || sel.contains(c)) {
            sel
        } else {
            let s1 = sel_step(sel, c, selected, limit);
            match listing_of(snap, c) {
                Some(l) => folder_selection_in(snap, s1, c, l, 0, selected, limit),
                None => s1,
            }
        }
    } else {
        sel_step(sel, c, selected, limit)
    }
}

/// What the entries of the listing `l` of `dir` from index `i` on do to the
/// selection.
pub open spec fn folder_selection_in(
    snap: Seq<FsEntry>,
    sel: Set<Seq<Seq<char>>>,
    dir: Seq<Seq<char>>,
    l: Seq<String>,
    i: int,
    selected: bool,
    limit: nat,
) -> Set<Seq<Seq<char>>>
    decreases snap_left(snap, dir), 0nat, l.len() - i,
{
    if i < 0 || i >= l.len() {
        sel
    } else {
        let e = l[i]@;
        let ec = components(e);
        if selected && sel.len() >= limit && !sel.contains(ec) {
            sel
        } else {
            let s2 = if kind_of(snap, ec) == EntryKind::Dir {
                if ec.len() > dir.len() {
                    proof {
                        lemma_snap_depth(snap, ec);
                    }
                    folder_selection(snap, sel, e, selected, limit)
                } else {
                    sel
                }
            } else {
                sel_step(sel, ec, selected, limit)
            };
            folder_selection_in(snap, s2, dir, l, i + 1, selected, limit)
        }
    }
}

/// Selecting a folder never makes a selection that fits in the limit go
/// past it.
pub proof fn lemma_folder_selection_within_limit(snap: Seq<FsEntry>, sel: Set<Seq<Seq<char>>>, path: Seq<char>, limit: nat)
    requires
        sel.finite(),
        sel.len() <= limit,
    ensures
        folder_selection(snap, sel, path, true, limit).finite(),
        folder_selection(snap, sel, path, true, limit).len() <= limit,
    decreases snap_left(snap, components(path)), 1nat, 0nat,
{
    let c = components(path);
    if kind_of(snap, c) == EntryKind::Dir {
        if sel.len() < limit || sel.contains(c) {
            let s1 = sel_step(sel, c, true, limit);
            match listing_of(snap, c) {
                Some(l) => lemma_folder_selection_in_within_limit(snap, s1, c, l, 0, limit),
                None => {},
            }
        }
    }
}

/// See `lemma_folder_selection_within_limit`: the same for the entries of a
/// listing from index `i` on.
pub proof fn lemma_folder_selection_in_within_limit(
    snap: Seq<FsEntry>,
    sel: Set<Seq<Seq<char>>>,
    dir: Seq<Seq<char>>,
    l: Seq<String>,
    i: int,
    limit: nat,
)
    requires
        sel.finite(),
        sel.len() <= limit,
    ensures
        folder_selection_in(snap, sel, dir, l, i, true, limit).finite(),
        folder_selection_in(snap, sel, dir, l, i, true, limit).len() <= limit,
    decreases snap_left(snap, dir), 0nat, l.len() - i,
{
    if 0 <= i < l.len() {
        let e = l[i]@;
        let ec = components(e);
        if !(sel.len() >= limit && !sel.contains(ec)) {
            let s2 = if kind_of(snap, ec) == EntryKind::Dir {
                if ec.len() > dir.len() {
                    lemma_snap_depth(snap, ec);
                    lemma_folder_selection_within_limit(snap, sel, e, limit);
                    folder_selection(snap, sel, e, true, limit)
                } else {
                    sel
                }
            } else {
                sel_step(sel, ec, true, limit)
            };
            lemma_folder_selection_in_within_limit(snap, s2, dir, l, i + 1, limit);
        }
    }
}

/// Deselecting a folder takes it out and adds nothing.
pub proof fn lemma_folder_deselection(snap: Seq<FsEntry>, sel: Set<Seq<Seq<char>>>, path: Seq<char>, limit: nat)
    ensures
        folder_selection(snap, sel, path, false, limit).subset_of(sel.remove(components(path))),
    decreases snap_left(snap, components(path)), 1nat, 0nat,
{
    let c = components(path);
    if kind_of(snap, c) == EntryKind::Dir {
        match listing_of(snap, c) {
            Some(l) => lemma_folder_deselection_in(snap, sel.remove(c), c, l, 0, limit),
            None => {},
        }
    }
}

/// See `lemma_folder_deselection`: the entries of a listing from index `i`
/// on only take paths out.
pub proof fn lemma_folder_deselection_in(
    snap: Seq<FsEntry>,
    sel: Set<Seq<Seq<char>>>,
    dir: Seq<Seq<char>>,
    l: Seq<String>,
    i: int,
    limit: nat,
)
    ensures
        folder_selection_in(snap, sel, dir, l, i, false, limit).subset_of(sel),
    decreases snap_left(snap, dir), 0nat, l.len() - i,
{
    if 0 <= i < l.len() {
        let e = l[i]@;
        let ec = components(e);
        let s2 = if kind_of(snap, ec) == EntryKind::Dir {
            if ec.len() > dir.len() {
                lemma_snap_depth(snap, ec);
                lemma_folder_deselection(snap, sel, e, limit);
                folder_selection(snap, sel, e, false, limit)
            } else {
                sel
            }
        } else {
            sel_step(sel, ec, false, limit)
        };
        lemma_folder_deselection_in(snap, s2, dir, l, i + 1, limit);
    }
}

/// Selects or deselects the parsed path `pc` of `path` alone (see `sel_step`).
fn step_exec(selected_items: &mut PathSet, path: &str, selected: bool, limit: usize)
    ensures
        final(selected_items).view() == sel_step(old(selected_items).view(), components(path@), selected, limit as nat),
{
    if selected {
        if selected_items.len() < limit || selected_items.contains(path) {
            selected_items.insert(path.to_string());
        }
    } else {
        selected_items.remove(path);
    }
}

/// Whether the snapshot holds the parsed path as a directory, and where.
fn dir_index(snap: &Vec<FsEntry>, c: &Vec<Vec<char>>) -> (r: Option<usize>)
    ensures
        match r {
            Some(j) => j < snap@.len() && kind_of(snap@, comps_view(c@)) == EntryKind::Dir
                && listing_of(snap@, comps_view(c@)) == match snap@[j as int].listing {
                    Some(l) => Some(l@),
                    None => None::<Seq<String>>,
                },
            None => kind_of(snap@, comps_view(c@)) != EntryKind::Dir,
        },
{
    match lookup_index(snap, c) {
        Some(j) => if snap[j].kind == EntryKind::Dir {
            Some(j)
        } else {
            None
        },
        None => None,
    }
}

impl SelectionState {
    /// Selects (or deselects) `path` and everything below it (see
    /// `folder_selection`), reading the disk from `snapshot`.
    pub fn update_folder_selection_recursive(
        selected_items: &mut PathSet,
        path: &str,
        selected: bool,
        limit: usize,
        snapshot: &Vec<FsEntry>,
    )
        ensures
            final(selected_items).view() == folder_selection(snapshot@, old(selected_items).view(), path@, selected, limit as nat),
        decreases snap_left(snapshot@, components(path@)),
    {
        let pc = parse_components(path);
        proof {
            assert(comps_view(pc@) =~= components(path@));
        }
        let j = match dir_index(snapshot, &pc) {
            Some(j) => j,
            None => {
                step_exec(selected_items, path, selected, limit);
                return;
            },
        };
        if selected && !(selected_items.len() < limit || selected_items.contains(path)) {
            return;
        }
        step_exec(selected_items, path, selected, limit);
        let l = match &snapshot[j].listing {
            Some(l) => l,
            None => {
                return;
            },
        };
        let ghost dir = components(path@);
        proof {
            lemma_snap_depth(snapshot@, dir);
        }
        let ghost target = folder_selection_in(snapshot@, selected_items.view(), dir, l@, 0, selected, limit as nat);
        let mut i: usize = 0;
        while i < l.len()
            invariant
                i <= l@.len(),
                dir == components(path@),
                comps_view(pc@) == dir,
                dir.len() <= snap_depth(snapshot@),
                snap_left(snapshot@, dir) == snap_left(snapshot@, components(path@)),
                folder_selection_in(snapshot@, selected_items.view(), dir, l@, i as int, selected, limit as nat) == target,
                target == folder_selection(snapshot@, old(selected_items).view(), path@, selected, limit as nat),
            decreases l@.len() - i,
        {
            let e = l[i].as_str();
            let ec = parse_components(e);
            proof {
                assert(comps_view(ec@) =~= components(l@[i as int]@));
            }
            if selected && selected_items.len() >= limit && !selected_items.contains(e) {
                return;
            }
            let ghost before = selected_items.view();
            match dir_index(snapshot, &ec) {
                Some(_) => {
                    if ec.len() > pc.len() {
                        proof {
                            lemma_snap_depth(snapshot@, comps_view(ec@));
                        }
                        SelectionState::update_folder_selection_recursive(selected_items, e, selected, limit, snapshot);
                    }
                },
                None => {
                    step_exec(selected_items, e, selected, limit);
                },
            }
            proof {
                assert(folder_selection_in(snapshot@, before, dir, l@, i as int, selected, limit as nat)
                    == folder_selection_in(snapshot@, selected_items.view(), dir, l@, i + 1, selected, limit as nat));
            }
            i = i + 1;
        }
    }
}

/// The paths kept when collapsing `path`: those other than `path` whose
/// text does not start with the text of `path`.
pub open spec fn kept_after_collapse(members: Seq<String>, path: Seq<char>) -> Seq<String>
    decreases members.len(),
{
    if members.len() == 0 {
        seq![]
    } else {
        let prev = kept_after_collapse(members.drop_last(), path);
        let m = members.last();
        if components(m@) != components(path) && !starts_with(m@, path) {
            prev.push(m)
        } else {
            prev
        }
    }
}

/// Collapsing a folder leaves it collapsed.
pub proof fn lemma_collapse_removes(members: Seq<String>, path: Seq<char>)
    ensures
        !comps_list(kept_after_collapse(members, path)).to_set().contains(components(path)),
    decreases members.len(),
{
    if members.len() > 0 {
        lemma_collapse_removes(members.drop_last(), path);
        let prev = kept_after_collapse(members.drop_last(), path);
        let m = members.last();
        if components(m@) != components(path) && !starts_with(m@, path) {
            assert(comps_list(prev.push(m)) =~= comps_list(prev).push(components(m@)));
            lemma_push_to_set(comps_list(prev), components(m@));
        }
    }
}

/// The directories `expand_all` expands from `path`: nothing when `path`
/// is not a directory or is ignored; otherwise `path`, then, for each entry
/// of its listing that is a directory not ignored, what expanding it adds.
/// `gi` holds the paths the `.gitignore` files ignore.
pub open spec fn expanded_below(
    snap: Seq<FsEntry>,
    gi: Seq<Seq<Seq<char>>>,
    cfg: IgnoreConfig,
    path: Seq<char>,
) -> Seq<Seq<char>>
    decreases snap_left(snap, components(path)), 1nat, 0nat,
{
    let c = components(path);
    if kind_of(snap, c) != EntryKind::Dir || ignored_in_state(path, cfg, gi.contains(c)) {
        seq![]
    } else {
        match listing_of(snap, c) {
            Some(l) => seq![path] + expanded_in(snap, gi, cfg, c, l, l.len() as int),
            None => seq![path],
        }
    }
}

/// What the first `n` entries of the listing `l` of `dir` expand.
pub open spec fn expanded_in(
    snap: Seq<FsEntry>,
    gi: Seq<Seq<Seq<char>>>,
    cfg: IgnoreConfig,
    dir: Seq<Seq<char>>,
    l: Seq<String>,
    n: int,
) -> Seq<Seq<char>>
    decreases snap_left(snap, dir), 0nat, n,
{
    if n <= 0 || n > l.len() {
        seq![]
    } else {
        let prev = expanded_in(snap, gi, cfg, dir, l, n - 1);
        let e = l[n - 1]@;
        let ec = components(e);
        if kind_of(snap, ec) == EntryKind::Dir && !ignored_in_state(e, cfg, gi.contains(ec)) && ec.len() > dir.len() {
            proof {
                lemma_snap_depth(snap, ec);
            }
            prev + expanded_below(snap, gi, cfg, e)
        } else {
            prev
        }
    }
}

/// Appends the paths `expanded_below` gives for `path`.
fn expand_exec(
    snap: &Vec<FsEntry>,
    gic: &Vec<Vec<Vec<char>>>,
    cfg: &IgnoreConfig,
    path: &str,
    out: &mut Vec<String>,
)
    ensures
        texts(final(out)@) == texts(old(out)@) + expanded_below(
            snap@,
            gic@.map_values(|x: Vec<Vec<char>>| comps_view(x@)),
            *cfg,
            path@,
        ),
    decreases snap_left(snap@, components(path@)),
{
    let ghost gi = gic@.map_values(|x: Vec<Vec<char>>| comps_view(x@));
    let ghost start = texts(out@);
    let pc = parse_components(path);
    proof {
        assert(comps_view(pc@) =~= components(path@));
    }
    let j = match dir_index(snap, &pc) {
        Some(j) => j,
        None => {
            proof {
                assert(texts(out@) =~= start + seq![]);
            }
            return;
        },
    };
    let gm = comps_in(gic, &pc);
    if is_path_ignored_in_state(path, cfg, gm) {
        proof {
            assert(texts(out@) =~= start + seq![]);
        }
        return;
    }
    let ghost b0 = out@;
    out.push(path.to_string());
    proof {
        assert(texts(out@) =~= start + seq![path@]);
    }
    let l = match &snap[j].listing {
        Some(l) => l,
        None => {
            return;
        },
    };
    let ghost dir = components(path@);
    proof {
        lemma_snap_depth(snap@, dir);
    }
    let mut i: usize = 0;
    while i < l.len()
        invariant
            i <= l@.len(),
            dir == components(path@),
            comps_view(pc@) == dir,
            dir.len() <= crate::output::llm::snap_depth(snap@),
            gi == gic@.map_values(|x: Vec<Vec<char>>| comps_view(x@)),
            start == texts(old(out)@),
            texts(out@) == start + seq![path@] + expanded_in(snap@, gi, *cfg, dir, l@, i as int),
        decreases l@.len() - i,
    {
        let ghost before = texts(out@);
        let e = l[i].as_str();
        let ec = parse_components(e);
        proof {
            assert(comps_view(ec@) =~= components(l@[i as int]@));
        }
        match dir_index(snap, &ec) {
            Some(_) => {
                let egm = comps_in(gic, &ec);
                if !is_path_ignored_in_state(e, cfg, egm) && ec.len() > pc.len() {
                    proof {
                        lemma_snap_depth(snap@, comps_view(ec@));
                    }
                    expand_exec(snap, gic, cfg, e, out);
                }
            },
            None => {},
        }
        proof {
            assert(texts(out@) =~= start + seq![path@] + expanded_in(snap@, gi, *cfg, dir, l@, i + 1));
        }
        i = i + 1;
    }
    proof {
        assert(listing_of(snap@, dir) == Some(l@));
    }
}

/// Adds every path of `v` to `set`.
fn insert_all(set: &mut PathSet, v: &Vec<String>)
    ensures
        final(set).view() == old(set).view().union(comps_list(v@).to_set()),
{
    let ghost start = set.view();
    let mut i: usize = 0;
    while i < v.len()
        invariant
            i <= v@.len(),
            set.view() == start.union(comps_list(v@.take(i as int)).to_set()),
        decreases v@.len() - i,
    {
        set.insert(v[i].clone());
        proof {
            assert(comps_list(v@.take(i + 1)) =~= comps_list(v@.take(i as int)).push(components(v@[i as int]@)));
            lemma_push_to_set(comps_list(v@.take(i as int)), components(v@[i as int]@));
            assert(set.view() =~= start.union(comps_list(v@.take(i + 1)).to_set()));
        }
        i = i + 1;
    }
    proof {
        assert(v@.take(v@.len() as int) =~= v@);
    }
}

/// Whether a path's last component is `..`.
pub open spec fn ends_with_parent(p: Seq<char>) -> bool {
    components(p).len() > 0 && components(p).last() == seq!['.', '.']
}

/// Whether `path`'s last component is `..` (see `ends_with_parent`).
pub(crate) fn ends_with_parent_exec(path: &str) -> (r: bool)
    ensures
        r == ends_with_parent(path@),
{
    let pc = parse_components(path);
    proof {
        assert(comps_view(pc@) =~= components(path@));
    }
    let n = pc.len();
    if n == 0 {
        return false;
    }
    let dots = ['.', '.'];
    proof {
        assert(dots@ =~= seq!['.', '.']);
        assert(comps_view(pc@).last() == pc@[n - 1]@);
    }
    crate::text::chars_eq(pc[n - 1].as_slice(), dots.as_slice())
}

/// Where pressing Enter on `path` leads from `current_dir`: nowhere unless
/// it is a directory; the current directory's parent for an entry ending
/// in `..` (nowhere when there is none); otherwise `path` itself.
pub open spec fn enter_target(path: Seq<char>, is_dir: bool, current_dir: Seq<char>) -> Option<Seq<Seq<char>>> {
    if !is_dir {
        None
    } else if ends_with_parent(path) {
        parent_of(components(current_dir))
    } else {
        Some(components(path))
    }
}

impl FileOpsHandler {
    /// Removes `path` and every expanded path whose text starts with the
    /// text of `path` (see `kept_after_collapse`).
    pub fn collapse_all(expanded_folders: &mut PathSet, path: &str)
        ensures
            final(expanded_folders).view() == comps_list(kept_after_collapse(old(expanded_folders).members(), path@)).to_set(),
    {
        let all = expanded_folders.to_vec();
        let pc = parse_components(path);
        let pt = str_chars(path);
        proof {
            assert(comps_view(pc@) =~= components(path@));
        }
        expanded_folders.clear();
        let mut kept: Vec<String> = Vec::new();
        let mut i: usize = 0;
        proof {
            assert(all@.take(0) =~= Seq::<String>::empty());
        }
        while i < all.len()
            invariant
                i <= all@.len(),
                comps_view(pc@) == components(path@),
                pt@ == path@,
                kept@ == kept_after_collapse(all@.take(i as int), path@),
            decreases all@.len() - i,
        {
            proof {
                assert(all@.take(i + 1).drop_last() =~= all@.take(i as int));
                assert(all@.take(i + 1).last() == all@[i as int]);
            }
            let mc = parse_components(all[i].as_str());
            let mt = str_chars(all[i].as_str());
            proof {
                assert(comps_view(mc@) =~= components(all@[i as int]@));
            }
            if !comps_eq(&mc, &pc) && !chars_starts_with(mt.as_slice(), pt.as_slice()) {
                kept.push(all[i].clone());
            }
            i = i + 1;
        }
        proof {
            assert(all@.take(all@.len() as int) =~= all@);
            assert(Set::<Seq<Seq<char>>>::empty().union(comps_list(kept@).to_set()) =~= comps_list(kept@).to_set());
        }
        insert_all(expanded_folders, &kept);
    }

    /// Expands `path` and every directory below it that is not ignored (see
    /// `expanded_below`), reading the disk from `snapshot`; `gitignored`
    /// lists the paths the `.gitignore` files ignore.
    pub fn expand_all(
        expanded_folders: &mut PathSet,
        path: &str,
        ignore_config: &IgnoreConfig,
        snapshot: &Vec<FsEntry>,
        gitignored: &Vec<String>,
    )
        ensures
            final(expanded_folders).view() == old(expanded_folders).view().union(
                expanded_below(snapshot@, comps_list(gitignored@), *ignore_config, path@).map_values(|p: Seq<char>| components(p)).to_set(),
            ),
    {
        let gic = parse_all(gitignored);
        proof {
            assert(gic@.map_values(|x: Vec<Vec<char>>| comps_view(x@)) =~= comps_list(gitignored@));
        }
        let mut found: Vec<String> = Vec::new();
        expand_exec(snapshot, &gic, ignore_config, path, &mut found);
        proof {
            assert(comps_list(found@) =~= texts(found@).map_values(|p: Seq<char>| components(p)));
        }
        insert_all(expanded_folders, &found);
    }

    /// Expands a collapsed folder or collapses an expanded one, for a
    /// directory other than a `..` entry; returns whether anything changed
    /// (then the list is to be reloaded).
    pub fn toggle_folder_expansion(expanded_folders: &mut PathSet, path: &str, is_dir: bool) -> (r: bool)
        ensures
            r == (is_dir && !ends_with_parent(path@)),
            final(expanded_folders).view() == if r {
                toggled(old(expanded_folders).view(), components(path@))
            } else {
                old(expanded_folders).view()
            },
    {
        if !is_dir || ends_with_parent_exec(path) {
            return false;
        }
        if expanded_folders.contains(path) {
            expanded_folders.remove(path);
        } else {
            expanded_folders.insert(path.to_string());
        }
        true
    }

    /// Where pressing Enter on `path` leads (see `enter_target`): the new
    /// current directory, written as `path` itself, or for a `..` entry as
    /// the parent's components joined.
    pub fn enter_directory(path: &str, is_dir: bool, current_dir: &str) -> (r: Option<String>)
        ensures
            match enter_target(path@, is_dir, current_dir@) {
                Some(c) => r is Some && r->0@ == if ends_with_parent(path@) { display_comps(c) } else { path@ },
                None => r is None,
            },
    {
        if !is_dir {
            return None;
        }
        if ends_with_parent_exec(path) {
            let mut cc = parse_components(current_dir);
            proof {
                assert(comps_view(cc@) =~= components(current_dir@));
            }
            let n = cc.len();
            if n == 0 {
                return None;
            }
            let root = ['/'];
            proof {
                assert(root@ =~= seq!['/']);
                assert(comps_view(cc@).last() == cc@[n - 1]@);
            }
            if crate::text::chars_eq(cc[n - 1].as_slice(), root.as_slice()) {
                return None;
            }
            cc.pop();
            proof {
                assert(comps_view(cc@) =~= components(current_dir@).drop_last());
            }
            let shown = display_parsed(cc.as_slice());
            Some(chars_to_string(shown.as_slice()))
        } else {
            Some(path.to_string())
        }
    }
}

/// The selection with the folder added optimistically and its optimistic
/// children taken out.
pub open spec fn without_optimistic(
    sel: Set<Seq<Seq<char>>>,
    folder: Option<Seq<char>>,
    children: Seq<String>,
) -> Set<Seq<Seq<char>>> {
    let s0 = match folder {
        Some(f) => sel.remove(components(f)),
        None => sel,
    };
    s0.difference(comps_list(children).to_set())
}

/// The name shown for a path in the limit message: its file name, or empty.
pub open spec fn shown_name(p: Seq<char>) -> Seq<char> {
    match file_name_of(components(p)) {
        Some(n) => n,
        None => seq![],
    }
}

/// The message shown when finishing a counted selection would exceed the
/// limit.
pub open spec fn limit_message(limit: nat, path: Seq<char>, num: nat, total: nat) -> Seq<char> {
    "Selection limit ("@ + decimal(limit) + ") exceeded for "@ + shown_name(path) + ". Tried to select "@ + decimal(num)
        + " items (total would be "@ + decimal(total) + ")."@
}

/// Removes every path of `v` from `set`.
fn remove_all(set: &mut PathSet, v: &Vec<String>)
    ensures
        final(set).view() == old(set).view().difference(comps_list(v@).to_set()),
{
    let ghost start = set.view();
    let mut i: usize = 0;
    while i < v.len()
        invariant
            i <= v@.len(),
            set.view() == start.difference(comps_list(v@.take(i as int)).to_set()),
        decreases v@.len() - i,
    {
        set.remove(v[i].as_str());
        proof {
            assert(comps_list(v@.take(i + 1)) =~= comps_list(v@.take(i as int)).push(components(v@[i as int]@)));
            lemma_push_to_set(comps_list(v@.take(i as int)), components(v@[i as int]@));
            assert(set.view() =~= start.difference(comps_list(v@.take(i + 1)).to_set()));
        }
        i = i + 1;
    }
    proof {
        assert(v@.take(v@.len() as int) =~= v@);
    }
}

impl FileOpsHandler {
    /// Finishes the selection of `path_counted` once `num_items_in_op`
    /// items were counted below it: the optimistic folder and children are
    /// taken out; when the other selected items and the count fit in the
    /// limit, a directory is selected with what lies below it (see
    /// `folder_selection`) and nothing is returned; otherwise the selection
    /// stays without them and the limit dialog is returned.
    pub fn finalize_single_selection(
        selected_items: &mut PathSet,
        path_counted: &str,
        is_dir: bool,
        num_items_in_op: usize,
        original_optimistic_folder: Option<String>,
        original_optimistic_children: &Vec<String>,
        selection_limit: usize,
        snapshot: &Vec<FsEntry>,
    ) -> (r: Option<Modal>)
        requires
            old(selected_items).view().len() + num_items_in_op <= usize::MAX,
        ensures
            ({
                let folder = match original_optimistic_folder {
                    Some(f) => Some(f@),
                    None => None,
                };
                let s1 = without_optimistic(old(selected_items).view(), folder, original_optimistic_children@);
                if s1.len() + num_items_in_op <= selection_limit {
                    &&& r is None
                    &&& final(selected_items).view() == if is_dir {
                        folder_selection(snapshot@, s1, path_counted@, true, selection_limit as nat)
                    } else {
                        s1
                    }
                } else {
                    &&& final(selected_items).view() == s1
                    &&& r matches Some(m) && m.message@ == limit_message(
                        selection_limit as nat,
                        path_counted@,
                        num_items_in_op as nat,
                        (s1.len() + num_items_in_op) as nat,
                    ) && m.width == 75 && m.height == 6 && m.page == 0 && m.modal_type == ModalType::Info
                }
            }),
    {
        match &original_optimistic_folder {
            Some(f) => {
                selected_items.remove(f.as_str());
            },
            None => {},
        }
        proof {
            assert(old(selected_items).view().finite());
        }
        remove_all(selected_items, original_optimistic_children);
        let others = selected_items.len();
        proof {
            assert(selected_items.view().subset_of(old(selected_items).view()));
            vstd::set_lib::lemma_len_subset(selected_items.view(), old(selected_items).view());
        }
        if others + num_items_in_op <= selection_limit {
            if is_dir {
                SelectionState::update_folder_selection_recursive(selected_items, path_counted, true, selection_limit, snapshot);
            }
            return None;
        }
        match &original_optimistic_folder {
            Some(opt) => {
                let oc = parse_components(opt.as_str());
                let pc = parse_components(path_counted);
                if comps_eq(&oc, &pc) {
                    selected_items.remove(opt.as_str());
                    remove_all(selected_items, original_optimistic_children);
                    proof {
                        assert(selected_items.view() =~= without_optimistic(
                            old(selected_items).view(),
                            Some(opt@),
                            original_optimistic_children@,
                        ));
                    }
                }
            },
            None => {},
        }
        let mut m: Vec<char> = Vec::new();
        push_str(&mut m, "Selection limit (");
        push_decimal(&mut m, selection_limit);
        push_str(&mut m, ") exceeded for ");
        match file_name(path_counted) {
            Some(n) => push_str(&mut m, n.as_str()),
            None => {},
        }
        push_str(&mut m, ". Tried to select ");
        push_decimal(&mut m, num_items_in_op);
        push_str(&mut m, " items (total would be ");
        push_decimal(&mut m, others + num_items_in_op);
        push_str(&mut m, ").");
        proof {
            assert(m@ =~= limit_message(
                selection_limit as nat,
                path_counted@,
                num_items_in_op as nat,
                (others + num_items_in_op) as nat,
            ));
        }
        Some(Modal::new(chars_to_string(m.as_slice()), 75, 6))
    }
}

/// The ancestors of the path with components `c` that a search expands,
/// nearest first: walking up from `c`, until the current directory `cur`,
/// the root or the empty path, each ancestor that lies below `cur`.
pub open spec fn ancestors_under(c: Seq<Seq<char>>, cur: Seq<Seq<char>>) -> Seq<Seq<Seq<char>>>
    decreases c.len(),
{
    match parent_of(c) {
        None => seq![],
        Some(p) => if p == cur || p == seq![seq!['/']] || p.len() == 0 {
            seq![]
        } else {
            (if strip_prefix_of(p, cur) is Some {
                seq![p]
            } else {
                seq![]
            }) + ancestors_under(p, cur)
        },
    }
}

/// The ancestors expanded for every item of a list, in order.
pub open spec fn all_ancestors(items: Seq<Seq<char>>, cur: Seq<Seq<char>>) -> Seq<Seq<Seq<char>>>
    decreases items.len(),
{
    if items.len() == 0 {
        seq![]
    } else {
        all_ancestors(items.drop_last(), cur) + ancestors_under(components(items.last()), cur)
    }
}

/// Appends the text of every ancestor `ancestors_under` gives for `pc`.
fn push_ancestors(pc: &Vec<Vec<char>>, cc: &Vec<Vec<char>>, out: &mut Vec<String>)
    ensures
        texts(final(out)@) == texts(old(out)@) + ancestors_under(comps_view(pc@), comps_view(cc@)).map_values(|p: Seq<Seq<char>>| display_comps(p)),
{
    let ghost start = texts(out@);
    let ghost cur = comps_view(cc@);
    let ghost c0 = comps_view(pc@);
    let root = ['/'];
    proof {
        assert(root@ =~= seq!['/']);
    }
    let mut c: Vec<Vec<char>> = Vec::new();
    let mut k: usize = 0;
    while k < pc.len()
        invariant
            k <= pc@.len(),
            comps_view(c@) == comps_view(pc@).take(k as int),
        decreases pc@.len() - k,
    {
        let mut piece: Vec<char> = Vec::new();
        push_chars(&mut piece, pc[k].as_slice());
        let ghost before = c@;
        c.push(piece);
        k = k + 1;
        proof {
            assert(comps_view(c@) =~= comps_view(before).push(piece@));
            assert(comps_view(c@) =~= comps_view(pc@).take(k as int));
        }
    }
    proof {
        assert(comps_view(pc@).take(pc@.len() as int) =~= c0);
        assert(texts(out@) =~= start + (ancestors_under(c0, cur).map_values(|p: Seq<Seq<char>>| display_comps(p))
            .take(0)));
    }
    let ghost f = |p: Seq<Seq<char>>| display_comps(p);
    while c.len() > 0
        invariant
            cur == comps_view(cc@),
            root@ == seq!['/'],
            f == (|p: Seq<Seq<char>>| display_comps(p)),
            start == texts(old(out)@),
            c0 == comps_view(pc@),
            texts(out@) + ancestors_under(comps_view(c@), cur).map_values(f)
                == start + ancestors_under(c0, cur).map_values(f),
        decreases c@.len(),
    {
        let n = c.len();
        proof {
            assert(comps_view(c@).last() == c@[n - 1]@);
        }
        if crate::text::chars_eq(c[n - 1].as_slice(), root.as_slice()) {
            proof {
                assert(ancestors_under(comps_view(c@), cur) =~= Seq::<Seq<Seq<char>>>::empty());
                assert(ancestors_under(comps_view(c@), cur).map_values(f) =~= Seq::<Seq<char>>::empty());
                assert(texts(out@) =~= texts(out@) + Seq::<Seq<char>>::empty());
            }
            return;
        }
        let ghost cv = comps_view(c@);
        c.pop();
        proof {
            assert(comps_view(c@) =~= cv.drop_last());
        }
        let p = comps_view_parent_check(&c, cc, root.as_slice());
        if p.0 {
            proof {
                assert(ancestors_under(cv, cur) =~= Seq::<Seq<Seq<char>>>::empty());
                assert(ancestors_under(cv, cur).map_values(f) =~= Seq::<Seq<char>>::empty());
                assert(texts(out@) =~= texts(out@) + Seq::<Seq<char>>::empty());
            }
            return;
        }
        if p.1 {
            let shown = display_parsed(c.as_slice());
            let ghost before = texts(out@);
            out.push(chars_to_string(shown.as_slice()));
            proof {
                assert(texts(out@) =~= before.push(display_comps(comps_view(c@))));
                assert(ancestors_under(cv, cur) =~= seq![comps_view(c@)] + ancestors_under(comps_view(c@), cur));
                assert(ancestors_under(cv, cur).map_values(f) =~= seq![display_comps(comps_view(c@))] + ancestors_under(comps_view(c@), cur).map_values(f));
            }
        } else {
            proof {
                assert(ancestors_under(cv, cur) =~= ancestors_under(comps_view(c@), cur));
            }
        }
    }
    proof {
        assert(ancestors_under(comps_view(c@), cur) =~= Seq::<Seq<Seq<char>>>::empty());
        assert(ancestors_under(comps_view(c@), cur).map_values(f) =~= Seq::<Seq<char>>::empty());
        assert(texts(out@) =~= texts(out@) + Seq::<Seq<char>>::empty());
    }
}

/// For a parent `c`: whether the walk stops there (it is the current
/// directory `cc`, the root or empty), and whether it lies below `cc`.
fn comps_view_parent_check(c: &Vec<Vec<char>>, cc: &Vec<Vec<char>>, root: &[char]) -> (r: (bool, bool))
    requires
        root@ == seq!['/'],
    ensures
        r.0 == (comps_view(c@) == comps_view(cc@) || comps_view(c@) == seq![seq!['/']] || c@.len() == 0),
        r.1 == (strip_prefix_of(comps_view(c@), comps_view(cc@)) is Some),
{
    let is_root = c.len() == 1 && crate::text::chars_eq(c[0].as_slice(), root);
    proof {
        if c@.len() == 1 {
            assert(comps_view(c@) =~= seq![c@[0]@]);
            if comps_view(c@) == seq![seq!['/']] {
                assert(c@[0]@ == comps_view(c@)[0]);
            }
        } else {
            assert(comps_view(c@).len() != 1);
        }
    }
    let stop = comps_eq(c, cc) || is_root || c.len() == 0;
    let below = match strip_parsed(c, cc) {
        Some(_) => true,
        None => false,
    };
    (stop, below)
}

/// The files and directories `load_items` collects before display: in
/// recursive mode every path below the current directory that the state
/// does not ignore; otherwise the tree view of the current directory down
/// to depth 10. The second value is whether every directory could be listed.
pub open spec fn collected(
    snap: Seq<FsEntry>,
    gi: Seq<Seq<Seq<char>>>,
    cfg: IgnoreConfig,
    expanded: Set<Seq<Seq<char>>>,
    recursive: bool,
    current_dir: Seq<char>,
) -> (Seq<Seq<char>>, bool) {
    if recursive {
        (not_ignored(snap, gi, cfg, list_walk(snap, seq![components(current_dir)], Set::empty())), true)
    } else {
        gathered(snap, gi, cfg, expanded, components(current_dir), 0, 10)
    }
}

/// The paths the state does not ignore, in order.
pub open spec fn not_ignored(snap: Seq<FsEntry>, gi: Seq<Seq<Seq<char>>>, cfg: IgnoreConfig, s: Seq<Seq<char>>) -> Seq<Seq<char>>
    decreases s.len(),
{
    if s.len() == 0 {
        seq![]
    } else {
        let prev = not_ignored(snap, gi, cfg, s.drop_last());
        if ignored_in_state(s.last(), cfg, gi.contains(components(s.last()))) {
            prev
        } else {
            prev.push(s.last())
        }
    }
}

/// Paths with whether the snapshot holds each as a directory.
pub open spec fn with_kinds(snap: Seq<FsEntry>, s: Seq<Seq<char>>) -> Seq<ItemV> {
    s.map_values(|p: Seq<char>| (p, kind_of(snap, components(p)) == EntryKind::Dir))
}

/// The list `load_items` shows (see `display_list`), or `None` when a
/// directory could not be listed.
pub open spec fn loaded(
    snap: Seq<FsEntry>,
    gi: Seq<Seq<Seq<char>>>,
    cfg: IgnoreConfig,
    expanded: Set<Seq<Seq<char>>>,
    recursive: bool,
    current_dir: Seq<char>,
    initial_dir: Seq<char>,
    query: Seq<char>,
) -> Option<Seq<Seq<char>>> {
    let c = collected(snap, gi, cfg, expanded, recursive, current_dir);
    if c.1 {
        Some(display_list(with_kinds(snap, c.0), query, recursive, current_dir, initial_dir))
    } else {
        None
    }
}

/// Keeps the paths the state does not ignore (see `not_ignored`).
fn keep_not_ignored(snap: &Vec<FsEntry>, v: &Vec<String>, gic: &Vec<Vec<Vec<char>>>, cfg: &IgnoreConfig) -> (r: Vec<String>)
    ensures
        texts(r@) == not_ignored(snap@, gic@.map_values(|x: Vec<Vec<char>>| comps_view(x@)), *cfg, texts(v@)),
{
    let ghost gi = gic@.map_values(|x: Vec<Vec<char>>| comps_view(x@));
    let mut out: Vec<String> = Vec::new();
    let mut i: usize = 0;
    while i < v.len()
        invariant
            i <= v@.len(),
            gi == gic@.map_values(|x: Vec<Vec<char>>| comps_view(x@)),
            texts(out@) == not_ignored(snap@, gi, *cfg, texts(v@.take(i as int))),
        decreases v@.len() - i,
    {
        proof {
            assert(texts(v@.take(i + 1)) =~= texts(v@.take(i as int)).push(v@[i as int]@));
            assert(texts(v@.take(i + 1)).drop_last() =~= texts(v@.take(i as int)));
        }
        let pc = parse_components(v[i].as_str());
        proof {
            assert(comps_view(pc@) =~= components(v@[i as int]@));
        }
        let gm = comps_in(gic, &pc);
        if !is_path_ignored_in_state(v[i].as_str(), cfg, gm) {
            let ghost before = out@;
            out.push(v[i].clone());
            proof {
                assert(texts(out@) =~= texts(before).push(v@[i as int]@));
            }
        }
        i = i + 1;
    }
    proof {
        assert(v@.take(v@.len() as int) =~= v@);
    }
    out
}

/// Whether each path is held as a directory by the snapshot.
fn kinds_of(snap: &Vec<FsEntry>, v: &Vec<String>) -> (r: Vec<bool>)
    ensures
        r@.len() == v@.len(),
        items_view(v@, r@) == with_kinds(snap@, texts(v@)),
{
    let mut out: Vec<bool> = Vec::new();
    let mut i: usize = 0;
    while i < v.len()
        invariant
            i <= v@.len(),
            out@.len() == i,
            forall|k: int| 0 <= k < i ==> out@[k] == (kind_of(snap@, components(#[trigger] v@[k]@)) == EntryKind::Dir),
        decreases v@.len() - i,
    {
        let pc = parse_components(v[i].as_str());
        proof {
            assert(comps_view(pc@) =~= components(v@[i as int]@));
        }
        let d = match dir_index(snap, &pc) {
            Some(_) => true,
            None => false,
        };
        out.push(d);
        i = i + 1;
    }
    proof {
        assert(items_view(v@, out@) =~= with_kinds(snap@, texts(v@)));
    }
    out
}

impl FileOpsHandler {
    /// Reloads the items: the trie is emptied, then filled with the
    /// collected paths (see `collected`), and the list shown is returned
    /// (see `loaded`); reads the disk from `snapshot`, and `gitignored`
    /// lists the paths the `.gitignore` files ignore. Fails, leaving the
    /// trie empty, when a directory of the tree view cannot be listed.
    pub fn load_items(
        items: &mut Trie,
        recursive: bool,
        current_dir: &str,
        initial_dir: &str,
        search_query: &str,
        ignore_config: &IgnoreConfig,
        expanded_folders: &PathSet,
        snapshot: &Vec<FsEntry>,
        gitignored: &Vec<String>,
    ) -> (r: Result<Vec<String>, WalkError>)
        ensures
            ({
                let gi = comps_list(gitignored@);
                let c = collected(snapshot@, gi, *ignore_config, expanded_folders.view(), recursive, current_dir@);
                match loaded(snapshot@, gi, *ignore_config, expanded_folders.view(), recursive, current_dir@, initial_dir@, search_query@) {
                    Some(shown) => r matches Ok(v) && texts(v@) == shown && final(items).view() == c.0.map_values(
                        |p: Seq<char>| name_comps(components(p)),
                    ).to_set(),
                    None => r is Err && final(items).view() == Set::<Seq<Seq<char>>>::empty(),
                }
            }),
    {
        items.clear();
        proof {
            assert(items.view() =~= Set::<Seq<Seq<char>>>::empty());
        }
        let gic = parse_all(gitignored);
        proof {
            assert(gic@.map_values(|x: Vec<Vec<char>>| comps_view(x@)) =~= comps_list(gitignored@));
        }
        let mut paths: Vec<String> = Vec::new();
        if recursive {
            let all = list_files(current_dir, snapshot);
            paths = keep_not_ignored(snapshot, &all, &gic, ignore_config);
        } else {
            match gather_items_for_view(current_dir, &mut paths, 0, 10, ignore_config, expanded_folders, snapshot, gitignored) {
                Ok(()) => {},
                Err(e) => {
                    return Err(e);
                },
            }
            proof {
                assert(texts(paths@) =~= Seq::<Seq<char>>::empty() + texts(paths@));
            }
        }
        let ghost pv = texts(paths@);
        let ghost ps = paths@;
        let dirs = kinds_of(snapshot, &paths);
        let shown = process_for_display(&paths, &dirs, search_query, recursive, current_dir, initial_dir);
        items.extend(paths);
        proof {
            let f = |p: Seq<char>| name_comps(components(p));
            assert(ps.map_values(|p: String| name_comps(components(p@))) =~= pv.map_values(f));
            assert(Set::<Seq<Seq<char>>>::empty().union(pv.map_values(f).to_set()) =~= pv.map_values(f).to_set());
        }
        Ok(shown)
    }
}

/// What a recursive search from the current directory finds: the search
/// from each entry of its listing at depth 1, down to depth 4.
pub open spec fn search_results(
    snap: Seq<FsEntry>,
    gi: Seq<Seq<Seq<char>>>,
    cfg: IgnoreConfig,
    query: Seq<char>,
    current_dir: Seq<char>,
) -> Seq<Seq<char>> {
    match listing_of(snap, components(current_dir)) {
        Some(l) => search_found_in(snap, gi, cfg, query, l, l.len() as int, 1, 4),
        None => seq![],
    }
}

/// The expanded folders after a recursive search: the ancestors of every
/// path found (see `ancestors_under`) are added, each written as its
/// components joined.
pub open spec fn expanded_for_search(
    expanded: Set<Seq<Seq<char>>>,
    found: Seq<Seq<char>>,
    current_dir: Seq<char>,
) -> Set<Seq<Seq<char>>> {
    expanded.union(
        all_ancestors(found, components(current_dir)).map_values(|a: Seq<Seq<char>>| components(display_comps(a))).to_set(),
    )
}

/// The expanded folders after searching for `q` (see `expanded_for_search`).
pub open spec fn search_expanded(
    snap: Seq<FsEntry>,
    gi: Seq<Seq<Seq<char>>>,
    cfg: IgnoreConfig,
    expanded: Set<Seq<Seq<char>>>,
    recursive: bool,
    current_dir: Seq<char>,
    q: Seq<char>,
) -> Set<Seq<Seq<char>>> {
    if q.len() > 0 && recursive {
        expanded_for_search(expanded, search_results(snap, gi, cfg, q, current_dir), current_dir)
    } else {
        expanded
    }
}

/// The list shown after searching for `q`: the reloaded list (see
/// `loaded`), kept to the paths whose file name matches outside recursive
/// mode; `None` when a directory could not be listed.
pub open spec fn searched(
    snap: Seq<FsEntry>,
    gi: Seq<Seq<Seq<char>>>,
    cfg: IgnoreConfig,
    expanded: Set<Seq<Seq<char>>>,
    recursive: bool,
    current_dir: Seq<char>,
    initial_dir: Seq<char>,
    q: Seq<char>,
) -> Option<Seq<Seq<char>>> {
    let ex = search_expanded(snap, gi, cfg, expanded, recursive, current_dir, q);
    match loaded(snap, gi, cfg, ex, recursive, current_dir, initial_dir, q) {
        Some(shown) => Some(if q.len() > 0 && !recursive {
            name_matching(shown, q)
        } else {
            shown
        }),
        None => None,
    }
}

/// The shown paths whose file name matches the query.
pub open spec fn name_matching(s: Seq<Seq<char>>, query: Seq<char>) -> Seq<Seq<char>>
    decreases s.len(),
{
    if s.len() == 0 {
        seq![]
    } else {
        let prev = name_matching(s.drop_last(), query);
        match file_name_of(components(s.last())) {
            Some(n) => if search_matches(query, n) {
                prev.push(s.last())
            } else {
                prev
            },
            None => prev,
        }
    }
}

/// Keeps the paths whose file name the matcher accepts.
fn keep_name_matching(v: Vec<String>, matcher: &SearchMatcher) -> (r: Vec<String>)
    requires
        matcher.made(),
    ensures
        texts(r@) == name_matching(texts(v@), matcher.query()),
{
    let mut out: Vec<String> = Vec::new();
    let mut i: usize = 0;
    while i < v.len()
        invariant
            i <= v@.len(),
            matcher.made(),
            texts(out@) == name_matching(texts(v@.take(i as int)), matcher.query()),
        decreases v@.len() - i,
    {
        proof {
            assert(texts(v@.take(i + 1)).drop_last() =~= texts(v@.take(i as int)));
            assert(texts(v@.take(i + 1)).last() == v@[i as int]@);
        }
        let pc = parse_components(v[i].as_str());
        proof {
            assert(comps_view(pc@) =~= components(v@[i as int]@));
        }
        match crate::paths::file_name_comps(&pc) {
            Some(n) => {
                let ns = chars_to_string(n.as_slice());
                if matcher.matches(ns.as_str()) {
                    let ghost before = out@;
                    out.push(v[i].clone());
                    proof {
                        assert(texts(out@) =~= texts(before).push(v@[i as int]@));
                    }
                }
            },
            None => {},
        }
        i = i + 1;
    }
    proof {
        assert(v@.take(v@.len() as int) =~= v@);
    }
    out
}

impl FileOpsHandler {
    /// Refreshes the list for the search query of `search_state`: without a
    /// query the items are reloaded (see `load_items`); outside recursive
    /// mode the reloaded list keeps the paths whose file name matches; in
    /// recursive mode the ancestors of what a search from the current
    /// directory finds are expanded first (see `expanded_for_search`), then
    /// the items are reloaded.
    pub fn update_search(
        items: &mut Trie,
        search_state: &SearchState,
        recursive: bool,
        current_dir: &str,
        initial_dir: &str,
        ignore_config: &IgnoreConfig,
        expanded_folders: &mut PathSet,
        snapshot: &Vec<FsEntry>,
        gitignored: &Vec<String>,
    ) -> (r: Result<Vec<String>, WalkError>)
        ensures
            final(expanded_folders).view() == search_expanded(
                snapshot@,
                comps_list(gitignored@),
                *ignore_config,
                old(expanded_folders).view(),
                recursive,
                current_dir@,
                search_state.search_query@,
            ),
            match searched(
                snapshot@,
                comps_list(gitignored@),
                *ignore_config,
                old(expanded_folders).view(),
                recursive,
                current_dir@,
                initial_dir@,
                search_state.search_query@,
            ) {
                Some(v) => r matches Ok(x) && texts(x@) == v,
                None => r is Err,
            },
    {
        let query = search_state.search_query.as_str();
        if query.is_empty() {
            return FileOpsHandler::load_items(items, recursive, current_dir, initial_dir, query, ignore_config, expanded_folders, snapshot, gitignored);
        }
        let matcher = search_state.create_matcher();
        if !recursive {
            let shown = match FileOpsHandler::load_items(items, recursive, current_dir, initial_dir, query, ignore_config, expanded_folders, snapshot, gitignored) {
                Ok(v) => v,
                Err(e) => {
                    return Err(e);
                },
            };
            return Ok(keep_name_matching(shown, &matcher));
        }
        let gic = parse_all(gitignored);
        let ghost gi = comps_list(gitignored@);
        proof {
            assert(gic@.map_values(|x: Vec<Vec<char>>| comps_view(x@)) =~= gi);
        }
        let cc = parse_components(current_dir);
        proof {
            assert(comps_view(cc@) =~= components(current_dir@));
        }
        let mut found: Vec<String> = Vec::new();
        match lookup_index(snapshot, &cc) {
            Some(j) => match &snapshot[j].listing {
                Some(l) => {
                    proof {
                        assert(listing_of(snapshot@, components(current_dir@)) == Some(l@));
                    }
                    let mut i: usize = 0;
                    while i < l.len()
                        invariant
                            i <= l@.len(),
                            matcher.made(),
                            matcher.query() == search_state.search_query@,
                            gi == gic@.map_values(|x: Vec<Vec<char>>| comps_view(x@)),
                            texts(found@) == search_found_in(snapshot@, gi, *ignore_config, matcher.query(), l@, i as int, 1, 4),
                        decreases l@.len() - i,
                    {
                        search_exec(snapshot, &gic, ignore_config, &matcher, l[i].as_str(), 1, 4, &mut found);
                        i = i + 1;
                    }
                },
                None => {
                    proof {
                        assert(texts(found@) =~= Seq::<Seq<char>>::empty());
                    }
                },
            },
            None => {
                proof {
                    assert(texts(found@) =~= Seq::<Seq<char>>::empty());
                }
            },
        }
        let ghost fv = texts(found@);
        let mut parents: Vec<String> = Vec::new();
        let mut k: usize = 0;
        while k < found.len()
            invariant
                k <= found@.len(),
                fv == texts(found@),
                comps_view(cc@) == components(current_dir@),
                texts(parents@) == all_ancestors(fv.take(k as int), components(current_dir@)).map_values(
                    |a: Seq<Seq<char>>| display_comps(a),
                ),
            decreases found@.len() - k,
        {
            let pc = parse_components(found[k].as_str());
            proof {
                assert(comps_view(pc@) =~= components(found@[k as int]@));
                assert(fv.take(k + 1).drop_last() =~= fv.take(k as int));
                assert(fv.take(k + 1).last() == found@[k as int]@);
            }
            push_ancestors(&pc, &cc, &mut parents);
            proof {
                let g = |a: Seq<Seq<char>>| display_comps(a);
                let a0 = all_ancestors(fv.take(k as int), components(current_dir@));
                let a1 = ancestors_under(components(found@[k as int]@), components(current_dir@));
                assert((a0 + a1).map_values(g) =~= a0.map_values(g) + a1.map_values(g));
            }
            k = k + 1;
        }
        proof {
            assert(fv.take(found@.len() as int) =~= fv);
            let g = |a: Seq<Seq<char>>| display_comps(a);
            let h = |a: Seq<Seq<char>>| components(display_comps(a));
            let aa = all_ancestors(fv, components(current_dir@));
            assert(texts(parents@) == aa.map_values(g));
            assert(comps_list(parents@).len() == aa.map_values(h).len());
            assert forall|i: int| 0 <= i < aa.len() implies comps_list(parents@)[i] == aa.map_values(h)[i] by {
                assert(texts(parents@)[i] == parents@[i]@);
                assert(aa.map_values(g)[i] == display_comps(aa[i]));
            }
            assert(comps_list(parents@) =~= aa.map_values(h));
        }
        insert_all(expanded_folders, &parents);
        FileOpsHandler::load_items(items, recursive, current_dir, initial_dir, query, ignore_config, expanded_folders, snapshot, gitignored)
    }
}

impl FileOpsHandler {
    /// The ancestors of the items that lie below `current_dir` (see
    /// `ancestors_under`), each written as its components joined, item by
    /// item, nearest first.
    pub fn parent_dirs_within(items: &Vec<String>, current_dir: &str) -> (r: Vec<String>)
        ensures
            texts(r@) == all_ancestors(texts(items@), components(current_dir@)).map_values(
                |a: Seq<Seq<char>>| display_comps(a),
            ),
    {
        let cc = parse_components(current_dir);
        proof {
            assert(comps_view(cc@) =~= components(current_dir@));
        }
        let ghost iv = texts(items@);
        let mut parents: Vec<String> = Vec::new();
        let mut k: usize = 0;
        while k < items.len()
            invariant
                k <= items@.len(),
                iv == texts(items@),
                comps_view(cc@) == components(current_dir@),
                texts(parents@) == all_ancestors(iv.take(k as int), components(current_dir@)).map_values(
                    |a: Seq<Seq<char>>| display_comps(a),
                ),
            decreases items@.len() - k,
        {
            let pc = parse_components(items[k].as_str());
            proof {
                assert(comps_view(pc@) =~= components(items@[k as int]@));
                assert(iv.take(k + 1).drop_last() =~= iv.take(k as int));
                assert(iv.take(k + 1).last() == items@[k as int]@);
            }
            push_ancestors(&pc, &cc, &mut parents);
            proof {
                let g = |a: Seq<Seq<char>>| display_comps(a);
                let a0 = all_ancestors(iv.take(k as int), components(current_dir@));
                let a1 = ancestors_under(components(items@[k as int]@), components(current_dir@));
                assert((a0 + a1).map_values(g) =~= a0.map_values(g) + a1.map_values(g));
            }
            k = k + 1;
        }
        proof {
            assert(iv.take(items@.len() as int) =~= iv);
        }
        parents
    }

    /// The items the snapshot holds as files, in order.
    pub fn keep_files(items: &Vec<String>, snapshot: &Vec<FsEntry>) -> (r: Vec<String>)
        ensures
            texts(r@) == files_only(snapshot@, texts(items@)),
    {
        let mut out: Vec<String> = Vec::new();
        let mut i: usize = 0;
        while i < items.len()
            invariant
                i <= items@.len(),
                texts(out@) == files_only(snapshot@, texts(items@.take(i as int))),
            decreases items@.len() - i,
        {
            proof {
                assert(texts(items@.take(i + 1)).drop_last() =~= texts(items@.take(i as int)));
                assert(texts(items@.take(i + 1)).last() == items@[i as int]@);
            }
            let pc = parse_components(items[i].as_str());
            proof {
                assert(comps_view(pc@) =~= components(items@[i as int]@));
            }
            let is_file = match lookup_index(snapshot, &pc) {
                Some(j) => snapshot[j].kind == EntryKind::File,
                None => false,
            };
            if is_file {
                let ghost before = out@;
                out.push(items[i].clone());
                proof {
                    assert(texts(out@) =~= texts(before).push(items@[i as int]@));
                }
            }
            i = i + 1;
        }
        proof {
            assert(items@.take(items@.len() as int) =~= items@);
        }
        out
    }
}

/// The paths the snapshot holds as files, in order.
pub open spec fn files_only(snap: Seq<FsEntry>, s: Seq<Seq<char>>) -> Seq<Seq<char>>
    decreases s.len(),
{
    if s.len() == 0 {
        seq![]
    } else if kind_of(snap, components(s.last())) == EntryKind::File {
        files_only(snap, s.drop_last()).push(s.last())
    } else {
        files_only(snap, s.drop_last())
    }
}

} // verus!
