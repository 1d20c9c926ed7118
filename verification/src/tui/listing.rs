//! The list of items the interface shows: filtered by the search query,
//! ordered (directories first, then names starting with a dot, then by
//! lowercased name, then by name), with a parent entry first when the
//! current directory is not the starting one.

use vstd::prelude::*;
use crate::text::{str_chars, to_lowercase, lowercase, chars_contains, contains_seq, chars_to_string, push_str, chars_eq};
use crate::paths::{components, comps_view, file_name_of, file_name_comps, parse_components, parent_of, seq_lt, chars_less};
use crate::output::snapshot::comps_eq;
use crate::output::toplevel::texts;
use crate::output::snapshot::{FsEntry, EntryKind, kind_of, comps_list, comps_in, parse_all, lookup_index};
use crate::output::llm::listing_of;
use crate::output::directory::WalkError;
use crate::models::IgnoreConfig;
use crate::fs::{ignored_in_state, is_path_ignored_in_state};
use crate::tui::state::{PathSet, SearchMatcher, search_matches};
use crate::paths::{strip_prefix_of, display_comps};
use crate::output::snapshot::{display_parsed, strip_parsed};
use crate::fs::lemma_push_to_set;

verus! {

/// The file name of a path, or empty.
pub open spec fn name_or_empty(p: Seq<char>) -> Seq<char> {
    match file_name_of(components(p)) {
        Some(n) => n,
        None => seq![],
    }
}

/// Whether the item `a` (a directory or not) is listed before `b`:
/// directories first, then names starting with a dot, then by lowercased
/// name, then by name.
pub open spec fn listed_before(a: Seq<char>, a_dir: bool, b: Seq<char>, b_dir: bool) -> bool {
    let an = name_or_empty(a);
    let bn = name_or_empty(b);
    let a_dot = an.len() > 0 && an[0] == '.';
    let b_dot = bn.len() > 0 && bn[0] == '.';
    if a_dir != b_dir {
        a_dir
    } else if a_dot != b_dot {
        a_dot
    } else if lowercase(an) != lowercase(bn) {
        seq_lt(lowercase(an), lowercase(bn))
    } else {
        seq_lt(an, bn)
    }
}

/// An item with whether it is a directory.
pub type ItemV = (Seq<char>, bool);

/// `x` inserted into the listed order `s`, after every item not listed
/// after it.
pub open spec fn insert_listed(x: ItemV, s: Seq<ItemV>) -> Seq<ItemV>
    decreases s.len(),
{
    if s.len() == 0 {
        seq![x]
    } else if listed_before(x.0, x.1, s[0].0, s[0].1) {
        seq![x] + s
    } else {
        seq![s[0]] + insert_listed(x, s.drop_first())
    }
}

/// The items in listed order (a stable sort by `listed_before`).
pub open spec fn sort_listed(s: Seq<ItemV>) -> Seq<ItemV>
    decreases s.len(),
{
    if s.len() == 0 {
        seq![]
    } else {
        insert_listed(s.last(), sort_listed(s.drop_last()))
    }
}

/// Whether no file comes before a directory.
pub open spec fn dirs_first(s: Seq<ItemV>) -> bool {
    forall|i: int, j: int| 0 <= i < j < s.len() && (#[trigger] s[j]).1 ==> (#[trigger] s[i]).1
}

/// Inserting adds the item and keeps every other one, and keeps
/// directories before files.
pub proof fn lemma_insert_listed(x: ItemV, s: Seq<ItemV>)
    ensures
        insert_listed(x, s).to_multiset() == s.to_multiset().insert(x),
        dirs_first(s) ==> dirs_first(insert_listed(x, s)),
    decreases s.len(),
{
    broadcast use vstd::multiset::group_multiset_axioms, vstd::seq_lib::group_to_multiset_ensures;

    let r = insert_listed(x, s);
    if s.len() == 0 {
        assert(seq![x] =~= Seq::<ItemV>::empty().push(x));
        assert(r.to_multiset() =~= s.to_multiset().insert(x));
    } else if listed_before(x.0, x.1, s[0].0, s[0].1) {
        vstd::seq_lib::lemma_multiset_commutative(seq![x], s);
        assert(seq![x] =~= Seq::<ItemV>::empty().push(x));
        assert(r.to_multiset() =~= s.to_multiset().insert(x));
        if dirs_first(s) {
            assert forall|i: int, j: int| 0 <= i < j < r.len() && (#[trigger] r[j]).1 implies (#[trigger] r[i]).1 by {
                if i == 0 {
                    if !x.1 {
                        assert(r[j] == s[j - 1]);
                        assert(s[0].1);
                    }
                } else {
                    assert(r[i] == s[i - 1] && r[j] == s[j - 1]);
                }
            }
        }
    } else {
        let rest = s.drop_first();
        lemma_insert_listed(x, rest);
        let t = insert_listed(x, rest);
        assert(s =~= seq![s[0]] + rest);
        vstd::seq_lib::lemma_multiset_commutative(seq![s[0]], t);
        vstd::seq_lib::lemma_multiset_commutative(seq![s[0]], rest);
        assert(r.to_multiset() =~= s.to_multiset().insert(x));
        if dirs_first(s) {
            assert(dirs_first(rest)) by {
                assert forall|i: int, j: int| 0 <= i < j < rest.len() && (#[trigger] rest[j]).1 implies (#[trigger] rest[i]).1 by {
                    assert(rest[i] == s[i + 1] && rest[j] == s[j + 1]);
                }
            }
            assert forall|i: int, j: int| 0 <= i < j < r.len() && (#[trigger] r[j]).1 implies (#[trigger] r[i]).1 by {
                if i == 0 {
                    assert(r[j] == t[j - 1]);
                    assert(t.to_multiset().count(t[j - 1]) > 0);
                    if t[j - 1] == x {
                        assert(s[0].1);
                    } else {
                        assert(rest.to_multiset().count(t[j - 1]) > 0);
                        assert(rest.contains(t[j - 1]));
                        let k = choose|k: int| 0 <= k < rest.len() && rest[k] == t[j - 1];
                        assert(s[k + 1] == rest[k]);
                    }
                } else {
                    assert(r[i] == t[i - 1] && r[j] == t[j - 1]);
                }
            }
        }
    }
}

/// The listed order holds the same items, directories first.
pub proof fn lemma_sort_listed(s: Seq<ItemV>)
    ensures
        sort_listed(s).to_multiset() == s.to_multiset(),
        dirs_first(sort_listed(s)),
    decreases s.len(),
{
    broadcast use vstd::multiset::group_multiset_axioms, vstd::seq_lib::group_to_multiset_ensures;

    if s.len() > 0 {
        lemma_sort_listed(s.drop_last());
        lemma_insert_listed(s.last(), sort_listed(s.drop_last()));
        assert(s =~= s.drop_last().push(s.last()));
    }
}

/// The items whose lowercased path contains the lowercased query.
pub open spec fn matching(s: Seq<ItemV>, query: Seq<char>) -> Seq<ItemV>
    decreases s.len(),
{
    if s.len() == 0 {
        seq![]
    } else if contains_seq(lowercase(s.last().0), lowercase(query)) {
        matching(s.drop_last(), query).push(s.last())
    } else {
        matching(s.drop_last(), query)
    }
}

/// `current` joined with `..`: a separator is added unless `current`
/// already ends with one.
pub open spec fn dotdot_entry(current: Seq<char>) -> Seq<char> {
    if current.len() > 0 && current.last() == '/' {
        current + ".."@
    } else {
        current + "/.."@
    }
}

/// The items with their kinds.
pub open spec fn items_view(items: Seq<String>, dirs: Seq<bool>) -> Seq<ItemV> {
    Seq::new(items.len(), |i: int| (items[i]@, dirs[i]))
}

/// The list shown: the items matching a non-empty query, sorted in
/// recursive mode (otherwise kept in the order given), and the current
/// directory's parent entry (`current/..`) first when the current directory
/// is not the starting one and has a parent.
pub open spec fn display_list(
    items: Seq<ItemV>,
    query: Seq<char>,
    recursive: bool,
    current: Seq<char>,
    initial: Seq<char>,
) -> Seq<Seq<char>> {
    let kept = if query.len() > 0 { matching(items, query) } else { items };
    let ordered = if recursive { sort_listed(kept) } else { kept };
    let names = ordered.map_values(|x: ItemV| x.0);
    let cc = components(current);
    if cc != components(initial) && parent_of(cc) is Some && parent_of(cc) != Some(cc) {
        seq![dotdot_entry(current)] + names
    } else {
        names
    }
}

/// The view of parallel lists of items and kinds.
fn pair_up(items: &Vec<String>, dirs: &Vec<bool>) -> (r: Vec<(String, bool)>)
    requires
        dirs@.len() == items@.len(),
    ensures
        r@.map_values(|x: (String, bool)| (x.0@, x.1)) == items_view(items@, dirs@),
{
    let mut out: Vec<(String, bool)> = Vec::new();
    let mut i: usize = 0;
    while i < items.len()
        invariant
            dirs@.len() == items@.len(),
            i <= items@.len(),
            out@.map_values(|x: (String, bool)| (x.0@, x.1)) == items_view(items@, dirs@).take(i as int),
        decreases items@.len() - i,
    {
        let ghost before = out@;
        let s = items[i].clone();
        out.push((s, dirs[i]));
        i = i + 1;
        proof {
            assert(out@.map_values(|x: (String, bool)| (x.0@, x.1)) =~= before.map_values(|x: (String, bool)| (x.0@, x.1)).push((items@[i - 1]@, dirs@[i - 1])));
            assert(out@.map_values(|x: (String, bool)| (x.0@, x.1)) =~= items_view(items@, dirs@).take(i as int));
        }
    }
    proof {
        assert(items_view(items@, dirs@).take(items@.len() as int) =~= items_view(items@, dirs@));
    }
    out
}

/// The file name of a path, or empty (see `name_or_empty`).
fn name_chars(p: &str) -> (r: Vec<char>)
    ensures
        r@ == name_or_empty(p@),
{
    let pc = parse_components(p);
    proof {
        assert(comps_view(pc@) =~= components(p@));
    }
    match file_name_comps(&pc) {
        Some(n) => n,
        None => Vec::new(),
    }
}

/// Whether `a` is listed before `b` (see `listed_before`).
pub fn is_listed_before(a: &str, a_dir: bool, b: &str, b_dir: bool) -> (r: bool)
    ensures
        r == listed_before(a@, a_dir, b@, b_dir),
{
    let an = name_chars(a);
    let bn = name_chars(b);
    let a_dot = an.len() > 0 && an[0] == '.';
    let b_dot = bn.len() > 0 && bn[0] == '.';
    if a_dir != b_dir {
        return a_dir;
    }
    if a_dot != b_dot {
        return a_dot;
    }
    let al = str_chars(to_lowercase(chars_to_string(an.as_slice()).as_str()).as_str());
    let bl = str_chars(to_lowercase(chars_to_string(bn.as_slice()).as_str()).as_str());
    if !chars_eq(al.as_slice(), bl.as_slice()) {
        chars_less(al.as_slice(), bl.as_slice())
    } else {
        chars_less(an.as_slice(), bn.as_slice())
    }
}

/// The view of a list of items with kinds.
pub open spec fn pairs_items(v: Seq<(String, bool)>) -> Seq<ItemV> {
    v.map_values(|x: (String, bool)| (x.0@, x.1))
}

/// Sorts items in listed order (see `sort_listed`).
fn sort_items(v: Vec<(String, bool)>) -> (r: Vec<(String, bool)>)
    ensures
        pairs_items(r@) == sort_listed(pairs_items(v@)),
{
    let ghost vv = pairs_items(v@);
    let mut out: Vec<(String, bool)> = Vec::new();
    let mut i: usize = 0;
    while i < v.len()
        invariant
            vv == pairs_items(v@),
            i <= v@.len(),
            pairs_items(out@) == sort_listed(vv.take(i as int)),
        decreases v@.len() - i,
    {
        proof {
            assert(vv.take(i + 1).drop_last() =~= vv.take(i as int));
            assert(vv.take(i + 1).last() == (v@[i as int].0@, v@[i as int].1));
        }
        let x = (v[i].0.clone(), v[i].1);
        let ghost xv: ItemV = (x.0@, x.1);
        let ghost t = pairs_items(out@);
        let mut j: usize = 0;
        let mut found = false;
        proof {
            assert(t.skip(0) =~= t);
            assert(t.take(0) + insert_listed(xv, t) =~= insert_listed(xv, t));
        }
        while !found && j < out.len()
            invariant
                t == pairs_items(out@),
                xv == (x.0@, x.1),
                j <= out@.len(),
                insert_listed(xv, t) == t.take(j as int) + insert_listed(xv, t.skip(j as int)),
                found ==> j < t.len() && listed_before(xv.0, xv.1, t[j as int].0, t[j as int].1),
            decreases out@.len() - j, if found { 0int } else { 1int },
        {
            if is_listed_before(x.0.as_str(), x.1, out[j].0.as_str(), out[j].1) {
                found = true;
            } else {
                proof {
                    let r = t.skip(j as int);
                    assert(r[0] == t[j as int]);
                    assert(r.drop_first() =~= t.skip(j + 1));
                    assert(t.take(j + 1) =~= t.take(j as int) + seq![t[j as int]]);
                }
                j = j + 1;
            }
        }
        proof {
            if j < t.len() {
                let r = t.skip(j as int);
                assert(r[0] == t[j as int]);
            } else {
                assert(t.skip(j as int) =~= Seq::<ItemV>::empty());
            }
        }
        out.insert(j, x);
        proof {
            assert(pairs_items(out@) =~= insert_listed(xv, t));
        }
        i = i + 1;
    }
    proof {
        assert(vv.take(v@.len() as int) =~= vv);
    }
    out
}

/// The items whose lowercased path contains the lowercased query (see
/// `matching`).
fn keep_matching(v: Vec<(String, bool)>, query: &str) -> (r: Vec<(String, bool)>)
    ensures
        pairs_items(r@) == matching(pairs_items(v@), query@),
{
    let ghost vv = pairs_items(v@);
    let q = str_chars(to_lowercase(query).as_str());
    let mut out: Vec<(String, bool)> = Vec::new();
    let mut i: usize = 0;
    while i < v.len()
        invariant
            vv == pairs_items(v@),
            q@ == lowercase(query@),
            i <= v@.len(),
            pairs_items(out@) == matching(vv.take(i as int), query@),
        decreases v@.len() - i,
    {
        proof {
            assert(vv.take(i + 1).drop_last() =~= vv.take(i as int));
            assert(vv.take(i + 1).last() == (v@[i as int].0@, v@[i as int].1));
        }
        let low = str_chars(to_lowercase(v[i].0.as_str()).as_str());
        if chars_contains(low.as_slice(), q.as_slice()) {
            let ghost before = out@;
            out.push((v[i].0.clone(), v[i].1));
            proof {
                assert(pairs_items(out@) =~= pairs_items(before).push((v@[i as int].0@, v@[i as int].1)));
            }
        }
        i = i + 1;
    }
    proof {
        assert(vv.take(v@.len() as int) =~= vv);
    }
    out
}

/// The list shown for the items found (see `display_list`); `dirs` tells
/// which items are directories.
pub fn process_for_display(
    raw_items: &Vec<String>,
    dirs: &Vec<bool>,
    search_query: &str,
    recursive: bool,
    current_dir: &str,
    initial_dir: &str,
) -> (r: Vec<String>)
    requires
        dirs@.len() == raw_items@.len(),
    ensures
        texts(r@) == display_list(items_view(raw_items@, dirs@), search_query@, recursive, current_dir@, initial_dir@),
{
    let paired = pair_up(raw_items, dirs);
    let kept = if !search_query.is_empty() {
        keep_matching(paired, search_query)
    } else {
        paired
    };
    let ordered = if recursive {
        sort_items(kept)
    } else {
        kept
    };
    let ghost ov = pairs_items(ordered@);
    let mut out: Vec<String> = Vec::new();
    let cc = parse_components(current_dir);
    let ic = parse_components(initial_dir);
    proof {
        assert(comps_view(cc@) =~= components(current_dir@));
        assert(comps_view(ic@) =~= components(initial_dir@));
    }
    let n = cc.len();
    let root = ['/'];
    proof {
        assert(root@ =~= seq!['/']);
        if n > 0 {
            assert(comps_view(cc@).last() == cc@[n - 1]@);
        }
    }
    let has_parent = n > 0 && !crate::text::chars_eq(cc[n - 1].as_slice(), root.as_slice());
    let mut add_parent = false;
    if !comps_eq(&cc, &ic) && has_parent {
        proof {
            assert(comps_view(cc@).drop_last().len() < comps_view(cc@).len());
        }
        add_parent = true;
        let mut entry = str_chars(current_dir);
        if entry.len() > 0 && entry[entry.len() - 1] == '/' {
            push_str(&mut entry, "..");
        } else {
            push_str(&mut entry, "/..");
        }
        out.push(chars_to_string(entry.as_slice()));
    }
    let ghost head = texts(out@);
    let mut i: usize = 0;
    while i < ordered.len()
        invariant
            ov == pairs_items(ordered@),
            i <= ordered@.len(),
            texts(out@) == head + ov.map_values(|x: ItemV| x.0).take(i as int),
        decreases ordered@.len() - i,
    {
        let ghost before = out@;
        out.push(ordered[i].0.clone());
        i = i + 1;
        proof {
            assert(texts(out@) =~= texts(before).push(ordered@[i - 1].0@));
            assert(texts(out@) =~= head + ov.map_values(|x: ItemV| x.0).take(i as int));
        }
    }
    proof {
        assert(ov.map_values(|x: ItemV| x.0).take(ordered@.len() as int) =~= ov.map_values(|x: ItemV| x.0));
        let cv = comps_view(cc@);
        if add_parent {
            assert(parent_of(cv) is Some);
            assert(parent_of(cv) != Some(cv));
        }
        assert(texts(out@) =~= display_list(items_view(raw_items@, dirs@), search_query@, recursive, current_dir@, initial_dir@));
    }
    out
}

/// The entries of a listing that the application state does not ignore,
/// in listing order, each with whether the snapshot holds it as a
/// directory; `gi` holds the paths the `.gitignore` files ignore.
pub open spec fn level_items(snap: Seq<FsEntry>, gi: Seq<Seq<Seq<char>>>, cfg: IgnoreConfig, l: Seq<String>) -> Seq<ItemV>
    decreases l.len(),
{
    if l.len() == 0 {
        seq![]
    } else {
        let prev = level_items(snap, gi, cfg, l.drop_last());
        let p = l.last()@;
        if ignored_in_state(p, cfg, gi.contains(components(p))) {
            prev
        } else {
            prev.push((p, kind_of(snap, components(p)) == EntryKind::Dir))
        }
    }
}

/// The items of the tree view below the directory `dir` at `depth`: the
/// directory's entries that are not ignored, in listed order, each followed
/// by the items below it when it is an expanded directory, down to
/// `max_depth`; and whether every directory on the way could be listed.
/// Nothing is gathered past `max_depth` or when `dir` is not a directory;
/// when a directory cannot be listed the walk stops there.
pub open spec fn gathered(
    snap: Seq<FsEntry>,
    gi: Seq<Seq<Seq<char>>>,
    cfg: IgnoreConfig,
    expanded: Set<Seq<Seq<char>>>,
    dir: Seq<Seq<char>>,
    depth: nat,
    max_depth: nat,
) -> (Seq<Seq<char>>, bool)
    decreases max_depth + 1 - depth, 1nat, 0nat,
{
    if depth > max_depth || kind_of(snap, dir) != EntryKind::Dir {
        (seq![], true)
    } else {
        match listing_of(snap, dir) {
            Some(l) => {
                let s = sort_listed(level_items(snap, gi, cfg, l));
                gathered_in(snap, gi, cfg, expanded, depth, max_depth, s, s.len() as int)
            },
            None => (seq![], false),
        }
    }
}

/// What the first `n` sorted items `s` of a level at `depth` add.
pub open spec fn gathered_in(
    snap: Seq<FsEntry>,
    gi: Seq<Seq<Seq<char>>>,
    cfg: IgnoreConfig,
    expanded: Set<Seq<Seq<char>>>,
    depth: nat,
    max_depth: nat,
    s: Seq<ItemV>,
    n: int,
) -> (Seq<Seq<char>>, bool)
    decreases max_depth + 1 - depth, 0nat, n,
{
    if n <= 0 || n > s.len() || depth > max_depth {
        (seq![], true)
    } else {
        let prev = gathered_in(snap, gi, cfg, expanded, depth, max_depth, s, n - 1);
        let x = s[n - 1];
        if !prev.1 {
            prev
        } else if x.1 && expanded.contains(components(x.0)) {
            let sub = gathered(snap, gi, cfg, expanded, components(x.0), depth + 1, max_depth);
            (prev.0.push(x.0) + sub.0, sub.1)
        } else {
            (prev.0.push(x.0), true)
        }
    }
}

/// Once a gathering has failed, the later items change nothing.
proof fn lemma_gathered_stop(
    snap: Seq<FsEntry>,
    gi: Seq<Seq<Seq<char>>>,
    cfg: IgnoreConfig,
    expanded: Set<Seq<Seq<char>>>,
    depth: nat,
    max_depth: nat,
    s: Seq<ItemV>,
    n: int,
    m: int,
)
    requires
        0 <= n <= m <= s.len(),
        !gathered_in(snap, gi, cfg, expanded, depth, max_depth, s, n).1,
    ensures
        gathered_in(snap, gi, cfg, expanded, depth, max_depth, s, m) == gathered_in(snap, gi, cfg, expanded, depth, max_depth, s, n),
    decreases m - n,
{
    if m > n {
        lemma_gathered_stop(snap, gi, cfg, expanded, depth, max_depth, s, n, m - 1);
    }
}

/// Whether the snapshot holds the parsed path as a directory.
fn is_dir_in(snap: &Vec<FsEntry>, c: &Vec<Vec<char>>) -> (r: bool)
    ensures
        r == (kind_of(snap@, comps_view(c@)) == EntryKind::Dir),
{
    match lookup_index(snap, c) {
        Some(j) => snap[j].kind == EntryKind::Dir,
        None => false,
    }
}

/// The entries of the listing `l` that are not ignored (see `level_items`).
fn level_entries(snap: &Vec<FsEntry>, gic: &Vec<Vec<Vec<char>>>, cfg: &IgnoreConfig, l: &Vec<String>) -> (r: Vec<(String, bool)>)
    ensures
        pairs_items(r@) == level_items(snap@, gic@.map_values(|x: Vec<Vec<char>>| comps_view(x@)), *cfg, l@),
{
    let ghost gi = gic@.map_values(|x: Vec<Vec<char>>| comps_view(x@));
    let mut out: Vec<(String, bool)> = Vec::new();
    let mut i: usize = 0;
    while i < l.len()
        invariant
            i <= l@.len(),
            gi == gic@.map_values(|x: Vec<Vec<char>>| comps_view(x@)),
            pairs_items(out@) == level_items(snap@, gi, *cfg, l@.take(i as int)),
        decreases l@.len() - i,
    {
        proof {
            assert(l@.take(i + 1).drop_last() =~= l@.take(i as int));
            assert(l@.take(i + 1).last() == l@[i as int]);
        }
        let e = l[i].as_str();
        let ec = parse_components(e);
        proof {
            assert(comps_view(ec@) =~= components(l@[i as int]@));
        }
        let gm = comps_in(gic, &ec);
        if !is_path_ignored_in_state(e, cfg, gm) {
            let d = is_dir_in(snap, &ec);
            let ghost before = out@;
            out.push((l[i].clone(), d));
            proof {
                assert(pairs_items(out@) =~= pairs_items(before).push((l@[i as int]@, d)));
            }
        }
        i = i + 1;
    }
    proof {
        assert(l@.take(l@.len() as int) =~= l@);
    }
    out
}

/// Appends the items `gathered` collects below `dirc` at `depth`; returns
/// whether every directory on the way could be listed.
fn gather_exec(
    snap: &Vec<FsEntry>,
    gic: &Vec<Vec<Vec<char>>>,
    cfg: &IgnoreConfig,
    expanded: &PathSet,
    dirc: &Vec<Vec<char>>,
    depth: usize,
    max_depth: usize,
    out: &mut Vec<String>,
) -> (r: bool)
    requires
        max_depth < usize::MAX,
    ensures
        ({
            let g = gathered(
                snap@,
                gic@.map_values(|x: Vec<Vec<char>>| comps_view(x@)),
                *cfg,
                expanded.view(),
                comps_view(dirc@),
                depth as nat,
                max_depth as nat,
            );
            &&& texts(final(out)@) == texts(old(out)@) + g.0
            &&& r == g.1
        }),
    decreases max_depth + 1 - depth,
{
    let ghost gi = gic@.map_values(|x: Vec<Vec<char>>| comps_view(x@));
    let ghost dir = comps_view(dirc@);
    let ghost start = texts(out@);
    if depth > max_depth || !is_dir_in(snap, dirc) {
        proof {
            assert(texts(out@) =~= start + seq![]);
        }
        return true;
    }
    let k = match lookup_index(snap, dirc) {
        Some(k) => k,
        None => {
            return true;
        },
    };
    let l = match &snap[k].listing {
        Some(l) => l,
        None => {
            proof {
                assert(texts(out@) =~= start + seq![]);
            }
            return false;
        },
    };
    proof {
        assert(listing_of(snap@, dir) == Some(l@));
    }
    let entries = level_entries(snap, gic, cfg, l);
    let sorted = sort_items(entries);
    let ghost sv = pairs_items(sorted@);
    proof {
        assert(sv == sort_listed(level_items(snap@, gi, *cfg, l@)));
        assert(gathered(snap@, gi, *cfg, expanded.view(), dir, depth as nat, max_depth as nat)
            == gathered_in(snap@, gi, *cfg, expanded.view(), depth as nat, max_depth as nat, sv, sv.len() as int));
        assert(texts(out@) =~= start + seq![]);
    }
    let mut i: usize = 0;
    while i < sorted.len()
        invariant
            i <= sorted@.len(),
            depth <= max_depth,
            max_depth < usize::MAX,
            dir == comps_view(dirc@),
            start == texts(old(out)@),
            gi == gic@.map_values(|x: Vec<Vec<char>>| comps_view(x@)),
            sv == pairs_items(sorted@),
            gathered(snap@, gi, *cfg, expanded.view(), dir, depth as nat, max_depth as nat)
                == gathered_in(snap@, gi, *cfg, expanded.view(), depth as nat, max_depth as nat, sv, sv.len() as int),
            gathered_in(snap@, gi, *cfg, expanded.view(), depth as nat, max_depth as nat, sv, i as int).1,
            texts(out@) == start + gathered_in(snap@, gi, *cfg, expanded.view(), depth as nat, max_depth as nat, sv, i as int).0,
        decreases sorted@.len() - i,
    {
        let ghost before = out@;
        let p = sorted[i].0.as_str();
        out.push(sorted[i].0.clone());
        proof {
            assert(texts(out@) =~= texts(before).push(sv[i as int].0));
        }
        if sorted[i].1 && expanded.contains(p) {
            let pc = parse_components(p);
            proof {
                assert(comps_view(pc@) =~= components(sv[i as int].0));
            }
            let ok = gather_exec(snap, gic, cfg, expanded, &pc, depth + 1, max_depth, out);
            proof {
                assert(texts(out@) =~= start + gathered_in(snap@, gi, *cfg, expanded.view(), depth as nat, max_depth as nat, sv, i + 1).0);
            }
            if !ok {
                proof {
                    lemma_gathered_stop(snap@, gi, *cfg, expanded.view(), depth as nat, max_depth as nat, sv, i + 1, sv.len() as int);
                }
                return false;
            }
        } else {
            proof {
                assert(texts(out@) =~= start + gathered_in(snap@, gi, *cfg, expanded.view(), depth as nat, max_depth as nat, sv, i + 1).0);
            }
        }
        i = i + 1;
    }
    true
}

/// Appends to `collected_items` the items of the tree view below `dir` at
/// `current_depth` (see `gathered`), reading the disk from `snapshot`;
/// `gitignored` lists the paths the `.gitignore` files ignore. Fails when a
/// directory on the way cannot be listed, keeping what was gathered before.
pub fn gather_items_for_view(
    dir: &str,
    collected_items: &mut Vec<String>,
    current_depth: usize,
    max_depth: usize,
    ignore_config: &IgnoreConfig,
    expanded_folders: &PathSet,
    snapshot: &Vec<FsEntry>,
    gitignored: &Vec<String>,
) -> (r: Result<(), WalkError>)
    requires
        max_depth < usize::MAX,
    ensures
        ({
            let g = gathered(
                snapshot@,
                comps_list(gitignored@),
                *ignore_config,
                expanded_folders.view(),
                components(dir@),
                current_depth as nat,
                max_depth as nat,
            );
            &&& texts(final(collected_items)@) == texts(old(collected_items)@) + g.0
            &&& (r is Ok <==> g.1)
        }),
{
    let gic = parse_all(gitignored);
    let dirc = parse_components(dir);
    proof {
        assert(gic@.map_values(|x: Vec<Vec<char>>| comps_view(x@)) =~= comps_list(gitignored@));
        assert(comps_view(dirc@) =~= components(dir@));
    }
    if gather_exec(snapshot, &gic, ignore_config, expanded_folders, &dirc, current_depth, max_depth, collected_items) {
        Ok(())
    } else {
        Err(WalkError::UnreadableDirectory)
    }
}

/// The paths a recursive search finds from `path` at `depth`: nothing for
/// an ignored path; the path itself when its file name matches the query;
/// then, for a directory above `max_depth`, what its entries find, in
/// listing order.
pub open spec fn search_found(
    snap: Seq<FsEntry>,
    gi: Seq<Seq<Seq<char>>>,
    cfg: IgnoreConfig,
    query: Seq<char>,
    path: Seq<char>,
    depth: nat,
    max_depth: nat,
) -> Seq<Seq<char>>
    decreases max_depth + 1 - depth, 0nat, 0nat,
{
    let c = components(path);
    if ignored_in_state(path, cfg, gi.contains(c)) {
        seq![]
    } else {
        let here: Seq<Seq<char>> = match file_name_of(c) {
            Some(n) => if search_matches(query, n) {
                seq![path]
            } else {
                seq![]
            },
            None => seq![],
        };
        if kind_of(snap, c) == EntryKind::Dir && depth < max_depth {
            match listing_of(snap, c) {
                Some(l) => here + search_found_in(snap, gi, cfg, query, l, l.len() as int, depth + 1, max_depth),
                None => here,
            }
        } else {
            here
        }
    }
}

/// What the first `n` entries of a listing find at `depth`.
pub open spec fn search_found_in(
    snap: Seq<FsEntry>,
    gi: Seq<Seq<Seq<char>>>,
    cfg: IgnoreConfig,
    query: Seq<char>,
    l: Seq<String>,
    n: int,
    depth: nat,
    max_depth: nat,
) -> Seq<Seq<char>>
    decreases max_depth + 1 - depth, 1nat, n,
{
    if n <= 0 || n > l.len() || depth > max_depth {
        seq![]
    } else {
        search_found_in(snap, gi, cfg, query, l, n - 1, depth, max_depth)
            + search_found(snap, gi, cfg, query, l[n - 1]@, depth, max_depth)
    }
}

/// Appends what `search_found` finds from `path`.
pub(crate) fn search_exec(
    snap: &Vec<FsEntry>,
    gic: &Vec<Vec<Vec<char>>>,
    cfg: &IgnoreConfig,
    matcher: &SearchMatcher,
    path: &str,
    depth: usize,
    max_depth: usize,
    out: &mut Vec<String>,
)
    requires
        matcher.made(),
        depth <= max_depth,
    ensures
        texts(final(out)@) == texts(old(out)@) + search_found(
            snap@,
            gic@.map_values(|x: Vec<Vec<char>>| comps_view(x@)),
            *cfg,
            matcher.query(),
            path@,
            depth as nat,
            max_depth as nat,
        ),
    decreases max_depth - depth,
{
    let ghost gi = gic@.map_values(|x: Vec<Vec<char>>| comps_view(x@));
    let ghost start = texts(out@);
    let pc = parse_components(path);
    proof {
        assert(comps_view(pc@) =~= components(path@));
    }
    let gm = comps_in(gic, &pc);
    if is_path_ignored_in_state(path, cfg, gm) {
        proof {
            assert(texts(out@) =~= start + seq![]);
        }
        return;
    }
    match file_name_comps(&pc) {
        Some(n) => {
            let ns = chars_to_string(n.as_slice());
            if matcher.matches(ns.as_str()) {
                out.push(path.to_string());
            }
        },
        None => {},
    }
    let ghost here = texts(out@).skip(start.len() as int);
    proof {
        assert(texts(out@) =~= start + here);
    }
    if depth >= max_depth {
        return;
    }
    let j = match lookup_index(snap, &pc) {
        Some(j) => j,
        None => {
            return;
        },
    };
    if snap[j].kind != EntryKind::Dir {
        return;
    }
    let l = match &snap[j].listing {
        Some(l) => l,
        None => {
            return;
        },
    };
    proof {
        assert(listing_of(snap@, components(path@)) == Some(l@));
    }
    let mut i: usize = 0;
    while i < l.len()
        invariant
            i <= l@.len(),
            depth < max_depth,
            matcher.made(),
            gi == gic@.map_values(|x: Vec<Vec<char>>| comps_view(x@)),
            start == texts(old(out)@),
            texts(out@) == start + here + search_found_in(snap@, gi, *cfg, matcher.query(), l@, i as int, (depth + 1) as nat, max_depth as nat),
        decreases l@.len() - i,
    {
        search_exec(snap, gic, cfg, matcher, l[i].as_str(), depth + 1, max_depth, out);
        proof {
            assert(texts(out@) =~= start + here + search_found_in(snap@, gi, *cfg, matcher.query(), l@, i + 1, (depth + 1) as nat, max_depth as nat));
        }
        i = i + 1;
    }
}

/// Adds to `results` every path a recursive search from `path` finds (see
/// `search_found`), reading the disk from `snapshot`; `gitignored` lists
/// the paths the `.gitignore` files ignore. Returns whether anything was
/// found.
pub fn recursive_search_helper_generic(
    path: &str,
    depth: usize,
    max_depth: usize,
    matcher: &SearchMatcher,
    results: &mut PathSet,
    ignore_config: &IgnoreConfig,
    snapshot: &Vec<FsEntry>,
    gitignored: &Vec<String>,
) -> (r: bool)
    requires
        matcher.made(),
        depth <= max_depth,
    ensures
        ({
            let f = search_found(snapshot@, comps_list(gitignored@), *ignore_config, matcher.query(), path@, depth as nat, max_depth as nat);
            &&& final(results).view() == old(results).view().union(f.map_values(|p: Seq<char>| components(p)).to_set())
            &&& r == (f.len() > 0)
        }),
{
    let gic = parse_all(gitignored);
    proof {
        assert(gic@.map_values(|x: Vec<Vec<char>>| comps_view(x@)) =~= comps_list(gitignored@));
    }
    let mut found: Vec<String> = Vec::new();
    search_exec(snapshot, &gic, ignore_config, matcher, path, depth, max_depth, &mut found);
    let ghost d = texts(found@);
    let ghost start = results.view();
    let mut i: usize = 0;
    while i < found.len()
        invariant
            i <= found@.len(),
            d == texts(found@),
            results.view() == start.union(d.take(i as int).map_values(|p: Seq<char>| components(p)).to_set()),
        decreases found@.len() - i,
    {
        results.insert(found[i].clone());
        proof {
            let f = |p: Seq<char>| components(p);
            assert(d.take(i + 1).map_values(f) =~= d.take(i as int).map_values(f).push(f(d[i as int])));
            lemma_push_to_set(d.take(i as int).map_values(f), f(d[i as int]));
            assert(results.view() =~= start.union(d.take(i + 1).map_values(f).to_set()));
        }
        i = i + 1;
    }
    proof {
        assert(d.take(found@.len() as int) =~= d);
    }
    found.len() > 0
}

} // verus!
