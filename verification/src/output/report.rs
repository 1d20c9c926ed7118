//! The text of the LLM report: general information with the main
//! languages, the project tree, the main components, the most referenced
//! files, the dependencies of each file, and the file contents.
//!
//! Where several entries tie (languages or files with equal counts), they
//! keep the order in which they were first met.

use vstd::prelude::*;
use crate::text::{
    decimal, ends_with_char, starts_with, push_chars, push_str, push_decimal, str_chars,
    chars_eq, chars_starts_with, chars_to_string, str_eq,
};
use crate::paths::{components, extension_of, seq_lt, chars_less, extension, comps_view};
use crate::models::{language_name, get_language_name, FileDependencies, Node};
use crate::output::tree::{TreeV, render, node_view, view_children, write_tree};
use crate::output::deps::string_views;

verus! {

/// An extension and how many files have it.
pub type ExtCount = (Seq<char>, nat);

/// `counts` with one more of `e`: its count raised (a count stops at the
/// largest `usize`), or `e` added with a count of one.
pub open spec fn bump(counts: Seq<ExtCount>, e: Seq<char>) -> Seq<ExtCount>
    decreases counts.len(),
{
    if counts.len() == 0 {
        seq![(e, 1nat)]
    } else if counts[0].0 == e {
        seq![(e, if counts[0].1 < usize::MAX { counts[0].1 + 1 } else { counts[0].1 })] + counts.drop_first()
    } else {
        seq![counts[0]] + bump(counts.drop_first(), e)
    }
}

/// The extensions of the paths with how many paths have each, in order of
/// first appearance.
pub open spec fn ext_counts(paths: Seq<Seq<char>>) -> Seq<ExtCount>
    decreases paths.len(),
{
    if paths.len() == 0 {
        seq![]
    } else {
        match extension_of(paths.last()) {
            Some(e) => bump(ext_counts(paths.drop_last()), e),
            None => ext_counts(paths.drop_last()),
        }
    }
}

/// How many of the paths have the extension `e`.
pub open spec fn paths_with_ext(paths: Seq<Seq<char>>, e: Seq<char>) -> nat
    decreases paths.len(),
{
    if paths.len() == 0 {
        0
    } else {
        paths_with_ext(paths.drop_last(), e) + if extension_of(paths.last()) == Some(e) { 1nat } else { 0nat }
    }
}

/// The count a list gives an extension: that of its first entry for it, or
/// 0.
pub open spec fn count_of(counts: Seq<ExtCount>, e: Seq<char>) -> nat
    decreases counts.len(),
{
    if counts.len() == 0 {
        0
    } else if counts[0].0 == e {
        counts[0].1
    } else {
        count_of(counts.drop_first(), e)
    }
}

/// Whether the extension `x` is listed.
pub open spec fn has_key(counts: Seq<ExtCount>, x: Seq<char>) -> bool {
    exists|k: int| 0 <= k < counts.len() && #[trigger] counts[k].0 == x
}

/// Whether no extension is listed twice.
pub open spec fn keys_distinct(counts: Seq<ExtCount>) -> bool {
    forall|i: int, j: int| 0 <= i < j < counts.len() ==> #[trigger] counts[i].0 != #[trigger] counts[j].0
}

/// In a list without repeated extensions an entry holds the count the
/// list gives its extension.
proof fn lemma_count_of_entry(counts: Seq<ExtCount>, k: int)
    requires
        keys_distinct(counts),
        0 <= k < counts.len(),
    ensures
        count_of(counts, counts[k].0) == counts[k].1,
    decreases counts.len(),
{
    if k > 0 {
        let t = counts.drop_first();
        assert(counts[0].0 != counts[k].0);
        assert(keys_distinct(t)) by {
            assert forall|i: int, j: int| 0 <= i < j < t.len() implies #[trigger] t[i].0 != #[trigger] t[j].0 by {
                assert(t[i] == counts[i + 1] && t[j] == counts[j + 1]);
            }
        }
        assert(t[k - 1] == counts[k]);
        lemma_count_of_entry(t, k - 1);
    }
}

/// One more `e`: its count rises by one (below the largest `usize`), the
/// other counts stay, no extension is listed twice, and the extensions
/// listed are those before with `e`.
proof fn lemma_bump(counts: Seq<ExtCount>, e: Seq<char>)
    requires
        keys_distinct(counts),
    ensures
        keys_distinct(bump(counts, e)),
        forall|x: Seq<char>| #[trigger] count_of(bump(counts, e), x) == if x == e {
            if count_of(counts, e) < usize::MAX { count_of(counts, e) + 1 } else { count_of(counts, e) }
        } else {
            count_of(counts, x)
        },
        forall|x: Seq<char>| #[trigger] has_key(bump(counts, e), x) <==> (x == e || has_key(counts, x)),
    decreases counts.len(),
{
    let b = bump(counts, e);
    if counts.len() == 0 {
        assert forall|x: Seq<char>| #[trigger] count_of(b, x) == if x == e {
            if count_of(counts, e) < usize::MAX { count_of(counts, e) + 1 } else { count_of(counts, e) }
        } else {
            count_of(counts, x)
        } by {
            assert(b.drop_first().len() == 0);
            assert(count_of(b.drop_first(), x) == 0);
        }
        assert forall|x: Seq<char>| #[trigger] has_key(b, x) <==> (x == e || has_key(counts, x)) by {
            if x == e {
                assert(b[0].0 == x);
            }
        }
    } else if counts[0].0 == e {
        assert(b.len() == counts.len());
        assert forall|i: int| 1 <= i < b.len() implies b[i] == counts[i] by {}
        assert(keys_distinct(b)) by {
            assert forall|i: int, j: int| 0 <= i < j < b.len() implies #[trigger] b[i].0 != #[trigger] b[j].0 by {
                assert(b[i].0 == counts[i].0 && b[j].0 == counts[j].0);
            }
        }
        assert(b.drop_first() =~= counts.drop_first());
        assert forall|x: Seq<char>| #[trigger] count_of(b, x) == if x == e {
            if count_of(counts, e) < usize::MAX { count_of(counts, e) + 1 } else { count_of(counts, e) }
        } else {
            count_of(counts, x)
        } by {
            assert(count_of(b.drop_first(), x) == count_of(counts.drop_first(), x));
        }
        assert forall|x: Seq<char>| #[trigger] has_key(b, x) <==> (x == e || has_key(counts, x)) by {
            if has_key(b, x) {
                let k = choose|k: int| 0 <= k < b.len() && #[trigger] b[k].0 == x;
                assert(counts[k].0 == x);
            }
            if has_key(counts, x) {
                let k = choose|k: int| 0 <= k < counts.len() && #[trigger] counts[k].0 == x;
                assert(b[k].0 == x);
            }
            if x == e {
                assert(b[0].0 == x);
            }
        }
    } else {
        let t = counts.drop_first();
        assert(keys_distinct(t)) by {
            assert forall|i: int, j: int| 0 <= i < j < t.len() implies #[trigger] t[i].0 != #[trigger] t[j].0 by {
                assert(t[i] == counts[i + 1] && t[j] == counts[j + 1]);
            }
        }
        lemma_bump(t, e);
        let bt = bump(t, e);
        assert(b == seq![counts[0]] + bt);
        assert(b.drop_first() =~= bt);
        assert forall|x: Seq<char>| #[trigger] count_of(b, x) == if x == e {
            if count_of(counts, e) < usize::MAX { count_of(counts, e) + 1 } else { count_of(counts, e) }
        } else {
            count_of(counts, x)
        } by {
            assert(b[0] == counts[0]);
            assert(count_of(bt, x) == count_of(b.drop_first(), x));
            assert(count_of(counts, e) == count_of(t, e));
        }
        assert forall|k: int| 0 <= k < bt.len() implies (#[trigger] bt[k]).0 != counts[0].0 by {
            if bt[k].0 == counts[0].0 {
                assert(has_key(bt, counts[0].0));
                let kk = choose|kk: int| 0 <= kk < t.len() && #[trigger] t[kk].0 == counts[0].0;
                assert(counts[kk + 1].0 == counts[0].0);
            }
        }
        assert(keys_distinct(b)) by {
            assert forall|i: int, j: int| 0 <= i < j < b.len() implies #[trigger] b[i].0 != #[trigger] b[j].0 by {
                if i == 0 {
                    assert(b[j] == bt[j - 1]);
                } else {
                    assert(b[i] == bt[i - 1] && b[j] == bt[j - 1]);
                }
            }
        }
        assert forall|x: Seq<char>| #[trigger] has_key(b, x) <==> (x == e || has_key(counts, x)) by {
            if has_key(b, x) {
                let k = choose|k: int| 0 <= k < b.len() && #[trigger] b[k].0 == x;
                if k == 0 {
                    assert(counts[0].0 == x);
                } else {
                    assert(bt[k - 1].0 == x);
                    assert(has_key(bt, x));
                    if x != e {
                        assert(has_key(t, x));
                        let kk = choose|kk: int| 0 <= kk < t.len() && #[trigger] t[kk].0 == x;
                        assert(counts[kk + 1].0 == x);
                    }
                }
            }
            if has_key(counts, x) {
                let k = choose|k: int| 0 <= k < counts.len() && #[trigger] counts[k].0 == x;
                if k == 0 {
                    assert(b[0].0 == x);
                } else {
                    assert(t[k - 1].0 == x);
                    assert(has_key(t, x));
                    assert(has_key(bt, x));
                    let kk = choose|kk: int| 0 <= kk < bt.len() && #[trigger] bt[kk].0 == x;
                    assert(b[kk + 1].0 == x);
                }
            }
            if x == e {
                assert(has_key(bt, x));
                let kk = choose|kk: int| 0 <= kk < bt.len() && #[trigger] bt[kk].0 == x;
                assert(b[kk + 1].0 == x);
            }
        }
    }
}

/// The counts are those of the paths, while they fit.
proof fn lemma_ext_counts_exact(paths: Seq<Seq<char>>)
    requires
        paths.len() <= usize::MAX,
    ensures
        keys_distinct(ext_counts(paths)),
        forall|e: Seq<char>| #[trigger] count_of(ext_counts(paths), e) == paths_with_ext(paths, e),
        forall|e: Seq<char>| #[trigger] paths_with_ext(paths, e) > 0 ==> has_key(ext_counts(paths), e),
        forall|e: Seq<char>| #[trigger] paths_with_ext(paths, e) <= paths.len(),
    decreases paths.len(),
{
    if paths.len() > 0 {
        let d = paths.drop_last();
        lemma_ext_counts_exact(d);
        match extension_of(paths.last()) {
            Some(x) => {
                lemma_bump(ext_counts(d), x);
                assert forall|e: Seq<char>| #[trigger] count_of(ext_counts(paths), e) == paths_with_ext(paths, e) by {
                    assert(paths_with_ext(d, e) <= d.len());
                }
                assert(ext_counts(paths) == bump(ext_counts(d), x));
                assert forall|e: Seq<char>| #[trigger] paths_with_ext(paths, e) > 0 implies has_key(ext_counts(paths), e) by {
                    if e != x {
                        assert(paths_with_ext(d, e) > 0);
                        assert(has_key(ext_counts(d), e));
                    }
                    assert(has_key(bump(ext_counts(d), x), e));
                }
                assert forall|e: Seq<char>| #[trigger] paths_with_ext(paths, e) <= paths.len() by {
                    assert(paths_with_ext(d, e) <= d.len());
                }
            },
            None => {
                assert(ext_counts(paths) == ext_counts(d));
                assert forall|e: Seq<char>| #[trigger] paths_with_ext(paths, e) > 0 implies has_key(ext_counts(paths), e) by {
                    assert(paths_with_ext(d, e) > 0);
                }
                assert forall|e: Seq<char>| #[trigger] paths_with_ext(paths, e) <= paths.len() by {
                    assert(paths_with_ext(d, e) <= d.len());
                }
            },
        }
    }
}

/// The count the report gives a language's extension is the number of
/// analysed paths with that extension: each extension is listed once, with
/// that number, and every extension of a path is listed.
pub proof fn lemma_ext_counts(paths: Seq<Seq<char>>)
    requires
        paths.len() <= usize::MAX,
    ensures
        forall|k: int| 0 <= k < ext_counts(paths).len() ==> (#[trigger] ext_counts(paths)[k]).1 == paths_with_ext(paths, ext_counts(paths)[k].0),
        forall|i: int, j: int| 0 <= i < j < ext_counts(paths).len() ==> #[trigger] ext_counts(paths)[i].0 != #[trigger] ext_counts(paths)[j].0,
        forall|p: Seq<char>, e: Seq<char>| paths.contains(p) && extension_of(p) == Some(e)
            ==> exists|k: int| 0 <= k < ext_counts(paths).len() && #[trigger] ext_counts(paths)[k].0 == e,
{
    lemma_ext_counts_exact(paths);
    let c = ext_counts(paths);
    assert forall|k: int| 0 <= k < c.len() implies (#[trigger] c[k]).1 == paths_with_ext(paths, c[k].0) by {
        lemma_count_of_entry(c, k);
    }
    assert forall|p: Seq<char>, e: Seq<char>| paths.contains(p) && extension_of(p) == Some(e)
        implies exists|k: int| 0 <= k < c.len() && #[trigger] c[k].0 == e by {
        lemma_paths_with_ext_pos(paths, p, e);
        assert(has_key(c, e));
    }
}

/// A path with the extension `e` makes its count positive.
proof fn lemma_paths_with_ext_pos(paths: Seq<Seq<char>>, p: Seq<char>, e: Seq<char>)
    requires
        paths.contains(p),
        extension_of(p) == Some(e),
    ensures
        paths_with_ext(paths, e) > 0,
    decreases paths.len(),
{
    if paths.last() != p {
        let k = choose|k: int| 0 <= k < paths.len() && paths[k] == p;
        assert(paths.drop_last()[k] == p);
        lemma_paths_with_ext_pos(paths.drop_last(), p, e);
    }
}

/// `x` inserted into `s` (by decreasing count) after every entry whose
/// count is not lower.
pub open spec fn insert_by_count(x: ExtCount, s: Seq<ExtCount>) -> Seq<ExtCount>
    decreases s.len(),
{
    if s.len() == 0 {
        seq![x]
    } else if x.1 > s[0].1 {
        seq![x] + s
    } else {
        seq![s[0]] + insert_by_count(x, s.drop_first())
    }
}

/// `s` sorted by decreasing count, ties in their order (stable).
pub open spec fn sort_by_count(s: Seq<ExtCount>) -> Seq<ExtCount>
    decreases s.len(),
{
    if s.len() == 0 {
        seq![]
    } else {
        insert_by_count(s.last(), sort_by_count(s.drop_last()))
    }
}

/// The lines naming the first `n` languages.
pub open spec fn language_lines(s: Seq<ExtCount>, n: int) -> Seq<char>
    decreases n,
{
    if n <= 0 || n > s.len() {
        seq![]
    } else {
        language_lines(s, n - 1) + "  - "@ + language_name(s[n - 1].0) + " ("@ + decimal(s[n - 1].1)
            + " files)\n"@
    }
}

/// The general information section.
pub open spec fn general_section(root: Seq<char>, total_files: nat, paths: Seq<Seq<char>>) -> Seq<char> {
    let counts = sort_by_count(ext_counts(paths));
    let shown = if counts.len() < 5 { counts.len() as int } else { 5 };
    "## 📦 GENERAL INFORMATION\n\n"@ + "- **Project path**: `"@ + root + "`\n"@ + "- **Total files**: "@
        + decimal(total_files) + "\n"@ + "- **Files included in this analysis**: "@ + decimal(paths.len())
        + "\n"@ + (if counts.len() > 0 {
        "- **Main languages used**:\n"@ + language_lines(counts, shown)
    } else {
        seq![]
    }) + "\n"@
}

/// The project structure section.
pub open spec fn structure_section(root: Seq<char>, tree: TreeV) -> Seq<char> {
    "## 🗂️ PROJECT STRUCTURE\n\n"@ + "```\n"@ + root + "\n"@ + render(tree, seq![], true) + "```\n\n"@
}

/// The children of the root that are directories, in order.
pub open spec fn dir_children(cs: Seq<TreeV>) -> Seq<TreeV>
    decreases cs.len(),
{
    if cs.len() == 0 {
        seq![]
    } else if cs.last().is_dir {
        dir_children(cs.drop_last()).push(cs.last())
    } else {
        dir_children(cs.drop_last())
    }
}

/// The paths that start with `name` and a slash.
pub open spec fn paths_under(paths: Seq<Seq<char>>, name: Seq<char>) -> Seq<Seq<char>>
    decreases paths.len(),
{
    if paths.len() == 0 {
        seq![]
    } else if starts_with(paths.last(), name + seq!['/']) {
        paths_under(paths.drop_last(), name).push(paths.last())
    } else {
        paths_under(paths.drop_last(), name)
    }
}

/// Texts joined with a separator.
pub open spec fn join(parts: Seq<Seq<char>>, sep: Seq<char>) -> Seq<char>
    decreases parts.len(),
{
    if parts.len() == 0 {
        seq![]
    } else if parts.len() == 1 {
        parts[0]
    } else {
        join(parts.drop_last(), sep) + sep + parts.last()
    }
}

/// The language names of the first `n` extensions.
pub open spec fn language_names(s: Seq<ExtCount>, n: int) -> Seq<Seq<char>>
    decreases n,
{
    if n <= 0 || n > s.len() {
        seq![]
    } else {
        language_names(s, n - 1).push(language_name(s[n - 1].0))
    }
}

/// The line describing one main directory.
pub open spec fn component_line(name: Seq<char>, paths: Seq<Seq<char>>) -> Seq<char> {
    let under = paths_under(paths, name);
    let counts = sort_by_count(ext_counts(under));
    let top = if counts.len() < 2 { counts.len() as int } else { 2 };
    "- **`"@ + name + "/`** - "@ + (if under.len() > 0 {
        "Contains "@ + decimal(under.len()) + " files"@ + if counts.len() > 0 {
            " mainly in "@ + join(language_names(counts, top), ", "@)
        } else {
            seq![]
        }
    } else {
        seq![]
    }) + "\n"@
}

/// The lines of the first `n` main directories.
pub open spec fn component_lines(dirs: Seq<TreeV>, paths: Seq<Seq<char>>, n: int) -> Seq<char>
    decreases n,
{
    if n <= 0 || n > dirs.len() {
        seq![]
    } else {
        component_lines(dirs, paths, n - 1) + component_line(dirs[n - 1].name, paths)
    }
}

/// The main components section: the directories directly under the root.
pub open spec fn components_section(tree: TreeV, paths: Seq<Seq<char>>) -> Seq<char> {
    let dirs = match tree.children {
        Some(cs) => dir_children(cs),
        None => seq![],
    };
    if dirs.len() > 0 {
        "### 📂 Main Components\n\n"@ + component_lines(dirs, paths, dirs.len() as int) + "\n"@
    } else {
        seq![]
    }
}

/// A dependency record as values: the file, its internal and its external
/// dependencies.
pub type DepsV = (Seq<char>, Seq<Seq<char>>, Seq<Seq<char>>);

/// The view of a list of dependency records.
pub open spec fn deps_view(d: Seq<(String, FileDependencies)>) -> Seq<DepsV> {
    d.map_values(|e: (String, FileDependencies)| (e.0@, string_views(e.1.internal_deps@), string_views(e.1.external_deps@)))
}

/// `counts` with one more reference to `file`.
pub open spec fn bump_all(counts: Seq<ExtCount>, files: Seq<Seq<char>>) -> Seq<ExtCount>
    decreases files.len(),
{
    if files.len() == 0 {
        counts
    } else {
        bump(bump_all(counts, files.drop_last()), files.last())
    }
}

/// How many times each file is named as an internal dependency, in order
/// of first mention.
pub open spec fn reference_counts(d: Seq<DepsV>) -> Seq<ExtCount>
    decreases d.len(),
{
    if d.len() == 0 {
        seq![]
    } else {
        bump_all(reference_counts(d.drop_last()), d.last().1)
    }
}

/// How many times `f` occurs in `s`.
pub open spec fn occurrences(s: Seq<Seq<char>>, f: Seq<char>) -> nat
    decreases s.len(),
{
    if s.len() == 0 {
        0
    } else {
        occurrences(s.drop_last(), f) + if s.last() == f { 1nat } else { 0nat }
    }
}

/// How many times `f` is named as an internal dependency in the records.
pub open spec fn mentions(d: Seq<DepsV>, f: Seq<char>) -> nat
    decreases d.len(),
{
    if d.len() == 0 {
        0
    } else {
        mentions(d.drop_last(), f) + occurrences(d.last().1, f)
    }
}

/// How many internal dependencies the records name in all.
pub open spec fn all_mentions(d: Seq<DepsV>) -> nat
    decreases d.len(),
{
    if d.len() == 0 {
        0
    } else {
        all_mentions(d.drop_last()) + d.last().1.len()
    }
}

/// A file occurs at most as often as the list is long.
proof fn lemma_occurrences_le(s: Seq<Seq<char>>, f: Seq<char>)
    ensures
        occurrences(s, f) <= s.len(),
    decreases s.len(),
{
    if s.len() > 0 {
        lemma_occurrences_le(s.drop_last(), f);
    }
}

/// Counting the files one by one adds their occurrences to the counts,
/// while the sums fit.
proof fn lemma_bump_all(counts: Seq<ExtCount>, files: Seq<Seq<char>>)
    requires
        keys_distinct(counts),
    ensures
        keys_distinct(bump_all(counts, files)),
        forall|x: Seq<char>| count_of(counts, x) + occurrences(files, x) <= usize::MAX
            ==> #[trigger] count_of(bump_all(counts, files), x) == count_of(counts, x) + occurrences(files, x),
    decreases files.len(),
{
    if files.len() > 0 {
        let dl = files.drop_last();
        lemma_bump_all(counts, dl);
        lemma_bump(bump_all(counts, dl), files.last());
        assert forall|x: Seq<char>| count_of(counts, x) + occurrences(files, x) <= usize::MAX
            implies #[trigger] count_of(bump_all(counts, files), x) == count_of(counts, x) + occurrences(files, x) by {
            assert(count_of(bump_all(counts, dl), x) == count_of(counts, x) + occurrences(dl, x));
            assert(count_of(bump(bump_all(counts, dl), files.last()), x) == count_of(bump_all(counts, files), x));
        }
    }
}

/// The reference counts are the numbers of mentions, while they fit.
proof fn lemma_reference_counts_exact(d: Seq<DepsV>)
    requires
        all_mentions(d) <= usize::MAX,
    ensures
        keys_distinct(reference_counts(d)),
        forall|x: Seq<char>| #[trigger] count_of(reference_counts(d), x) == mentions(d, x),
        forall|x: Seq<char>| #[trigger] mentions(d, x) <= all_mentions(d),
    decreases d.len(),
{
    if d.len() > 0 {
        let dl = d.drop_last();
        lemma_reference_counts_exact(dl);
        lemma_bump_all(reference_counts(dl), d.last().1);
        assert forall|x: Seq<char>| #[trigger] mentions(d, x) <= all_mentions(d) by {
            assert(mentions(dl, x) <= all_mentions(dl));
            lemma_occurrences_le(d.last().1, x);
        }
        assert forall|x: Seq<char>| #[trigger] count_of(reference_counts(d), x) == mentions(d, x) by {
            assert(mentions(dl, x) <= all_mentions(dl));
            lemma_occurrences_le(d.last().1, x);
            assert(count_of(reference_counts(dl), x) == mentions(dl, x));
        }
    }
}

/// The count given to a referenced file is the number of times the records
/// name it as an internal dependency, and no file is counted twice.
pub proof fn lemma_reference_counts(d: Seq<DepsV>)
    requires
        all_mentions(d) <= usize::MAX,
    ensures
        forall|k: int| 0 <= k < reference_counts(d).len() ==> (#[trigger] reference_counts(d)[k]).1 == mentions(d, reference_counts(d)[k].0),
        forall|i: int, j: int| 0 <= i < j < reference_counts(d).len() ==> #[trigger] reference_counts(d)[i].0 != #[trigger] reference_counts(d)[j].0,
{
    lemma_reference_counts_exact(d);
    let c = reference_counts(d);
    assert forall|k: int| 0 <= k < c.len() implies (#[trigger] c[k]).1 == mentions(d, c[k].0) by {
        lemma_count_of_entry(c, k);
    }
}

/// The lines of the first `n` most referenced files, for those referenced
/// more than once.
pub open spec fn core_lines(s: Seq<ExtCount>, n: int) -> Seq<char>
    decreases n,
{
    if n <= 0 || n > s.len() {
        seq![]
    } else {
        core_lines(s, n - 1) + if s[n - 1].1 > 1 {
            "- **`"@ + s[n - 1].0 + "`** is imported by "@ + decimal(s[n - 1].1) + " files\n"@
        } else {
            seq![]
        }
    }
}

/// The most referenced files: the ten with the most references, each
/// listed when it has more than one.
pub open spec fn core_section(d: Seq<DepsV>) -> Seq<char> {
    let refs = sort_by_count(reference_counts(d));
    let top = if refs.len() < 10 { refs.len() as int } else { 10 };
    if refs.len() > 0 {
        "### Core Files (most referenced)\n\n"@ + core_lines(refs, top) + "\n"@
    } else {
        seq![]
    }
}

/// `x` inserted into the sorted list `s`, after the texts not greater.
pub open spec fn insert_text(x: Seq<char>, s: Seq<Seq<char>>) -> Seq<Seq<char>>
    decreases s.len(),
{
    if s.len() == 0 {
        seq![x]
    } else if seq_lt(x, s[0]) {
        seq![x] + s
    } else {
        seq![s[0]] + insert_text(x, s.drop_first())
    }
}

/// `s` sorted, repeats kept.
pub open spec fn sort_texts(s: Seq<Seq<char>>) -> Seq<Seq<char>>
    decreases s.len(),
{
    if s.len() == 0 {
        seq![]
    } else {
        insert_text(s.last(), sort_texts(s.drop_last()))
    }
}

/// Each text in backquotes.
pub open spec fn quoted(s: Seq<Seq<char>>) -> Seq<Seq<char>> {
    s.map_values(|t: Seq<char>| seq!['`'] + t + seq!['`'])
}

/// The first `k` of the sorted dependencies in backquotes, joined with
/// commas, and how many more there are.
pub open spec fn dep_list(deps: Seq<Seq<char>>, k: nat) -> Seq<char> {
    let sorted = sort_texts(deps);
    let shown = if sorted.len() < k { sorted.len() as int } else { k as int };
    join(quoted(sorted.take(shown)), ", "@) + if deps.len() > k {
        " and "@ + decimal((deps.len() - k) as nat) + " more"@
    } else {
        seq![]
    }
}

/// The lines for one file in the dependencies section.
pub open spec fn file_deps_lines(e: DepsV) -> Seq<char> {
    if e.1.len() > 0 || e.2.len() > 0 {
        "- **`"@ + e.0 + "`**:\n"@ + (if e.1.len() > 0 {
            "  - *Internal dependencies*: "@ + dep_list(e.1, 5) + "\n"@
        } else {
            seq![]
        }) + if e.2.len() > 0 {
            "  - *External dependencies*: "@ + dep_list(e.2, 5) + "\n"@
        } else {
            seq![]
        }
    } else {
        seq![]
    }
}

/// `x` inserted into `s` by file path.
pub open spec fn insert_by_file(x: DepsV, s: Seq<DepsV>) -> Seq<DepsV>
    decreases s.len(),
{
    if s.len() == 0 {
        seq![x]
    } else if seq_lt(x.0, s[0].0) {
        seq![x] + s
    } else {
        seq![s[0]] + insert_by_file(x, s.drop_first())
    }
}

/// The dependency records sorted by file path.
pub open spec fn sort_by_file(s: Seq<DepsV>) -> Seq<DepsV>
    decreases s.len(),
{
    if s.len() == 0 {
        seq![]
    } else {
        insert_by_file(s.last(), sort_by_file(s.drop_last()))
    }
}

/// The lines of the first `n` records.
pub open spec fn deps_lines(s: Seq<DepsV>, n: int) -> Seq<char>
    decreases n,
{
    if n <= 0 || n > s.len() {
        seq![]
    } else {
        deps_lines(s, n - 1) + file_deps_lines(s[n - 1])
    }
}

/// The file relationships section.
pub open spec fn relationships_section(d: Seq<DepsV>) -> Seq<char> {
    "## 🔄 FILE RELATIONSHIPS\n\n"@ + core_section(d) + "### Dependencies by File\n\n"@
        + deps_lines(sort_by_file(d), d.len() as int) + "\n"@
}

/// The first record for a file, if any.
pub open spec fn deps_lookup(d: Seq<DepsV>, path: Seq<char>) -> Option<DepsV>
    decreases d.len(),
{
    if d.len() == 0 {
        None
    } else if d[0].0 == path {
        Some(d[0])
    } else {
        deps_lookup(d.drop_first(), path)
    }
}

/// The dependency lines shown above a file's content.
pub open spec fn content_deps(d: Seq<DepsV>, path: Seq<char>) -> Seq<char> {
    match deps_lookup(d, path) {
        Some(e) => if e.1.len() > 0 || e.2.len() > 0 {
            "**Dependencies:**\n"@ + (if e.1.len() > 0 {
                "- Internal: "@ + dep_list(e.1, 3) + "\n"@
            } else {
                seq![]
            }) + (if e.2.len() > 0 {
                "- External: "@ + dep_list(e.2, 3) + "\n"@
            } else {
                seq![]
            }) + "\n"@
        } else {
            seq![]
        },
        None => seq![],
    }
}

/// The extension of a path, or empty.
pub open spec fn ext_or_empty(path: Seq<char>) -> Seq<char> {
    match extension_of(path) {
        Some(e) => e,
        None => seq![],
    }
}

/// One file of the contents section.
pub open spec fn content_block(d: Seq<DepsV>, path: Seq<char>, content: Seq<char>) -> Seq<char> {
    "### "@ + path + "\n\n"@ + content_deps(d, path) + "```"@ + ext_or_empty(path) + "\n"@ + content
        + (if ends_with_char(content, '\n') { seq![] } else { seq!['\n'] }) + "```\n\n"@
}

/// The first `n` files of the contents section.
pub open spec fn content_blocks(d: Seq<DepsV>, files: Seq<(Seq<char>, Seq<char>)>, n: int) -> Seq<char>
    decreases n,
{
    if n <= 0 || n > files.len() {
        seq![]
    } else {
        content_blocks(d, files, n - 1) + content_block(d, files[n - 1].0, files[n - 1].1)
    }
}

/// The whole report.
pub open spec fn llm_report(
    files: Seq<(Seq<char>, Seq<char>)>,
    root: Seq<char>,
    tree: TreeV,
    d: Seq<DepsV>,
    total_files: nat,
) -> Seq<char> {
    let paths = files.map_values(|f: (Seq<char>, Seq<char>)| f.0);
    "# PROJECT ANALYSIS FOR AI ASSISTANT\n\n"@ + general_section(root, total_files, paths)
        + structure_section(root, tree) + components_section(tree, paths) + relationships_section(d)
        + "## 📄 FILE CONTENTS\n\n"@ + "*Note: The content below includes only selected files.*\n\n"@
        + content_blocks(d, files, files.len() as int)
}

/// The view of a list of counts.
pub open spec fn counts_view(v: Seq<(Vec<char>, usize)>) -> Seq<ExtCount> {
    v.map_values(|e: (Vec<char>, usize)| (e.0@, e.1 as nat))
}

/// Counts one more `e` (see `bump`).
fn bump_exec(counts: &mut Vec<(Vec<char>, usize)>, e: Vec<char>)
    ensures
        counts_view(final(counts)@) == bump(counts_view(old(counts)@), e@),
{
    let ghost t = counts_view(counts@);
    let mut j: usize = 0;
    let mut found = false;
    proof {
        assert(t.skip(0) =~= t);
        assert(t.take(0) + bump(t, e@) =~= bump(t, e@));
    }
    while !found && j < counts.len()
        invariant
            t == counts_view(counts@),
            j <= counts@.len(),
            bump(t, e@) == t.take(j as int) + bump(t.skip(j as int), e@),
            found ==> j < t.len() && t[j as int].0 == e@,
        decreases counts@.len() - j, if found { 0int } else { 1int },
    {
        if chars_eq(counts[j].0.as_slice(), e.as_slice()) {
            found = true;
        } else {
            proof {
                let r = t.skip(j as int);
                assert(r[0] == t[j as int]);
                assert(r.drop_first() =~= t.skip(j + 1));
                assert(t.take(j + 1) =~= t.take(j as int) + seq![t[j as int]]);
            }
            j = j + 1;
        }
    }
    if found {
        let c = counts[j].1;
        let c2 = if c < usize::MAX { c + 1 } else { c };
        let ghost r = t.skip(j as int);
        proof {
            assert(r[0] == t[j as int]);
            assert(r.drop_first() =~= t.skip(j + 1));
        }
        counts.set(j, (e, c2));
        proof {
            assert(counts_view(counts@) =~= bump(t, e@));
        }
    } else {
        proof {
            assert(t.skip(j as int) =~= Seq::<ExtCount>::empty());
        }
        counts.push((e, 1));
        proof {
            assert(counts_view(counts@) =~= bump(t, e@));
        }
    }
}

/// The extension counts of a list of paths (see `ext_counts`).
fn ext_counts_exec(paths: &Vec<Vec<char>>) -> (r: Vec<(Vec<char>, usize)>)
    ensures
        counts_view(r@) == ext_counts(comps_view(paths@)),
{
    let ghost pv = comps_view(paths@);
    let mut counts: Vec<(Vec<char>, usize)> = Vec::new();
    let mut i: usize = 0;
    while i < paths.len()
        invariant
            pv == comps_view(paths@),
            i <= paths@.len(),
            counts_view(counts@) == ext_counts(pv.take(i as int)),
        decreases paths@.len() - i,
    {
        proof {
            assert(pv.take(i + 1).drop_last() =~= pv.take(i as int));
            assert(pv.take(i + 1).last() == paths@[i as int]@);
        }
        let p = chars_to_string(paths[i].as_slice());
        match extension(p.as_str()) {
            Some(e) => bump_exec(&mut counts, str_chars(e.as_str())),
            None => {},
        }
        i = i + 1;
    }
    proof {
        assert(pv.take(paths@.len() as int) =~= pv);
    }
    counts
}

/// Sorts counts by decreasing count, ties kept in order (see `sort_by_count`).
fn sort_by_count_exec(v: Vec<(Vec<char>, usize)>) -> (r: Vec<(Vec<char>, usize)>)
    ensures
        counts_view(r@) == sort_by_count(counts_view(v@)),
{
    let ghost vv = counts_view(v@);
    let mut out: Vec<(Vec<char>, usize)> = Vec::new();
    let mut i: usize = 0;
    while i < v.len()
        invariant
            vv == counts_view(v@),
            i <= v@.len(),
            counts_view(out@) == sort_by_count(vv.take(i as int)),
        decreases v@.len() - i,
    {
        proof {
            assert(vv.take(i + 1).drop_last() =~= vv.take(i as int));
            assert(vv.take(i + 1).last() == (v@[i as int].0@, v@[i as int].1 as nat));
        }
        let ghost t = counts_view(out@);
        let x = (v[i].0.clone(), v[i].1);
        let mut j: usize = 0;
        let mut found = false;
        proof {
            assert(t.skip(0) =~= t);
            assert(t.take(0) + insert_by_count((x.0@, x.1 as nat), t) =~= insert_by_count((x.0@, x.1 as nat), t));
        }
        while !found && j < out.len()
            invariant
                t == counts_view(out@),
                j <= out@.len(),
                insert_by_count((x.0@, x.1 as nat), t) == t.take(j as int) + insert_by_count((x.0@, x.1 as nat), t.skip(j as int)),
                found ==> j < t.len() && x.1 > t[j as int].1,
            decreases out@.len() - j, if found { 0int } else { 1int },
        {
            if x.1 > out[j].1 {
                found = true;
            } else {
                proof {
                    let r = t.skip(j as int);
                    assert(r[0] == t[j as int]);
                    assert(r.drop_first() =~= t.skip(j + 1));
                    assert(t.take(j + 1) =~= t.take(j as int) + seq![t[j as int]]);
                }
                j = j + 1;
            }
        }
        proof {
            if j < t.len() {
                let r = t.skip(j as int);
                assert(r[0] == t[j as int]);
            } else {
                assert(t.skip(j as int) =~= Seq::<ExtCount>::empty());
            }
        }
        out.insert(j, x);
        proof {
            assert(counts_view(out@) =~= insert_by_count((x.0@, x.1 as nat), t));
        }
        i = i + 1;
    }
    proof {
        assert(vv.take(v@.len() as int) =~= vv);
    }
    out
}

/// Appends texts joined with a separator (see `join`).
fn push_joined(out: &mut Vec<char>, parts: &Vec<Vec<char>>, sep: &str)
    ensures
        final(out)@ == old(out)@ + join(comps_view(parts@), sep@),
{
    let ghost start = out@;
    let ghost pv = comps_view(parts@);
    let mut i: usize = 0;
    while i < parts.len()
        invariant
            pv == comps_view(parts@),
            i <= parts@.len(),
            out@ == start + join(pv.take(i as int), sep@),
        decreases parts@.len() - i,
    {
        if i > 0 {
            push_str(out, sep);
        }
        push_chars(out, parts[i].as_slice());
        i = i + 1;
        proof {
            let t = pv.take(i as int);
            assert(t.drop_last() =~= pv.take(i - 1));
            assert(t.last() == parts@[i - 1]@);
            assert(out@ =~= start + join(pv.take(i as int), sep@));
        }
    }
    proof {
        assert(pv.take(parts@.len() as int) =~= pv);
    }
}

/// Appends the general information section.
fn push_general(out: &mut Vec<char>, root: &str, total_files: usize, paths: &Vec<Vec<char>>)
    ensures
        final(out)@ == old(out)@ + general_section(root@, total_files as nat, comps_view(paths@)),
{
    let ghost start = out@;
    push_str(out, "## 📦 GENERAL INFORMATION\n\n");
    push_str(out, "- **Project path**: `");
    push_str(out, root);
    push_str(out, "`\n");
    push_str(out, "- **Total files**: ");
    push_decimal(out, total_files);
    push_str(out, "\n");
    push_str(out, "- **Files included in this analysis**: ");
    push_decimal(out, paths.len());
    push_str(out, "\n");
    let ghost head = out@;
    let counts = sort_by_count_exec(ext_counts_exec(paths));
    let ghost cv = counts_view(counts@);
    proof {
        assert(cv == sort_by_count(ext_counts(comps_view(paths@))));
    }
    if counts.len() > 0 {
        push_str(out, "- **Main languages used**:\n");
        let shown: usize = if counts.len() < 5 { counts.len() } else { 5 };
        push_language_lines(out, &counts, shown);
    }
    let ghost langs = out@;
    push_str(out, "\n");
    proof {
        let counts_s = sort_by_count(ext_counts(comps_view(paths@)));
        assert(langs =~= head + (if counts_s.len() > 0 {
            "- **Main languages used**:\n"@ + language_lines(counts_s, if counts_s.len() < 5 { counts_s.len() as int } else { 5 })
        } else {
            seq![]
        }));
        assert(out@ =~= start + general_section(root@, total_files as nat, comps_view(paths@)));
    }
}

/// Appends the lines of the first `shown` languages.
fn push_language_lines(out: &mut Vec<char>, counts: &Vec<(Vec<char>, usize)>, shown: usize)
    requires
        shown <= counts@.len(),
    ensures
        final(out)@ == old(out)@ + language_lines(counts_view(counts@), shown as int),
{
    let ghost cv = counts_view(counts@);
    let ghost mid = out@;
    let mut i: usize = 0;
    while i < shown
        invariant
            cv == counts_view(counts@),
            shown <= counts@.len(),
            i <= shown,
            out@ == mid + language_lines(cv, i as int),
        decreases shown - i,
    {
        push_str(out, "  - ");
        push_str(out, get_language_name(chars_to_string(counts[i].0.as_slice()).as_str()));
        push_str(out, " (");
        push_decimal(out, counts[i].1);
        push_str(out, " files)\n");
        i = i + 1;
        proof {
            assert(out@ =~= mid + language_lines(cv, i as int));
        }
    }
}

/// Appends the project structure section.
fn push_structure(out: &mut Vec<char>, root: &str, tree: &Node)
    ensures
        final(out)@ == old(out)@ + structure_section(root@, node_view(*tree)),
{
    let ghost start = out@;
    push_str(out, "## 🗂️ PROJECT STRUCTURE\n\n");
    push_str(out, "```\n");
    push_str(out, root);
    push_str(out, "\n");
    let empty: Vec<char> = Vec::new();
    write_tree(tree, &empty, true, out);
    push_str(out, "```\n\n");
    proof {
        assert(empty@ =~= Seq::<char>::empty());
        assert(out@ =~= start + structure_section(root@, node_view(*tree)));
    }
}

/// The paths that start with `name` and a slash (see `paths_under`).
fn paths_under_exec(paths: &Vec<Vec<char>>, name: &[char]) -> (r: Vec<Vec<char>>)
    ensures
        comps_view(r@) == paths_under(comps_view(paths@), name@),
{
    let ghost pv = comps_view(paths@);
    let mut prefix: Vec<char> = Vec::new();
    push_chars(&mut prefix, name);
    prefix.push('/');
    let mut out: Vec<Vec<char>> = Vec::new();
    let mut i: usize = 0;
    while i < paths.len()
        invariant
            pv == comps_view(paths@),
            prefix@ == name@ + seq!['/'],
            i <= paths@.len(),
            comps_view(out@) == paths_under(pv.take(i as int), name@),
        decreases paths@.len() - i,
    {
        proof {
            assert(pv.take(i + 1).drop_last() =~= pv.take(i as int));
            assert(pv.take(i + 1).last() == paths@[i as int]@);
        }
        if chars_starts_with(paths[i].as_slice(), prefix.as_slice()) {
            let ghost before = out@;
            out.push(paths[i].clone());
            proof {
                assert(comps_view(out@) =~= comps_view(before).push(paths@[i as int]@));
            }
        }
        i = i + 1;
    }
    proof {
        assert(pv.take(paths@.len() as int) =~= pv);
    }
    out
}

/// Appends the line of one main directory (see `component_line`).
fn push_component_line(out: &mut Vec<char>, name: &str, paths: &Vec<Vec<char>>)
    ensures
        final(out)@ == old(out)@ + component_line(name@, comps_view(paths@)),
{
    let ghost start = out@;
    let nv = str_chars(name);
    push_str(out, "- **`");
    push_str(out, name);
    push_str(out, "/`** - ");
    let under = paths_under_exec(paths, nv.as_slice());
    if under.len() > 0 {
        push_str(out, "Contains ");
        push_decimal(out, under.len());
        push_str(out, " files");
        let counts = sort_by_count_exec(ext_counts_exec(&under));
        let ghost cv = counts_view(counts@);
        if counts.len() > 0 {
            push_str(out, " mainly in ");
            let top: usize = if counts.len() < 2 { counts.len() } else { 2 };
            let mut names: Vec<Vec<char>> = Vec::new();
            let mut k: usize = 0;
            while k < top
                invariant
                    cv == counts_view(counts@),
                    top <= counts@.len(),
                    k <= top,
                    comps_view(names@) == language_names(cv, k as int),
                decreases top - k,
            {
                let ghost before = names@;
                let ln = str_chars(get_language_name(chars_to_string(counts[k].0.as_slice()).as_str()));
                names.push(ln);
                k = k + 1;
                proof {
                    assert(comps_view(names@) =~= comps_view(before).push(ln@));
                }
            }
            push_joined(out, &names, ", ");
        }
    }
    push_str(out, "\n");
    proof {
        assert(out@ =~= start + component_line(name@, comps_view(paths@)));
    }
}

/// Appends the main components section.
fn push_components(out: &mut Vec<char>, tree: &Node, paths: &Vec<Vec<char>>)
    ensures
        final(out)@ == old(out)@ + components_section(node_view(*tree), comps_view(paths@)),
{
    let ghost start = out@;
    let ghost tv = node_view(*tree);
    match &tree.children {
        Some(cs) => {
            let ghost csv = view_children(cs@, cs@.len() as int);
            proof {
                crate::output::tree::lemma_view_children(cs@, cs@.len() as int);
            }
            let mut dirs: Vec<usize> = Vec::new();
            let mut i: usize = 0;
            while i < cs.len()
                invariant
                    csv == view_children(cs@, cs@.len() as int),
                    csv.len() == cs@.len(),
                    forall|m: int| 0 <= m < cs@.len() ==> #[trigger] csv[m] == node_view(cs@[m]),
                    i <= cs@.len(),
                    dirs@.map_values(|x: usize| csv[x as int]) == dir_children(csv.take(i as int)),
                    forall|m: int| 0 <= m < dirs@.len() ==> dirs@[m] < cs@.len(),
                decreases cs@.len() - i,
            {
                proof {
                    assert(csv.take(i + 1).drop_last() =~= csv.take(i as int));
                    assert(csv.take(i + 1).last() == csv[i as int]);
                }
                if cs[i].is_dir {
                    let ghost before = dirs@;
                    dirs.push(i);
                    proof {
                        assert(dirs@.map_values(|x: usize| csv[x as int]) =~= before.map_values(|x: usize| csv[x as int]).push(csv[i as int]));
                    }
                }
                i = i + 1;
            }
            let ghost dv = dirs@.map_values(|x: usize| csv[x as int]);
            proof {
                assert(csv.take(cs@.len() as int) =~= csv);
            }
            if dirs.len() > 0 {
                push_str(out, "### 📂 Main Components\n\n");
                let ghost mid = out@;
                let mut k: usize = 0;
                while k < dirs.len()
                    invariant
                        dv == dirs@.map_values(|x: usize| csv[x as int]),
                        csv.len() == cs@.len(),
                        forall|m: int| 0 <= m < cs@.len() ==> #[trigger] csv[m] == node_view(cs@[m]),
                        forall|m: int| 0 <= m < dirs@.len() ==> dirs@[m] < cs@.len(),
                        k <= dirs@.len(),
                        out@ == mid + component_lines(dv, comps_view(paths@), k as int),
                    decreases dirs@.len() - k,
                {
                    let d = dirs[k];
                    proof {
                        assert(dv[k as int] == csv[d as int]);
                    }
                    push_component_line(out, cs[d].name.as_str(), paths);
                    k = k + 1;
                    proof {
                        assert(out@ =~= mid + component_lines(dv, comps_view(paths@), k as int));
                    }
                }
                push_str(out, "\n");
            }
            proof {
                assert(out@ =~= start + components_section(tv, comps_view(paths@)));
            }
        },
        None => {
            proof {
                assert(out@ =~= start + components_section(tv, comps_view(paths@)));
            }
        },
    }
}

/// How often each file is named as an internal dependency (see
/// `reference_counts`).
fn reference_counts_exec(deps: &Vec<(String, FileDependencies)>) -> (r: Vec<(Vec<char>, usize)>)
    ensures
        counts_view(r@) == reference_counts(deps_view(deps@)),
{
    let ghost dv = deps_view(deps@);
    let mut counts: Vec<(Vec<char>, usize)> = Vec::new();
    let mut i: usize = 0;
    while i < deps.len()
        invariant
            dv == deps_view(deps@),
            i <= deps@.len(),
            counts_view(counts@) == reference_counts(dv.take(i as int)),
        decreases deps@.len() - i,
    {
        proof {
            assert(dv.take(i + 1).drop_last() =~= dv.take(i as int));
            assert(dv.take(i + 1).last() == dv[i as int]);
        }
        let ghost base = counts_view(counts@);
        let internal = &deps[i].1.internal_deps;
        let ghost iv = string_views(internal@);
        let mut k: usize = 0;
        while k < internal.len()
            invariant
                iv == string_views(internal@),
                k <= internal@.len(),
                counts_view(counts@) == bump_all(base, iv.take(k as int)),
            decreases internal@.len() - k,
        {
            proof {
                assert(iv.take(k + 1).drop_last() =~= iv.take(k as int));
                assert(iv.take(k + 1).last() == internal@[k as int]@);
            }
            bump_exec(&mut counts, str_chars(internal[k].as_str()));
            k = k + 1;
        }
        proof {
            assert(iv.take(internal@.len() as int) =~= iv);
            assert(iv == dv[i as int].1);
        }
        i = i + 1;
    }
    proof {
        assert(dv.take(deps@.len() as int) =~= dv);
    }
    counts
}

/// Appends the most referenced files (see `core_section`).
fn push_core(out: &mut Vec<char>, deps: &Vec<(String, FileDependencies)>)
    ensures
        final(out)@ == old(out)@ + core_section(deps_view(deps@)),
{
    let ghost start = out@;
    let refs = sort_by_count_exec(reference_counts_exec(deps));
    let ghost rv = counts_view(refs@);
    if refs.len() > 0 {
        push_str(out, "### Core Files (most referenced)\n\n");
        let top: usize = if refs.len() < 10 { refs.len() } else { 10 };
        let ghost mid = out@;
        let mut i: usize = 0;
        while i < top
            invariant
                rv == counts_view(refs@),
                top <= refs@.len(),
                i <= top,
                out@ == mid + core_lines(rv, i as int),
            decreases top - i,
        {
            if refs[i].1 > 1 {
                push_str(out, "- **`");
                push_chars(out, refs[i].0.as_slice());
                push_str(out, "`** is imported by ");
                push_decimal(out, refs[i].1);
                push_str(out, " files\n");
            }
            i = i + 1;
            proof {
                assert(out@ =~= mid + core_lines(rv, i as int));
            }
        }
        push_str(out, "\n");
    }
    proof {
        assert(out@ =~= start + core_section(deps_view(deps@)));
    }
}

/// The texts sorted, repeats kept (see `sort_texts`).
fn sort_texts_exec(v: &Vec<String>) -> (r: Vec<Vec<char>>)
    ensures
        comps_view(r@) == sort_texts(string_views(v@)),
{
    let ghost vv = string_views(v@);
    let mut out: Vec<Vec<char>> = Vec::new();
    let mut i: usize = 0;
    while i < v.len()
        invariant
            vv == string_views(v@),
            i <= v@.len(),
            comps_view(out@) == sort_texts(vv.take(i as int)),
        decreases v@.len() - i,
    {
        proof {
            assert(vv.take(i + 1).drop_last() =~= vv.take(i as int));
            assert(vv.take(i + 1).last() == v@[i as int]@);
        }
        let x = str_chars(v[i].as_str());
        let ghost t = comps_view(out@);
        let mut j: usize = 0;
        let mut found = false;
        proof {
            assert(t.skip(0) =~= t);
            assert(t.take(0) + insert_text(x@, t) =~= insert_text(x@, t));
        }
        while !found && j < out.len()
            invariant
                t == comps_view(out@),
                j <= out@.len(),
                insert_text(x@, t) == t.take(j as int) + insert_text(x@, t.skip(j as int)),
                found ==> j < t.len() && seq_lt(x@, t[j as int]),
            decreases out@.len() - j, if found { 0int } else { 1int },
        {
            if chars_less(x.as_slice(), out[j].as_slice()) {
                found = true;
            } else {
                proof {
                    let r = t.skip(j as int);
                    assert(r[0] == t[j as int]);
                    assert(r.drop_first() =~= t.skip(j + 1));
                    assert(t.take(j + 1) =~= t.take(j as int) + seq![t[j as int]]);
                }
                j = j + 1;
            }
        }
        proof {
            if j < t.len() {
                let r = t.skip(j as int);
                assert(r[0] == t[j as int]);
            } else {
                assert(t.skip(j as int) =~= Seq::<Seq<char>>::empty());
            }
        }
        out.insert(j, x);
        proof {
            assert(comps_view(out@) =~= insert_text(x@, t));
        }
        i = i + 1;
    }
    proof {
        assert(vv.take(v@.len() as int) =~= vv);
    }
    out
}

/// Appends `dep_list(deps, k)`.
fn push_dep_list(out: &mut Vec<char>, deps: &Vec<String>, k: usize)
    ensures
        final(out)@ == old(out)@ + dep_list(string_views(deps@), k as nat),
{
    let ghost start = out@;
    let sorted = sort_texts_exec(deps);
    let ghost sv = comps_view(sorted@);
    let shown: usize = if sorted.len() < k { sorted.len() } else { k };
    let mut parts: Vec<Vec<char>> = Vec::new();
    let mut i: usize = 0;
    while i < shown
        invariant
            sv == comps_view(sorted@),
            shown <= sorted@.len(),
            i <= shown,
            comps_view(parts@) == quoted(sv.take(i as int)),
        decreases shown - i,
    {
        let mut q: Vec<char> = Vec::new();
        q.push('`');
        push_chars(&mut q, sorted[i].as_slice());
        q.push('`');
        let ghost before = parts@;
        parts.push(q);
        i = i + 1;
        proof {
            assert(q@ =~= seq!['`'] + sv[i - 1] + seq!['`']);
            assert(comps_view(parts@) =~= comps_view(before).push(q@));
            assert(sv.take(i as int) =~= sv.take(i - 1).push(sv[i - 1]));
            assert(quoted(sv.take(i as int)) =~= quoted(sv.take(i - 1)).push(q@));
            assert(comps_view(parts@) =~= quoted(sv.take(i as int)));
        }
    }
    push_joined(out, &parts, ", ");
    if deps.len() > k {
        push_str(out, " and ");
        push_decimal(out, deps.len() - k);
        push_str(out, " more");
    }
    proof {
        assert(out@ =~= start + dep_list(string_views(deps@), k as nat));
    }
}

/// Appends a labelled dependency line when there are dependencies.
fn push_labelled(out: &mut Vec<char>, label: &str, deps: &Vec<String>, k: usize)
    ensures
        final(out)@ == old(out)@ + if deps@.len() > 0 {
            label@ + dep_list(string_views(deps@), k as nat) + "\n"@
        } else {
            seq![]
        },
{
    let ghost start = out@;
    if deps.len() > 0 {
        push_str(out, label);
        push_dep_list(out, deps, k);
        push_str(out, "\n");
    }
    proof {
        assert(out@ =~= start + if deps@.len() > 0 {
            label@ + dep_list(string_views(deps@), k as nat) + "\n"@
        } else {
            seq![]
        });
    }
}

/// Appends the lines of one file in the dependencies section.
fn push_file_deps(out: &mut Vec<char>, e: &(String, FileDependencies))
    ensures
        final(out)@ == old(out)@ + file_deps_lines((e.0@, string_views(e.1.internal_deps@), string_views(e.1.external_deps@))),
{
    let ghost start = out@;
    let internal = &e.1.internal_deps;
    let external = &e.1.external_deps;
    if internal.len() > 0 || external.len() > 0 {
        push_str(out, "- **`");
        push_str(out, e.0.as_str());
        push_str(out, "`**:\n");
        let ghost a = out@;
        push_labelled(out, "  - *Internal dependencies*: ", internal, 5);
        let ghost b = out@;
        push_labelled(out, "  - *External dependencies*: ", external, 5);
        proof {
            let ev = (e.0@, string_views(e.1.internal_deps@), string_views(e.1.external_deps@));
            assert(a =~= start + "- **`"@ + ev.0 + "`**:\n"@);
            assert(out@ =~= start + file_deps_lines(ev));
        }
    } else {
        proof {
            assert(out@ =~= start + Seq::<char>::empty());
        }
    }
}

/// The records in file-path order, as indices (see `sort_by_file`).
fn sort_by_file_exec(deps: &Vec<(String, FileDependencies)>) -> (r: Vec<usize>)
    ensures
        forall|m: int| 0 <= m < r@.len() ==> r@[m] < deps@.len(),
        r@.map_values(|x: usize| deps_view(deps@)[x as int]) == sort_by_file(deps_view(deps@)),
{
    let ghost dv = deps_view(deps@);
    let mut out: Vec<usize> = Vec::new();
    let mut i: usize = 0;
    while i < deps.len()
        invariant
            dv == deps_view(deps@),
            i <= deps@.len(),
            forall|m: int| 0 <= m < out@.len() ==> out@[m] < deps@.len(),
            out@.map_values(|x: usize| dv[x as int]) == sort_by_file(dv.take(i as int)),
        decreases deps@.len() - i,
    {
        proof {
            assert(dv.take(i + 1).drop_last() =~= dv.take(i as int));
            assert(dv.take(i + 1).last() == dv[i as int]);
        }
        let ghost t = out@.map_values(|x: usize| dv[x as int]);
        let ghost xv = dv[i as int];
        let mut j: usize = 0;
        let mut found = false;
        proof {
            assert(t.skip(0) =~= t);
            assert(t.take(0) + insert_by_file(xv, t) =~= insert_by_file(xv, t));
        }
        while !found && j < out.len()
            invariant
                dv == deps_view(deps@),
                i < deps@.len(),
                xv == dv[i as int],
                t == out@.map_values(|x: usize| dv[x as int]),
                forall|m: int| 0 <= m < out@.len() ==> out@[m] < deps@.len(),
                j <= out@.len(),
                insert_by_file(xv, t) == t.take(j as int) + insert_by_file(xv, t.skip(j as int)),
                found ==> j < t.len() && seq_lt(xv.0, t[j as int].0),
            decreases out@.len() - j, if found { 0int } else { 1int },
        {
            let o = out[j];
            let a = str_chars(deps[i].0.as_str());
            let b = str_chars(deps[o].0.as_str());
            proof {
                assert(t[j as int] == dv[o as int]);
            }
            if chars_less(a.as_slice(), b.as_slice()) {
                found = true;
            } else {
                proof {
                    let r = t.skip(j as int);
                    assert(r[0] == t[j as int]);
                    assert(r.drop_first() =~= t.skip(j + 1));
                    assert(t.take(j + 1) =~= t.take(j as int) + seq![t[j as int]]);
                }
                j = j + 1;
            }
        }
        proof {
            if j < t.len() {
                let r = t.skip(j as int);
                assert(r[0] == t[j as int]);
            } else {
                assert(t.skip(j as int) =~= Seq::<DepsV>::empty());
            }
        }
        out.insert(j, i);
        proof {
            assert(out@.map_values(|x: usize| dv[x as int]) =~= insert_by_file(xv, t));
        }
        i = i + 1;
    }
    proof {
        assert(dv.take(deps@.len() as int) =~= dv);
    }
    out
}

/// Appends the file relationships section.
fn push_relationships(out: &mut Vec<char>, deps: &Vec<(String, FileDependencies)>)
    ensures
        final(out)@ == old(out)@ + relationships_section(deps_view(deps@)),
{
    let ghost start = out@;
    let ghost dv = deps_view(deps@);
    push_str(out, "## 🔄 FILE RELATIONSHIPS\n\n");
    push_core(out, deps);
    push_str(out, "### Dependencies by File\n\n");
    let order = sort_by_file_exec(deps);
    let ghost sv = order@.map_values(|x: usize| dv[x as int]);
    let ghost mid = out@;
    let mut i: usize = 0;
    while i < order.len()
        invariant
            dv == deps_view(deps@),
            sv == order@.map_values(|x: usize| dv[x as int]),
            sv == sort_by_file(dv),
            forall|m: int| 0 <= m < order@.len() ==> order@[m] < deps@.len(),
            i <= order@.len(),
            out@ == mid + deps_lines(sv, i as int),
        decreases order@.len() - i,
    {
        let o = order[i];
        proof {
            assert(sv[i as int] == dv[o as int]);
        }
        push_file_deps(out, &deps[o]);
        i = i + 1;
        proof {
            assert(out@ =~= mid + deps_lines(sv, i as int));
        }
    }
    push_str(out, "\n");
    proof {
        lemma_sort_by_file_len(dv);
        assert(out@ =~= start + relationships_section(dv));
    }
}

/// Sorting keeps the number of records.
proof fn lemma_sort_by_file_len(s: Seq<DepsV>)
    ensures
        sort_by_file(s).len() == s.len(),
    decreases s.len(),
{
    if s.len() > 0 {
        lemma_sort_by_file_len(s.drop_last());
        lemma_insert_by_file_len(s.last(), sort_by_file(s.drop_last()));
    }
}

proof fn lemma_insert_by_file_len(x: DepsV, s: Seq<DepsV>)
    ensures
        insert_by_file(x, s).len() == s.len() + 1,
    decreases s.len(),
{
    if s.len() > 0 && !seq_lt(x.0, s[0].0) {
        lemma_insert_by_file_len(x, s.drop_first());
    }
}

/// The first record of a file (see `deps_lookup`), by index.
fn deps_index(deps: &Vec<(String, FileDependencies)>, path: &str) -> (r: Option<usize>)
    ensures
        match r {
            Some(i) => i < deps@.len() && deps_lookup(deps_view(deps@), path@) == Some(deps_view(deps@)[i as int]),
            None => deps_lookup(deps_view(deps@), path@).is_none(),
        },
{
    let ghost dv = deps_view(deps@);
    let mut i: usize = 0;
    proof {
        assert(dv.skip(0) =~= dv);
    }
    while i < deps.len()
        invariant
            dv == deps_view(deps@),
            i <= deps@.len(),
            deps_lookup(dv, path@) == deps_lookup(dv.skip(i as int), path@),
        decreases deps@.len() - i,
    {
        proof {
            assert(dv.skip(i as int)[0] == dv[i as int]);
            assert(dv.skip(i as int).drop_first() =~= dv.skip(i + 1));
        }
        if str_eq(deps[i].0.as_str(), path) {
            return Some(i);
        }
        i = i + 1;
    }
    None
}

/// Appends the dependency lines shown above a file's content.
fn push_content_deps(out: &mut Vec<char>, deps: &Vec<(String, FileDependencies)>, path: &str)
    ensures
        final(out)@ == old(out)@ + content_deps(deps_view(deps@), path@),
{
    let ghost start = out@;
    match deps_index(deps, path) {
        Some(i) => {
            let internal = &deps[i].1.internal_deps;
            let external = &deps[i].1.external_deps;
            if internal.len() > 0 || external.len() > 0 {
                push_str(out, "**Dependencies:**\n");
                push_labelled(out, "- Internal: ", internal, 3);
                push_labelled(out, "- External: ", external, 3);
                push_str(out, "\n");
            }
            proof {
                assert(out@ =~= start + content_deps(deps_view(deps@), path@));
            }
        },
        None => {
            proof {
                assert(out@ =~= start + content_deps(deps_view(deps@), path@));
            }
        },
    }
}

/// Appends one file of the contents section.
fn push_content_block(out: &mut Vec<char>, deps: &Vec<(String, FileDependencies)>, path: &str, content: &str)
    ensures
        final(out)@ == old(out)@ + content_block(deps_view(deps@), path@, content@),
{
    let ghost start = out@;
    push_str(out, "### ");
    push_str(out, path);
    push_str(out, "\n\n");
    push_content_deps(out, deps, path);
    push_str(out, "```");
    match extension(path) {
        Some(e) => push_str(out, e.as_str()),
        None => {},
    }
    push_str(out, "\n");
    let cv = str_chars(content);
    push_chars(out, cv.as_slice());
    let n = cv.len();
    if !(n > 0 && cv[n - 1] == '\n') {
        out.push('\n');
    }
    push_str(out, "```\n\n");
    proof {
        assert(out@ =~= start + content_block(deps_view(deps@), path@, content@));
    }
}

/// The paths of a list of files.
fn file_paths(file_contents: &Vec<(String, String)>) -> (r: Vec<Vec<char>>)
    ensures
        comps_view(r@) == files_view(file_contents@).map_values(|f: (Seq<char>, Seq<char>)| f.0),
{
    let ghost pv = files_view(file_contents@).map_values(|f: (Seq<char>, Seq<char>)| f.0);
    let mut paths: Vec<Vec<char>> = Vec::new();
    let mut i: usize = 0;
    while i < file_contents.len()
        invariant
            pv == files_view(file_contents@).map_values(|f: (Seq<char>, Seq<char>)| f.0),
            i <= file_contents@.len(),
            comps_view(paths@) == pv.take(i as int),
        decreases file_contents@.len() - i,
    {
        let ghost before = paths@;
        let p = str_chars(file_contents[i].0.as_str());
        paths.push(p);
        i = i + 1;
        proof {
            assert(pv[i - 1] == p@);
            assert(comps_view(paths@) =~= comps_view(before).push(p@));
            assert(comps_view(paths@) =~= pv.take(i as int));
        }
    }
    proof {
        assert(pv.take(file_contents@.len() as int) =~= pv);
    }
    paths
}

/// Appends the contents section's files.
fn push_content_blocks(out: &mut Vec<char>, deps: &Vec<(String, FileDependencies)>, file_contents: &Vec<(String, String)>)
    ensures
        final(out)@ == old(out)@ + content_blocks(deps_view(deps@), files_view(file_contents@), file_contents@.len() as int),
{
    let ghost fv = files_view(file_contents@);
    let ghost mid = out@;
    let mut k: usize = 0;
    while k < file_contents.len()
        invariant
            fv == files_view(file_contents@),
            k <= file_contents@.len(),
            out@ == mid + content_blocks(deps_view(deps@), fv, k as int),
        decreases file_contents@.len() - k,
    {
        push_content_block(out, deps, file_contents[k].0.as_str(), file_contents[k].1.as_str());
        k = k + 1;
        proof {
            assert(out@ =~= mid + content_blocks(deps_view(deps@), fv, k as int));
        }
    }
}

/// The view of a list of files.
pub open spec fn files_view(fc: Seq<(String, String)>) -> Seq<(Seq<char>, Seq<char>)> {
    fc.map_values(|e: (String, String)| (e.0@, e.1@))
}

/// Writes the LLM report (see `llm_report`) for the files `file_contents`
/// (path and content, in order), the project `root_path`, its tree, the
/// dependency records and the number of files selected.
pub fn format_llm_output_internal(
    output: &mut String,
    file_contents: &Vec<(String, String)>,
    root_path: &str,
    root_node: &Node,
    dependencies: &Vec<(String, FileDependencies)>,
    total_files: usize,
    _total_folders: usize,
)
    ensures
        final(output)@ == old(output)@ + llm_report(
            files_view(file_contents@),
            root_path@,
            node_view(*root_node),
            deps_view(dependencies@),
            total_files as nat,
        ),
{
    let ghost fv = files_view(file_contents@);
    let mut out = str_chars(output.as_str());
    let ghost start = out@;
    let paths = file_paths(file_contents);
    push_str(&mut out, "# PROJECT ANALYSIS FOR AI ASSISTANT\n\n");
    let ghost s1 = out@;
    push_general(&mut out, root_path, total_files, &paths);
    let ghost s2 = out@;
    push_structure(&mut out, root_path, root_node);
    let ghost s3 = out@;
    push_components(&mut out, root_node, &paths);
    let ghost s4 = out@;
    push_relationships(&mut out, dependencies);
    let ghost s5 = out@;
    push_str(&mut out, "## 📄 FILE CONTENTS\n\n");
    push_str(&mut out, "*Note: The content below includes only selected files.*\n\n");
    let ghost mid = out@;
    push_content_blocks(&mut out, dependencies, file_contents);
    proof {
        let paths_v = fv.map_values(|f: (Seq<char>, Seq<char>)| f.0);
        assert(comps_view(paths@) == paths_v);
        let g = general_section(root_path@, total_files as nat, paths_v);
        let st = structure_section(root_path@, node_view(*root_node));
        let co = components_section(node_view(*root_node), paths_v);
        let re = relationships_section(deps_view(dependencies@));
        let cb = content_blocks(deps_view(dependencies@), fv, fv.len() as int);
        assert(s2 == s1 + g);
        assert(s3 == s2 + st);
        assert(s4 == s3 + co);
        assert(s5 == s4 + re);
        assert(out@ == mid + cb);
        assert(out@ =~= start + ("# PROJECT ANALYSIS FOR AI ASSISTANT\n\n"@ + g + st + co + re
            + "## 📄 FILE CONTENTS\n\n"@ + "*Note: The content below includes only selected files.*\n\n"@ + cb));
    }
    *output = chars_to_string(out.as_slice());
}

} // verus!
