//! Which paths the `.gitignore` files ignore. The rules of a path come from
//! the `.gitignore` files of its directory and of each directory above it
//! up to the base, nearest first, read from the snapshot; the `ignore`
//! crate parses the rules and matches them.

use vstd::prelude::*;
use crate::paths::{components, parse_components, comps_view, strip_prefix_of, parent_of, display_comps};
use crate::text::{lines, split_lines, chars_to_string, str_chars};
use crate::output::snapshot::{FsEntry, EntryKind, kind_of, lookup, lookup_index, comps_eq, strip_parsed, display_parsed};
use crate::output::directory::content_of;
use crate::output::toplevel::texts;

verus! {

/// Whether `GitignoreBuilder::add_line` accepts the rule `line`: a
/// comment, a blank line, or a pattern that parses as a glob.
pub uninterp spec fn gitignore_line_ok(line: Seq<char>) -> bool;

/// What `Gitignore::matched_path_or_any_parents(rel, is_dir).is_ignore()`
/// answers for a matcher built with the root `.` from the rules `lines`
/// in order (a rule that `add_line` refuses is left out), or false when
/// the matcher cannot be built: whether the last rule that matches `rel`,
/// or else one of its parents, ignores it.
pub uninterp spec fn gitignore_match(lines: Seq<Seq<char>>, rel: Seq<char>, is_dir: bool) -> bool;

/// `GitignoreBuilder::add_line` on a fresh builder: whether it accepts the
/// rule `line` (named by `gitignore_line_ok`).
#[verifier::external_body]
fn gitignore_line_parses(line: &str) -> (r: bool)
    ensures
        r == gitignore_line_ok(line@),
{
    ignore::gitignore::GitignoreBuilder::new(".").add_line(None, line).is_ok()
}

/// Whether `matched_path_or_any_parents` would treat the path as rooted
/// once a leading `./` is removed, which it refuses with a panic.
pub open spec fn rooted_for_matching(rel: Seq<char>) -> bool {
    (rel.len() > 0 && rel[0] == '/') || (rel.len() >= 3 && rel[0] == '.' && rel[1] == '/' && rel[2] == '/')
}

/// `GitignoreBuilder::new(".")`, `add_line` for each rule (a refused rule
/// is skipped), `build`, then `matched_path_or_any_parents(rel, is_dir)`
/// and `is_ignore`; false when `build` fails. The answer is named by
/// `gitignore_match`.
#[verifier::external_body]
fn gitignore_ignores(lines: &Vec<String>, rel: &str, is_dir: bool) -> (r: bool)
    requires
        !rooted_for_matching(rel@),
    ensures
        r == gitignore_match(texts(lines@), rel@, is_dir),
{
    let mut builder = ignore::gitignore::GitignoreBuilder::new(".");
    for line in lines.iter() {
        let _ = builder.add_line(None, line);
    }
    match builder.build() {
        Ok(g) => g.matched_path_or_any_parents(rel, is_dir).is_ignore(),
        Err(_) => false,
    }
}

/// `s` without its leading byte order marks.
pub open spec fn trim_boms(s: Seq<char>) -> Seq<char>
    decreases s.len(),
{
    if s.len() > 0 && s[0] == '\u{feff}' {
        trim_boms(s.drop_first())
    } else {
        s
    }
}

/// The rules of a `.gitignore` text: its lines, the first without leading
/// byte order marks.
pub open spec fn rule_lines(t: Seq<char>) -> Seq<Seq<char>> {
    let l = lines(t);
    if l.len() == 0 {
        l
    } else {
        l.update(0, trim_boms(l[0]))
    }
}

/// The components of the `.gitignore` file of the directory `c`.
pub open spec fn gitignore_file(c: Seq<Seq<char>>) -> Seq<Seq<char>> {
    c.push(".gitignore"@)
}

/// The rules of the directory `c`'s `.gitignore`, when the snapshot holds
/// it as a file whose text was read.
pub open spec fn own_rules(snap: Seq<FsEntry>, c: Seq<Seq<char>>) -> Option<Seq<Seq<char>>> {
    if kind_of(snap, gitignore_file(c)) == EntryKind::File {
        match content_of(snap, gitignore_file(c)) {
            Some(t) => Some(rule_lines(t)),
            None => None,
        }
    } else {
        None
    }
}

/// The `.gitignore` files read for the context directory `c`, nearest
/// first: `c`'s own, then those of its parents while they lie under the
/// base, stopping at the base.
pub open spec fn rule_files(snap: Seq<FsEntry>, base: Seq<Seq<char>>, c: Seq<Seq<char>>) -> Seq<Seq<Seq<char>>>
    decreases c.len(),
{
    let own: Seq<Seq<Seq<char>>> = match own_rules(snap, c) {
        Some(ls) => seq![ls],
        None => seq![],
    };
    if c == base {
        own
    } else {
        match parent_of(c) {
            Some(p) => if strip_prefix_of(p, base) is Some {
                own + rule_files(snap, base, p)
            } else {
                own
            },
            None => own,
        }
    }
}

/// The rules of a path come from every `.gitignore` on the way up from its
/// context directory `c` to the base: for each directory `d` from the base
/// down to `c` (both included) whose `.gitignore` is read, its rules are
/// among the files read for `c`.
pub proof fn lemma_rule_files_reach_base(snap: Seq<FsEntry>, base: Seq<Seq<char>>, c: Seq<Seq<char>>, d: Seq<Seq<char>>)
    requires
        d.len() > 0,
        strip_prefix_of(d, base) is Some,
        strip_prefix_of(c, d) is Some,
        forall|k: int| 1 <= k < c.len() ==> c[k] != seq!['/'],
        own_rules(snap, d) is Some,
    ensures
        rule_files(snap, base, c).contains(own_rules(snap, d).unwrap()),
    decreases c.len(),
{
    let own: Seq<Seq<Seq<char>>> = match own_rules(snap, c) {
        Some(ls) => seq![ls],
        None => seq![],
    };
    if c.len() == d.len() {
        assert(c =~= d) by {
            assert(c.take(d.len() as int) == d);
            assert(c.take(d.len() as int) =~= c);
        }
        assert(own == seq![own_rules(snap, d).unwrap()]);
        assert(rule_files(snap, base, c).len() >= 1);
        assert(rule_files(snap, base, c)[0] == own[0]);
    } else {
        assert(c.take(d.len() as int) == d);
        assert(c != base) by {
            assert(base.len() <= d.len());
        }
        let p = c.drop_last();
        assert(c.last() != seq!['/']) by {
            assert(c[c.len() - 1] == c.last());
        }
        assert(parent_of(c) == Some(p));
        assert(p.take(d.len() as int) =~= c.take(d.len() as int));
        assert(strip_prefix_of(p, d) is Some);
        assert(p.take(base.len() as int) =~= d.take(base.len() as int)) by {
            assert(d.take(base.len() as int) == base);
            assert forall|i: int| 0 <= i < base.len() implies p.take(base.len() as int)[i] == d.take(base.len() as int)[i] by {
                assert(p[i] == c[i]);
                assert(c.take(d.len() as int)[i] == c[i]);
            }
        }
        assert(strip_prefix_of(p, base) is Some);
        assert forall|k: int| 1 <= k < p.len() implies p[k] != seq!['/'] by {
            assert(p[k] == c[k]);
        }
        lemma_rule_files_reach_base(snap, base, p, d);
        let up = rule_files(snap, base, p);
        assert(rule_files(snap, base, c) == own + up);
        let j = choose|j: int| 0 <= j < up.len() && up[j] == own_rules(snap, d).unwrap();
        assert((own + up)[own.len() + j] == up[j]);
    }
}

/// Only the `.gitignore` files on the way up are read: each file read for
/// the context directory `c` is that of `c` itself or of a directory above
/// `c` that lies under the base.
pub proof fn lemma_rule_files_on_the_way_up(snap: Seq<FsEntry>, base: Seq<Seq<char>>, c: Seq<Seq<char>>)
    ensures
        forall|j: int| #![trigger rule_files(snap, base, c)[j]] 0 <= j < rule_files(snap, base, c).len() ==> exists|d: Seq<Seq<char>>|
            #[trigger] own_rules(snap, d) == Some(rule_files(snap, base, c)[j])
            && strip_prefix_of(c, d) is Some
            && (d == c || strip_prefix_of(d, base) is Some),
    decreases c.len(),
{
    let own: Seq<Seq<Seq<char>>> = match own_rules(snap, c) {
        Some(ls) => seq![ls],
        None => seq![],
    };
    let rf = rule_files(snap, base, c);
    assert(c.take(c.len() as int) =~= c);
    assert(strip_prefix_of(c, c) is Some);
    if rf == own {
        assert forall|j: int| #![trigger rf[j]] 0 <= j < rf.len() implies exists|d: Seq<Seq<char>>|
            #[trigger] own_rules(snap, d) == Some(rf[j])
            && strip_prefix_of(c, d) is Some
            && (d == c || strip_prefix_of(d, base) is Some) by {
            assert(own_rules(snap, c) == Some(rf[j]));
        }
    } else {
        let p = c.drop_last();
        assert(c != base);
        assert(parent_of(c) == Some(p));
        assert(strip_prefix_of(p, base) is Some);
        assert(rf == own + rule_files(snap, base, p));
        lemma_rule_files_on_the_way_up(snap, base, p);
        let up = rule_files(snap, base, p);
        assert forall|j: int| #![trigger rf[j]] 0 <= j < rf.len() implies exists|d: Seq<Seq<char>>|
            #[trigger] own_rules(snap, d) == Some(rf[j])
            && strip_prefix_of(c, d) is Some
            && (d == c || strip_prefix_of(d, base) is Some) by {
            if j < own.len() {
                assert(own_rules(snap, c) == Some(rf[j]));
            } else {
                assert(rf[j] == up[j - own.len()]);
                let d = choose|d: Seq<Seq<char>>|
                    #[trigger] own_rules(snap, d) == Some(up[j - own.len()])
                    && strip_prefix_of(p, d) is Some
                    && (d == p || strip_prefix_of(d, base) is Some);
                assert(c.take(d.len() as int) =~= p.take(d.len() as int));
                assert(strip_prefix_of(c, d) is Some);
                assert(own_rules(snap, d) == Some(rf[j]));
            }
        }
    }
}

/// Every rule of a list of files, in order.
pub open spec fn all_rules(files: Seq<Seq<Seq<char>>>) -> Seq<Seq<char>>
    decreases files.len(),
{
    if files.len() == 0 {
        seq![]
    } else {
        all_rules(files.drop_last()) + files.last()
    }
}

/// Whether `add_line` accepts every rule of a file.
pub open spec fn file_clean(f: Seq<Seq<char>>) -> bool {
    forall|j: int| 0 <= j < f.len() ==> #[trigger] gitignore_line_ok(f[j])
}

/// Whether one of the files was added without a refused rule, so that a
/// matcher is made at all.
pub open spec fn some_file_clean(files: Seq<Seq<Seq<char>>>) -> bool {
    exists|k: int| 0 <= k < files.len() && #[trigger] file_clean(files[k])
}

/// Whether the `.gitignore` files ignore the snapshot path `p` of the kind
/// `kind`, below the base: the rules come from the directory of a file, or
/// from a directory itself, and the path is matched relative to the base.
/// A path outside the base, or one the matcher would take as rooted, is
/// not ignored.
pub open spec fn gitignored_at(snap: Seq<FsEntry>, base: Seq<Seq<char>>, p: Seq<char>, kind: EntryKind) -> bool {
    let pc = components(p);
    match strip_prefix_of(pc, base) {
        None => false,
        Some(rest) => {
            let ctx = if kind == EntryKind::File {
                match parent_of(pc) {
                    Some(q) => q,
                    None => base,
                }
            } else {
                pc
            };
            let files = rule_files(snap, base, ctx);
            let rel = display_comps(rest);
            &&& some_file_clean(files)
            &&& !rooted_for_matching(rel)
            &&& gitignore_match(all_rules(files), rel, kind == EntryKind::Dir)
        },
    }
}

/// The paths of the first `n` snapshot entries that the `.gitignore` files
/// ignore, in snapshot order.
pub open spec fn gitignored_in(snap: Seq<FsEntry>, base: Seq<Seq<char>>, n: int) -> Seq<Seq<char>>
    decreases n,
{
    if n <= 0 || n > snap.len() {
        seq![]
    } else {
        let prev = gitignored_in(snap, base, n - 1);
        if gitignored_at(snap, base, snap[n - 1].path@, snap[n - 1].kind) {
            prev.push(snap[n - 1].path@)
        } else {
            prev
        }
    }
}

/// The rules of a `.gitignore` text (see `rule_lines`).
fn rule_lines_exec(t: &str) -> (r: Vec<String>)
    ensures
        texts(r@) == rule_lines(t@),
{
    let tv = str_chars(t);
    let ls = split_lines(tv.as_slice());
    let mut out: Vec<String> = Vec::new();
    let mut i: usize = 0;
    while i < ls.len()
        invariant
            i <= ls@.len(),
            ls@.len() == lines(t@).len(),
            forall|k: int| 0 <= k < ls@.len() ==> #[trigger] ls@[k]@ == lines(t@)[k],
            out@.len() == i,
            forall|k: int| 0 <= k < i ==> #[trigger] out@[k]@ == rule_lines(t@)[k],
        decreases ls@.len() - i,
    {
        let line = &ls[i];
        if i == 0 {
            let mut s: usize = 0;
            proof {
                assert(line@.skip(0) =~= line@);
            }
            while s < line.len() && line[s] == '\u{feff}'
                invariant
                    s <= line@.len(),
                    trim_boms(line@.skip(s as int)) == trim_boms(line@),
                decreases line@.len() - s,
            {
                proof {
                    assert(line@.skip(s as int).drop_first() =~= line@.skip(s + 1));
                }
                s = s + 1;
            }
            proof {
                assert(trim_boms(line@.skip(s as int)) == line@.skip(s as int));
            }
            let mut rest: Vec<char> = Vec::new();
            let mut j: usize = s;
            while j < line.len()
                invariant
                    s <= j <= line@.len(),
                    rest@ == line@.subrange(s as int, j as int),
                decreases line@.len() - j,
            {
                rest.push(line[j]);
                proof {
                    assert(rest@ =~= line@.subrange(s as int, j + 1));
                }
                j = j + 1;
            }
            proof {
                assert(rest@ =~= line@.skip(s as int));
            }
            out.push(chars_to_string(rest.as_slice()));
        } else {
            out.push(chars_to_string(line.as_slice()));
        }
        i = i + 1;
    }
    proof {
        assert(texts(out@) =~= rule_lines(t@));
    }
    out
}

/// The rules of the directory `c`'s `.gitignore` (see `own_rules`).
fn own_rules_exec(snap: &Vec<FsEntry>, c: &Vec<Vec<char>>) -> (r: Option<Vec<String>>)
    ensures
        match own_rules(snap@, comps_view(c@)) {
            Some(ls) => r matches Some(v) && texts(v@) == ls,
            None => r is None,
        },
{
    let mut f = copy_comps(c);
    let g = vec!['.', 'g', 'i', 't', 'i', 'g', 'n', 'o', 'r', 'e'];
    proof {
        reveal_strlit(".gitignore");
        assert(g@ =~= ".gitignore"@);
    }
    let ghost before = f@;
    f.push(g);
    proof {
        assert(comps_view(f@) =~= comps_view(before).push(".gitignore"@));
        assert(comps_view(f@) =~= gitignore_file(comps_view(c@)));
    }
    match lookup_index(snap, &f) {
        Some(i) => {
            if snap[i].kind == EntryKind::File {
                match &snap[i].content {
                    Some(t) => Some(rule_lines_exec(t.as_str())),
                    None => None,
                }
            } else {
                None
            }
        },
        None => None,
    }
}

/// A copy of parsed components.
fn copy_comps(v: &Vec<Vec<char>>) -> (r: Vec<Vec<char>>)
    ensures
        comps_view(r@) == comps_view(v@),
{
    let mut out: Vec<Vec<char>> = Vec::new();
    let mut k: usize = 0;
    while k < v.len()
        invariant
            k <= v@.len(),
            out@.len() == k,
            forall|j: int| 0 <= j < k ==> #[trigger] out@[j]@ == v@[j]@,
        decreases v@.len() - k,
    {
        out.push(v[k].clone());
        k = k + 1;
    }
    proof {
        assert(comps_view(out@) =~= comps_view(v@));
    }
    out
}

/// Appends the `.gitignore` files read for the context directory `c` (see
/// `rule_files`).
fn rule_files_into(snap: &Vec<FsEntry>, basec: &Vec<Vec<char>>, c: &Vec<Vec<char>>, out: &mut Vec<Vec<String>>)
    ensures
        ({
            let rf = rule_files(snap@, comps_view(basec@), comps_view(c@));
            &&& final(out)@.len() == old(out)@.len() + rf.len()
            &&& forall|j: int| 0 <= j < old(out)@.len() ==> #[trigger] final(out)@[j] == old(out)@[j]
            &&& forall|j: int| 0 <= j < rf.len() ==> #[trigger] texts(final(out)@[old(out)@.len() + j]@) == rf[j]
        }),
    decreases c@.len(),
{
    let ghost base = comps_view(basec@);
    let ghost cv = comps_view(c@);
    let ghost start = out@;
    match own_rules_exec(snap, c) {
        Some(v) => out.push(v),
        None => {},
    }
    let ghost own: Seq<Seq<Seq<char>>> = match own_rules(snap@, cv) {
        Some(ls) => seq![ls],
        None => seq![],
    };
    let ghost mid = out@;
    proof {
        assert(mid.len() == start.len() + own.len());
        assert(forall|j: int| 0 <= j < own.len() ==> #[trigger] texts(mid[start.len() + j]@) == own[j]);
    }
    if comps_eq(c, basec) {
        return;
    }
    let n = c.len();
    if n == 0 || (c[n - 1].len() == 1 && c[n - 1][0] == '/') {
        proof {
            if n > 0 {
                assert(cv.last() =~= seq!['/']);
            }
        }
        return;
    }
    let mut p: Vec<Vec<char>> = Vec::new();
    let mut k: usize = 0;
    while k < n - 1
        invariant
            n == c@.len(),
            n > 0,
            k <= n - 1,
            p@.len() == k,
            forall|j: int| 0 <= j < k ==> #[trigger] p@[j]@ == c@[j]@,
        decreases n - 1 - k,
    {
        p.push(c[k].clone());
        k = k + 1;
    }
    proof {
        assert(cv.last() != seq!['/']) by {
            if cv.last() == seq!['/'] {
                assert(c@[n - 1]@ == cv.last());
                assert(c@[n - 1]@.len() == 1);
            }
        }
        assert(comps_view(p@) =~= cv.drop_last());
    }
    match strip_parsed(&p, basec) {
        Some(_) => {
            rule_files_into(snap, basec, &p, out);
            proof {
                let rf = rule_files(snap@, base, cv);
                let up = rule_files(snap@, base, comps_view(p@));
                assert(rf =~= own + up);
                assert forall|j: int| 0 <= j < rf.len() implies #[trigger] texts(out@[start.len() + j]@) == rf[j] by {
                    if j < own.len() {
                        assert(out@[start.len() + j] == mid[start.len() + j]);
                    } else {
                        assert(out@[mid.len() + (j - own.len())] == out@[start.len() + j]);
                    }
                }
            }
        },
        None => {},
    }
}

/// Every rule of the files, in order (see `all_rules`), and whether one
/// file holds no refused rule (see `some_file_clean`).
fn flatten_rules(files: &Vec<Vec<String>>, Ghost(fv): Ghost<Seq<Seq<Seq<char>>>>) -> (r: (Vec<String>, bool))
    requires
        files@.len() == fv.len(),
        forall|k: int| 0 <= k < files@.len() ==> #[trigger] texts(files@[k]@) == fv[k],
    ensures
        texts(r.0@) == all_rules(fv),
        r.1 == some_file_clean(fv),
{
    let mut out: Vec<String> = Vec::new();
    let mut clean = false;
    let mut i: usize = 0;
    while i < files.len()
        invariant
            i <= files@.len(),
            files@.len() == fv.len(),
            forall|k: int| 0 <= k < files@.len() ==> #[trigger] texts(files@[k]@) == fv[k],
            texts(out@) == all_rules(fv.take(i as int)),
            clean == some_file_clean(fv.take(i as int)),
        decreases files@.len() - i,
    {
        let f = &files[i];
        let mut ok = true;
        let mut j: usize = 0;
        let ghost before = out@;
        while j < f.len()
            invariant
                j <= f@.len(),
                texts(f@) == fv[i as int],
                i < fv.len(),
                out@ == before + f@.take(j as int),
                ok == forall|m: int| 0 <= m < j ==> #[trigger] gitignore_line_ok(fv[i as int][m]),
            decreases f@.len() - j,
        {
            proof {
                assert(f@[j as int]@ == texts(f@)[j as int]);
            }
            if !gitignore_line_parses(f[j].as_str()) {
                ok = false;
            }
            out.push(f[j].clone());
            proof {
                assert(out@ =~= before + f@.take(j + 1));
            }
            j = j + 1;
        }
        proof {
            let t = fv.take(i + 1);
            assert(t.drop_last() =~= fv.take(i as int));
            assert(t.last() == fv[i as int]);
            assert(f@.take(f@.len() as int) =~= f@);
            assert(texts(out@) =~= texts(before) + texts(f@));
            assert(some_file_clean(t) == (some_file_clean(fv.take(i as int)) || ok)) by {
                if some_file_clean(t) {
                    let k = choose|k: int| 0 <= k < t.len() && #[trigger] file_clean(t[k]);
                    if k < i {
                        assert(fv.take(i as int)[k] == t[k]);
                    } else {
                        assert(t[k] == fv[i as int]);
                    }
                }
                if some_file_clean(fv.take(i as int)) {
                    let k = choose|k: int| 0 <= k < fv.take(i as int).len() && #[trigger] file_clean(fv.take(i as int)[k]);
                    assert(t[k] == fv.take(i as int)[k]);
                }
                if ok {
                    assert(t[i as int] == fv[i as int]);
                    assert(file_clean(t[i as int]));
                }
            }
        }
        if ok {
            clean = true;
        }
        i = i + 1;
    }
    proof {
        assert(fv.take(fv.len() as int) =~= fv);
    }
    (out, clean)
}

/// The paths of the snapshot that the `.gitignore` files ignore, in
/// snapshot order (see `gitignored_at`), with `base` the directory the
/// snapshot was read from.
pub fn gitignored_paths(snapshot: &Vec<FsEntry>, base: &str) -> (r: Vec<String>)
    ensures
        texts(r@) == gitignored_in(snapshot@, components(base@), snapshot@.len() as int),
{
    let basec = parse_components(base);
    proof {
        assert(comps_view(basec@) =~= components(base@));
    }
    let ghost bv = components(base@);
    let mut out: Vec<String> = Vec::new();
    let mut i: usize = 0;
    while i < snapshot.len()
        invariant
            i <= snapshot@.len(),
            comps_view(basec@) == bv,
            bv == components(base@),
            texts(out@) == gitignored_in(snapshot@, bv, i as int),
        decreases snapshot@.len() - i,
    {
        let e = &snapshot[i];
        let pc = parse_components(e.path.as_str());
        proof {
            assert(comps_view(pc@) =~= components(e.path@));
        }
        let hit = match strip_parsed(&pc, &basec) {
            None => false,
            Some(rest) => {
                let n = pc.len();
                let ctx: Vec<Vec<char>> = if e.kind == EntryKind::File {
                    if n > 0 && !(pc[n - 1].len() == 1 && pc[n - 1][0] == '/') {
                        let mut q: Vec<Vec<char>> = Vec::new();
                        let mut k: usize = 0;
                        while k < n - 1
                            invariant
                                n == pc@.len(),
                                n > 0,
                                k <= n - 1,
                                q@.len() == k,
                                forall|j: int| 0 <= j < k ==> #[trigger] q@[j]@ == pc@[j]@,
                            decreases n - 1 - k,
                        {
                            q.push(pc[k].clone());
                            k = k + 1;
                        }
                        proof {
                            let pv = comps_view(pc@);
                            assert(pv.last() != seq!['/']) by {
                                if pv.last() == seq!['/'] {
                                    assert(pc@[n - 1]@ == pv.last());
                                }
                            }
                            assert(comps_view(q@) =~= pv.drop_last());
                        }
                        q
                    } else {
                        proof {
                            if n > 0 {
                                assert(comps_view(pc@).last() =~= seq!['/']);
                            }
                        }
                        copy_comps(&basec)
                    }
                } else {
                    copy_comps(&pc)
                };
                proof {
                    let pv = comps_view(pc@);
                    let expect = if e.kind == EntryKind::File {
                        match parent_of(pv) {
                            Some(q) => q,
                            None => bv,
                        }
                    } else {
                        pv
                    };
                    assert(comps_view(ctx@) =~= expect);
                }
                let mut files: Vec<Vec<String>> = Vec::new();
                rule_files_into(snapshot, &basec, &ctx, &mut files);
                proof {
                    let rf = rule_files(snapshot@, bv, comps_view(ctx@));
                    assert forall|k: int| 0 <= k < files@.len() implies #[trigger] texts(files@[k]@) == rf[k] by {
                        assert(files@[0 + k] == files@[k]);
                    }
                }
                let (rules, clean) = flatten_rules(&files, Ghost(rule_files(snapshot@, bv, comps_view(ctx@))));
                let relc = display_parsed(rest.as_slice());
                let rooted = (relc.len() > 0 && relc[0] == '/') || (relc.len() >= 3 && relc[0] == '.' && relc[1] == '/' && relc[2] == '/');
                if !clean || rooted {
                    false
                } else {
                    let rel = chars_to_string(relc.as_slice());
                    gitignore_ignores(&rules, rel.as_str(), e.kind == EntryKind::Dir)
                }
            },
        };
        proof {
            assert(hit == gitignored_at(snapshot@, bv, snapshot@[i as int].path@, snapshot@[i as int].kind));
        }
        if hit {
            let ghost before = out@;
            out.push(e.path.clone());
            proof {
                assert(texts(out@) =~= texts(before).push(snapshot@[i as int].path@));
            }
        }
        i = i + 1;
    }
    out
}

} // verus!
