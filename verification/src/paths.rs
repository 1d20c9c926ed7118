//! A model of `std::path::Path` on Unix, over strings.
//!
//! A path is read as its component sequence, exactly as `Path::iter` yields
//! it: `"/"` for the root, `"."` for a leading current-directory component,
//! `".."` for a parent component and the name itself otherwise. Two paths
//! are equal when their components are, and they are ordered by comparing
//! components in turn (root before `.` before `..` before names, names by
//! character order), as `Path`'s `Eq` and `Ord` do.

use vstd::prelude::*;
use crate::text::{str_chars, chars_to_string, chars_eq, push_chars};

verus! {

/// Pieces of `s` between `/` separators, scanned left to right:
/// the completed pieces and the pending one.
pub open spec fn split_scan(s: Seq<char>) -> (Seq<Seq<char>>, Seq<char>)
    decreases s.len(),
{
    if s.len() == 0 {
        (seq![], seq![])
    } else {
        let (done, cur) = split_scan(s.drop_last());
        if s.last() == '/' {
            (done.push(cur), seq![])
        } else {
            (done, cur.push(s.last()))
        }
    }
}

/// The pieces of `s` between `/` separators (at least one, possibly empty).
pub open spec fn split_slash(s: Seq<char>) -> Seq<Seq<char>> {
    split_scan(s).0.push(split_scan(s).1)
}

/// The component a piece contributes: none for an empty piece or a `.`
/// that is not the first piece; the piece itself otherwise.
pub open spec fn piece_comp(piece: Seq<char>, first: bool) -> Seq<Seq<char>> {
    if piece.len() == 0 {
        seq![]
    } else if piece == seq!['.'] && !first {
        seq![]
    } else {
        seq![piece]
    }
}

/// The components contributed by a sequence of pieces.
pub open spec fn pieces_comps(pieces: Seq<Seq<char>>) -> Seq<Seq<char>>
    decreases pieces.len(),
{
    if pieces.len() == 0 {
        seq![]
    } else {
        pieces_comps(pieces.drop_last()) + piece_comp(pieces.last(), pieces.len() == 1)
    }
}

/// The root component, if `s` is absolute.
pub open spec fn root_comp(s: Seq<char>) -> Seq<Seq<char>> {
    if s.len() > 0 && s[0] == '/' {
        seq![seq!['/']]
    } else {
        seq![]
    }
}

/// The components of the path written `s`.
pub open spec fn components(s: Seq<char>) -> Seq<Seq<char>> {
    root_comp(s) + pieces_comps(split_slash(s))
}

/// Whether a component is a name (not the root, `.` or `..`).
pub open spec fn is_name(c: Seq<char>) -> bool {
    c != seq!['/'] && c != seq!['.'] && c != seq!['.', '.']
}

/// `Path::file_name`: the last component, when it is a name.
pub open spec fn file_name_of(comps: Seq<Seq<char>>) -> Option<Seq<char>> {
    if comps.len() > 0 && is_name(comps.last()) {
        Some(comps.last())
    } else {
        None
    }
}

/// `Path::parent`: the components without the last, unless the path is
/// empty or ends at the root.
pub open spec fn parent_of(comps: Seq<Seq<char>>) -> Option<Seq<Seq<char>>> {
    if comps.len() > 0 && comps.last() != seq!['/'] {
        Some(comps.drop_last())
    } else {
        None
    }
}

/// `Path::strip_prefix`: what follows `base` when `base` is a component prefix.
pub open spec fn strip_prefix_of(comps: Seq<Seq<char>>, base: Seq<Seq<char>>) -> Option<Seq<Seq<char>>> {
    if base.len() <= comps.len() && comps.take(base.len() as int) == base {
        Some(comps.skip(base.len() as int))
    } else {
        None
    }
}

/// `Path::is_absolute` on Unix: the path starts at the root.
pub open spec fn is_absolute_comps(comps: Seq<Seq<char>>) -> bool {
    comps.len() > 0 && comps[0] == seq!['/']
}

/// Components joined with `/`.
pub open spec fn join_slash(comps: Seq<Seq<char>>) -> Seq<char>
    decreases comps.len(),
{
    if comps.len() == 0 {
        seq![]
    } else if comps.len() == 1 {
        comps[0]
    } else {
        join_slash(comps.drop_last()) + seq!['/'] + comps.last()
    }
}

/// The text of a path given by its components.
pub open spec fn display_comps(comps: Seq<Seq<char>>) -> Seq<char> {
    if is_absolute_comps(comps) {
        seq!['/'] + join_slash(comps.skip(1))
    } else {
        join_slash(comps)
    }
}

/// Index of the last `c` in `s`, or -1.
pub open spec fn rfind(s: Seq<char>, c: char) -> int
    decreases s.len(),
{
    if s.len() == 0 {
        -1
    } else if s.last() == c {
        s.len() - 1
    } else {
        rfind(s.drop_last(), c)
    }
}

/// The extension of a file name: what follows its last dot, when that dot
/// is not the first character.
pub open spec fn name_extension(name: Seq<char>) -> Option<Seq<char>> {
    if rfind(name, '.') > 0 {
        Some(name.skip(rfind(name, '.') + 1))
    } else {
        None
    }
}

/// The stem of a file name: what precedes its last dot, when that dot is
/// not the first character; the whole name otherwise.
pub open spec fn name_stem(name: Seq<char>) -> Seq<char> {
    if rfind(name, '.') > 0 {
        name.take(rfind(name, '.'))
    } else {
        name
    }
}

/// `Path::extension` of the path written `s`.
pub open spec fn extension_of(s: Seq<char>) -> Option<Seq<char>> {
    match file_name_of(components(s)) {
        Some(n) => name_extension(n),
        None => None,
    }
}

/// `Path::file_stem` of the path written `s`.
pub open spec fn file_stem_of(s: Seq<char>) -> Option<Seq<char>> {
    match file_name_of(components(s)) {
        Some(n) => Some(name_stem(n)),
        None => None,
    }
}

/// Rank of a component in `Component`'s order: root, `.`, `..`, names.
pub open spec fn comp_rank(c: Seq<char>) -> int {
    if c == seq!['/'] {
        0
    } else if c == seq!['.'] {
        1
    } else if c == seq!['.', '.'] {
        2
    } else {
        3
    }
}

/// Strict lexicographic order on character sequences (by code point).
pub open spec fn seq_lt(a: Seq<char>, b: Seq<char>) -> bool
    decreases a.len(),
{
    if a.len() == 0 {
        b.len() > 0
    } else if b.len() == 0 {
        false
    } else if a[0] != b[0] {
        (a[0] as u32) < (b[0] as u32)
    } else {
        seq_lt(a.drop_first(), b.drop_first())
    }
}

/// Strict order on components.
pub open spec fn comp_lt(a: Seq<char>, b: Seq<char>) -> bool {
    if comp_rank(a) != comp_rank(b) {
        comp_rank(a) < comp_rank(b)
    } else {
        comp_rank(a) == 3 && seq_lt(a, b)
    }
}

/// Strict order on paths: components compared in turn, a proper prefix first.
pub open spec fn comps_lt(a: Seq<Seq<char>>, b: Seq<Seq<char>>) -> bool
    decreases a.len(),
{
    if a.len() == 0 {
        b.len() > 0
    } else if b.len() == 0 {
        false
    } else if a[0] != b[0] {
        comp_lt(a[0], b[0])
    } else {
        comps_lt(a.drop_first(), b.drop_first())
    }
}

/// Whether a component is a plain name: a name, not empty, without `/`.
pub open spec fn plain_name(c: Seq<char>) -> bool {
    is_name(c) && c.len() > 0 && no_slash(c)
}

/// Scanning text without `/` after `p` extends the pending piece.
proof fn lemma_split_scan_append(p: Seq<char>, b: Seq<char>)
    requires
        no_slash(b),
    ensures
        split_scan(p + b) == (split_scan(p).0, split_scan(p).1 + b),
    decreases b.len(),
{
    if b.len() == 0 {
        assert(p + b =~= p);
        assert(split_scan(p).1 + b =~= split_scan(p).1);
    } else {
        lemma_split_scan_append(p, b.drop_last());
        assert((p + b).drop_last() =~= p + b.drop_last());
        assert((p + b).last() == b.last());
        assert(split_scan(p).1 + b.drop_last() + seq![b.last()] =~= split_scan(p).1 + b);
    }
}

/// Splitting plain names joined with `/` gives them back.
proof fn lemma_split_join(e: Seq<Seq<char>>)
    requires
        e.len() > 0,
        forall|k: int| 0 <= k < e.len() ==> plain_name(#[trigger] e[k]),
    ensures
        split_slash(join_slash(e)) == e,
    decreases e.len(),
{
    if e.len() == 1 {
        assert(plain_name(e[0]));
        lemma_split_scan_append(seq![], e[0]);
        assert(Seq::<char>::empty() + e[0] =~= e[0]);
        assert(split_scan(Seq::<char>::empty()) == (Seq::<Seq<char>>::empty(), Seq::<char>::empty()));
        assert(Seq::<char>::empty() + e[0] =~= e[0]);
        assert(split_slash(join_slash(e)) =~= e);
    } else {
        let d = e.drop_last();
        assert forall|k: int| 0 <= k < d.len() implies plain_name(#[trigger] d[k]) by {
            assert(d[k] == e[k]);
        }
        lemma_split_join(d);
        let j = join_slash(d);
        assert(plain_name(e[e.len() - 1]));
        lemma_split_scan_append(j.push('/'), e.last());
        assert(j + seq!['/'] + e.last() =~= j.push('/') + e.last());
        assert(j.push('/').drop_last() =~= j);
        assert(split_scan(j.push('/')) == (split_scan(j).0.push(split_scan(j).1), Seq::<char>::empty()));
        assert(Seq::<char>::empty() + e.last() =~= e.last());
        assert(split_slash(join_slash(e)) =~= d.push(e.last()));
        assert(d.push(e.last()) =~= e);
    }
}

/// Plain names keep each piece as a component.
proof fn lemma_pieces_plain(e: Seq<Seq<char>>)
    requires
        forall|k: int| 0 <= k < e.len() ==> plain_name(#[trigger] e[k]),
    ensures
        pieces_comps(e) == e,
    decreases e.len(),
{
    if e.len() > 0 {
        let d = e.drop_last();
        assert forall|k: int| 0 <= k < d.len() implies plain_name(#[trigger] d[k]) by {
            assert(d[k] == e[k]);
        }
        lemma_pieces_plain(d);
        assert(plain_name(e[e.len() - 1]));
        assert(d + seq![e.last()] =~= e);
    }
}

/// Plain names joined with `/` are read back as those names.
pub proof fn lemma_components_of_joined(e: Seq<Seq<char>>)
    requires
        forall|k: int| 0 <= k < e.len() ==> plain_name(#[trigger] e[k]),
    ensures
        components(join_slash(e)) == e,
{
    if e.len() == 0 {
        assert(split_scan(Seq::<char>::empty()) == (Seq::<Seq<char>>::empty(), Seq::<char>::empty()));
        let q = seq![Seq::<char>::empty()];
        assert(split_slash(Seq::<char>::empty()) =~= q);
        assert(q.drop_last() =~= Seq::<Seq<char>>::empty());
        assert(q.last() == Seq::<char>::empty());
        assert(piece_comp(q.last(), true) =~= Seq::<Seq<char>>::empty());
        assert(pieces_comps(Seq::<Seq<char>>::empty()) =~= Seq::<Seq<char>>::empty());
        assert(pieces_comps(q) == pieces_comps(q.drop_last()) + piece_comp(q.last(), q.len() == 1));
        assert(pieces_comps(q) =~= Seq::<Seq<char>>::empty());
        assert(components(join_slash(e)) =~= e);
    } else {
        lemma_split_join(e);
        lemma_pieces_plain(e);
        assert(plain_name(e[0]));
        lemma_join_first(e);
        assert(root_comp(join_slash(e)) =~= Seq::<Seq<char>>::empty());
        assert(components(join_slash(e)) =~= e);
    }
}

/// A path of plain names joined with `/` starts with its first name.
proof fn lemma_join_first(e: Seq<Seq<char>>)
    requires
        e.len() > 0,
        e[0].len() > 0,
    ensures
        join_slash(e).len() > 0,
        join_slash(e)[0] == e[0][0],
    decreases e.len(),
{
    if e.len() > 1 {
        lemma_join_first(e.drop_last());
    }
}

/// Whether a text holds no `/`.
pub open spec fn no_slash(p: Seq<char>) -> bool {
    forall|i: int| 0 <= i < p.len() ==> p[i] != '/'
}

/// The pieces a scan completes, and the pending one, hold no `/`.
proof fn lemma_split_scan_no_slash(s: Seq<char>)
    ensures
        forall|k: int| 0 <= k < split_scan(s).0.len() ==> no_slash(#[trigger] split_scan(s).0[k]),
        no_slash(split_scan(s).1),
    decreases s.len(),
{
    if s.len() > 0 {
        lemma_split_scan_no_slash(s.drop_last());
        let (done, cur) = split_scan(s.drop_last());
        if s.last() == '/' {
            assert(split_scan(s).0 == done.push(cur));
            assert forall|k: int| 0 <= k < done.len() + 1 implies no_slash(#[trigger] done.push(cur)[k]) by {
                if k < done.len() {
                    assert(done.push(cur)[k] == done[k]);
                }
            }
        } else {
            let c2 = cur.push(s.last());
            assert forall|i: int| 0 <= i < c2.len() implies c2[i] != '/' by {
                if i < cur.len() {
                    assert(c2[i] == cur[i]);
                }
            }
        }
    }
}

/// The pieces of a path hold no `/`.
proof fn lemma_split_slash_no_slash(s: Seq<char>)
    ensures
        forall|k: int| 0 <= k < split_slash(s).len() ==> no_slash(#[trigger] split_slash(s)[k]),
{
    lemma_split_scan_no_slash(s);
    let sc = split_scan(s);
    assert forall|k: int| 0 <= k < split_slash(s).len() implies no_slash(#[trigger] split_slash(s)[k]) by {
        if k < sc.0.len() {
            assert(split_slash(s)[k] == sc.0[k]);
        } else {
            assert(split_slash(s)[k] == sc.1);
        }
    }
}

/// The components contributed by pieces without `/` are not empty and hold
/// no `/`.
proof fn lemma_pieces_comps_shape(pieces: Seq<Seq<char>>)
    requires
        forall|k: int| 0 <= k < pieces.len() ==> no_slash(#[trigger] pieces[k]),
    ensures
        forall|k: int| 0 <= k < pieces_comps(pieces).len() ==> (#[trigger] pieces_comps(pieces)[k]).len() > 0
            && no_slash(pieces_comps(pieces)[k]),
    decreases pieces.len(),
{
    if pieces.len() > 0 {
        let d = pieces.drop_last();
        assert forall|k: int| 0 <= k < d.len() implies no_slash(#[trigger] d[k]) by {
            assert(d[k] == pieces[k]);
        }
        lemma_pieces_comps_shape(d);
        let last = pieces[pieces.len() - 1];
        assert(no_slash(last));
        let pd = pieces_comps(d);
        let pl = piece_comp(last, pieces.len() == 1);
        assert(pieces_comps(pieces) == pd + pl);
        assert forall|k: int| 0 <= k < (pd + pl).len() implies (#[trigger] (pd + pl)[k]).len() > 0 && no_slash((pd + pl)[k]) by {
            if k < pd.len() {
                assert((pd + pl)[k] == pd[k]);
            } else {
                assert((pd + pl)[k] == last);
            }
        }
    }
}

/// Every name among a path's components is a plain name.
pub proof fn lemma_component_names_plain(s: Seq<char>)
    ensures
        forall|k: int| 0 <= k < components(s).len() && is_name(#[trigger] components(s)[k]) ==> plain_name(components(s)[k]),
{
    lemma_split_slash_no_slash(s);
    lemma_pieces_comps_shape(split_slash(s));
    let r = root_comp(s);
    let pc = pieces_comps(split_slash(s));
    assert forall|k: int| 0 <= k < components(s).len() && is_name(#[trigger] components(s)[k]) implies plain_name(components(s)[k]) by {
        if k < r.len() {
            assert(components(s)[k] == seq!['/']);
        } else {
            assert(components(s)[k] == pc[k - r.len()]);
        }
    }
}

/// Parses the path written `s` into its components.
pub fn parse_components(s: &str) -> (r: Vec<Vec<char>>)
    ensures
        r@.len() == components(s@).len(),
        forall|k: int| 0 <= k < r@.len() ==> #[trigger] r@[k]@ == components(s@)[k],
{
    let v = str_chars(s);
    let mut out: Vec<Vec<char>> = Vec::new();
    if v.len() > 0 && v[0] == '/' {
        out.push(vec!['/']);
    }
    let ghost root = root_comp(s@);
    proof {
        assert(out@.len() == root.len());
    }
    let mut cur: Vec<char> = Vec::new();
    let mut npieces: usize = 0;
    let mut i: usize = 0;
    while i < v.len()
        invariant
            v@ == s@,
            root == root_comp(s@),
            i <= v@.len(),
            npieces <= i,
            npieces == split_scan(v@.take(i as int)).0.len(),
            cur@ == split_scan(v@.take(i as int)).1,
            out@.len() == (root + pieces_comps(split_scan(v@.take(i as int)).0)).len(),
            forall|k: int| 0 <= k < out@.len() ==> #[trigger] out@[k]@ == (root + pieces_comps(split_scan(v@.take(i as int)).0))[k],
        decreases v@.len() - i,
    {
        let c = v[i];
        let ghost pre = v@.take(i as int);
        proof {
            assert(v@.take(i + 1).drop_last() == pre);
        }
        if c == '/' {
            let ghost done = split_scan(pre).0;
            let ghost pc = piece_comp(cur@, npieces == 0);
            let dot = cur.len() == 1 && cur[0] == '.';
            if cur.len() > 0 && !(dot && npieces > 0) {
                out.push(cur);
                proof {
                    assert(cur@ == seq!['.'] <==> dot) by {
                        if cur@.len() == 1 {
                            if cur@[0] == '.' {
                        assert(cur@ =~= seq!['.']);
                    }
                        }
                    };
                    assert(pc == seq![cur@]);
                }
            } else {
                proof {
                    if cur@.len() > 0 {
                        assert(cur@ =~= seq!['.']);
                    }
                    assert(pc == Seq::<Seq<char>>::empty());
                }
            }
            proof {
                let nd = done.push(cur@);
                assert(nd.drop_last() == done);
                assert(pieces_comps(nd) == pieces_comps(done) + pc);
                assert(root + pieces_comps(nd) == (root + pieces_comps(done)) + pc);
            }
            cur = Vec::new();
            npieces = npieces + 1;
        } else {
            cur.push(c);
        }
        i = i + 1;
    }
    proof {
        assert(v@.take(v@.len() as int) == v@);
    }
    let ghost done = split_scan(s@).0;
    let ghost pc = piece_comp(cur@, npieces == 0);
    let dot = cur.len() == 1 && cur[0] == '.';
    if cur.len() > 0 && !(dot && npieces > 0) {
        out.push(cur);
        proof {
            assert(cur@ == seq!['.'] <==> dot) by {
                if cur@.len() == 1 {
                    if cur@[0] == '.' {
                        assert(cur@ =~= seq!['.']);
                    }
                }
            };
            assert(pc == seq![cur@]);
        }
    } else {
        proof {
            if cur@.len() > 0 {
                assert(cur@ =~= seq!['.']);
            }
            assert(pc == Seq::<Seq<char>>::empty());
        }
    }
    proof {
        let sp = split_slash(s@);
        assert(sp == done.push(split_scan(s@).1));
        assert(sp.drop_last() == done);
        assert(pieces_comps(sp) == pieces_comps(done) + pc);
        assert(components(s@) == (root + pieces_comps(done)) + pc);
    }
    out
}


/// Index of the last `c` in `s`, if any.
pub fn rfind_char(s: &[char], c: char) -> (r: Option<usize>)
    ensures
        r.is_some() == (rfind(s@, c) >= 0),
        r.is_some() ==> r.unwrap() == rfind(s@, c),
        rfind(s@, c) < s@.len(),
{
    let mut i: usize = s.len();
    proof {
        assert(s@.take(s@.len() as int) == s@);
        lemma_rfind_bound(s@, c);
    }
    while i > 0
        invariant
            i <= s@.len(),
            rfind(s@, c) == rfind(s@.take(i as int), c),
            rfind(s@.take(i as int), c) < i,
        decreases i,
    {
        proof {
            assert(s@.take(i as int).drop_last() == s@.take(i - 1));
            lemma_rfind_bound(s@.take(i - 1), c);
        }
        if s[i - 1] == c {
            return Some(i - 1);
        }
        i = i - 1;
    }
    proof {
        assert(s@.take(0) =~= Seq::<char>::empty());
    }
    None
}

proof fn lemma_rfind_bound(s: Seq<char>, c: char)
    ensures
        -1 <= rfind(s, c) < s.len(),
    decreases s.len(),
{
    if s.len() > 0 {
        lemma_rfind_bound(s.drop_last(), c);
    }
}

/// The extension of a file name (see `name_extension`).
pub fn name_extension_exec(name: &[char]) -> (r: Option<Vec<char>>)
    ensures
        r.is_some() == name_extension(name@).is_some(),
        r.is_some() ==> r.unwrap()@ == name_extension(name@).unwrap(),
{
    match rfind_char(name, '.') {
        Some(d) => {
            if d > 0 {
                assert(d < name.len());
                let mut out: Vec<char> = Vec::new();
                let mut i: usize = d + 1;
                while i < name.len()
                    invariant
                        d + 1 <= i <= name@.len(),
                        out@ == name@.subrange(d + 1, i as int),
                    decreases name@.len() - i,
                {
                    out.push(name[i]);
                    i = i + 1;
                    proof {
                        assert(out@ =~= name@.subrange(d + 1, i as int));
                    }
                }
                proof {
                    assert(name@.skip(d + 1) =~= name@.subrange(d + 1, name@.len() as int));
                }
                Some(out)
            } else {
                None
            }
        },
        None => None,
    }
}

/// The stem of a file name (see `name_stem`).
pub fn name_stem_exec(name: &[char]) -> (r: Vec<char>)
    ensures
        r@ == name_stem(name@),
{
    let end: usize = match rfind_char(name, '.') {
        Some(d) => if d > 0 { d } else { name.len() },
        None => name.len(),
    };
    let mut out: Vec<char> = Vec::new();
    let mut i: usize = 0;
    while i < end
        invariant
            end <= name@.len(),
            i <= end,
            out@ == name@.take(i as int),
        decreases end - i,
    {
        out.push(name[i]);
        i = i + 1;
        proof {
            assert(out@ =~= name@.take(i as int));
        }
    }
    proof {
        if !(rfind(name@, '.') > 0) {
            assert(name@.take(name@.len() as int) =~= name@);
        }
    }
    out
}

/// Whether a component is a name (not the root, `.` or `..`).
pub fn is_name_exec(c: &[char]) -> (r: bool)
    ensures
        r == is_name(c@),
{
    let root = ['/'];
    let cur = ['.'];
    let par = ['.', '.'];
    proof {
        assert(root@ =~= seq!['/']);
        assert(cur@ =~= seq!['.']);
        assert(par@ =~= seq!['.', '.']);
    }
    !chars_eq(c, root.as_slice()) && !chars_eq(c, cur.as_slice()) && !chars_eq(c, par.as_slice())
}

/// `Path::file_name` of a parsed path.
pub fn file_name_comps(comps: &Vec<Vec<char>>) -> (r: Option<Vec<char>>)
    ensures
        r.is_some() == file_name_of(comps@.map_values(|c: Vec<char>| c@)).is_some(),
        r.is_some() ==> r.unwrap()@ == file_name_of(comps@.map_values(|c: Vec<char>| c@)).unwrap(),
{
    let ghost m = comps@.map_values(|c: Vec<char>| c@);
    let n = comps.len();
    if n > 0 && is_name_exec(comps[n - 1].as_slice()) {
        proof {
            assert(m.last() == comps@[n - 1]@);
        }
        Some(comps[n - 1].clone())
    } else {
        proof {
            if n > 0 {
                assert(m.last() == comps@[n - 1]@);
            }
        }
        None
    }
}

/// `seq_lt` on character slices.
pub fn chars_less(a: &[char], b: &[char]) -> (r: bool)
    ensures
        r == seq_lt(a@, b@),
{
    let mut i: usize = 0;
    proof {
        assert(a@.skip(0) =~= a@);
        assert(b@.skip(0) =~= b@);
    }
    while i < a.len() && i < b.len()
        invariant
            i <= a@.len(),
            i <= b@.len(),
            a@.take(i as int) == b@.take(i as int),
            seq_lt(a@, b@) == seq_lt(a@.skip(i as int), b@.skip(i as int)),
        decreases a@.len() - i,
    {
        let ghost sa = a@.skip(i as int);
        let ghost sb = b@.skip(i as int);
        proof {
            assert(sa[0] == a@[i as int]);
            assert(sb[0] == b@[i as int]);
        }
        if a[i] != b[i] {
            return (a[i] as u32) < (b[i] as u32);
        }
        proof {
            assert(sa.drop_first() =~= a@.skip(i + 1));
            assert(sb.drop_first() =~= b@.skip(i + 1));
            assert(a@.take(i + 1) =~= a@.take(i as int).push(a@[i as int]));
            assert(b@.take(i + 1) =~= b@.take(i as int).push(b@[i as int]));
        }
        i = i + 1;
    }
    proof {
        assert(a@.skip(i as int).len() == a@.len() - i);
        assert(b@.skip(i as int).len() == b@.len() - i);
    }
    i < b.len()
}

/// The rank of a component (see `comp_rank`).
fn comp_rank_exec(c: &[char]) -> (r: u8)
    ensures
        r as int == comp_rank(c@),
{
    let root = ['/'];
    let cur = ['.'];
    let par = ['.', '.'];
    proof {
        assert(root@ =~= seq!['/']);
        assert(cur@ =~= seq!['.']);
        assert(par@ =~= seq!['.', '.']);
    }
    if chars_eq(c, root.as_slice()) {
        0
    } else if chars_eq(c, cur.as_slice()) {
        1
    } else if chars_eq(c, par.as_slice()) {
        2
    } else {
        3
    }
}

/// `comp_lt` on character slices.
pub fn comp_less(a: &[char], b: &[char]) -> (r: bool)
    ensures
        r == comp_lt(a@, b@),
{
    let ra = comp_rank_exec(a);
    let rb = comp_rank_exec(b);
    if ra != rb {
        ra < rb
    } else {
        ra == 3 && chars_less(a, b)
    }
}

/// `comps_lt` on parsed paths: the order of `Path`.
pub fn comps_less(a: &Vec<Vec<char>>, b: &Vec<Vec<char>>) -> (r: bool)
    ensures
        r == comps_lt(comps_view(a@), comps_view(b@)),
{
    let ghost av = comps_view(a@);
    let ghost bv = comps_view(b@);
    let mut i: usize = 0;
    proof {
        assert(av.skip(0) =~= av);
        assert(bv.skip(0) =~= bv);
    }
    while i < a.len() && i < b.len()
        invariant
            av == comps_view(a@),
            bv == comps_view(b@),
            i <= a@.len(),
            i <= b@.len(),
            comps_lt(av, bv) == comps_lt(av.skip(i as int), bv.skip(i as int)),
        decreases a@.len() - i,
    {
        let ghost sa = av.skip(i as int);
        let ghost sb = bv.skip(i as int);
        proof {
            assert(sa[0] == a@[i as int]@);
            assert(sb[0] == b@[i as int]@);
        }
        if !chars_eq(a[i].as_slice(), b[i].as_slice()) {
            return comp_less(a[i].as_slice(), b[i].as_slice());
        }
        proof {
            assert(sa.drop_first() =~= av.skip(i + 1));
            assert(sb.drop_first() =~= bv.skip(i + 1));
        }
        i = i + 1;
    }
    proof {
        assert(av.skip(i as int).len() == a@.len() - i);
        assert(bv.skip(i as int).len() == b@.len() - i);
    }
    i < b.len()
}

/// `seq_lt` is irreflexive and asymmetric.
pub proof fn lemma_seq_lt_asym(a: Seq<char>, b: Seq<char>)
    ensures
        !seq_lt(a, a),
        seq_lt(a, b) ==> !seq_lt(b, a),
    decreases a.len(),
{
    if a.len() > 0 && b.len() > 0 {
        lemma_seq_lt_asym(a.drop_first(), b.drop_first());
    }
    if a.len() > 0 {
        lemma_seq_lt_asym(a.drop_first(), a.drop_first());
    }
}

/// `seq_lt` is transitive.
pub proof fn lemma_seq_lt_trans(a: Seq<char>, b: Seq<char>, c: Seq<char>)
    requires
        seq_lt(a, b),
        seq_lt(b, c),
    ensures
        seq_lt(a, c),
    decreases a.len(),
{
    if a.len() > 0 && b.len() > 0 && c.len() > 0 && a[0] == b[0] && b[0] == c[0] {
        lemma_seq_lt_trans(a.drop_first(), b.drop_first(), c.drop_first());
    }
}

/// `seq_lt` orders any two different sequences.
pub proof fn lemma_seq_lt_total(a: Seq<char>, b: Seq<char>)
    requires
        a != b,
    ensures
        seq_lt(a, b) || seq_lt(b, a),
    decreases a.len(),
{
    if a.len() > 0 && b.len() > 0 && a[0] == b[0] {
        assert(a.drop_first() != b.drop_first()) by {
            if a.drop_first() == b.drop_first() {
                assert(a =~= seq![a[0]] + a.drop_first());
                assert(b =~= seq![b[0]] + b.drop_first());
            }
        }
        lemma_seq_lt_total(a.drop_first(), b.drop_first());
    } else if a.len() > 0 && b.len() > 0 {
        vstd::utf8::char_u32_cast(a[0], a[0] as u32);
        vstd::utf8::char_u32_cast(b[0], b[0] as u32);
        assert((a[0] as u32) != (b[0] as u32));
    } else if a.len() == 0 && b.len() == 0 {
        assert(a =~= b);
    }
}

/// `comp_lt` is a strict total order.
pub proof fn lemma_comp_lt_order(a: Seq<char>, b: Seq<char>, c: Seq<char>)
    ensures
        !comp_lt(a, a),
        comp_lt(a, b) ==> !comp_lt(b, a),
        comp_lt(a, b) && comp_lt(b, c) ==> comp_lt(a, c),
        a != b ==> comp_lt(a, b) || comp_lt(b, a),
{
    lemma_seq_lt_asym(a, b);
    if comp_lt(a, b) && comp_lt(b, c) && comp_rank(a) == 3 && comp_rank(b) == 3 && comp_rank(c) == 3 {
        lemma_seq_lt_trans(a, b, c);
    }
    if a != b {
        lemma_seq_lt_total(a, b);
    }
}

/// `comps_lt` is irreflexive and asymmetric.
pub proof fn lemma_comps_lt_asym(a: Seq<Seq<char>>, b: Seq<Seq<char>>)
    ensures
        !comps_lt(a, a),
        comps_lt(a, b) ==> !comps_lt(b, a),
    decreases a.len(),
{
    if a.len() > 0 && b.len() > 0 {
        lemma_comps_lt_asym(a.drop_first(), b.drop_first());
        lemma_comp_lt_order(a[0], b[0], a[0]);
    }
    if a.len() > 0 {
        lemma_comps_lt_asym(a.drop_first(), a.drop_first());
    }
}

/// `comps_lt` is transitive.
pub proof fn lemma_comps_lt_trans(a: Seq<Seq<char>>, b: Seq<Seq<char>>, c: Seq<Seq<char>>)
    requires
        comps_lt(a, b),
        comps_lt(b, c),
    ensures
        comps_lt(a, c),
    decreases a.len(),
{
    if a.len() > 0 && b.len() > 0 && c.len() > 0 {
        lemma_comp_lt_order(a[0], b[0], c[0]);
        if a[0] == b[0] && b[0] == c[0] {
            lemma_comps_lt_trans(a.drop_first(), b.drop_first(), c.drop_first());
        }
    }
}

/// `comps_lt` orders any two different paths.
pub proof fn lemma_comps_lt_total(a: Seq<Seq<char>>, b: Seq<Seq<char>>)
    requires
        a != b,
    ensures
        comps_lt(a, b) || comps_lt(b, a),
    decreases a.len(),
{
    if a.len() > 0 && b.len() > 0 {
        if a[0] == b[0] {
            assert(a.drop_first() != b.drop_first()) by {
                if a.drop_first() == b.drop_first() {
                    assert(a =~= seq![a[0]] + a.drop_first());
                    assert(b =~= seq![b[0]] + b.drop_first());
                }
            }
            lemma_comps_lt_total(a.drop_first(), b.drop_first());
        } else {
            lemma_comp_lt_order(a[0], b[0], a[0]);
        }
    } else if a.len() == 0 && b.len() == 0 {
        assert(a =~= b);
    }
}

/// The components of `s` as a view-level sequence.
pub open spec fn comps_view(v: Seq<Vec<char>>) -> Seq<Seq<char>> {
    v.map_values(|c: Vec<char>| c@)
}

/// Parses `s` and returns its file name, as `Path::file_name` does.
pub fn file_name(s: &str) -> (r: Option<String>)
    ensures
        r.is_some() == file_name_of(components(s@)).is_some(),
        r.is_some() ==> r.unwrap()@ == file_name_of(components(s@)).unwrap(),
{
    let comps = parse_components(s);
    proof {
        assert(comps_view(comps@) =~= components(s@));
    }
    match file_name_comps(&comps) {
        Some(n) => Some(chars_to_string(n.as_slice())),
        None => None,
    }
}

/// `Path::extension` of the path written `s`.
pub fn extension(s: &str) -> (r: Option<String>)
    ensures
        r.is_some() == extension_of(s@).is_some(),
        r.is_some() ==> r.unwrap()@ == extension_of(s@).unwrap(),
{
    let comps = parse_components(s);
    proof {
        assert(comps_view(comps@) =~= components(s@));
    }
    match file_name_comps(&comps) {
        Some(n) => match name_extension_exec(n.as_slice()) {
            Some(e) => Some(chars_to_string(e.as_slice())),
            None => None,
        },
        None => None,
    }
}

} // verus!
