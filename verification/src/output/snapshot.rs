//! What the formats read from the disk, handed in by the caller: for each
//! path it visited, whether it is a file or a directory, the file's text
//! when it could be read as UTF-8, and the directory's entries in the order
//! the directory listing returned them. Paths are compared as `Path` does,
//! by their components.

use vstd::prelude::*;
use crate::text::{push_chars, chars_eq};
use crate::paths::{
    components, comps_view, parse_components, strip_prefix_of, is_absolute_comps, display_comps,
    join_slash, comps_lt, comp_lt, comp_rank, seq_lt, parent_of,
};

verus! {

/// What a path is on the disk.
#[derive(Debug, Clone, Copy, PartialEq, Eq, Structural)]
pub enum EntryKind {
    File,
    Dir,
    Missing,
}

/// One path and what was read there.
#[derive(Debug)]
pub struct FsEntry {
    /// The path, as text.
    pub path: String,
    /// Whether it is a file, a directory, or neither.
    pub kind: EntryKind,
    /// The file's text, when it is a file that could be read as UTF-8.
    pub content: Option<String>,
    /// The directory's entries (each a full path) in listing order, when it
    /// is a directory that could be listed.
    pub listing: Option<Vec<String>>,
}

/// The first entry of `snap` for the path with components `c`.
pub open spec fn lookup(snap: Seq<FsEntry>, c: Seq<Seq<char>>) -> Option<FsEntry>
    decreases snap.len(),
{
    if snap.len() == 0 {
        None
    } else if components(snap[0].path@) == c {
        Some(snap[0])
    } else {
        lookup(snap.drop_first(), c)
    }
}

/// What the snapshot says the path with components `c` is.
pub open spec fn kind_of(snap: Seq<FsEntry>, c: Seq<Seq<char>>) -> EntryKind {
    match lookup(snap, c) {
        Some(e) => e.kind,
        None => EntryKind::Missing,
    }
}

/// The components of each path of a list.
pub open spec fn comps_list(v: Seq<String>) -> Seq<Seq<Seq<char>>> {
    v.map_values(|s: String| components(s@))
}

/// Whether two parsed paths are equal.
pub fn comps_eq(a: &Vec<Vec<char>>, b: &Vec<Vec<char>>) -> (r: bool)
    ensures
        r == (comps_view(a@) == comps_view(b@)),
{
    if a.len() != b.len() {
        proof {
            assert(comps_view(a@).len() != comps_view(b@).len());
        }
        return false;
    }
    let mut i: usize = 0;
    while i < a.len()
        invariant
            a@.len() == b@.len(),
            i <= a@.len(),
            forall|j: int| 0 <= j < i ==> a@[j]@ == b@[j]@,
        decreases a@.len() - i,
    {
        if !chars_eq(a[i].as_slice(), b[i].as_slice()) {
            proof {
                assert(comps_view(a@)[i as int] != comps_view(b@)[i as int]);
            }
            return false;
        }
        i = i + 1;
    }
    proof {
        assert(comps_view(a@) =~= comps_view(b@));
    }
    true
}

/// Whether `c` is one of the parsed paths of `list`.
pub fn comps_in(list: &Vec<Vec<Vec<char>>>, c: &Vec<Vec<char>>) -> (r: bool)
    ensures
        r == list@.map_values(|x: Vec<Vec<char>>| comps_view(x@)).contains(comps_view(c@)),
{
    let ghost m = list@.map_values(|x: Vec<Vec<char>>| comps_view(x@));
    let mut i: usize = 0;
    while i < list.len()
        invariant
            i <= list@.len(),
            m == list@.map_values(|x: Vec<Vec<char>>| comps_view(x@)),
            forall|j: int| 0 <= j < i ==> m[j] != comps_view(c@),
        decreases list@.len() - i,
    {
        if comps_eq(&list[i], c) {
            proof {
                assert(m[i as int] == comps_view(c@));
            }
            return true;
        }
        i = i + 1;
    }
    false
}

/// Parses every path of a list.
pub fn parse_all(v: &Vec<String>) -> (r: Vec<Vec<Vec<char>>>)
    ensures
        r@.len() == v@.len(),
        forall|j: int| 0 <= j < v@.len() ==> comps_view(#[trigger] r@[j]@) == components(v@[j]@),
{
    let mut r: Vec<Vec<Vec<char>>> = Vec::new();
    let mut i: usize = 0;
    while i < v.len()
        invariant
            i <= v@.len(),
            r@.len() == i,
            forall|j: int| 0 <= j < i ==> comps_view(#[trigger] r@[j]@) == components(v@[j]@),
        decreases v@.len() - i,
    {
        let c = parse_components(v[i].as_str());
        r.push(c);
        i = i + 1;
    }
    r
}

/// The first entry of the snapshot for a parsed path, by index.
pub fn lookup_index(snap: &Vec<FsEntry>, c: &Vec<Vec<char>>) -> (r: Option<usize>)
    ensures
        match r {
            Some(i) => i < snap@.len() && lookup(snap@, comps_view(c@)) == Some(snap@[i as int]),
            None => lookup(snap@, comps_view(c@)).is_none(),
        },
{
    let mut i: usize = 0;
    proof {
        assert(snap@.skip(0) =~= snap@);
    }
    while i < snap.len()
        invariant
            i <= snap@.len(),
            lookup(snap@, comps_view(c@)) == lookup(snap@.skip(i as int), comps_view(c@)),
        decreases snap@.len() - i,
    {
        let pc = parse_components(snap[i].path.as_str());
        proof {
            assert(comps_view(pc@) =~= components(snap@[i as int].path@));
            assert(snap@.skip(i as int)[0] == snap@[i as int]);
            assert(snap@.skip(i as int).drop_first() == snap@.skip(i + 1));
        }
        if comps_eq(&pc, c) {
            return Some(i);
        }
        i = i + 1;
    }
    None
}

/// The text of a parsed path: the root, then the components joined by `/`.
pub fn display_parsed(c: &[Vec<char>]) -> (r: Vec<char>)
    ensures
        r@ == display_comps(comps_view(c@)),
{
    let ghost cv = comps_view(c@);
    let mut out: Vec<char> = Vec::new();
    let mut start: usize = 0;
    let root = c.len() > 0 && chars_eq(c[0].as_slice(), ['/'].as_slice());
    proof {
        assert(['/']@ =~= seq!['/']);
    }
    if root {
        out.push('/');
        start = 1;
    }
    let ghost rest = if root { cv.skip(1) } else { cv };
    proof {
        assert(root == is_absolute_comps(cv));
    }
    let mut i: usize = start;
    while i < c.len()
        invariant
            start <= i <= c@.len(),
            cv == comps_view(c@),
            rest == cv.skip(start as int),
            out@ == (if start == 1 { seq!['/'] } else { Seq::<char>::empty() }) + join_slash(rest.take(i - start)),
            start == 0 || start == 1,
        decreases c@.len() - i,
    {
        let ghost before = out@;
        if i > start {
            out.push('/');
        }
        push_chars(&mut out, c[i].as_slice());
        i = i + 1;
        proof {
            let t = rest.take(i - start);
            assert(t.drop_last() == rest.take(i - 1 - start));
            assert(t.last() == c@[i - 1]@);
            if i - start > 1 {
                assert(out@ =~= (if start == 1 { seq!['/'] } else { Seq::<char>::empty() }) + join_slash(t));
            } else {
                assert(join_slash(t) == t[0]);
                assert(out@ =~= (if start == 1 { seq!['/'] } else { Seq::<char>::empty() }) + join_slash(t));
            }
        }
    }
    proof {
        assert(rest.take(c@.len() - start) == rest);
        assert(out@ =~= display_comps(cv));
    }
    out
}

/// The text a format shows for a selected path relative to the current
/// directory (given by its components `cc`): the path as given when the current directory is `.` and the
/// path is relative; what follows the current directory when it is a
/// prefix; the path as given otherwise.
pub open spec fn relative_text(path: Seq<char>, cc: Seq<Seq<char>>) -> Seq<char> {
    let pc = components(path);
    if cc == seq![seq!['.']] && !is_absolute_comps(pc) {
        path
    } else {
        match strip_prefix_of(pc, cc) {
            Some(r) => display_comps(r),
            None => path,
        }
    }
}

/// The relative text of a selected path (see `relative_text`).
pub fn relative_display(path: &str, pc: &Vec<Vec<char>>, cc: &Vec<Vec<char>>) -> (r: Vec<char>)
    requires
        comps_view(pc@) == components(path@),
    ensures
        r@ == relative_text(path@, comps_view(cc@)),
{
    let mut dot_name: Vec<char> = Vec::new();
    dot_name.push('.');
    let mut dot: Vec<Vec<char>> = Vec::new();
    dot.push(dot_name);
    proof {
        assert(dot@[0]@ =~= seq!['.']);
        assert(comps_view(dot@) =~= seq![seq!['.']]);
    }
    let abs = pc.len() > 0 && chars_eq(pc[0].as_slice(), ['/'].as_slice());
    proof {
        assert(['/']@ =~= seq!['/']);
        assert(abs == is_absolute_comps(comps_view(pc@)));
    }
    if comps_eq(cc, &dot) && !abs {
        return crate::text::str_chars(path);
    }
    match strip_parsed(pc, cc) {
        Some(rest) => display_parsed(rest.as_slice()),
        None => crate::text::str_chars(path),
    }
}

/// `strip_prefix` on parsed paths.
pub fn strip_parsed(pc: &Vec<Vec<char>>, cc: &Vec<Vec<char>>) -> (r: Option<Vec<Vec<char>>>)
    ensures
        match r {
            Some(v) => strip_prefix_of(comps_view(pc@), comps_view(cc@)) == Some(comps_view(v@)),
            None => strip_prefix_of(comps_view(pc@), comps_view(cc@)).is_none(),
        },
{
    let ghost p = comps_view(pc@);
    let ghost b = comps_view(cc@);
    if cc.len() > pc.len() {
        return None;
    }
    let mut i: usize = 0;
    while i < cc.len()
        invariant
            cc@.len() <= pc@.len(),
            p == comps_view(pc@),
            b == comps_view(cc@),
            i <= cc@.len(),
            forall|j: int| 0 <= j < i ==> p[j] == b[j],
        decreases cc@.len() - i,
    {
        if !chars_eq(pc[i].as_slice(), cc[i].as_slice()) {
            proof {
                assert(p.take(b.len() as int)[i as int] != b[i as int]);
            }
            return None;
        }
        i = i + 1;
    }
    proof {
        assert(p.take(b.len() as int) =~= b);
    }
    let mut rest: Vec<Vec<char>> = Vec::new();
    let mut k: usize = cc.len();
    while k < pc.len()
        invariant
            cc@.len() <= k <= pc@.len(),
            p == comps_view(pc@),
            b == comps_view(cc@),
            comps_view(rest@) == p.subrange(b.len() as int, k as int),
        decreases pc@.len() - k,
    {
        let mut piece: Vec<char> = Vec::new();
        push_chars(&mut piece, pc[k].as_slice());
        let ghost old_rest = rest@;
        rest.push(piece);
        k = k + 1;
        proof {
            assert(piece@ == p[k - 1]);
            assert(comps_view(rest@) =~= comps_view(old_rest).push(piece@));
            assert(comps_view(rest@) =~= p.subrange(b.len() as int, k as int));
        }
    }
    proof {
        assert(p.skip(b.len() as int) =~= p.subrange(b.len() as int, p.len() as int));
    }
    Some(rest)
}

} // verus!
