//! State of the terminal interface that holds paths: a set of paths (as a
//! path set compares them, by components), the trie of listed items, the
//! search state with its selection, and user messages.

use vstd::prelude::*;
use crate::text::{push_chars, push_str, push_decimal, decimal, chars_to_string, str_chars, to_lowercase, lowercase, char_is_control, is_control, chars_contains, contains_seq};
use crate::paths::{
    components, comps_view, parse_components, is_name, is_name_exec, comps_lt, comps_less,
    join_slash, lemma_comps_lt_asym, lemma_comps_lt_trans, lemma_comps_lt_total,
    strip_prefix_of, plain_name, lemma_component_names_plain, lemma_components_of_joined,
};
use crate::output::snapshot::{comps_eq, comps_list, strip_parsed};
use crate::output::toplevel::texts;
use crate::pattern::{CompiledGlob, compile_glob, glob_matches, glob_valid, glob_is_match};

verus! {

broadcast use vstd::seq_lib::group_seq_properties;

#[verifier::external_type_specification]
#[verifier::external_body]
pub struct ExInstant(std::time::Instant);

/// `Instant::now`: the current time; nothing is claimed of it.
#[verifier::external_body]
pub(crate) fn now() -> (r: std::time::Instant) {
    std::time::Instant::now()
}

/// A set of paths, compared by their components as `Path` compares them.
pub struct PathSet {
    items: Vec<String>,
}

impl PathSet {
    /// The paths held, in the order they were added.
    pub closed spec fn members(&self) -> Seq<String> {
        self.items@
    }

    /// No two paths held have the same components.
    #[verifier::type_invariant]
    closed spec fn no_repeats(&self) -> bool {
        comps_list(self.items@).no_duplicates()
    }

    /// The set of component sequences held.
    pub open spec fn view(&self) -> Set<Seq<Seq<char>>> {
        comps_list(self.members()).to_set()
    }

    /// An empty set.
    pub fn new() -> (r: Self)
        ensures
            r.view() == Set::<Seq<Seq<char>>>::empty(),
            r.members().len() == 0,
    {
        let r = PathSet { items: Vec::new() };
        proof {
            assert(comps_list(r.items@).to_set() =~= Set::<Seq<Seq<char>>>::empty());
        }
        r
    }

    /// The index of the path with components `c`, if one is held.
    fn index_of(&self, c: &Vec<Vec<char>>) -> (r: Option<usize>)
        ensures
            match r {
                Some(i) => i < self.items@.len() && components(self.items@[i as int]@) == comps_view(c@),
                None => !comps_list(self.items@).contains(comps_view(c@)),
            },
    {
        let mut i: usize = 0;
        while i < self.items.len()
            invariant
                i <= self.items@.len(),
                forall|k: int| 0 <= k < i ==> components(#[trigger] self.items@[k]@) != comps_view(c@),
            decreases self.items@.len() - i,
        {
            let ic = parse_components(self.items[i].as_str());
            proof {
                assert(comps_view(ic@) =~= components(self.items@[i as int]@));
            }
            if comps_eq(&ic, c) {
                return Some(i);
            }
            i = i + 1;
        }
        proof {
            if comps_list(self.items@).contains(comps_view(c@)) {
                let k = choose|k: int| 0 <= k < comps_list(self.items@).len() && comps_list(self.items@)[k] == comps_view(c@);
                assert(components(self.items@[k]@) == comps_view(c@));
            }
        }
        None
    }

    /// Whether a path with the components of `path` is held.
    pub fn contains(&self, path: &str) -> (r: bool)
        ensures
            r == self.view().contains(components(path@)),
    {
        let c = parse_components(path);
        proof {
            assert(comps_view(c@) =~= components(path@));
        }
        match self.index_of(&c) {
            Some(i) => {
                proof {
                    assert(comps_list(self.items@)[i as int] == components(path@));
                }
                true
            },
            None => false,
        }
    }

    /// Adds a path; `true` when no path with its components was held.
    pub fn insert(&mut self, path: String) -> (r: bool)
        ensures
            final(self).view() == old(self).view().insert(components(path@)),
            r == !old(self).view().contains(components(path@)),
    {
        proof {
            use_type_invariant(&*self);
        }
        let c = parse_components(path.as_str());
        proof {
            assert(comps_view(c@) =~= components(path@));
        }
        match self.index_of(&c) {
            Some(i) => {
                proof {
                    assert(comps_list(self.items@)[i as int] == components(path@));
                    assert(self.view().insert(components(path@)) =~= self.view());
                }
                return false;
            },
            None => {},
        }
        let ghost before = comps_list(self.items@);
        let ghost pc = components(path@);
        let mut items: Vec<String> = Vec::new();
        std::mem::swap(&mut items, &mut self.items);
        items.push(path);
        proof {
            assert(comps_list(items@) =~= before.push(pc));
            assert(comps_list(items@).no_duplicates()) by {
                assert forall|a: int, b: int| 0 <= a < comps_list(items@).len() && 0 <= b < comps_list(items@).len() && a != b
                    implies comps_list(items@)[a] != comps_list(items@)[b] by {
                    if a < before.len() && b < before.len() {
                    } else if a == before.len() {
                        assert(before[b] != pc);
                    } else {
                        assert(before[a] != pc);
                    }
                }
            }
        }
        self.items = items;
        proof {
            assert(self.view() =~= old(self).view().insert(components(path@)));
        }
        true
    }

    /// Removes the path with the components of `path`; `true` when one was held.
    pub fn remove(&mut self, path: &str) -> (r: bool)
        ensures
            final(self).view() == old(self).view().remove(components(path@)),
            r == old(self).view().contains(components(path@)),
    {
        proof {
            use_type_invariant(&*self);
        }
        let c = parse_components(path);
        proof {
            assert(comps_view(c@) =~= components(path@));
        }
        match self.index_of(&c) {
            None => {
                proof {
                    assert(self.view().remove(components(path@)) =~= self.view());
                }
                false
            },
            Some(i) => {
                let ghost before = comps_list(self.items@);
                let mut items: Vec<String> = Vec::new();
                std::mem::swap(&mut items, &mut self.items);
                items.remove(i);
                proof {
                    assert(comps_list(items@) =~= before.remove(i as int));
                    assert(comps_list(items@).no_duplicates()) by {
                        assert forall|a: int, b: int| 0 <= a < before.len() - 1 && 0 <= b < before.len() - 1 && a != b
                            implies before.remove(i as int)[a] != before.remove(i as int)[b] by {
                            let aa = if a < i { a } else { a + 1 };
                            let bb = if b < i { b } else { b + 1 };
                            assert(before.remove(i as int)[a] == before[aa]);
                            assert(before.remove(i as int)[b] == before[bb]);
                        }
                    }
                }
                self.items = items;
                proof {
                    assert(comps_list(self.items@) =~= before.remove(i as int));
                    assert(before[i as int] == components(path@));
                    assert forall|x: Seq<Seq<char>>| #[trigger] self.view().contains(x) == old(self).view().remove(components(path@)).contains(x) by {
                        if old(self).view().remove(components(path@)).contains(x) {
                            let k = choose|k: int| 0 <= k < before.len() && before[k] == x;
                            assert(k != i);
                            if k < i {
                                assert(before.remove(i as int)[k] == x);
                            } else {
                                assert(before.remove(i as int)[k - 1] == x);
                            }
                        }
                        if self.view().contains(x) {
                            let k = choose|k: int| 0 <= k < before.len() - 1 && before.remove(i as int)[k] == x;
                            if k < i {
                                assert(before[k] == x);
                                assert(k != i);
                            } else {
                                assert(before[k + 1] == x);
                            }
                        }
                    }
                    assert(self.view() =~= old(self).view().remove(components(path@)));
                }
                true
            },
        }
    }

    /// How many paths are held.
    pub fn len(&self) -> (r: usize)
        ensures
            r == self.view().len(),
    {
        proof {
            use_type_invariant(self);
            comps_list(self.items@).unique_seq_to_set();
        }
        self.items.len()
    }

    /// Empties the set.
    pub fn clear(&mut self)
        ensures
            final(self).view() == Set::<Seq<Seq<char>>>::empty(),
            final(self).members().len() == 0,
    {
        self.items = Vec::new();
        proof {
            assert(comps_list(self.items@).to_set() =~= Set::<Seq<Seq<char>>>::empty());
        }
    }

    /// The paths held, without repeats.
    pub fn to_vec(&self) -> (r: Vec<String>)
        ensures
            comps_list(r@).to_set() == self.view(),
            comps_list(r@).no_duplicates(),
            r@ == self.members(),
    {
        proof {
            use_type_invariant(self);
        }
        let mut out: Vec<String> = Vec::new();
        let mut i: usize = 0;
        while i < self.items.len()
            invariant
                i <= self.items@.len(),
                out@ == self.items@.take(i as int),
            decreases self.items@.len() - i,
        {
            out.push(self.items[i].clone());
            i = i + 1;
            proof {
                assert(out@ =~= self.items@.take(i as int));
            }
        }
        proof {
            assert(self.items@.take(self.items@.len() as int) =~= self.items@);
        }
        out
    }
}

/// Whether the paths are in strictly increasing path order.
pub open spec fn strictly_sorted(s: Seq<Seq<Seq<char>>>) -> bool {
    forall|i: int, j: int| 0 <= i < j < s.len() ==> comps_lt(#[trigger] s[i], #[trigger] s[j])
}

/// In a strictly sorted list, the paths after the first are exactly the
/// other paths of the list.
proof fn lemma_sorted_tail_set(a: Seq<Seq<Seq<char>>>)
    requires
        strictly_sorted(a),
        a.len() > 0,
    ensures
        a.drop_first().to_set() == a.to_set().remove(a[0]),
        strictly_sorted(a.drop_first()),
{
    let t = a.drop_first();
    assert forall|x: Seq<Seq<char>>| t.to_set().contains(x) <==> a.to_set().remove(a[0]).contains(x) by {
        if t.contains(x) {
            let k = choose|k: int| 0 <= k < t.len() && t[k] == x;
            assert(a[k + 1] == x);
            assert(comps_lt(a[0], a[k + 1]));
            lemma_comps_lt_asym(x, x);
            assert(a.contains(x));
        }
        if a.contains(x) && x != a[0] {
            let k = choose|k: int| 0 <= k < a.len() && a[k] == x;
            assert(k != 0);
            assert(t[k - 1] == x);
            assert(t.contains(x));
        }
    }
    assert(t.to_set() =~= a.to_set().remove(a[0]));
    assert forall|i: int, j: int| 0 <= i < j < t.len() implies comps_lt(#[trigger] t[i], #[trigger] t[j]) by {
        assert(t[i] == a[i + 1] && t[j] == a[j + 1]);
    }
}

/// A trie's list is fixed by the paths it holds: two strictly sorted lists
/// of the same paths are equal. So inserting a path that is already held
/// leaves the list as it was, and extending by paths gives the list that
/// inserting them one by one gives.
pub proof fn lemma_sorted_unique(a: Seq<Seq<Seq<char>>>, b: Seq<Seq<Seq<char>>>)
    requires
        strictly_sorted(a),
        strictly_sorted(b),
        a.to_set() == b.to_set(),
    ensures
        a == b,
    decreases a.len(),
{
    if a.len() == 0 {
        if b.len() > 0 {
            assert(b.contains(b[0]));
            assert(a.to_set().contains(b[0]));
        }
        assert(a =~= b);
    } else if b.len() == 0 {
        assert(a.contains(a[0]));
        assert(b.to_set().contains(a[0]));
    } else {
        if a[0] != b[0] {
            lemma_comps_lt_total(a[0], b[0]);
            assert(a.contains(a[0]));
            assert(b.contains(b[0]));
            assert(b.to_set().contains(a[0]));
            assert(a.to_set().contains(b[0]));
            let k = choose|k: int| 0 <= k < b.len() && b[k] == a[0];
            let m = choose|m: int| 0 <= m < a.len() && a[m] == b[0];
            lemma_comps_lt_asym(a[0], b[0]);
            if comps_lt(a[0], b[0]) {
                assert(k != 0);
                assert(comps_lt(b[0], b[k]));
            } else {
                assert(m != 0);
                assert(comps_lt(a[0], a[m]));
            }
        }
        lemma_sorted_tail_set(a);
        lemma_sorted_tail_set(b);
        lemma_sorted_unique(a.drop_first(), b.drop_first());
        assert(a =~= seq![a[0]] + a.drop_first());
        assert(b =~= seq![b[0]] + b.drop_first());
    }
}

/// Two tries that hold the same paths hold the same list: inserting a path
/// twice gives the trie that inserting it once gives, and `extend` gives
/// the trie of inserting its paths one by one.
pub proof fn lemma_trie_determined(a: Trie, b: Trie)
    requires
        a.well_formed(),
        b.well_formed(),
        a.view() == b.view(),
    ensures
        a.entries() == b.entries(),
{
    lemma_sorted_unique(a.entries(), b.entries());
}

/// The strictly sorted list of a set of paths (there is at most one, see
/// `lemma_sorted_unique`).
pub open spec fn sorted_list_of(s: Set<Seq<Seq<char>>>) -> Seq<Seq<Seq<char>>> {
    choose|t: Seq<Seq<Seq<char>>>| strictly_sorted(t) && t.to_set() == s
}

/// A strictly sorted list is the sorted list of its paths.
pub proof fn lemma_sorted_list_of(t: Seq<Seq<Seq<char>>>)
    requires
        strictly_sorted(t),
    ensures
        t == sorted_list_of(t.to_set()),
{
    let u = sorted_list_of(t.to_set());
    assert(strictly_sorted(u) && u.to_set() == t.to_set());
    lemma_sorted_unique(t, u);
}

/// Whether every component of a path is a plain name (see `plain_name`).
pub open spec fn all_names(c: Seq<Seq<char>>) -> bool {
    forall|k: int| 0 <= k < c.len() ==> plain_name(#[trigger] c[k])
}

/// The name components of a path whose names are plain are all plain
/// names.
pub proof fn lemma_name_comps_all_names(c: Seq<Seq<char>>)
    requires
        forall|k: int| 0 <= k < c.len() && is_name(#[trigger] c[k]) ==> plain_name(c[k]),
    ensures
        all_names(name_comps(c)),
    decreases c.len(),
{
    if c.len() > 0 {
        let d = c.drop_last();
        assert forall|k: int| 0 <= k < d.len() && is_name(#[trigger] d[k]) implies plain_name(d[k]) by {
            assert(d[k] == c[k]);
        }
        lemma_name_comps_all_names(d);
        assert(is_name(c.last()) ==> plain_name(c[c.len() - 1]));
    }
}

/// The name components of a path (its root, `.` and `..` left out), as a
/// trie stores it.
pub open spec fn name_comps(c: Seq<Seq<char>>) -> Seq<Seq<char>>
    decreases c.len(),
{
    if c.len() == 0 {
        seq![]
    } else if is_name(c.last()) {
        name_comps(c.drop_last()).push(c.last())
    } else {
        name_comps(c.drop_last())
    }
}

/// Inserting a path where it belongs keeps a sorted list sorted.
proof fn lemma_sorted_insert(t: Seq<Seq<Seq<char>>>, j: int, nc: Seq<Seq<char>>)
    requires
        strictly_sorted(t),
        0 <= j <= t.len(),
        forall|m: int| 0 <= m < j ==> comps_lt(#[trigger] t[m], nc),
        j < t.len() ==> comps_lt(nc, t[j]),
    ensures
        strictly_sorted(t.insert(j, nc)),
{
    let u = t.insert(j, nc);
    assert forall|a: int, b: int| 0 <= a < b < u.len() implies comps_lt(#[trigger] u[a], #[trigger] u[b]) by {
        if b < j {
            assert(u[a] == t[a] && u[b] == t[b]);
        } else if b == j {
            assert(u[a] == t[a] && u[b] == nc);
        } else {
            assert(u[b] == t[b - 1]);
            if b - 1 > j {
                lemma_comps_lt_trans(nc, t[j], t[b - 1]);
            }
            if a < j {
                assert(u[a] == t[a]);
                lemma_comps_lt_trans(t[a], nc, t[b - 1]);
            } else if a == j {
                assert(u[a] == nc);
            } else {
                assert(u[a] == t[a - 1]);
            }
        }
    }
}

/// The paths listed in the interface, kept as their name components in path
/// order without repeats.
pub struct Trie {
    items: Vec<Vec<Vec<char>>>,
}

impl Trie {
    /// The paths held, in path order.
    pub closed spec fn entries(&self) -> Seq<Seq<Seq<char>>> {
        self.items@.map_values(|c: Vec<Vec<char>>| comps_view(c@))
    }

    /// The paths are held in strictly increasing order.
    #[verifier::type_invariant]
    closed spec fn ordered(&self) -> bool {
        &&& strictly_sorted(self.entries())
        &&& forall|i: int| 0 <= i < self.entries().len() ==> all_names(#[trigger] self.entries()[i])
    }

    /// What every trie keeps: its paths in strictly increasing order, each
    /// made of names only.
    pub open spec fn well_formed(&self) -> bool {
        &&& strictly_sorted(self.entries())
        &&& forall|i: int| 0 <= i < self.entries().len() ==> all_names(#[trigger] self.entries()[i])
    }

    /// The set of paths held.
    pub open spec fn view(&self) -> Set<Seq<Seq<char>>> {
        self.entries().to_set()
    }

    /// An empty trie.
    pub fn new() -> (r: Self)
        ensures
            r.entries().len() == 0,
            r.well_formed(),
    {
        Trie { items: Vec::new() }
    }

    /// Adds a path, by its name components.
    pub fn insert(&mut self, path: &str)
        ensures
            final(self).view() == old(self).view().insert(name_comps(components(path@))),
            final(self).entries() == sorted_list_of(old(self).view().insert(name_comps(components(path@)))),
            final(self).well_formed(),
    {
        proof {
            use_type_invariant(&*self);
        }
        let c = parse_components(path);
        let mut names: Vec<Vec<char>> = Vec::new();
        let mut k: usize = 0;
        while k < c.len()
            invariant
                k <= c@.len(),
                c@.len() == components(path@).len(),
                forall|m: int| 0 <= m < c@.len() ==> #[trigger] c@[m]@ == components(path@)[m],
                comps_view(names@) == name_comps(components(path@).take(k as int)),
            decreases c@.len() - k,
        {
            proof {
                assert(components(path@).take(k + 1).drop_last() =~= components(path@).take(k as int));
                assert(components(path@).take(k + 1).last() == c@[k as int]@);
            }
            if is_name_exec(c[k].as_slice()) {
                let mut piece: Vec<char> = Vec::new();
                push_chars(&mut piece, c[k].as_slice());
                let ghost before = names@;
                names.push(piece);
                proof {
                    assert(comps_view(names@) =~= comps_view(before).push(piece@));
                }
            }
            k = k + 1;
        }
        proof {
            assert(components(path@).take(c@.len() as int) =~= components(path@));
            assert(all_names(name_comps(components(path@)))) by {
                lemma_component_names_plain(path@);
                lemma_name_comps_all_names(components(path@));
            }
        }
        let ghost nc = comps_view(names@);
        let ghost t = self.entries();
        let mut j: usize = 0;
        let mut stop = false;
        while !stop && j < self.items.len()
            invariant
                t == self.entries(),
                strictly_sorted(t),
                j <= t.len(),
                nc == comps_view(names@),
                forall|m: int| 0 <= m < j ==> comps_lt(#[trigger] t[m], nc),
                stop ==> j < t.len() && !comps_lt(t[j as int], nc),
            decreases t.len() - j, if stop { 0int } else { 1int },
        {
            if comps_less(&self.items[j], &names) {
                j = j + 1;
            } else {
                stop = true;
            }
        }
        if stop && comps_eq(&self.items[j], &names) {
            proof {
                assert(t.contains(nc));
                assert(self.view().insert(nc) =~= self.view());
                lemma_sorted_list_of(t);
            }
            return;
        }
        proof {
            if stop {
                lemma_comps_lt_total(t[j as int], nc);
                assert(comps_lt(nc, t[j as int]));
            }
        }
        let mut items: Vec<Vec<Vec<char>>> = Vec::new();
        std::mem::swap(&mut items, &mut self.items);
        items.insert(j, names);
        proof {
            let u = items@.map_values(|c: Vec<Vec<char>>| comps_view(c@));
            assert(u =~= t.insert(j as int, nc));
            lemma_sorted_insert(t, j as int, nc);
            assert forall|i: int| 0 <= i < u.len() implies all_names(#[trigger] u[i]) by {
                if i < j {
                    assert(u[i] == t[i]);
                } else if i > j {
                    assert(u[i] == t[i - 1]);
                }
            }
        }
        self.items = items;
        proof {
            assert(self.view() =~= old(self).view().insert(nc));
            lemma_sorted_list_of(self.entries());
        }
    }

    /// The paths held, in path order, each written as its names joined by
    /// `/`.
    pub fn to_vec(&self) -> (r: Vec<String>)
        ensures
            r@.len() == self.entries().len(),
            forall|i: int| 0 <= i < r@.len() ==> #[trigger] r@[i]@ == join_slash(self.entries()[i]),
            forall|i: int| 0 <= i < r@.len() ==> components(#[trigger] r@[i]@) == self.entries()[i],
            self.well_formed(),
    {
        proof {
            use_type_invariant(self);
        }
        let mut out: Vec<String> = Vec::new();
        let mut i: usize = 0;
        while i < self.items.len()
            invariant
                i <= self.items@.len(),
                out@.len() == i,
                forall|k: int| 0 <= k < i ==> #[trigger] out@[k]@ == join_slash(self.entries()[k]),
            decreases self.items@.len() - i,
        {
            let mut text: Vec<char> = Vec::new();
            let mut m: usize = 0;
            let ghost e = self.entries()[i as int];
            while m < self.items[i].len()
                invariant
                    i < self.items@.len(),
                    e == comps_view(self.items@[i as int]@),
                    m <= e.len(),
                    text@ == join_slash(e.take(m as int)),
                decreases e.len() - m,
            {
                if m > 0 {
                    text.push('/');
                }
                push_chars(&mut text, self.items[i][m].as_slice());
                m = m + 1;
                proof {
                    let tk = e.take(m as int);
                    assert(tk.drop_last() =~= e.take(m - 1));
                    assert(tk.last() == self.items@[i as int]@[m - 1]@);
                    assert(text@ =~= join_slash(tk));
                }
            }
            proof {
                assert(e.take(e.len() as int) =~= e);
            }
            out.push(chars_to_string(text.as_slice()));
            i = i + 1;
        }
        proof {
            assert forall|i: int| 0 <= i < out@.len() implies components(#[trigger] out@[i]@) == self.entries()[i] by {
                assert(all_names(self.entries()[i]));
                lemma_components_of_joined(self.entries()[i]);
            }
        }
        out
    }

    /// How many paths are held.
    pub fn len(&self) -> (r: usize)
        ensures
            r == self.entries().len(),
            r == self.view().len(),
    {
        proof {
            use_type_invariant(self);
            let s = self.entries();
            assert(s.no_duplicates()) by {
                assert forall|a: int, b: int| 0 <= a < s.len() && 0 <= b < s.len() && a != b implies s[a] != s[b] by {
                    if a < b {
                        lemma_comps_lt_asym(s[a], s[b]);
                    } else {
                        lemma_comps_lt_asym(s[b], s[a]);
                    }
                }
            }
            s.unique_seq_to_set();
        }
        self.items.len()
    }

    /// Removes every path.
    pub fn clear(&mut self)
        ensures
            final(self).entries().len() == 0,
            final(self).well_formed(),
    {
        self.items = Vec::new();
    }

    /// Adds every path of the list, in order.
    pub fn extend(&mut self, paths: Vec<String>)
        ensures
            final(self).view() == old(self).view().union(
                paths@.map_values(|p: String| name_comps(components(p@))).to_set(),
            ),
            final(self).entries() == sorted_list_of(final(self).view()),
            final(self).well_formed(),
    {
        proof {
            use_type_invariant(&*self);
        }
        let ghost added = paths@.map_values(|p: String| name_comps(components(p@)));
        let mut i: usize = 0;
        while i < paths.len()
            invariant
                i <= paths@.len(),
                added == paths@.map_values(|p: String| name_comps(components(p@))),
                self.view() == old(self).view().union(added.take(i as int).to_set()),
                self.well_formed(),
            decreases paths@.len() - i,
        {
            self.insert(paths[i].as_str());
            i = i + 1;
            proof {
                assert(added.take(i as int) =~= added.take(i - 1).push(added[i - 1]));
                assert(self.view() =~= old(self).view().union(added.take(i as int).to_set()));
            }
        }
        proof {
            assert(added.take(paths@.len() as int) =~= added);
            lemma_sorted_list_of(self.entries());
        }
    }
}

/// Whether `c` occurs in `s`.
pub open spec fn has_char(s: Seq<char>, c: char) -> bool {
    exists|i: int| 0 <= i < s.len() && s[i] == c
}

/// Whether a name matches a search query: every name matches an empty
/// query; otherwise the lowercased name is matched against the lowercased
/// query, as a wildcard pattern when the query holds `*` or `?` and the
/// pattern is valid, else as a substring.
pub open spec fn search_matches(query: Seq<char>, name: Seq<char>) -> bool {
    let q = lowercase(query);
    if query.len() == 0 {
        true
    } else if (has_char(q, '*') || has_char(q, '?')) && glob_valid(q) {
        glob_is_match(q, lowercase(name))
    } else {
        contains_seq(lowercase(name), q)
    }
}

/// Search ignores case: two names with the same lowercase match the same
/// queries; and a query without `*` or `?` matches exactly the names whose
/// lowercase holds the query's lowercase.
pub proof fn lemma_search_ignores_case(query: Seq<char>, name: Seq<char>, other: Seq<char>)
    ensures
        lowercase(name) == lowercase(other) ==> search_matches(query, name) == search_matches(query, other),
        query.len() > 0 && !has_char(lowercase(query), '*') && !has_char(lowercase(query), '?')
            ==> search_matches(query, name) == contains_seq(lowercase(name), lowercase(query)),
{
}

/// The matcher of a search query (see `search_matches`).
pub struct SearchMatcher {
    query: String,
    lowered: Vec<char>,
    glob: Option<CompiledGlob>,
}

impl SearchMatcher {
    /// The query this matcher was made from.
    pub closed spec fn query(&self) -> Seq<char> {
        self.query@
    }

    /// Whether the matcher's state is the one made from its query.
    pub closed spec fn made(&self) -> bool {
        &&& self.lowered@ == lowercase(self.query@)
        &&& match self.glob {
            Some(g) => g.pattern() == self.lowered@ && glob_valid(self.lowered@) && (has_char(self.lowered@, '*') || has_char(self.lowered@, '?')),
            None => !((has_char(self.lowered@, '*') || has_char(self.lowered@, '?')) && glob_valid(self.lowered@)),
        }
    }

    /// Whether `name` matches the query.
    pub fn matches(&self, name: &str) -> (r: bool)
        requires
            self.made(),
        ensures
            r == search_matches(self.query(), name@),
    {
        if self.query.as_str().is_empty() {
            return true;
        }
        let low = to_lowercase(name);
        match &self.glob {
            Some(g) => glob_matches(g, low.as_str()),
            None => {
                let lv = str_chars(low.as_str());
                chars_contains(lv.as_slice(), self.lowered.as_slice())
            },
        }
    }
}

/// Whether `c` occurs in the slice.
fn has_char_exec(s: &[char], c: char) -> (r: bool)
    ensures
        r == has_char(s@, c),
{
    let mut i: usize = 0;
    while i < s.len()
        invariant
            i <= s@.len(),
            forall|k: int| 0 <= k < i ==> s@[k] != c,
        decreases s@.len() - i,
    {
        if s[i] == c {
            return true;
        }
        i = i + 1;
    }
    false
}

/// The search state: the query, whether search mode is on, and the paths
/// selected among the results.
pub struct SearchState {
    pub search_query: String,
    pub is_searching: bool,
    pub selected_items: PathSet,
}

/// The set with `c` taken out when it holds it, added otherwise.
pub open spec fn toggled(s: Set<Seq<Seq<char>>>, c: Seq<Seq<char>>) -> Set<Seq<Seq<char>>> {
    if s.contains(c) {
        s.remove(c)
    } else {
        s.insert(c)
    }
}

/// Toggling the same path twice gives back the set.
pub proof fn lemma_toggle_twice(s: Set<Seq<Seq<char>>>, c: Seq<Seq<char>>)
    ensures
        toggled(toggled(s, c), c) == s,
{
    if s.contains(c) {
        assert(s.remove(c).insert(c) =~= s);
    } else {
        assert(s.insert(c).remove(c) =~= s);
    }
}

/// Whether every path of the list is in the set.
pub open spec fn all_in(set: Set<Seq<Seq<char>>>, v: Seq<String>) -> bool {
    forall|i: int| 0 <= i < v.len() ==> set.contains(components(#[trigger] v[i]@))
}

impl SearchState {
    /// An empty query, search mode off, nothing selected.
    pub fn new() -> (r: Self)
        ensures
            r.search_query@.len() == 0,
            !r.is_searching,
            r.selected_items.view() == Set::<Seq<Seq<char>>>::empty(),
    {
        SearchState { search_query: String::new(), is_searching: false, selected_items: PathSet::new() }
    }

    /// Turns search mode on or off.
    pub fn toggle_search(&mut self)
        ensures
            final(self).is_searching == !old(self).is_searching,
            final(self).search_query@ == old(self).search_query@,
            final(self).selected_items.view() == old(self).selected_items.view(),
    {
        self.is_searching = !self.is_searching;
    }

    /// Empties the query and turns search mode off.
    pub fn clear_search(&mut self)
        ensures
            !final(self).is_searching,
            final(self).search_query@.len() == 0,
            final(self).selected_items.view() == old(self).selected_items.view(),
    {
        self.is_searching = false;
        self.search_query = String::new();
    }

    /// A typed character while searching: `/` ends search mode, a character
    /// that is not a control character is added to the query; outside search
    /// mode nothing changes.
    pub fn handle_search_input(&mut self, c: char)
        ensures
            final(self).selected_items.view() == old(self).selected_items.view(),
            !old(self).is_searching ==> final(self).is_searching == old(self).is_searching
                && final(self).search_query@ == old(self).search_query@,
            old(self).is_searching && c == '/' ==> !final(self).is_searching
                && final(self).search_query@ == old(self).search_query@,
            old(self).is_searching && c != '/' ==> final(self).is_searching
                && final(self).search_query@ == if is_control(c) {
                    old(self).search_query@
                } else {
                    old(self).search_query@.push(c)
                },
    {
        if !self.is_searching {
            return;
        }
        if c == '/' {
            self.is_searching = false;
        } else if !char_is_control(c) {
            let mut q = str_chars(self.search_query.as_str());
            q.push(c);
            self.search_query = chars_to_string(q.as_slice());
        }
    }

    /// Removes the last character of the query while searching.
    pub fn handle_backspace(&mut self)
        ensures
            final(self).is_searching == old(self).is_searching,
            final(self).selected_items.view() == old(self).selected_items.view(),
            final(self).search_query@ == if old(self).is_searching && old(self).search_query@.len() > 0 {
                old(self).search_query@.drop_last()
            } else {
                old(self).search_query@
            },
    {
        if self.is_searching {
            let mut q = str_chars(self.search_query.as_str());
            if q.len() > 0 {
                q.pop();
                self.search_query = chars_to_string(q.as_slice());
            }
        }
    }

    /// The matcher of the current query (see `search_matches`).
    pub fn create_matcher(&self) -> (r: SearchMatcher)
        ensures
            r.query() == self.search_query@,
            r.made(),
    {
        let lowered_text = to_lowercase(self.search_query.as_str());
        let lowered = str_chars(lowered_text.as_str());
        let wild = has_char_exec(lowered.as_slice(), '*') || has_char_exec(lowered.as_slice(), '?');
        let glob = if wild {
            compile_glob(lowered_text.as_str())
        } else {
            None
        };
        SearchMatcher { query: self.search_query.clone(), lowered, glob }
    }

    /// Selects the path when it is not selected, deselects it otherwise.
    pub fn toggle_selection(&mut self, path: String)
        ensures
            final(self).selected_items.view() == toggled(old(self).selected_items.view(), components(path@)),
            final(self).search_query@ == old(self).search_query@,
            final(self).is_searching == old(self).is_searching,
    {
        if self.selected_items.contains(path.as_str()) {
            self.selected_items.remove(path.as_str());
        } else {
            self.selected_items.insert(path);
        }
    }

    /// Deselects every visible path when all of them are selected, and
    /// selects them all otherwise.
    pub fn toggle_select_all(&mut self, visible_items: &Vec<String>)
        ensures
            final(self).selected_items.view() == if all_in(old(self).selected_items.view(), visible_items@) {
                old(self).selected_items.view().difference(comps_list(visible_items@).to_set())
            } else {
                old(self).selected_items.view().union(comps_list(visible_items@).to_set())
            },
            final(self).search_query@ == old(self).search_query@,
            final(self).is_searching == old(self).is_searching,
    {
        let ghost vis = comps_list(visible_items@);
        let ghost start = self.selected_items.view();
        let mut all = true;
        let mut i: usize = 0;
        while i < visible_items.len()
            invariant
                i <= visible_items@.len(),
                self.selected_items.view() == start,
                all == forall|k: int| 0 <= k < i ==> start.contains(components(#[trigger] visible_items@[k]@)),
                self.search_query@ == old(self).search_query@,
                self.is_searching == old(self).is_searching,
            decreases visible_items@.len() - i,
        {
            if !self.selected_items.contains(visible_items[i].as_str()) {
                all = false;
            }
            i = i + 1;
        }
        let mut k: usize = 0;
        while k < visible_items.len()
            invariant
                k <= visible_items@.len(),
                vis == comps_list(visible_items@),
                all == all_in(start, visible_items@),
                self.selected_items.view() == if all {
                    start.difference(vis.take(k as int).to_set())
                } else {
                    start.union(vis.take(k as int).to_set())
                },
                self.search_query@ == old(self).search_query@,
                self.is_searching == old(self).is_searching,
            decreases visible_items@.len() - k,
        {
            if all {
                self.selected_items.remove(visible_items[k].as_str());
            } else {
                self.selected_items.insert(visible_items[k].clone());
            }
            k = k + 1;
            proof {
                assert(vis.take(k as int) =~= vis.take(k - 1).push(vis[k - 1]));
                if all {
                    assert(self.selected_items.view() =~= start.difference(vis.take(k as int).to_set()));
                } else {
                    assert(self.selected_items.view() =~= start.union(vis.take(k as int).to_set()));
                }
            }
        }
        proof {
            assert(vis.take(visible_items@.len() as int) =~= vis);
        }
    }

    /// Whether the path is selected.
    pub fn is_selected(&self, path: &str) -> (r: bool)
        ensures
            r == self.selected_items.view().contains(components(path@)),
    {
        self.selected_items.contains(path)
    }

    /// How many paths are selected.
    pub fn selected_count(&self) -> (r: usize)
        ensures
            r == self.selected_items.view().len(),
    {
        self.selected_items.len()
    }

    /// Deselects everything.
    pub fn clear_selections(&mut self)
        ensures
            final(self).selected_items.view() == Set::<Seq<Seq<char>>>::empty(),
            final(self).search_query@ == old(self).search_query@,
            final(self).is_searching == old(self).is_searching,
    {
        self.selected_items.clear();
    }

    /// The selected paths, without repeats.
    pub fn get_selected_items(&self) -> (r: Vec<String>)
        ensures
            comps_list(r@).to_set() == self.selected_items.view(),
            comps_list(r@).no_duplicates(),
    {
        self.selected_items.to_vec()
    }
}

/// The kind of a message shown to the user.
#[derive(Debug, Clone, Copy, PartialEq, Eq, Structural)]
pub enum MessageType {
    Info,
    Success,
    Warning,
    Error,
}

/// A message shown to the user, with the time it was made.
pub struct AppMessage {
    pub content: String,
    pub message_type: MessageType,
    pub timestamp: std::time::Instant,
}

impl AppMessage {
    /// A message made now.
    pub fn new(content: String, message_type: MessageType) -> (r: Self)
        ensures
            r.content@ == content@,
            r.message_type == message_type,
    {
        AppMessage { content, message_type, timestamp: now() }
    }
}

/// The highlighted line of the list.
pub struct SelectionState {
    /// The index of the highlighted item, if any.
    pub selected: Option<usize>,
    /// Paths selected locally.
    pub local_selected: PathSet,
}

/// The highlight after moving by `delta` in a list of `count` items: none
/// in an empty list, otherwise the current index (the first when none)
/// moved and kept within the list.
pub open spec fn moved(current: Option<usize>, delta: i32, count: usize) -> Option<usize> {
    if count == 0 {
        None
    } else {
        let c: int = match current {
            Some(c) => c as int,
            None => 0,
        };
        let t = c + delta;
        Some((if t < 0 { 0 } else if t > count - 1 { count - 1 } else { t }) as usize)
    }
}

/// Whether a listed path is the parent entry: its last component is `..`,
/// as on the `..` line the list shows outside the starting directory.
pub open spec fn parent_entry(p: Seq<char>) -> bool {
    components(p).len() > 0 && components(p).last() == seq!['.', '.']
}

/// The listed paths below `c` (other than `c`), in order.
pub open spec fn children_of(items: Seq<String>, c: Seq<Seq<char>>) -> Seq<Seq<char>>
    decreases items.len(),
{
    if items.len() == 0 {
        seq![]
    } else {
        let p = items.last()@;
        if strip_prefix_of(components(p), c) is Some && components(p) != c {
            children_of(items.drop_last(), c).push(p)
        } else {
            children_of(items.drop_last(), c)
        }
    }
}

/// What toggling the highlighted item decides, as values.
pub enum ToggleOutcome {
    Nothing,
    Deselect,
    Warn(Seq<char>),
    SelectFolder(Seq<Seq<char>>),
    SelectFile,
}

/// What toggling the highlighted item decides: nothing without a valid
/// highlighted item, for the parent entry or an ignored path; deselecting a
/// selected item; otherwise selecting it when the selection limit allows
/// (a folder together with its visible children when it is expanded), or a
/// warning when it does not.
pub open spec fn toggle_outcome(
    index: Option<usize>,
    items: Seq<String>,
    selected: Set<Seq<Seq<char>>>,
    selected_len: nat,
    is_ignored: bool,
    is_dir: bool,
    expanded: bool,
    limit: nat,
) -> ToggleOutcome {
    match index {
        None => ToggleOutcome::Nothing,
        Some(i) => if i >= items.len() || parent_entry(items[i as int]@) || is_ignored {
            ToggleOutcome::Nothing
        } else {
            let c = components(items[i as int]@);
            if selected.contains(c) {
                ToggleOutcome::Deselect
            } else if is_dir {
                if selected_len >= limit {
                    ToggleOutcome::Warn("Selection limit ("@ + decimal(limit) + ") reached. Cannot select folder."@)
                } else {
                    let children = if expanded { children_of(items, c) } else { seq![] };
                    if selected_len + 1 + children.len() > limit {
                        ToggleOutcome::Warn(
                            "Cannot select folder: "@ + decimal(children.len()) + " visible children would exceed selection limit ("@
                                + decimal(limit) + ")"@,
                        )
                    } else {
                        ToggleOutcome::SelectFolder(children)
                    }
                }
            } else if selected_len >= limit {
                ToggleOutcome::Warn("Cannot select file: selection limit ("@ + decimal(limit) + ") reached."@)
            } else {
                ToggleOutcome::SelectFile
            }
        },
    }
}

/// What toggling the highlighted item decides (see `toggle_outcome`).
pub enum ToggleDecision {
    Nothing,
    /// Deselect the item (a folder with everything below it).
    Deselect,
    /// Show this warning.
    Warn(String),
    /// Select the folder and these visible children, then count what is below it.
    SelectFolder(Vec<String>),
    /// Select the file.
    SelectFile,
}

impl ToggleDecision {
    /// The decision as values.
    pub open spec fn outcome(&self) -> ToggleOutcome {
        match self {
            ToggleDecision::Nothing => ToggleOutcome::Nothing,
            ToggleDecision::Deselect => ToggleOutcome::Deselect,
            ToggleDecision::Warn(m) => ToggleOutcome::Warn(m@),
            ToggleDecision::SelectFolder(v) => ToggleOutcome::SelectFolder(texts(v@)),
            ToggleDecision::SelectFile => ToggleOutcome::SelectFile,
        }
    }
}

/// What selecting every visible item decides, as values.
pub enum SelectAllOutcome {
    ClearAll,
    Warn(Seq<char>),
    SelectVisible(Seq<Seq<char>>, Seq<Seq<char>>),
}

/// The visible items other than the parent entry, in order.
pub open spec fn visible_items(items: Seq<String>) -> Seq<Seq<char>>
    decreases items.len(),
{
    if items.len() == 0 {
        seq![]
    } else if parent_entry(items.last()@) {
        visible_items(items.drop_last())
    } else {
        visible_items(items.drop_last()).push(items.last()@)
    }
}

/// The visible folders that are not expanded, in order.
pub open spec fn folders_to_scan(items: Seq<String>, dirs: Seq<bool>, expanded: Set<Seq<Seq<char>>>) -> Seq<Seq<char>>
    decreases items.len(),
{
    if items.len() == 0 || dirs.len() != items.len() {
        seq![]
    } else {
        let p = items.last()@;
        let prev = folders_to_scan(items.drop_last(), dirs.drop_last(), expanded);
        if !parent_entry(p) && dirs.last() && !expanded.contains(components(p)) {
            prev.push(p)
        } else {
            prev
        }
    }
}

/// What selecting all decides: clearing the selection when every visible
/// item is selected; a warning when there are more visible items than the
/// limit; otherwise selecting the visible items, and scanning the folders
/// that are not expanded.
pub open spec fn select_all_outcome(
    items: Seq<String>,
    dirs: Seq<bool>,
    selected: Set<Seq<Seq<char>>>,
    expanded: Set<Seq<Seq<char>>>,
    limit: nat,
) -> SelectAllOutcome {
    let vis = visible_items(items);
    if forall|i: int| 0 <= i < vis.len() ==> selected.contains(components(#[trigger] vis[i])) {
        SelectAllOutcome::ClearAll
    } else if vis.len() > limit {
        SelectAllOutcome::Warn(
            "Cannot select all: "@ + decimal(vis.len()) + " visible items exceed selection limit ("@ + decimal(limit)
                + ")"@,
        )
    } else {
        SelectAllOutcome::SelectVisible(vis, folders_to_scan(items, dirs, expanded))
    }
}

/// What selecting every visible item decides (see `select_all_outcome`).
pub enum SelectAllDecision {
    /// Deselect everything.
    ClearAll,
    /// Show this warning.
    Warn(String),
    /// Select these items and scan these folders.
    SelectVisible(Vec<String>, Vec<String>),
}

impl SelectAllDecision {
    /// The decision as values.
    pub open spec fn outcome(&self) -> SelectAllOutcome {
        match self {
            SelectAllDecision::ClearAll => SelectAllOutcome::ClearAll,
            SelectAllDecision::Warn(m) => SelectAllOutcome::Warn(m@),
            SelectAllDecision::SelectVisible(v, f) => SelectAllOutcome::SelectVisible(texts(v@), texts(f@)),
        }
    }
}

/// Moving the highlight keeps it inside the list: none only in an empty
/// list, otherwise an index below the count.
pub proof fn lemma_moved_in_bounds(current: Option<usize>, delta: i32, count: usize)
    ensures
        count == 0 <==> moved(current, delta, count) is None,
        moved(current, delta, count) matches Some(i) ==> i < count,
{
}

/// Toggling never selects past the limit: a folder is selected only when
/// it and its visible children fit, a file only below the limit.
pub proof fn lemma_toggle_within_limit(
    index: Option<usize>,
    items: Seq<String>,
    selected: Set<Seq<Seq<char>>>,
    selected_len: nat,
    is_ignored: bool,
    is_dir: bool,
    expanded: bool,
    limit: nat,
)
    ensures
        toggle_outcome(index, items, selected, selected_len, is_ignored, is_dir, expanded, limit) matches ToggleOutcome::SelectFolder(ch)
            ==> selected_len + 1 + ch.len() <= limit,
        toggle_outcome(index, items, selected, selected_len, is_ignored, is_dir, expanded, limit) is SelectFile
            ==> selected_len < limit,
{
}

/// Selecting all never selects more visible items than the limit.
pub proof fn lemma_select_all_within_limit(
    items: Seq<String>,
    dirs: Seq<bool>,
    selected: Set<Seq<Seq<char>>>,
    expanded: Set<Seq<Seq<char>>>,
    limit: nat,
)
    ensures
        select_all_outcome(items, dirs, selected, expanded, limit) matches SelectAllOutcome::SelectVisible(vis, _)
            ==> vis.len() <= limit,
{
}

/// Whether a listed path is the parent entry (see `parent_entry`).
fn is_parent_entry(p: &str) -> (r: bool)
    ensures
        r == parent_entry(p@),
{
    let pc = parse_components(p);
    proof {
        assert(comps_view(pc@) =~= components(p@));
    }
    let n = pc.len();
    if n == 0 {
        return false;
    }
    let dots = ['.', '.'];
    proof {
        assert(dots@ =~= seq!['.', '.']);
        assert(comps_view(pc@).last() == pc@[n - 1]@);
    }
    crate::text::chars_eq(pc[n - 1].as_slice(), dots.as_slice())
}

impl SelectionState {
    /// The first item highlighted, nothing selected locally.
    pub fn new() -> (r: Self)
        ensures
            r.selected == Some(0usize),
            r.local_selected.view() == Set::<Seq<Seq<char>>>::empty(),
    {
        SelectionState { selected: Some(0), local_selected: PathSet::new() }
    }

    /// Moves the highlight by `delta` within a list of `item_count` items
    /// (see `moved`).
    pub fn move_selection(&mut self, delta: i32, item_count: usize)
        requires
            item_count <= i32::MAX + 1,
            match old(self).selected {
                Some(c) => c + delta <= i32::MAX && c <= i32::MAX,
                None => true,
            },
        ensures
            final(self).selected == moved(old(self).selected, delta, item_count),
    {
        if item_count == 0 {
            self.selected = None;
            return;
        }
        let current: usize = match self.selected {
            Some(c) => c,
            None => 0,
        };
        let t: i64 = current as i64 + delta as i64;
        let last: i64 = (item_count - 1) as i64;
        let clamped: i64 = if t < 0 { 0 } else if t > last { last } else { t };
        self.selected = Some(clamped as usize);
    }

    /// What toggling the highlighted item decides (see `toggle_outcome`).
    pub fn decide_toggle(
        &self,
        display_items: &Vec<String>,
        selected_items: &PathSet,
        is_ignored: bool,
        is_dir: bool,
        expanded: bool,
        limit: usize,
    ) -> (r: ToggleDecision)
        ensures
            r.outcome() == toggle_outcome(
                self.selected,
                display_items@,
                selected_items.view(),
                selected_items.view().len(),
                is_ignored,
                is_dir,
                expanded,
                limit as nat,
            ),
    {
        let i = match self.selected {
            Some(i) => i,
            None => {
                return ToggleDecision::Nothing;
            },
        };
        if i >= display_items.len() || is_parent_entry(display_items[i].as_str()) || is_ignored {
            return ToggleDecision::Nothing;
        }
        let path = display_items[i].as_str();
        if selected_items.contains(path) {
            return ToggleDecision::Deselect;
        }
        let count = selected_items.len();
        if is_dir {
            if count >= limit {
                let mut m: Vec<char> = Vec::new();
                push_str(&mut m, "Selection limit (");
                push_decimal(&mut m, limit);
                push_str(&mut m, ") reached. Cannot select folder.");
                proof {
                    assert(m@ =~= "Selection limit ("@ + decimal(limit as nat) + ") reached. Cannot select folder."@);
                }
                return ToggleDecision::Warn(chars_to_string(m.as_slice()));
            }
            let children = if expanded {
                children_exec(display_items, path)
            } else {
                Vec::new()
            };
            proof {
                if !expanded {
                    assert(texts(children@) =~= Seq::<Seq<char>>::empty());
                }
            }
            if children.len() > limit - count - 1 {
                let mut m: Vec<char> = Vec::new();
                push_str(&mut m, "Cannot select folder: ");
                push_decimal(&mut m, children.len());
                push_str(&mut m, " visible children would exceed selection limit (");
                push_decimal(&mut m, limit);
                push_str(&mut m, ")");
                proof {
                    assert(m@ =~= "Cannot select folder: "@ + decimal(children@.len()) + " visible children would exceed selection limit ("@
                        + decimal(limit as nat) + ")"@);
                }
                return ToggleDecision::Warn(chars_to_string(m.as_slice()));
            }
            ToggleDecision::SelectFolder(children)
        } else if count >= limit {
            let mut m: Vec<char> = Vec::new();
            push_str(&mut m, "Cannot select file: selection limit (");
            push_decimal(&mut m, limit);
            push_str(&mut m, ") reached.");
            proof {
                assert(m@ =~= "Cannot select file: selection limit ("@ + decimal(limit as nat) + ") reached."@);
            }
            ToggleDecision::Warn(chars_to_string(m.as_slice()))
        } else {
            ToggleDecision::SelectFile
        }
    }

    /// What selecting every visible item decides (see `select_all_outcome`);
    /// `dirs` tells which items are directories.
    pub fn decide_select_all(
        display_items: &Vec<String>,
        dirs: &Vec<bool>,
        selected_items: &PathSet,
        expanded: &PathSet,
        limit: usize,
    ) -> (r: SelectAllDecision)
        requires
            dirs@.len() == display_items@.len(),
        ensures
            r.outcome() == select_all_outcome(display_items@, dirs@, selected_items.view(), expanded.view(), limit as nat),
    {
        let ghost items = display_items@;
        let mut vis: Vec<String> = Vec::new();
        let mut scan: Vec<String> = Vec::new();
        let mut all = true;
        let mut i: usize = 0;
        while i < display_items.len()
            invariant
                items == display_items@,
                dirs@.len() == items.len(),
                i <= items.len(),
                texts(vis@) == visible_items(items.take(i as int)),
                texts(scan@) == folders_to_scan(items.take(i as int), dirs@.take(i as int), expanded.view()),
                all == forall|k: int| 0 <= k < texts(vis@).len() ==> selected_items.view().contains(components(#[trigger] texts(vis@)[k])),
            decreases items.len() - i,
        {
            proof {
                assert(items.take(i + 1).drop_last() =~= items.take(i as int));
                assert(items.take(i + 1).last() == items[i as int]);
                assert(dirs@.take(i + 1).drop_last() =~= dirs@.take(i as int));
                assert(dirs@.take(i + 1).last() == dirs@[i as int]);
            }
            let p = display_items[i].as_str();
            if !is_parent_entry(p) {
                let ghost before = vis@;
                let inside = selected_items.contains(p);
                let ghost all_before = all;
                vis.push(display_items[i].clone());
                proof {
                    assert(texts(vis@) =~= texts(before).push(items[i as int]@));
                }
                if !inside {
                    all = false;
                }
                proof {
                    let tv = texts(vis@);
                    let tb = texts(before);
                    if all {
                        assert forall|k: int| 0 <= k < tv.len() implies selected_items.view().contains(components(#[trigger] tv[k])) by {
                            if k < tb.len() {
                                assert(tv[k] == tb[k]);
                            }
                        }
                    } else if inside {
                        assert(!all_before);
                        let k = choose|k: int| 0 <= k < tb.len() && !selected_items.view().contains(components(#[trigger] tb[k]));
                        assert(tv[k] == tb[k]);
                    } else {
                        assert(tv[tb.len() as int] == items[i as int]@);
                    }
                }
                if dirs[i] && !expanded.contains(p) {
                    let ghost sb = scan@;
                    scan.push(display_items[i].clone());
                    proof {
                        assert(texts(scan@) =~= texts(sb).push(items[i as int]@));
                    }
                }
            }
            i = i + 1;
        }
        proof {
            assert(items.take(items.len() as int) =~= items);
            assert(dirs@.take(items.len() as int) =~= dirs@);
        }
        if all {
            return SelectAllDecision::ClearAll;
        }
        if vis.len() > limit {
            let mut m: Vec<char> = Vec::new();
            push_str(&mut m, "Cannot select all: ");
            push_decimal(&mut m, vis.len());
            push_str(&mut m, " visible items exceed selection limit (");
            push_decimal(&mut m, limit);
            push_str(&mut m, ")");
            proof {
                assert(m@ =~= "Cannot select all: "@ + decimal(vis@.len()) + " visible items exceed selection limit ("@ + decimal(limit as nat)
                    + ")"@);
            }
            return SelectAllDecision::Warn(chars_to_string(m.as_slice()));
        }
        SelectAllDecision::SelectVisible(vis, scan)
    }
}

/// The listed paths below `path` (see `children_of`).
fn children_exec(items: &Vec<String>, path: &str) -> (r: Vec<String>)
    ensures
        texts(r@) == children_of(items@, components(path@)),
{
    let pc = parse_components(path);
    proof {
        assert(comps_view(pc@) =~= components(path@));
    }
    let ghost iv = items@;
    let mut out: Vec<String> = Vec::new();
    let mut i: usize = 0;
    while i < items.len()
        invariant
            iv == items@,
            i <= iv.len(),
            comps_view(pc@) == components(path@),
            texts(out@) == children_of(iv.take(i as int), components(path@)),
        decreases iv.len() - i,
    {
        proof {
            assert(iv.take(i + 1).drop_last() =~= iv.take(i as int));
            assert(iv.take(i + 1).last() == iv[i as int]);
        }
        let ic = parse_components(items[i].as_str());
        proof {
            assert(comps_view(ic@) =~= components(iv[i as int]@));
        }
        let under = match strip_parsed(&ic, &pc) {
            Some(_) => true,
            None => false,
        };
        if under && !comps_eq(&ic, &pc) {
            let ghost before = out@;
            out.push(items[i].clone());
            proof {
                assert(texts(out@) =~= texts(before).push(iv[i as int]@));
            }
        }
        i = i + 1;
    }
    proof {
        assert(iv.take(iv.len() as int) =~= iv);
    }
    out
}

} // verus!
