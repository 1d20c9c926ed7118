//! The file tree of the LLM report: built by adding the selected paths one
//! by one, drawn with box-drawing characters, directories before files and
//! each group by lowercased name.

use vstd::prelude::*;
use crate::text::{push_chars, push_str, chars_eq, to_lowercase, lowercase, chars_to_string, str_chars};
use crate::paths::{seq_lt, chars_less, comps_view};
use crate::models::Node;

verus! {

/// A file-tree node as a value: its name, whether it is a directory, and
/// its children in the order they were added (none for a file).
pub struct TreeV {
    pub name: Seq<char>,
    pub is_dir: bool,
    pub children: Option<Seq<TreeV>>,
}

/// The tree a `Node` holds.
pub open spec fn node_view(n: Node) -> TreeV
    decreases n,
{
    TreeV {
        name: n.name@,
        is_dir: n.is_dir,
        children: match n.children {
            Some(cs) => Some(view_children(cs@, cs@.len() as int)),
            None => None,
        },
    }
}

/// The trees of the first `k` nodes of `cs`.
pub open spec fn view_children(cs: Seq<Node>, k: int) -> Seq<TreeV>
    decreases cs, k,
{
    if k <= 0 || k > cs.len() {
        seq![]
    } else {
        view_children(cs, k - 1).push(node_view(cs[k - 1]))
    }
}

/// The trees of the children, one per child.
pub proof fn lemma_view_children(cs: Seq<Node>, k: int)
    requires
        0 <= k <= cs.len(),
    ensures
        view_children(cs, k).len() == k,
        forall|j: int| 0 <= j < k ==> #[trigger] view_children(cs, k)[j] == node_view(cs[j]),
    decreases k,
{
    if k > 0 {
        lemma_view_children(cs, k - 1);
    }
}

/// The index of the child named `name`, or -1.
pub open spec fn child_index(cs: Seq<TreeV>, name: Seq<char>) -> int
    decreases cs.len(),
{
    if cs.len() == 0 {
        -1
    } else if cs.last().name == name {
        cs.len() - 1
    } else {
        child_index(cs.drop_last(), name)
    }
}

/// Adds the path with components `comps[k..]` below `t`: every component
/// but the last becomes a directory when it is new, the last takes
/// `is_dir` (and loses its children when it is a file). A node that exists
/// keeps its kind when it is not the last component.
pub open spec fn tree_add(t: TreeV, comps: Seq<Seq<char>>, k: nat, is_dir: bool) -> TreeV
    decreases comps.len() - k,
{
    if k >= comps.len() {
        t
    } else {
        let name = comps[k as int];
        let is_final = k + 1 == comps.len();
        let nd = if is_final { is_dir } else { true };
        let cs = match t.children {
            Some(c) => c,
            None => seq![],
        };
        let idx = child_index(cs, name);
        let cs1 = if idx < 0 {
            cs.push(TreeV { name, is_dir: nd, children: if nd { Some(seq![]) } else { None } })
        } else {
            cs
        };
        let i = if idx < 0 { cs.len() as int } else { idx };
        let c = cs1[i];
        let c2 = if is_final {
            TreeV { name: c.name, is_dir, children: if is_dir { c.children } else { None } }
        } else {
            c
        };
        TreeV { name: t.name, is_dir: t.is_dir, children: Some(cs1.update(i, tree_add(c2, comps, k + 1, is_dir))) }
    }
}

/// Whether `a` is drawn before `b`: directories first, then by lowercased
/// name.
pub open spec fn drawn_before(a: TreeV, b: TreeV) -> bool {
    if a.is_dir != b.is_dir {
        a.is_dir
    } else {
        seq_lt(lowercase(a.name), lowercase(b.name))
    }
}

/// `i` inserted into the drawing order `s` of `cs`, after every child not
/// drawn after it.
pub open spec fn insert_drawn(cs: Seq<TreeV>, i: int, s: Seq<int>) -> Seq<int>
    decreases s.len(),
{
    if s.len() == 0 {
        seq![i]
    } else if drawn_before(cs[i], cs[s[0]]) {
        seq![i] + s
    } else {
        seq![s[0]] + insert_drawn(cs, i, s.drop_first())
    }
}

/// The order in which the first `n` children of `cs` are drawn (a stable
/// sort by `drawn_before`).
pub open spec fn drawing_order(cs: Seq<TreeV>, n: int) -> Seq<int>
    decreases n,
{
    if n <= 0 {
        seq![]
    } else {
        insert_drawn(cs, n - 1, drawing_order(cs, n - 1))
    }
}

/// The prefix the children of a node are drawn with.
pub open spec fn child_prefix(prefix: Seq<char>, is_last: bool) -> Seq<char> {
    prefix + if is_last { "    "@ } else { "│   "@ }
}

/// The drawing of `t` under `prefix`: its own line (none at the root,
/// where the prefix is empty), then, for a directory, its children in
/// drawing order.
pub open spec fn render(t: TreeV, prefix: Seq<char>, is_last: bool) -> Seq<char>
    decreases t,
{
    let line = if prefix.len() == 0 {
        seq![]
    } else {
        prefix + (if is_last { "└── "@ } else { "├── "@ }) + t.name + seq!['\n']
    };
    line + if t.is_dir {
        match t.children {
            Some(cs) => render_kids(cs, drawing_order(cs, cs.len() as int), child_prefix(prefix, is_last), 0),
            None => seq![],
        }
    } else {
        seq![]
    }
}

/// The drawings of the children of `cs` from position `j` of `order` on.
pub open spec fn render_kids(cs: Seq<TreeV>, order: Seq<int>, prefix: Seq<char>, j: int) -> Seq<char>
    decreases cs, order.len() - j,
{
    if j < 0 || j >= order.len() || order[j] < 0 || order[j] >= cs.len() {
        seq![]
    } else {
        render(cs[order[j]], prefix, j == order.len() - 1) + render_kids(cs, order, prefix, j + 1)
    }
}

/// Adds the path with components `comps[k..]` below `n` (see `tree_add`).
fn add_below(n: Node, comps: &Vec<Vec<char>>, k: usize, is_dir: bool) -> (r: Node)
    ensures
        node_view(r) == tree_add(node_view(n), comps_view(comps@), k as nat, is_dir),
    decreases comps@.len() - k,
{
    if k >= comps.len() {
        return n;
    }
    let ghost tv = node_view(n);
    let ghost cv = comps_view(comps@);
    let Node { name, is_dir: own_dir, children } = n;
    let ghost had = children;
    let mut cs: Vec<Node> = match children {
        Some(c) => c,
        None => Vec::new(),
    };
    let ghost csv = view_children(cs@, cs@.len() as int);
    proof {
        lemma_view_children(cs@, cs@.len() as int);
        assert(csv == match tv.children { Some(c) => c, None => Seq::<TreeV>::empty() });
        assert(cv[k as int] == comps@[k as int]@);
    }
    let is_final = k + 1 == comps.len();
    let nd = if is_final { is_dir } else { true };
    let mut j: usize = cs.len();
    let mut found = false;
    proof {
        assert(csv.take(j as int) =~= csv);
    }
    while j > 0 && !found
        invariant
            j <= cs@.len(),
            csv == view_children(cs@, cs@.len() as int),
            csv.len() == cs@.len(),
            forall|m: int| 0 <= m < cs@.len() ==> #[trigger] csv[m] == node_view(cs@[m]),
            k < comps@.len(),
            cv == comps_view(comps@),
            found ==> j < cs@.len() && child_index(csv, cv[k as int]) == j,
            !found ==> child_index(csv, cv[k as int]) == child_index(csv.take(j as int), cv[k as int]),
        decreases j, if found { 0int } else { 1int },
    {
        let nm = str_chars(cs[j - 1].name.as_str());
        proof {
            assert(csv.take(j as int).last() == csv[j - 1]);
            assert(csv.take(j as int).drop_last() =~= csv.take(j - 1));
            assert(csv[j - 1].name == nm@);
            assert(cv[k as int] == comps@[k as int]@);
        }
        if chars_eq(nm.as_slice(), comps[k].as_slice()) {
            found = true;
            j = j - 1;
        } else {
            j = j - 1;
        }
    }
    proof {
        if !found {
            assert(csv.take(0) =~= Seq::<TreeV>::empty());
        }
    }
    let i: usize = if found {
        j
    } else {
        let mut nm: Vec<char> = Vec::new();
        push_chars(&mut nm, comps[k].as_slice());
        let fresh = Node {
            name: chars_to_string(nm.as_slice()),
            is_dir: nd,
            children: if nd { Some(Vec::new()) } else { None },
        };
        let at = cs.len();
        cs.push(fresh);
        proof {
            lemma_view_children(cs@, cs@.len() as int);
            assert(view_children(cs@, cs@.len() as int) =~= csv.push(TreeV {
                name: cv[k as int],
                is_dir: nd,
                children: if nd { Some(seq![]) } else { None },
            }));
        }
        at
    };
    let ghost cs1 = view_children(cs@, cs@.len() as int);
    proof {
        lemma_view_children(cs@, cs@.len() as int);
    }
    let child = cs.remove(i);
    let c2 = if is_final {
        let Node { name: cname, is_dir: _, children: cch } = child;
        Node { name: cname, is_dir, children: if is_dir { cch } else { None } }
    } else {
        child
    };
    let c3 = add_below(c2, comps, k + 1, is_dir);
    cs.insert(i, c3);
    proof {
        lemma_view_children(cs@, cs@.len() as int);
        assert(view_children(cs@, cs@.len() as int) =~= cs1.update(i as int, node_view(c3)));
    }
    Node { name, is_dir: own_dir, children: Some(cs) }
}

/// Adds the path with components `comps` to the tree rooted at `root`,
/// which is a directory or a file as `is_dir` says (see `tree_add`).
pub fn add_path_to_tree(root: &mut Node, comps: &Vec<Vec<char>>, is_dir: bool)
    ensures
        node_view(*final(root)) == tree_add(node_view(*old(root)), comps_view(comps@), 0, is_dir),
{
    let mut taken = Node { name: String::new(), is_dir: false, children: None };
    std::mem::swap(&mut taken, root);
    let added = add_below(taken, comps, 0, is_dir);
    *root = added;
}

/// The positions of a vector of indices, as integers.
pub open spec fn idx_view(v: Seq<usize>) -> Seq<int> {
    v.map_values(|x: usize| x as int)
}

/// The drawing order of the children `cs` (see `drawing_order`).
fn drawing_order_exec(cs: &Vec<Node>) -> (r: Vec<usize>)
    ensures
        idx_view(r@) == drawing_order(view_children(cs@, cs@.len() as int), cs@.len() as int),
        forall|m: int| 0 <= m < r@.len() ==> r@[m] < cs@.len(),
{
    let ghost csv = view_children(cs@, cs@.len() as int);
    proof {
        lemma_view_children(cs@, cs@.len() as int);
    }
    let mut dirs: Vec<bool> = Vec::new();
    let mut lows: Vec<Vec<char>> = Vec::new();
    let mut q: usize = 0;
    while q < cs.len()
        invariant
            q <= cs@.len(),
            csv == view_children(cs@, cs@.len() as int),
            csv.len() == cs@.len(),
            forall|m: int| 0 <= m < cs@.len() ==> #[trigger] csv[m] == node_view(cs@[m]),
            dirs@.len() == q,
            lows@.len() == q,
            forall|m: int| 0 <= m < q ==> #[trigger] dirs@[m] == csv[m].is_dir,
            forall|m: int| 0 <= m < q ==> #[trigger] lows@[m]@ == lowercase(csv[m].name),
        decreases cs@.len() - q,
    {
        dirs.push(cs[q].is_dir);
        let low = to_lowercase(cs[q].name.as_str());
        lows.push(str_chars(low.as_str()));
        q = q + 1;
    }
    let mut order: Vec<usize> = Vec::new();
    let mut n: usize = 0;
    while n < cs.len()
        invariant
            n <= cs@.len(),
            csv.len() == cs@.len(),
            dirs@.len() == cs@.len(),
            lows@.len() == cs@.len(),
            forall|m: int| 0 <= m < cs@.len() ==> #[trigger] dirs@[m] == csv[m].is_dir,
            forall|m: int| 0 <= m < cs@.len() ==> #[trigger] lows@[m]@ == lowercase(csv[m].name),
            idx_view(order@) == drawing_order(csv, n as int),
            forall|m: int| 0 <= m < order@.len() ==> order@[m] < n,
        decreases cs@.len() - n,
    {
        let ghost s0 = idx_view(order@);
        let mut p: usize = 0;
        let mut found = false;
        proof {
            assert(s0.skip(0) =~= s0);
            assert(s0.take(0) + insert_drawn(csv, n as int, s0) =~= insert_drawn(csv, n as int, s0));
        }
        while !found && p < order.len()
            invariant
                s0 == idx_view(order@),
                p <= order@.len(),
                n < cs@.len(),
                csv.len() == cs@.len(),
                dirs@.len() == cs@.len(),
                lows@.len() == cs@.len(),
                forall|m: int| 0 <= m < cs@.len() ==> #[trigger] dirs@[m] == csv[m].is_dir,
                forall|m: int| 0 <= m < cs@.len() ==> #[trigger] lows@[m]@ == lowercase(csv[m].name),
                forall|m: int| 0 <= m < order@.len() ==> order@[m] < n,
                insert_drawn(csv, n as int, s0) == s0.take(p as int) + insert_drawn(csv, n as int, s0.skip(p as int)),
                found ==> p < s0.len() && drawn_before(csv[n as int], csv[s0[p as int]]),
            decreases order@.len() - p, if found { 0int } else { 1int },
        {
            let o = order[p];
            let before = if dirs[n] != dirs[o] {
                dirs[n]
            } else {
                chars_less(lows[n].as_slice(), lows[o].as_slice())
            };
            if before {
                found = true;
            } else {
                proof {
                    let r = s0.skip(p as int);
                    assert(r[0] == s0[p as int]);
                    assert(r.drop_first() =~= s0.skip(p + 1));
                    assert(s0.take(p + 1) =~= s0.take(p as int) + seq![s0[p as int]]);
                }
                p = p + 1;
            }
        }
        proof {
            if p < s0.len() {
                let r = s0.skip(p as int);
                assert(r[0] == s0[p as int]);
            } else {
                assert(s0.skip(p as int) =~= Seq::<int>::empty());
            }
        }
        order.insert(p, n);
        n = n + 1;
        proof {
            assert(idx_view(order@) =~= drawing_order(csv, n as int));
        }
    }
    order
}

/// Appends the drawing of `n` under `prefix` (see `render`).
pub(crate) fn write_tree(n: &Node, prefix: &Vec<char>, is_last: bool, out: &mut Vec<char>)
    ensures
        final(out)@ == old(out)@ + render(node_view(*n), prefix@, is_last),
    decreases n,
{
    let ghost start = out@;
    let ghost tv = node_view(*n);
    if prefix.len() > 0 {
        push_chars(out, prefix.as_slice());
        if is_last {
            push_str(out, "└── ");
        } else {
            push_str(out, "├── ");
        }
        push_str(out, n.name.as_str());
        out.push('\n');
    }
    let ghost mid = out@;
    proof {
        assert(mid =~= start + if prefix@.len() == 0 {
            seq![]
        } else {
            prefix@ + (if is_last { "└── "@ } else { "├── "@ }) + tv.name + seq!['\n']
        });
    }
    if n.is_dir {
        match &n.children {
            Some(cs) => {
                let ghost csv = view_children(cs@, cs@.len() as int);
                proof {
                    lemma_view_children(cs@, cs@.len() as int);
                }
                let order = drawing_order_exec(cs);
                let ghost ord = idx_view(order@);
                let mut np: Vec<char> = Vec::new();
                push_chars(&mut np, prefix.as_slice());
                if is_last {
                    push_str(&mut np, "    ");
                } else {
                    push_str(&mut np, "│   ");
                }
                proof {
                    assert(np@ =~= child_prefix(prefix@, is_last));
                }
                let mut j: usize = 0;
                while j < order.len()
                    invariant
                        j <= order@.len(),
                        ord == idx_view(order@),
                        ord.len() == order@.len(),
                        csv == view_children(cs@, cs@.len() as int),
                        csv.len() == cs@.len(),
                        forall|m: int| 0 <= m < cs@.len() ==> #[trigger] csv[m] == node_view(cs@[m]),
                        forall|m: int| 0 <= m < order@.len() ==> order@[m] < cs@.len(),
                        out@ + render_kids(csv, ord, np@, j as int) == mid + render_kids(csv, ord, np@, 0),
                        n.children is Some && n.children->0 == *cs,
                    decreases order@.len() - j,
                {
                    let ghost before = out@;
                    let c = order[j];
                    proof {
                        assert(ord[j as int] == c as int);
                        assert(n.children is Some);
                        let kids = n.children->0;
                        assert(kids == *cs);
                        assert(0 <= c < kids@.len());
                        assert(decreases_to!(*n => n.children));
                        assert(decreases_to!(n.children => kids));
                        assert(decreases_to!(kids => kids@));
                        assert(decreases_to!(kids@ => kids@[c as int]));
                        assert(decreases_to!(*n => cs@[c as int]));
                    }
                    write_tree(&cs[c], &np, j + 1 == order.len(), out);
                    proof {
                        assert(out@ + render_kids(csv, ord, np@, j + 1) =~= before + render_kids(csv, ord, np@, j as int));
                    }
                    j = j + 1;
                }
                proof {
                    assert(out@ =~= mid + render_kids(csv, ord, np@, 0));
                    assert(out@ =~= start + render(tv, prefix@, is_last));
                }
            },
            None => {
                proof {
                    assert(out@ =~= start + render(tv, prefix@, is_last));
                }
            },
        }
    } else {
        proof {
            assert(out@ =~= start + render(tv, prefix@, is_last));
        }
    }
}

/// The drawing of a tree from its root: the root's own line is left out
/// and its children are drawn under a four-space prefix.
pub fn write_file_tree_to_string(node: &Node, prefix: &str, is_last: bool) -> (r: String)
    ensures
        r@ == render(node_view(*node), prefix@, is_last),
{
    let p = str_chars(prefix);
    let mut out: Vec<char> = Vec::new();
    write_tree(node, &p, is_last, &mut out);
    proof {
        assert(out@ =~= render(node_view(*node), prefix@, is_last));
    }
    chars_to_string(out.as_slice())
}

} // verus!
