//! Walks over the branch tree: children in name order, the paths of the nodes that carry a
//! branch, and the paths of the nodes that a predicate picks for each of several categories.

use crate::model::node::{find_child, lemma_find_child_is, lookup, tree_wf, Node, NodeView};
use crate::model::node_type::NodeType;
use crate::model::path::{path_segments, QualifiedPath};
use crate::model::tree::TreeDataModel;
use crate::text::chars_of;
use vstd::prelude::*;

verus! {

/// `a` comes before `b` in the order of strings: the first differing character decides, and
/// a proper prefix comes first.
pub open spec fn name_lt(a: Seq<char>, b: Seq<char>) -> bool
    decreases a.len(),
{
    if b.len() == 0 {
        false
    } else if a.len() == 0 {
        true
    } else if a[0] != b[0] {
        a[0] < b[0]
    } else {
        name_lt(a.drop_first(), b.drop_first())
    }
}

/// Does `a` come before `b` in the order of strings?
pub fn name_less(a: &String, b: &String) -> (r: bool)
    ensures
        r == name_lt(a@, b@),
{
    let av = chars_of(a.as_str());
    let bv = chars_of(b.as_str());
    let mut i: usize = 0;
    assert(a@.subrange(0, a@.len() as int) =~= a@);
    assert(b@.subrange(0, b@.len() as int) =~= b@);
    while i < av.len() && i < bv.len()
        invariant
            av@ == a@,
            bv@ == b@,
            i <= av@.len(),
            i <= bv@.len(),
            name_lt(a@, b@) == name_lt(a@.subrange(i as int, a@.len() as int), b@.subrange(i as int, b@.len() as int)),
        decreases av@.len() - i,
    {
        let ghost sa = a@.subrange(i as int, a@.len() as int);
        let ghost sb = b@.subrange(i as int, b@.len() as int);
        assert(sa[0] == av@[i as int]);
        assert(sb[0] == bv@[i as int]);
        if av[i] != bv[i] {
            return av[i] < bv[i];
        }
        assert(sa.drop_first() =~= a@.subrange(i + 1, a@.len() as int));
        assert(sb.drop_first() =~= b@.subrange(i + 1, b@.len() as int));
        i = i + 1;
    }
    i < bv.len()
}

/// The names of a sequence of nodes.
pub open spec fn names_of(cs: Seq<NodeView>) -> Seq<Seq<char>> {
    cs.map_values(|c: NodeView| c.name)
}

/// The place among the positions `sorted` where position `x` of `names` goes: before the
/// first whose name comes after its name.
pub open spec fn insert_index(names: Seq<Seq<char>>, sorted: Seq<int>, x: int, from: int) -> int
    decreases sorted.len() - from,
{
    if from < 0 || from >= sorted.len() {
        sorted.len() as int
    } else if name_lt(names[x], names[sorted[from]]) {
        from
    } else {
        insert_index(names, sorted, x, from + 1)
    }
}

/// The positions of `names` in the order of the names; equal names keep their order.
pub open spec fn sorted_positions(names: Seq<Seq<char>>) -> Seq<int>
    decreases names.len(),
{
    if names.len() == 0 {
        Seq::empty()
    } else {
        let prev = sorted_positions(names.drop_last());
        let x = names.len() - 1;
        prev.insert(insert_index(names, prev, x, 0), x)
    }
}

/// The place where `insert_index` puts a position lies within the sequence.
pub proof fn lemma_insert_index(names: Seq<Seq<char>>, sorted: Seq<int>, x: int, from: int)
    requires
        0 <= from <= sorted.len(),
    ensures
        from <= insert_index(names, sorted, x, from) <= sorted.len(),
    decreases sorted.len() - from,
{
    if from < sorted.len() && !name_lt(names[x], names[sorted[from]]) {
        lemma_insert_index(names, sorted, x, from + 1);
    }
}

/// The sorted positions are positions of `names`, as many as there are names.
pub proof fn lemma_sorted_positions(names: Seq<Seq<char>>)
    ensures
        sorted_positions(names).len() == names.len(),
        forall|k: int| 0 <= k < names.len() ==> 0 <= #[trigger] sorted_positions(names)[k] < names.len(),
    decreases names.len(),
{
    if names.len() > 0 {
        let prev = sorted_positions(names.drop_last());
        lemma_sorted_positions(names.drop_last());
        let x = names.len() - 1;
        lemma_insert_index(names, prev, x, 0);
        let at = insert_index(names, prev, x, 0);
        assert forall|k: int| 0 <= k < names.len() implies 0 <= #[trigger] sorted_positions(names)[k] < names.len() by {
            assert(sorted_positions(names) == prev.insert(at, x));
            if k < at {
                assert(prev.insert(at, x)[k] == prev[k]);
            } else if k > at {
                assert(prev.insert(at, x)[k] == prev[k - 1]);
            }
        }
    }
}

/// The order of strings is a strict total order: irreflexive, transitive, and any two
/// different strings are ordered one way or the other.
pub proof fn lemma_name_order(a: Seq<char>, b: Seq<char>, c: Seq<char>)
    ensures
        !name_lt(a, a),
        name_lt(a, b) && name_lt(b, c) ==> name_lt(a, c),
        a != b ==> name_lt(a, b) || name_lt(b, a),
        name_lt(a, b) ==> !name_lt(b, a),
    decreases a.len(),
{
    if a.len() > 0 && b.len() > 0 && c.len() > 0 {
        lemma_name_order(a.drop_first(), b.drop_first(), c.drop_first());
    } else if a.len() > 0 && b.len() > 0 {
        lemma_name_order(a.drop_first(), b.drop_first(), b.drop_first());
    } else if a.len() > 0 {
        lemma_name_order(a.drop_first(), a.drop_first(), a.drop_first());
    }
    if a != b && a.len() > 0 && b.len() > 0 && a[0] == b[0] {
        assert(a.drop_first() != b.drop_first()) by {
            if a.drop_first() == b.drop_first() {
                assert(a =~= seq![a[0]] + a.drop_first());
                assert(b =~= seq![b[0]] + b.drop_first());
            }
        }
    }
    if a != b && a.len() == 0 && b.len() == 0 {
        assert(a =~= b);
    }
}

/// The positions `sorted_positions` gives: each position of the names exactly once, the
/// names in order (no name comes before the one at an earlier place).
pub proof fn law_sorted_positions(names: Seq<Seq<char>>)
    ensures
        sorted_positions(names).len() == names.len(),
        forall|k: int| 0 <= k < names.len() ==> 0 <= #[trigger] sorted_positions(names)[k] < names.len(),
        forall|i: int, j: int|
            0 <= i < j < names.len() ==> #[trigger] sorted_positions(names)[i] != #[trigger] sorted_positions(names)[j],
        forall|i: int, j: int|
            0 <= i < j < names.len() ==> !name_lt(
                names[#[trigger] sorted_positions(names)[j]],
                names[#[trigger] sorted_positions(names)[i]],
            ),
    decreases names.len(),
{
    lemma_sorted_positions(names);
    if names.len() > 0 {
        let d = names.drop_last();
        let prev = sorted_positions(d);
        law_sorted_positions(d);
        let x = names.len() - 1;
        lemma_insert_index(names, prev, x, 0);
        let at = insert_index(names, prev, x, 0);
        let s = sorted_positions(names);
        assert(s == prev.insert(at, x));
        assert forall|k: int| 0 <= k < prev.len() implies names[#[trigger] prev[k]] == d[prev[k]] by {}
        lemma_insert_index_bounds(names, prev, x, 0);
        assert forall|i: int, j: int| 0 <= i < j < names.len() implies #[trigger] s[i] != #[trigger] s[j] by {
            if i < at && j < at {
                assert(s[i] == prev[i] && s[j] == prev[j]);
            } else if i < at && j == at {
                assert(s[i] == prev[i]);
            } else if i < at {
                assert(s[i] == prev[i] && s[j] == prev[j - 1]);
            } else if i == at {
                assert(s[j] == prev[j - 1]);
            } else {
                assert(s[i] == prev[i - 1] && s[j] == prev[j - 1]);
            }
        }
        assert forall|i: int, j: int| 0 <= i < j < names.len() implies !name_lt(
            names[#[trigger] s[j]],
            names[#[trigger] s[i]],
        ) by {
            if i < at && j < at {
                assert(s[i] == prev[i] && s[j] == prev[j]);
            } else if i < at && j == at {
                assert(s[i] == prev[i]);
                assert(!name_lt(names[x], names[prev[i]]));
            } else if i < at {
                assert(s[i] == prev[i] && s[j] == prev[j - 1]);
            } else if i == at {
                assert(s[j] == prev[j - 1]);
                assert(name_lt(names[x], names[prev[at]]));
                if j - 1 > at {
                    assert(!name_lt(names[prev[j - 1]], names[prev[at]]));
                    lemma_name_order(names[prev[j - 1]], names[x], names[prev[at]]);
                    lemma_name_order(names[prev[j - 1]], names[prev[at]], names[x]);
                } else {
                    lemma_name_order(names[x], names[prev[at]], names[x]);
                }
            } else {
                assert(s[i] == prev[i - 1] && s[j] == prev[j - 1]);
            }
        }
    }
}

/// Before the place `insert_index` gives, no name comes after the inserted one; at the place,
/// the name comes after it.
proof fn lemma_insert_index_bounds(names: Seq<Seq<char>>, sorted: Seq<int>, x: int, from: int)
    requires
        0 <= from <= sorted.len(),
    ensures
        forall|k: int| from <= k < insert_index(names, sorted, x, from) ==> !name_lt(names[x], names[#[trigger] sorted[k]]),
        insert_index(names, sorted, x, from) < sorted.len() ==> name_lt(
            names[x],
            names[sorted[insert_index(names, sorted, x, from)]],
        ),
    decreases sorted.len() - from,
{
    if from < sorted.len() && !name_lt(names[x], names[sorted[from]]) {
        lemma_insert_index_bounds(names, sorted, x, from + 1);
    }
}

/// The positions of the children of `node` in the order of their names.
pub fn sorted_children(node: &Node) -> (r: Vec<usize>)
    ensures
        r@.map_values(|i: usize| i as int) == sorted_positions(names_of(node@.children)),
{
    let children = node.iter_children();
    let ghost names = names_of(node@.children);
    let mut sorted: Vec<usize> = Vec::new();
    let mut x: usize = 0;
    while x < children.len()
        invariant
            x <= children@.len(),
            children@.len() == node@.children.len(),
            forall|i: int| 0 <= i < children@.len() ==> #[trigger] children@[i]@ == node@.children[i],
            names == names_of(node@.children),
            sorted@.map_values(|i: usize| i as int) == sorted_positions(names.take(x as int)),
        decreases children@.len() - x,
    {
        let ghost sv = sorted@.map_values(|i: usize| i as int);
        let ghost nx = names.take(x + 1);
        assert(nx.drop_last() =~= names.take(x as int));
        proof {
            lemma_sorted_positions(names.take(x as int));
        }
        let mut at: usize = 0;
        while at < sorted.len() && !name_less(children[x].get_name(), children[sorted[at]].get_name())
            invariant
                x < children@.len(),
                children@.len() == node@.children.len(),
                forall|i: int| 0 <= i < children@.len() ==> #[trigger] children@[i]@ == node@.children[i],
                names == names_of(node@.children),
                nx == names.take(x + 1),
                sv == sorted@.map_values(|i: usize| i as int),
                sv == sorted_positions(nx.drop_last()),
                forall|k: int| 0 <= k < sv.len() ==> 0 <= #[trigger] sv[k] < x,
                at <= sorted@.len(),
                insert_index(nx, sv, x as int, 0) == insert_index(nx, sv, x as int, at as int),
            decreases sorted@.len() - at,
        {
            assert(sv[at as int] == sorted@[at as int] as int);
            assert(nx[x as int] == children@[x as int]@.name);
            assert(nx[sv[at as int]] == children@[sorted@[at as int] as int]@.name);
            at = at + 1;
        }
        proof {
            if at < sorted@.len() {
                assert(sv[at as int] == sorted@[at as int] as int);
                assert(nx[x as int] == children@[x as int]@.name);
                assert(nx[sv[at as int]] == children@[sorted@[at as int] as int]@.name);
            }
        }
        sorted.insert(at, x);
        assert(sorted@.map_values(|i: usize| i as int) =~= sv.insert(at as int, x as int));
        x = x + 1;
    }
    assert(names.take(x as int) =~= names);
    sorted
}

/// The paths of the nodes with a branch below the children of `v` at the positions
/// `order[k..]`, each child's subtree in turn.
pub open spec fn children_branch_paths(v: NodeView, prefix: Seq<Seq<char>>, order: Seq<int>, k: int) -> Seq<
    Seq<Seq<char>>,
>
    decreases v, 0int, order.len() - k,
{
    if k < 0 || k >= order.len() {
        Seq::empty()
    } else {
        let j = order[k];
        let rest = children_branch_paths(v, prefix, order, k + 1);
        if 0 <= j < v.children.len() {
            subtree_branch_paths(v.children[j], prefix.push(v.children[j].name)) + rest
        } else {
            rest
        }
    }
}

/// The paths of the nodes with a branch in the subtree of `c` at `path`, children before
/// their parent, children in the order of their names.
pub open spec fn subtree_branch_paths(c: NodeView, path: Seq<Seq<char>>) -> Seq<Seq<Seq<char>>>
    decreases c, 1int, 0int,
{
    children_branch_paths(c, path, sorted_positions(names_of(c.children)), 0) + if c.branch.0 is Some {
        seq![path]
    } else {
        Seq::empty()
    }
}

/// The paths of the nodes with a branch below `v`, which sits at `prefix`.
pub open spec fn branch_paths_below(v: NodeView, prefix: Seq<Seq<char>>) -> Seq<Seq<Seq<char>>> {
    children_branch_paths(v, prefix, sorted_positions(names_of(v.children)), 0)
}

/// `x` is `prefix` followed by a path that leads from `v` to a node that carries a branch.
pub open spec fn leads_to_branch(v: NodeView, prefix: Seq<Seq<char>>, x: Seq<Seq<char>>) -> bool {
    &&& prefix.len() <= x.len()
    &&& x.subrange(0, prefix.len() as int) == prefix
    &&& lookup(v, x.skip(prefix.len() as int)) is Some
    &&& lookup(v, x.skip(prefix.len() as int)).unwrap().branch.0 is Some
}

/// The paths below the children at the positions `order[k..]` lead to nodes with a branch.
proof fn lemma_children_paths_lead(v: NodeView, prefix: Seq<Seq<char>>, order: Seq<int>, k: int, m: int)
    requires
        tree_wf(v),
        forall|x: int| 0 <= x < order.len() ==> 0 <= #[trigger] order[x] < v.children.len(),
        0 <= k,
        0 <= m < children_branch_paths(v, prefix, order, k).len(),
    ensures
        leads_to_branch(v, prefix, children_branch_paths(v, prefix, order, k)[m]),
    decreases v, 0int, order.len() - k,
{
    if k < order.len() {
        let j = order[k];
        let c = v.children[j];
        let path = prefix.push(c.name);
        let sub = subtree_branch_paths(c, path);
        let rest = children_branch_paths(v, prefix, order, k + 1);
        assert(children_branch_paths(v, prefix, order, k) == sub + rest);
        if m < sub.len() {
            assert(tree_wf(c));
            lemma_subtree_paths_lead(c, path, m);
            let x = sub[m];
            let q = x.skip(path.len() as int);
            assert(x.subrange(0, prefix.len() as int) =~= prefix) by {
                assert(x.subrange(0, path.len() as int) == path);
                assert(x.subrange(0, prefix.len() as int) =~= path.subrange(0, prefix.len() as int));
            }
            let tail = x.skip(prefix.len() as int);
            assert(tail[0] == c.name) by {
                assert(x.subrange(0, path.len() as int)[prefix.len() as int] == path[prefix.len() as int]);
            }
            assert(tail.drop_first() =~= q);
            lemma_find_child_is(v.children, c.name, 0, j);
            assert(find_child(v.children, c.name, 0) == j);
            assert((sub + rest)[m] == x);
        } else {
            lemma_children_paths_lead(v, prefix, order, k + 1, m - sub.len());
            assert((sub + rest)[m] == rest[m - sub.len()]);
        }
    }
}

/// The paths of the subtree of `c` at `path` lead to nodes with a branch.
proof fn lemma_subtree_paths_lead(c: NodeView, path: Seq<Seq<char>>, m: int)
    requires
        tree_wf(c),
        0 <= m < subtree_branch_paths(c, path).len(),
    ensures
        leads_to_branch(c, path, subtree_branch_paths(c, path)[m]),
    decreases c, 1int, 0int,
{
    let order = sorted_positions(names_of(c.children));
    lemma_sorted_positions(names_of(c.children));
    let below = children_branch_paths(c, path, order, 0);
    let own = if c.branch.0 is Some {
        seq![path]
    } else {
        Seq::empty()
    };
    assert(subtree_branch_paths(c, path) == below + own);
    if m < below.len() {
        lemma_children_paths_lead(c, path, order, 0, m);
        assert((below + own)[m] == below[m]);
    } else {
        assert((below + own)[m] == path);
        assert(path.skip(path.len() as int) =~= Seq::<Seq<char>>::empty());
        assert(path.subrange(0, path.len() as int) =~= path);
    }
}

/// In a tree whose children have distinct names, every path that the listing of branch paths
/// gives leads to a node that carries a branch.
pub proof fn law_branch_paths_lead_to_branches(v: NodeView, k: int)
    requires
        tree_wf(v),
        0 <= k < branch_paths_below(v, Seq::empty()).len(),
    ensures
        lookup(v, branch_paths_below(v, Seq::empty())[k]) is Some,
        lookup(v, branch_paths_below(v, Seq::empty())[k]).unwrap().branch.0 is Some,
{
    let order = sorted_positions(names_of(v.children));
    lemma_sorted_positions(names_of(v.children));
    lemma_children_paths_lead(v, Seq::empty(), order, 0, k);
    let x = branch_paths_below(v, Seq::empty())[k];
    assert(x.skip(0) =~= x);
}

/// The views of a vector of paths.
pub open spec fn paths_view(v: Seq<QualifiedPath>) -> Seq<Seq<Seq<char>>> {
    v.map_values(|p: QualifiedPath| p@)
}

/// Appends the paths of the nodes with a branch below `node`, which sits at `prefix`.
fn collect_branch_paths(node: &Node, prefix: &QualifiedPath, out: &mut Vec<QualifiedPath>)
    ensures
        paths_view(final(out)@) == paths_view(old(out)@) + branch_paths_below(node@, prefix@),
    decreases node@, 0int,
{
    let order = sorted_children(node);
    let children = node.iter_children();
    let ghost ov = order@.map_values(|i: usize| i as int);
    proof {
        lemma_sorted_positions(names_of(node@.children));
    }
    let ghost start = paths_view(out@);
    let mut i: usize = 0;
    while i < order.len()
        invariant
            i <= order@.len(),
            ov == order@.map_values(|i: usize| i as int),
            ov == sorted_positions(names_of(node@.children)),
            ov.len() == node@.children.len(),
            forall|m: int| 0 <= m < ov.len() ==> 0 <= #[trigger] ov[m] < node@.children.len(),
            children@.len() == node@.children.len(),
            forall|m: int| 0 <= m < children@.len() ==> #[trigger] children@[m]@ == node@.children[m],
            paths_view(out@) + children_branch_paths(node@, prefix@, ov, i as int) == start
                + children_branch_paths(node@, prefix@, ov, 0),
        decreases order@.len() - i,
    {
        let j = order[i];
        assert(ov[i as int] == j as int);
        let child = &children[j];
        assert(child@ == node@.children[j as int]);
        let mut path = prefix.clone();
        path.push(child.get_name().clone());
        let ghost before = paths_view(out@);
        collect_subtree_paths(child, &path, out);
        proof {
            let rest = children_branch_paths(node@, prefix@, ov, i + 1);
            let sub = subtree_branch_paths(node@.children[j as int], prefix@.push(node@.children[j as int].name));
            assert(children_branch_paths(node@, prefix@, ov, i as int) == sub + rest);
            assert(paths_view(out@) == before + sub);
            assert(before + (sub + rest) =~= (before + sub) + rest);
        }
        i = i + 1;
    }
    assert(children_branch_paths(node@, prefix@, ov, i as int) =~= Seq::<Seq<Seq<char>>>::empty());
    assert(paths_view(out@) + Seq::<Seq<Seq<char>>>::empty() =~= paths_view(out@));
}

/// Appends the paths of the nodes with a branch in the subtree of `node`, which sits at `path`.
fn collect_subtree_paths(node: &Node, path: &QualifiedPath, out: &mut Vec<QualifiedPath>)
    ensures
        paths_view(final(out)@) == paths_view(old(out)@) + subtree_branch_paths(node@, path@),
    decreases node@, 1int,
{
    let ghost start = paths_view(out@);
    collect_branch_paths(node, path, out);
    let ghost mid = paths_view(out@);
    if node.get_branch_data().has_branch() {
        out.push(path.clone());
        assert(paths_view(out@) =~= mid.push(path@));
        assert(paths_view(out@) =~= start + subtree_branch_paths(node@, path@));
    } else {
        assert(paths_view(out@) =~= start + subtree_branch_paths(node@, path@));
    }
}

impl TreeDataModel {
    /// The paths of the nodes that carry a branch: children before their parent, children in
    /// the order of their names.
    pub fn get_qualified_paths_with_branches(&self) -> (r: Vec<QualifiedPath>)
        ensures
            paths_view(r@) == branch_paths_below(self@, Seq::empty()),
    {
        let mut out: Vec<QualifiedPath> = Vec::new();
        let root = QualifiedPath::new();
        collect_branch_paths(self.get_root(), &root, &mut out);
        assert(paths_view(out@) =~= paths_view(Seq::<QualifiedPath>::empty()) + branch_paths_below(self@, Seq::empty()));
        out
    }
}


/// A predicate on nodes for each category: which nodes belong to a category.
pub trait NodePredicate<T> {
    /// Does `node` belong to `category`?
    spec fn holds(&self, category: T, node: NodeView) -> bool;

    /// Does `node` belong to `category`?
    fn test(&self, category: &T, node: &Node) -> (b: bool)
        ensures
            b == self.holds(*category, node@),
    ;
}

/// Nodes by kind: a node belongs to the category of its kind.
pub struct OfType;

impl NodePredicate<NodeType> for OfType {
    open spec fn holds(&self, category: NodeType, node: NodeView) -> bool {
        node.node_type == category
    }

    fn test(&self, category: &NodeType, node: &Node) -> (b: bool) {
        *node.get_type() == *category
    }
}

/// Nodes that carry a branch, in every category.
pub struct WithBranch;

impl NodePredicate<bool> for WithBranch {
    open spec fn holds(&self, category: bool, node: NodeView) -> bool {
        node.branch.0 is Some
    }

    fn test(&self, category: &bool, node: &Node) -> (b: bool) {
        node.get_branch_data().has_branch()
    }
}

/// The paths of the nodes of category `t` below the children of `v` from position `k` on:
/// for each child its path, if it belongs to the category, then those below it.
pub open spec fn children_paths_by<T, P: NodePredicate<T>>(
    p: P,
    t: T,
    v: NodeView,
    prefix: Seq<Seq<char>>,
    k: int,
) -> Seq<Seq<Seq<char>>>
    decreases v, 0int, v.children.len() - k,
{
    if k < 0 || k >= v.children.len() {
        Seq::empty()
    } else {
        let c = v.children[k];
        let path = prefix + path_segments(c.name);
        let own = if p.holds(t, c) {
            seq![path]
        } else {
            Seq::empty()
        };
        own + paths_by(p, t, c, path) + children_paths_by(p, t, v, prefix, k + 1)
    }
}

/// The paths of the nodes of category `t` below `v`, which sits at `prefix`: parents before
/// their children, children in the order they were added.
pub open spec fn paths_by<T, P: NodePredicate<T>>(p: P, t: T, v: NodeView, prefix: Seq<Seq<char>>) -> Seq<Seq<Seq<char>>>
    decreases v, 1int, 0int,
{
    children_paths_by(p, t, v, prefix, 0)
}

/// Appends, for each category, the paths of the nodes of that category below `node`, which
/// sits at `initial_path`.
fn collect_paths_by<T, P: NodePredicate<T>>(
    node: &Node,
    initial_path: &QualifiedPath,
    predicate: &P,
    categories: &Vec<T>,
    out: &mut Vec<Vec<QualifiedPath>>,
)
    requires
        old(out)@.len() == categories@.len(),
    ensures
        final(out)@.len() == categories@.len(),
        forall|c: int|
            0 <= c < categories@.len() ==> paths_view(#[trigger] final(out)@[c]@) == paths_view(old(out)@[c]@)
                + paths_by(*predicate, categories@[c], node@, initial_path@),
    decreases node@, 1int,
{
    let children = node.iter_children();
    let ghost start = out@;
    let mut k: usize = 0;
    while k < children.len()
        invariant
            k <= children@.len(),
            children@.len() == node@.children.len(),
            forall|m: int| 0 <= m < children@.len() ==> #[trigger] children@[m]@ == node@.children[m],
            out@.len() == categories@.len(),
            start.len() == categories@.len(),
            forall|c: int|
                0 <= c < categories@.len() ==> paths_view(#[trigger] out@[c]@) + children_paths_by(
                    *predicate,
                    categories@[c],
                    node@,
                    initial_path@,
                    k as int,
                ) == paths_view(start[c]@) + paths_by(*predicate, categories@[c], node@, initial_path@),
        decreases children@.len() - k,
    {
        let child = &children[k];
        let path = initial_path.concat(&child.as_qualified_path());
        let ghost before = out@;
        let mut c: usize = 0;
        while c < categories.len()
            invariant
                c <= categories@.len(),
                out@.len() == categories@.len(),
                before.len() == categories@.len(),
                child@ == node@.children[k as int],
                path@ == initial_path@ + path_segments(child@.name),
                forall|d: int|
                    0 <= d < c ==> paths_view(#[trigger] out@[d]@) == paths_view(before[d]@) + if predicate.holds(
                        categories@[d],
                        child@,
                    ) {
                        seq![path@]
                    } else {
                        Seq::empty()
                    },
                forall|d: int| c <= d < categories@.len() ==> #[trigger] out@[d] == before[d],
            decreases categories@.len() - c,
        {
            if predicate.test(&categories[c], child) {
                let mut list = out[c].clone();
                let ghost old_list = list@;
                assert forall|m: int| 0 <= m < old_list.len() implies #[trigger] old_list[m]@ == out@[c as int]@[m]@ by {
                    assert(cloned::<QualifiedPath>(out@[c as int]@[m], old_list[m]));
                }
                assert(paths_view(old_list) =~= paths_view(out@[c as int]@));
                list.push(path.clone());
                assert(paths_view(list@) =~= paths_view(old_list).push(path@));
                out.set(c, list);
            } else {
                assert(paths_view(out@[c as int]@) =~= paths_view(before[c as int]@) + Seq::empty());
            }
            c = c + 1;
        }
        let ghost mid = out@;
        collect_paths_by(child, &path, predicate, categories, out);
        proof {
            assert forall|d: int|
                0 <= d < categories@.len() implies paths_view(#[trigger] out@[d]@) + children_paths_by(
                *predicate,
                categories@[d],
                node@,
                initial_path@,
                k + 1,
            ) == paths_view(start[d]@) + paths_by(*predicate, categories@[d], node@, initial_path@) by {
                let own = if predicate.holds(categories@[d], child@) {
                    seq![path@]
                } else {
                    Seq::<Seq<Seq<char>>>::empty()
                };
                let sub = paths_by(*predicate, categories@[d], child@, path@);
                let rest = children_paths_by(*predicate, categories@[d], node@, initial_path@, k + 1);
                assert(children_paths_by(*predicate, categories@[d], node@, initial_path@, k as int) == own + sub
                    + rest);
                assert(paths_view(mid[d]@) == paths_view(before[d]@) + own);
                assert(paths_view(out@[d]@) == paths_view(mid[d]@) + sub);
                assert(paths_view(before[d]@) + (own + sub + rest) =~= paths_view(out@[d]@) + rest);
            }
        }
        k = k + 1;
    }
    proof {
        assert forall|c: int|
            0 <= c < categories@.len() implies paths_view(#[trigger] out@[c]@) == paths_view(start[c]@) + paths_by(
            *predicate,
            categories@[c],
            node@,
            initial_path@,
        ) by {
            assert(children_paths_by(*predicate, categories@[c], node@, initial_path@, k as int) =~= Seq::<
                Seq<Seq<char>>,
            >::empty());
            assert(paths_view(out@[c]@) + Seq::<Seq<Seq<char>>>::empty() =~= paths_view(out@[c]@));
        }
    }
}

impl Node {
    /// For each of `categories`, in order, the paths of the nodes below this one that the
    /// predicate puts into it; this node sits at `initial_path`, and a node's path is its
    /// parent's path followed by the segments of its name. A node without children has no
    /// nodes below it and gives no lists at all. A category that occurs twice gets a list at
    /// each of its places.
    pub fn get_qualified_paths_by<T, P: NodePredicate<T>>(
        &self,
        initial_path: &QualifiedPath,
        predicate: &P,
        categories: &Vec<T>,
    ) -> (r: Vec<Vec<QualifiedPath>>)
        ensures
            self@.children.len() == 0 ==> r@.len() == 0,
            self@.children.len() > 0 ==> r@.len() == categories@.len(),
            self@.children.len() > 0 ==> forall|c: int|
                0 <= c < categories@.len() ==> paths_view(#[trigger] r@[c]@) == paths_by(
                    *predicate,
                    categories@[c],
                    self@,
                    initial_path@,
                ),
    {
        if !self.has_children() {
            return Vec::new();
        }
        let mut out: Vec<Vec<QualifiedPath>> = Vec::new();
        let mut c: usize = 0;
        while c < categories.len()
            invariant
                c <= categories@.len(),
                out@.len() == c,
                forall|d: int| 0 <= d < c ==> (#[trigger] out@[d])@.len() == 0,
            decreases categories@.len() - c,
        {
            out.push(Vec::new());
            c = c + 1;
        }
        let ghost start = out@;
        collect_paths_by(self, initial_path, predicate, categories, &mut out);
        proof {
            assert forall|d: int| 0 <= d < categories@.len() implies paths_view(#[trigger] out@[d]@) == paths_by(
                *predicate,
                categories@[d],
                self@,
                initial_path@,
            ) by {
                assert(paths_view(start[d]@) =~= Seq::<Seq<Seq<char>>>::empty());
                assert(Seq::<Seq<Seq<char>>>::empty() + paths_by(*predicate, categories@[d], self@, initial_path@)
                    =~= paths_by(*predicate, categories@[d], self@, initial_path@));
            }
        }
        out
    }
}

} // verus!
