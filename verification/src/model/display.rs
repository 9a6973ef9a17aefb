//! The branch tree as text: each node labelled by its name (in blue when it carries a
//! branch) and its kind, children in the order of their names, drawn by `termtree`.

use crate::model::node::{Node, NodeView};
use crate::model::node_type::{short_name_spec, NodeType};
use crate::model::traverse::{lemma_sorted_positions, names_of, sorted_children, sorted_positions};
use crate::paint::{is_painted, paint, Paint};
use termtree::Tree;
use vstd::prelude::*;

verus! {

/// A labelled tree as values.
pub struct DisplayView {
    pub label: Seq<char>,
    pub leaves: Seq<DisplayView>,
}

/// A labelled tree: a label and the trees below it.
pub struct DisplayTree {
    label: String,
    leaves: Vec<DisplayTree>,
}

/// The view of a labelled tree.
pub closed spec fn display_view(t: DisplayTree) -> DisplayView
    decreases t,
{
    DisplayView {
        label: t.label@,
        leaves: Seq::new(
            t.leaves@.len(),
            |i: int|
                if 0 <= i < t.leaves@.len() {
                    display_view(t.leaves@[i])
                } else {
                    DisplayView { label: Seq::empty(), leaves: Seq::empty() }
                },
        ),
    }
}

impl View for DisplayTree {
    type V = DisplayView;

    closed spec fn view(&self) -> DisplayView {
        display_view(*self)
    }
}

/// The view of a labelled tree unfolds one level.
proof fn lemma_display_view(t: DisplayTree)
    ensures
        t@.label == t.label@,
        t@.leaves.len() == t.leaves@.len(),
        forall|i: int| 0 <= i < t.leaves@.len() ==> #[trigger] t@.leaves[i] == t.leaves@[i]@,
{
}

impl DisplayTree {
    /// The label.
    pub fn get_label(&self) -> (s: &String)
        ensures
            s@ == self@.label,
    {
        &self.label
    }

    /// The trees below the label.
    pub fn get_leaves(&self) -> (v: &Vec<DisplayTree>)
        ensures
            v@.len() == self@.leaves.len(),
            forall|i: int| 0 <= i < v@.len() ==> #[trigger] v@[i]@ == self@.leaves[i],
    {
        proof {
            lemma_display_view(*self);
        }
        &self.leaves
    }
}

/// Kinds shown without their short name.
pub open spec fn is_abstract(t: NodeType) -> bool {
    t == NodeType::AbstractFeature || t == NodeType::AbstractProduct
}

/// What the name part of the label of `v` can be: its name, painted blue when it carries a
/// branch and the terminal takes colors.
pub open spec fn name_fits(name: Seq<char>, v: NodeView) -> bool {
    if v.branch.0 is Some {
        is_painted(name, v.name, Paint::Blue)
    } else {
        name == v.name
    }
}

/// What labelling the node `v` can give: its name, painted blue when it carries a branch and
/// the terminal takes colors, followed by its kind's short name in brackets unless the kind
/// is abstract.
pub open spec fn label_fits(label: Seq<char>, v: NodeView) -> bool {
    exists|name: Seq<char>|
        #[trigger] name_fits(name, v) && label == if is_abstract(v.node_type) {
            name
        } else {
            name + " ["@ + short_name_spec(v.node_type) + "]"@
        }
}

/// The labelled tree `t` draws the node `v`: its label fits, and below it come the trees of
/// the children in the order of their names.
pub open spec fn display_fits(t: DisplayView, v: NodeView) -> bool
    decreases v,
{
    &&& label_fits(t.label, v)
    &&& t.leaves.len() == v.children.len()
    &&& forall|k: int|
        #![trigger t.leaves[k]]
        0 <= k < v.children.len() ==> {
            let j = sorted_positions(names_of(v.children))[k];
            0 <= j < v.children.len() && display_fits(t.leaves[k], v.children[j])
        }
}

/// The label of `node`.
fn node_label(node: &Node) -> (s: String)
    ensures
        label_fits(s@, node@),
{
    let name = node.get_name();
    let has_branch = node.get_branch_data().has_branch();
    let formatted = if has_branch {
        paint(name.as_str(), Paint::Blue)
    } else {
        name.clone()
    };
    let ghost painted = formatted@;
    let t = *node.get_type();
    if t == NodeType::AbstractFeature || t == NodeType::AbstractProduct {
        proof {
            assert(name_fits(painted, node@));
            assert(label_fits(formatted@, node@));
        }
        formatted
    } else {
        let mut content = formatted;
        content.append(" [");
        content.append(t.get_short_name().as_str());
        content.append("]");
        proof {
            assert(content@ == painted + " ["@ + short_name_spec(node@.node_type) + "]"@);
            assert(name_fits(painted, node@));
            assert(label_fits(content@, node@));
        }
        content
    }
}

impl Node {
    /// The labelled tree that draws this node and everything below it.
    pub fn build_display_tree(&self, show_tags: bool) -> (t: DisplayTree)
        ensures
            display_fits(t@, self@),
        decreases self@,
    {
        let label = node_label(self);
        let order = sorted_children(self);
        let children = self.iter_children();
        let ghost ov = order@.map_values(|i: usize| i as int);
        proof {
            lemma_sorted_positions(names_of(self@.children));
        }
        let mut leaves: Vec<DisplayTree> = Vec::new();
        let mut k: usize = 0;
        while k < order.len()
            invariant
                k <= order@.len(),
                ov == order@.map_values(|i: usize| i as int),
                ov == sorted_positions(names_of(self@.children)),
                ov.len() == self@.children.len(),
                forall|m: int| 0 <= m < ov.len() ==> 0 <= #[trigger] ov[m] < self@.children.len(),
                children@.len() == self@.children.len(),
                forall|m: int| 0 <= m < children@.len() ==> #[trigger] children@[m]@ == self@.children[m],
                leaves@.len() == k,
                forall|m: int|
                    0 <= m < k ==> display_fits(#[trigger] leaves@[m]@, self@.children[ov[m]]),
            decreases order@.len() - k,
        {
            let j = order[k];
            assert(ov[k as int] == j as int);
            let child = &children[j];
            assert(child@ == self@.children[j as int]);
            let leaf = child.build_display_tree(show_tags);
            leaves.push(leaf);
            k = k + 1;
        }
        let t = DisplayTree { label, leaves };
        proof {
            lemma_display_view(t);
            assert forall|m: int| 0 <= m < self@.children.len() implies {
                let j = sorted_positions(names_of(self@.children))[m];
                0 <= j < self@.children.len() && display_fits(#[trigger] t@.leaves[m], self@.children[j])
            } by {
                assert(t@.leaves[m] == leaves@[m]@);
            }
        }
        t
    }
}


/// The trees of `termtree`.
#[verifier::external_type_specification]
#[verifier::external_body]
#[verifier::reject_recursive_types(D)]
pub struct ExTermTree<D: std::fmt::Display>(Tree<D>);

/// The labels and leaves of a `termtree` tree whose nodes all have the default glyphs and are
/// not set to draw their labels over several indented lines; nothing for other trees.
pub uninterp spec fn term_tree_shape(t: Tree<String>) -> Option<DisplayView>;

/// The lines `termtree` draws for the trees `leaves` from position `from` on, below a tree
/// whose lines below its label start with `indent`: each tree's label behind `├── ` (behind
/// `└── ` for the last one) and a line break, then the lines of its own leaves, whose indent
/// grows by `│   ` (by four spaces below the last one).
pub open spec fn rendered_leaves(leaves: Seq<DisplayView>, indent: Seq<char>, from: int) -> Seq<char>
    decreases leaves, leaves.len() - from,
{
    if from < 0 || from >= leaves.len() {
        Seq::empty()
    } else {
        let last = from == leaves.len() - 1;
        let leaf = leaves[from];
        let item = if last { seq!['└', '─', '─', ' '] } else { seq!['├', '─', '─', ' '] };
        let skip = if last { seq![' ', ' ', ' ', ' '] } else { seq!['│', ' ', ' ', ' '] };
        proof {
            assert(decreases_to!(leaves => leaves[from]));
        }
        indent + item + leaf.label + seq!['\n'] + rendered_leaves(leaf.leaves, indent + skip, 0)
            + rendered_leaves(leaves, indent, from + 1)
    }
}

/// The text `termtree` draws for a tree of the given labels and leaves, with the default
/// glyphs and without the option to indent the lines of multi-line labels: the label of the
/// root and a line break, then the lines of its leaves.
pub open spec fn rendered_tree(shape: DisplayView) -> Seq<char> {
    shape.label + seq!['\n'] + rendered_leaves(shape.leaves, Seq::empty(), 0)
}

/// `Tree::new`: a tree of the label alone, with the default glyphs and without the multi-line
/// option, as its source sets them.
#[verifier::external_body]
fn term_tree_new(label: String) -> (t: Tree<String>)
    ensures
        term_tree_shape(t) == Some(DisplayView { label: label@, leaves: Seq::empty() }),
{
    Tree::new(label)
}

/// `Tree::push`: the leaf is appended to the leaves of the tree.
#[verifier::external_body]
fn term_tree_push(t: &mut Tree<String>, leaf: Tree<String>)
    requires
        term_tree_shape(*old(t)) is Some,
        term_tree_shape(leaf) is Some,
    ensures
        term_tree_shape(*final(t)) == Some(
            DisplayView {
                leaves: term_tree_shape(*old(t)).unwrap().leaves.push(term_tree_shape(leaf).unwrap()),
                ..term_tree_shape(*old(t)).unwrap()
            },
        ),
{
    t.push(leaf);
}

/// The text of a tree as its `Display` implementation draws it (`to_string`), for trees with
/// the default glyphs and without the multi-line option: the root's label, then each leaf
/// depth first, one line each, behind the default glyphs.
#[verifier::external_body]
fn term_tree_render(t: &Tree<String>) -> (s: String)
    requires
        term_tree_shape(*t) is Some,
    ensures
        s@ == rendered_tree(term_tree_shape(*t).unwrap()),
{
    t.to_string()
}

/// The `termtree` tree of a labelled tree.
fn to_term_tree(t: &DisplayTree) -> (r: Tree<String>)
    ensures
        term_tree_shape(r) == Some(t@),
    decreases t@,
{
    proof {
        lemma_display_view(*t);
    }
    let mut tree = term_tree_new(t.label.clone());
    assert(t@.leaves.take(0) =~= Seq::<DisplayView>::empty());
    let mut i: usize = 0;
    while i < t.leaves.len()
        invariant
            i <= t.leaves@.len(),
            t@.leaves.len() == t.leaves@.len(),
            forall|m: int| 0 <= m < t.leaves@.len() ==> #[trigger] t@.leaves[m] == t.leaves@[m]@,
            term_tree_shape(tree) == Some(DisplayView { label: t@.label, leaves: t@.leaves.take(i as int) }),
        decreases t.leaves@.len() - i,
    {
        assert(t.leaves@[i as int]@ == t@.leaves[i as int]);
        let leaf = to_term_tree(&t.leaves[i]);
        term_tree_push(&mut tree, leaf);
        i = i + 1;
        assert(t@.leaves.take(i as int) =~= t@.leaves.take(i - 1).push(t@.leaves[i - 1]));
    }
    assert(t@.leaves.take(i as int) =~= t@.leaves);
    tree
}

impl Node {
    /// The text of the tree below this node as `termtree` draws it: one labelled line per
    /// node, children in the order of their names.
    pub fn display_tree(&self, show_tags: bool) -> (s: String)
        ensures
            exists|t: DisplayView| display_fits(t, self@) && s@ == #[trigger] rendered_tree(t),
    {
        let tree = self.build_display_tree(show_tags);
        let term = to_term_tree(&tree);
        term_tree_render(&term)
    }
}

} // verus!
