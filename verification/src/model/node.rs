//! Commit hashes, tags, branch data and the nodes of the branch tree.

use crate::model::node_type::{next_type_spec, NodeType};
use crate::model::path::{normalized_segments, path_segments, NormalizedPath, QualifiedPath};
use vstd::prelude::*;
use vstd::utf8::{encode_utf8, is_char_boundary};

verus! {

/// The hash of a commit.
pub struct CommitHash {
    full_hash: String,
}

impl View for CommitHash {
    type V = Seq<char>;

    closed spec fn view(&self) -> Seq<char> {
        self.full_hash@
    }
}

impl Clone for CommitHash {
    fn clone(&self) -> (r: Self)
        ensures
            r@ == self@,
    {
        CommitHash { full_hash: self.full_hash.clone() }
    }
}

impl CommitHash {
    /// The hash `full_hash`, which must be at least eight bytes long.
    pub fn new(full_hash: String) -> (h: Self)
        requires
            encode_utf8(full_hash@).len() >= 8,
        ensures
            h@ == full_hash@,
    {
        CommitHash { full_hash }
    }

    /// The full hash.
    pub fn get_full_hash(&self) -> (s: &String)
        ensures
            s@ == self@,
    {
        &self.full_hash
    }

    /// The first eight bytes of the hash.
    pub fn get_short_hash(&self) -> (s: String)
        requires
            encode_utf8(self@).len() >= 8,
            is_char_boundary(encode_utf8(self@), 8),
        ensures
            encode_utf8(s@) == encode_utf8(self@).subrange(0, 8),
    {
        let (head, _) = self.full_hash.as_str().split_at(8);
        head.to_owned()
    }

    /// Are both hashes the same?
    pub fn equals(&self, other: &CommitHash) -> (b: bool)
        ensures
            b == (self@ == other@),
    {
        self.full_hash == other.full_hash
    }
}

/// A tag of a commit: its name and the full path it was given as.
pub struct CommitTag {
    tag: String,
    full_path: String,
}

impl View for CommitTag {
    /// The tag name and the full path.
    type V = (Seq<char>, Seq<char>);

    closed spec fn view(&self) -> (Seq<char>, Seq<char>) {
        (self.tag@, self.full_path@)
    }
}

impl Clone for CommitTag {
    fn clone(&self) -> (r: Self)
        ensures
            r@ == self@,
    {
        CommitTag { tag: self.tag.clone(), full_path: self.full_path.clone() }
    }
}

impl CommitTag {
    /// The tag whose name is the last segment of the normalized `full_path`; the path must
    /// have a segment.
    pub fn new(full_path: String) -> (t: Self)
        requires
            normalized_segments(full_path@).len() > 0,
        ensures
            t@.0 == normalized_segments(full_path@).last(),
            t@.1 == full_path@,
    {
        let normalized = QualifiedPath::to_normalized_path(full_path.as_str());
        let tag = normalized.last().unwrap().clone();
        CommitTag { tag, full_path }
    }

    /// The full path the tag was given as.
    pub fn get_full_path(&self) -> (s: &String)
        ensures
            s@ == self@.1,
    {
        &self.full_path
    }

    /// The tag name.
    pub fn get_tag(&self) -> (s: &String)
        ensures
            s@ == self@.0,
    {
        &self.tag
    }
}

/// The optional branch name and head commit of a node.
pub struct BranchData {
    branch: Option<String>,
    head: Option<CommitHash>,
}

/// The branch name and head hash, as character sequences.
pub type BranchView = (Option<Seq<char>>, Option<Seq<char>>);

/// The view of an optional string.
pub open spec fn opt_view(s: Option<String>) -> Option<Seq<char>> {
    match s {
        Some(x) => Some(x@),
        None => None,
    }
}

/// The view of an optional hash.
pub open spec fn opt_hash_view(h: Option<CommitHash>) -> Option<Seq<char>> {
    match h {
        Some(x) => Some(x@),
        None => None,
    }
}

impl View for BranchData {
    type V = BranchView;

    closed spec fn view(&self) -> BranchView {
        (opt_view(self.branch), opt_hash_view(self.head))
    }
}

impl Clone for BranchData {
    fn clone(&self) -> (r: Self)
        ensures
            r@ == self@,
    {
        let branch = match &self.branch {
            Some(b) => Some(b.clone()),
            None => None,
        };
        let head = match &self.head {
            Some(h) => Some(h.clone()),
            None => None,
        };
        BranchData { branch, head }
    }
}

impl BranchData {
    /// Branch data with the given branch name and head.
    pub fn new(branch: Option<String>, head: Option<CommitHash>) -> (d: Self)
        ensures
            d@ == (opt_view(branch), opt_hash_view(head)),
    {
        Self { branch, head }
    }

    /// Branch data without branch and head.
    pub fn empty() -> (d: Self)
        ensures
            d@ == (None::<Seq<char>>, None::<Seq<char>>),
    {
        Self { branch: None, head: None }
    }

    /// Is there a branch?
    pub fn has_branch(&self) -> (b: bool)
        ensures
            b == self@.0 is Some,
    {
        self.branch.is_some()
    }

    /// The branch name, if any.
    pub fn get_branch(&self) -> (b: Option<&String>)
        ensures
            self@.0 is Some <==> b is Some,
            b is Some ==> self@.0 == Some(b.unwrap()@),
    {
        self.branch.as_ref()
    }

    /// The head commit, if any.
    pub fn get_head(&self) -> (h: Option<&CommitHash>)
        ensures
            self@.1 is Some <==> h is Some,
            h is Some ==> self@.1 == Some(h.unwrap()@),
    {
        self.head.as_ref()
    }
}

/// What an insertion puts at the end of a path: branch data or a tag.
pub enum PayloadType {
    Branch(BranchData),
    Tag(CommitTag),
}

/// The view of a payload.
pub enum PayloadView {
    Branch(BranchView),
    Tag((Seq<char>, Seq<char>)),
}

impl View for PayloadType {
    type V = PayloadView;

    open spec fn view(&self) -> PayloadView {
        match self {
            PayloadType::Branch(b) => PayloadView::Branch(b@),
            PayloadType::Tag(t) => PayloadView::Tag(t@),
        }
    }
}

/// A node of the branch tree, as mathematical values.
pub struct NodeView {
    pub name: Seq<char>,
    pub node_type: NodeType,
    pub branch: BranchView,
    pub tags: Seq<(Seq<char>, Seq<char>)>,
    pub children: Seq<NodeView>,
}

/// A node of the branch tree: a name, a kind, branch data, tags and named children.
pub struct Node {
    name: String,
    node_type: NodeType,
    branch_data: BranchData,
    tags: Vec<CommitTag>,
    children: Vec<Node>,
}

/// The view of a node.
pub closed spec fn node_view(n: Node) -> NodeView
    decreases n,
{
    NodeView {
        name: n.name@,
        node_type: n.node_type,
        branch: n.branch_data@,
        tags: n.tags@.map_values(|t: CommitTag| t@),
        children: Seq::new(
            n.children@.len(),
            |i: int|
                if 0 <= i < n.children@.len() {
                    node_view(n.children@[i])
                } else {
                    empty_view()
                },
        ),
    }
}

/// A placeholder view.
pub open spec fn empty_view() -> NodeView {
    NodeView {
        name: Seq::empty(),
        node_type: NodeType::Unknown,
        branch: (None, None),
        tags: Seq::empty(),
        children: Seq::empty(),
    }
}

impl View for Node {
    type V = NodeView;

    closed spec fn view(&self) -> NodeView {
        node_view(*self)
    }
}

/// The position of the first of `children` from `from` on that is called `name`, or -1.
pub open spec fn find_child(children: Seq<NodeView>, name: Seq<char>, from: int) -> int
    decreases children.len() - from,
{
    if from < 0 || from >= children.len() {
        -1
    } else if children[from].name == name {
        from
    } else {
        find_child(children, name, from + 1)
    }
}

/// The node reached from `v` by following `path` through children names.
pub open spec fn lookup(v: NodeView, path: Seq<Seq<char>>) -> Option<NodeView>
    decreases path.len(),
{
    if path.len() == 0 {
        Some(v)
    } else {
        let i = find_child(v.children, path[0], 0);
        if 0 <= i < v.children.len() {
            lookup(v.children[i], path.drop_first())
        } else {
            None
        }
    }
}

/// A fresh child called `name` below `parent`, carrying `payload`.
pub open spec fn new_child(parent: NodeView, name: Seq<char>, payload: PayloadView) -> NodeView {
    match payload {
        PayloadView::Branch(b) => NodeView {
            name,
            node_type: next_type_spec(parent.node_type, name, b.0 is Some),
            branch: b,
            tags: Seq::empty(),
            children: Seq::empty(),
        },
        PayloadView::Tag(t) => NodeView {
            name,
            node_type: next_type_spec(parent.node_type, name, false),
            branch: (None, None),
            tags: seq![t],
            children: Seq::empty(),
        },
    }
}

/// An existing `child` of `parent` after `payload` reaches it: branch data replaces the old
/// and decides the kind anew; a tag is appended.
pub open spec fn updated_child(parent: NodeView, child: NodeView, payload: PayloadView) -> NodeView {
    match payload {
        PayloadView::Branch(b) => NodeView {
            node_type: next_type_spec(parent.node_type, child.name, b.0 is Some),
            branch: b,
            ..child
        },
        PayloadView::Tag(t) => NodeView { tags: child.tags.push(t), ..child },
    }
}

/// The tree `v` after inserting `payload` at `path`: missing nodes on the way are created
/// without branch data, the last node is created or updated with the payload.
pub open spec fn inserted(v: NodeView, path: Seq<Seq<char>>, payload: PayloadView) -> NodeView
    decreases path.len(),
{
    if path.len() == 0 {
        v
    } else {
        let name = path[0];
        let i = find_child(v.children, name, 0);
        let child = if 0 <= i < v.children.len() {
            v.children[i]
        } else {
            new_child(v, name, PayloadView::Branch((None, None)))
        };
        let new_node = if path.len() == 1 {
            if 0 <= i < v.children.len() {
                updated_child(v, child, payload)
            } else {
                new_child(v, name, payload)
            }
        } else {
            inserted(child, path.drop_first(), payload)
        };
        if 0 <= i < v.children.len() {
            NodeView { children: v.children.update(i, new_node), ..v }
        } else {
            NodeView { children: v.children.push(new_node), ..v }
        }
    }
}

/// The kind of the node at `path` once `payload` has been inserted there.
pub open spec fn inserted_type(v: NodeView, path: Seq<Seq<char>>, payload: PayloadView) -> NodeType {
    match lookup(inserted(v, path, payload), path) {
        Some(n) => n.node_type,
        None => v.node_type,
    }
}


/// `find_child` gives the first position from `from` on with that name, or -1 when there is none.
pub proof fn lemma_find_child(cs: Seq<NodeView>, name: Seq<char>, from: int)
    requires
        0 <= from,
    ensures
        find_child(cs, name, from) == -1 || (from <= find_child(cs, name, from) < cs.len()
            && cs[find_child(cs, name, from)].name == name),
        forall|j: int|
            from <= j < cs.len() && (find_child(cs, name, from) == -1 || j < find_child(
                cs,
                name,
                from,
            )) ==> cs[j].name != name,
    decreases cs.len() - from,
{
    if from < cs.len() && cs[from].name != name {
        lemma_find_child(cs, name, from + 1);
    }
}

/// A position with the name and no earlier one is what `find_child` gives.
pub proof fn lemma_find_child_is(cs: Seq<NodeView>, name: Seq<char>, from: int, r: int)
    requires
        0 <= from <= r <= cs.len(),
        r < cs.len() ==> cs[r].name == name,
        forall|j: int| from <= j < r ==> cs[j].name != name,
    ensures
        find_child(cs, name, from) == if r < cs.len() { r } else { -1 },
    decreases r - from,
{
    if from < r {
        lemma_find_child_is(cs, name, from + 1, r);
    }
}

/// Replacing the first child of a name by a node of the same name keeps its position.
pub proof fn lemma_find_child_update(cs: Seq<NodeView>, name: Seq<char>, i: int, x: NodeView)
    requires
        i == find_child(cs, name, 0),
        0 <= i < cs.len(),
        x.name == name,
    ensures
        find_child(cs.update(i, x), name, 0) == i,
{
    lemma_find_child(cs, name, 0);
    lemma_find_child_is(cs.update(i, x), name, 0, i);
}

/// Appending a node of a name that no child has puts it at the end.
pub proof fn lemma_find_child_push(cs: Seq<NodeView>, name: Seq<char>, x: NodeView)
    requires
        find_child(cs, name, 0) == -1,
        x.name == name,
    ensures
        find_child(cs.push(x), name, 0) == cs.len(),
{
    lemma_find_child(cs, name, 0);
    lemma_find_child_is(cs.push(x), name, 0, cs.len() as int);
}

/// After an insertion, its path leads to a node.
pub proof fn lemma_lookup_inserted_some(v: NodeView, path: Seq<Seq<char>>, payload: PayloadView)
    ensures
        lookup(inserted(v, path, payload), path) is Some,
    decreases path.len(),
{
    if path.len() > 0 {
        lemma_lookup_inserted_step(v, path, payload);
        if path.len() > 1 {
            let i = find_child(v.children, path[0], 0);
            let child = if 0 <= i < v.children.len() {
                v.children[i]
            } else {
                new_child(v, path[0], PayloadView::Branch((None, None)))
            };
            lemma_lookup_inserted_some(child, path.drop_first(), payload);
        }
    }
}

/// Insertion keeps the name of the node it starts from.
pub proof fn lemma_inserted_name(v: NodeView, path: Seq<Seq<char>>, payload: PayloadView)
    ensures
        inserted(v, path, payload).name == v.name,
        inserted(v, path, payload).node_type == v.node_type,
        inserted(v, path, payload).branch == v.branch,
        inserted(v, path, payload).tags == v.tags,
{
}

/// Looking up the path of an insertion finds the node it put there: one step down, the node
/// that the rest of the path leads to in the inserted child.
pub proof fn lemma_lookup_inserted_step(v: NodeView, path: Seq<Seq<char>>, payload: PayloadView)
    requires
        path.len() > 0,
    ensures
        ({
            let name = path[0];
            let i = find_child(v.children, name, 0);
            let child = if 0 <= i < v.children.len() {
                v.children[i]
            } else {
                new_child(v, name, PayloadView::Branch((None, None)))
            };
            lookup(inserted(v, path, payload), path) == if path.len() == 1 {
                Some(
                    if 0 <= i < v.children.len() {
                        updated_child(v, child, payload)
                    } else {
                        new_child(v, name, payload)
                    },
                )
            } else {
                lookup(inserted(child, path.drop_first(), payload), path.drop_first())
            }
        }),
{
    let name = path[0];
    let i = find_child(v.children, name, 0);
    lemma_find_child(v.children, name, 0);
    let child = if 0 <= i < v.children.len() {
        v.children[i]
    } else {
        new_child(v, name, PayloadView::Branch((None, None)))
    };
    let new_node = if path.len() == 1 {
        if 0 <= i < v.children.len() {
            updated_child(v, child, payload)
        } else {
            new_child(v, name, payload)
        }
    } else {
        inserted(child, path.drop_first(), payload)
    };
    lemma_inserted_name(child, path.drop_first(), payload);
    assert(new_node.name == name);
    let w = inserted(v, path, payload);
    if 0 <= i < v.children.len() {
        lemma_find_child_update(v.children, name, i, new_node);
        assert(w.children == v.children.update(i, new_node));
    } else {
        lemma_find_child_push(v.children, name, new_node);
        assert(w.children == v.children.push(new_node));
    }
    assert(lookup(new_node, path.drop_first()) == if path.len() == 1 {
        Some(new_node)
    } else {
        lookup(new_node, path.drop_first())
    });
}


/// Paths lead to a node from either of two nodes with the same children alike.
proof fn lemma_lookup_same_children(x: NodeView, y: NodeView, q: Seq<Seq<char>>)
    requires
        x.children == y.children,
    ensures
        (lookup(x, q) is Some) == (lookup(y, q) is Some),
{
}

/// Inserting keeps every node the tree had: a path that led to a node before leads to a node
/// afterwards.
pub proof fn law_insert_keeps_nodes(v: NodeView, path: Seq<Seq<char>>, payload: PayloadView, q: Seq<Seq<char>>)
    requires
        lookup(v, q) is Some,
    ensures
        lookup(inserted(v, path, payload), q) is Some,
    decreases q.len(),
{
    if q.len() > 0 && path.len() > 0 {
        let i = find_child(v.children, q[0], 0);
        lemma_find_child(v.children, q[0], 0);
        let name = path[0];
        let j = find_child(v.children, name, 0);
        lemma_find_child(v.children, name, 0);
        let child = if 0 <= j < v.children.len() {
            v.children[j]
        } else {
            new_child(v, name, PayloadView::Branch((None, None)))
        };
        let new_node = if path.len() == 1 {
            if 0 <= j < v.children.len() {
                updated_child(v, child, payload)
            } else {
                new_child(v, name, payload)
            }
        } else {
            inserted(child, path.drop_first(), payload)
        };
        lemma_inserted_name(child, path.drop_first(), payload);
        let w = inserted(v, path, payload);
        if 0 <= j < v.children.len() {
            assert(w.children == v.children.update(j, new_node));
            lemma_find_child_same_names(v.children, w.children, q[0], 0);
            if i == j {
                if path.len() == 1 {
                    lemma_lookup_same_children(new_node, v.children[i], q.drop_first());
                } else {
                    law_insert_keeps_nodes(v.children[i], path.drop_first(), payload, q.drop_first());
                }
            } else {
                assert(w.children[i] == v.children[i]);
            }
        } else {
            assert(w.children == v.children.push(new_node));
            lemma_find_child_is(w.children, q[0], 0, i);
            assert(w.children[i] == v.children[i]);
        }
    }
}

/// No two of the nodes have the same name.
pub open spec fn distinct_names(cs: Seq<NodeView>) -> bool {
    forall|i: int, j: int| 0 <= i < j < cs.len() ==> #[trigger] cs[i].name != #[trigger] cs[j].name
}

/// Below every node, the children have distinct names.
pub open spec fn tree_wf(v: NodeView) -> bool
    decreases v,
{
    &&& distinct_names(v.children)
    &&& forall|i: int| 0 <= i < v.children.len() ==> tree_wf(#[trigger] v.children[i])
}

/// Whether a tree is well formed depends on its children alone.
proof fn lemma_wf_same_children(x: NodeView, y: NodeView)
    requires
        x.children == y.children,
    ensures
        tree_wf(x) == tree_wf(y),
{
}

/// Inserting keeps the children of every node distinct by name.
pub proof fn law_insert_keeps_names_distinct(v: NodeView, path: Seq<Seq<char>>, payload: PayloadView)
    requires
        tree_wf(v),
    ensures
        tree_wf(inserted(v, path, payload)),
    decreases path.len(),
{
    if path.len() > 0 {
        let name = path[0];
        let i = find_child(v.children, name, 0);
        lemma_find_child(v.children, name, 0);
        let child = if 0 <= i < v.children.len() {
            v.children[i]
        } else {
            new_child(v, name, PayloadView::Branch((None, None)))
        };
        let new_node = if path.len() == 1 {
            if 0 <= i < v.children.len() {
                updated_child(v, child, payload)
            } else {
                new_child(v, name, payload)
            }
        } else {
            inserted(child, path.drop_first(), payload)
        };
        lemma_inserted_name(child, path.drop_first(), payload);
        if path.len() == 1 {
            if 0 <= i < v.children.len() {
                lemma_wf_same_children(new_node, child);
            }
        } else {
            law_insert_keeps_names_distinct(child, path.drop_first(), payload);
        }
        let w = inserted(v, path, payload);
        if 0 <= i < v.children.len() {
            assert(w.children == v.children.update(i, new_node));
            assert forall|a: int, b: int| 0 <= a < b < w.children.len() implies #[trigger] w.children[a].name
                != #[trigger] w.children[b].name by {
                assert(v.children[a].name != v.children[b].name);
            }
            assert forall|a: int| 0 <= a < w.children.len() implies tree_wf(#[trigger] w.children[a]) by {
                if a != i {
                    assert(w.children[a] == v.children[a]);
                }
            }
        } else {
            assert(w.children == v.children.push(new_node));
            assert forall|a: int, b: int| 0 <= a < b < w.children.len() implies #[trigger] w.children[a].name
                != #[trigger] w.children[b].name by {
                if b < v.children.len() {
                    assert(v.children[a].name != v.children[b].name);
                } else {
                    assert(w.children[a] == v.children[a]);
                }
            }
            assert forall|a: int| 0 <= a < w.children.len() implies tree_wf(#[trigger] w.children[a]) by {
                if a < v.children.len() {
                    assert(w.children[a] == v.children[a]);
                }
            }
        }
    }
}

/// Is `a` a prefix of `b`?
pub open spec fn is_prefix(a: Seq<Seq<char>>, b: Seq<Seq<char>>) -> bool {
    a.len() <= b.len() && b.subrange(0, a.len() as int) == a
}

/// `find_child` looks at names only.
pub proof fn lemma_find_child_same_names(a: Seq<NodeView>, b: Seq<NodeView>, name: Seq<char>, from: int)
    requires
        a.len() == b.len(),
        forall|j: int| 0 <= j < a.len() ==> a[j].name == b[j].name,
    ensures
        find_child(a, name, from) == find_child(b, name, from),
    decreases a.len() - from,
{
    if 0 <= from < a.len() {
        lemma_find_child_same_names(a, b, name, from + 1);
    }
}

/// Appending a node of another name does not move the first child of a name.
pub proof fn lemma_find_child_push_other(cs: Seq<NodeView>, x: NodeView, name: Seq<char>)
    requires
        x.name != name,
    ensures
        find_child(cs.push(x), name, 0) == find_child(cs, name, 0),
{
    lemma_find_child(cs, name, 0);
    let r = find_child(cs, name, 0);
    if r == -1 {
        lemma_find_child_is(cs.push(x), name, 0, (cs.len() + 1) as int);
    } else {
        lemma_find_child_is(cs.push(x), name, 0, r);
    }
}

/// Inserting at `path` leads to a node there: with branch data the node carries that data,
/// with a tag the node's tags end with it; its kind is what the insertion reports, and every
/// node on the way exists afterwards.
pub proof fn law_insert_then_lookup(v: NodeView, path: Seq<Seq<char>>, payload: PayloadView)
    requires
        path.len() > 0,
    ensures
        lookup(inserted(v, path, payload), path) is Some,
        lookup(inserted(v, path, payload), path).unwrap().node_type == inserted_type(v, path, payload),
        lookup(inserted(v, path, payload), path).unwrap().name == path.last(),
        match payload {
            PayloadView::Branch(b) => lookup(inserted(v, path, payload), path).unwrap().branch == b,
            PayloadView::Tag(t) => {
                let tags = lookup(inserted(v, path, payload), path).unwrap().tags;
                tags.len() > 0 && tags.last() == t
            },
        },
        forall|k: int| 0 <= k <= path.len() ==> (#[trigger] lookup(inserted(v, path, payload), path.take(k))) is Some,
    decreases path.len(),
{
    lemma_lookup_inserted_step(v, path, payload);
    lemma_find_child(v.children, path[0], 0);
    let i = find_child(v.children, path[0], 0);
    let child = if 0 <= i < v.children.len() {
        v.children[i]
    } else {
        new_child(v, path[0], PayloadView::Branch((None, None)))
    };
    let w = inserted(v, path, payload);
    if path.len() > 1 {
        law_insert_then_lookup(child, path.drop_first(), payload);
        assert(path.drop_first().last() == path.last());
    }
    assert forall|k: int| 0 <= k <= path.len() implies (#[trigger] lookup(w, path.take(k))) is Some by {
        if k > 0 {
            lemma_lookup_inserted_step(v, path.take(k), payload);
            assert(path.take(k)[0] == path[0]);
            // the first step of path.take(k) goes to the same child of w
            let new_node = if path.len() == 1 {
                if 0 <= i < v.children.len() {
                    updated_child(v, child, payload)
                } else {
                    new_child(v, path[0], payload)
                }
            } else {
                inserted(child, path.drop_first(), payload)
            };
            lemma_inserted_name(child, path.drop_first(), payload);
            if 0 <= i < v.children.len() {
                lemma_find_child_update(v.children, path[0], i, new_node);
            } else {
                lemma_find_child_push(v.children, path[0], new_node);
            }
            assert(path.take(k).drop_first() =~= path.drop_first().take(k - 1));
            if k > 1 {
                assert(lookup(new_node, path.drop_first().take(k - 1)) is Some);
            }
        } else {
            assert(path.take(0) =~= Seq::<Seq<char>>::empty());
        }
    }
}

/// Inserting at `path` leaves every lookup of a path that is not a prefix of `path` as it was.
pub proof fn law_insert_keeps_other_paths(
    v: NodeView,
    path: Seq<Seq<char>>,
    payload: PayloadView,
    other: Seq<Seq<char>>,
)
    requires
        !is_prefix(other, path),
    ensures
        lookup(inserted(v, path, payload), other) == lookup(v, other),
    decreases path.len(),
{
    if other.len() == 0 {
        assert(is_prefix(other, path)) by {
            assert(path.subrange(0, 0) =~= other);
        }
    }
    if path.len() == 0 {
        return;
    }
    lemma_find_child(v.children, path[0], 0);
    let i = find_child(v.children, path[0], 0);
    let child = if 0 <= i < v.children.len() {
        v.children[i]
    } else {
        new_child(v, path[0], PayloadView::Branch((None, None)))
    };
    let new_node = if path.len() == 1 {
        if 0 <= i < v.children.len() {
            updated_child(v, child, payload)
        } else {
            new_child(v, path[0], payload)
        }
    } else {
        inserted(child, path.drop_first(), payload)
    };
    lemma_inserted_name(child, path.drop_first(), payload);
    let w = inserted(v, path, payload);
    let j = find_child(v.children, other[0], 0);
    if other[0] != path[0] {
        if 0 <= i < v.children.len() {
            lemma_find_child_same_names(w.children, v.children, other[0], 0);
        } else {
            lemma_find_child_push_other(v.children, new_node, other[0]);
        }
        lemma_find_child(v.children, other[0], 0);
    } else {
        if 0 <= i < v.children.len() {
            lemma_find_child_update(v.children, path[0], i, new_node);
        } else {
            lemma_find_child_push(v.children, path[0], new_node);
        }
        assert(!is_prefix(other.drop_first(), path.drop_first())) by {
            if is_prefix(other.drop_first(), path.drop_first()) {
                assert forall|k: int| 0 <= k < other.len() implies path[k] == other[k] by {
                    if k > 0 {
                        assert(path.drop_first().subrange(0, other.len() - 1)[k - 1] == other.drop_first()[k - 1]);
                    }
                }
                assert(path.subrange(0, other.len() as int) =~= other);
            }
        }
        if path.len() == 1 {
            assert(other.len() > 1) by {
                if other.len() == 1 {
                    assert(path.subrange(0, 1) =~= other);
                }
            }
            if !(0 <= i < v.children.len()) {
                assert(lookup(new_node, other.drop_first()) is None);
            } else {
                assert(new_node.children == child.children);
            }
        } else {
            law_insert_keeps_other_paths(child, path.drop_first(), payload, other.drop_first());
            if !(0 <= i < v.children.len()) {
                assert(lookup(child, other.drop_first()) is None);
            }
        }
    }
}

proof fn lemma_view_children(n: Node)
    ensures
        n@.children.len() == n.children@.len(),
        forall|i: int| 0 <= i < n.children@.len() ==> #[trigger] n@.children[i] == n.children@[i]@,
        n@.name == n.name@,
        n@.node_type == n.node_type,
        n@.branch == n.branch_data@,
        n@.tags == n.tags@.map_values(|t: CommitTag| t@),
{
}

impl Node {
    /// A node without children.
    pub fn new(name: String, node_type: NodeType, branch_data: BranchData, tags: Vec<CommitTag>) -> (n: Self)
        ensures
            n@.name == name@,
            n@.node_type == node_type,
            n@.branch == branch_data@,
            n@.tags == tags@.map_values(|t: CommitTag| t@),
            n@.children == Seq::<NodeView>::empty(),
    {
        let n = Self { name, node_type, branch_data, tags, children: Vec::new() };
        assert(n@.children =~= Seq::<NodeView>::empty());
        n
    }

    /// Replaces the branch data.
    pub fn update_branch_data(&mut self, metadata: BranchData)
        ensures
            final(self)@ == (NodeView { branch: metadata@, ..old(self)@ }),
    {
        self.branch_data = metadata;
        proof {
            lemma_view_children(*old(self));
            lemma_view_children(*final(self));
        }
        assert(final(self)@.children =~= old(self)@.children);
    }

    /// Appends a tag.
    pub fn add_tag(&mut self, tag: CommitTag)
        ensures
            final(self)@ == (NodeView { tags: old(self)@.tags.push(tag@), ..old(self)@ }),
    {
        self.tags.push(tag);
        proof {
            lemma_view_children(*old(self));
            lemma_view_children(*final(self));
        }
        assert(final(self)@.children =~= old(self)@.children);
        assert(final(self)@.tags =~= old(self)@.tags.push(tag@));
    }

    /// Replaces the kind.
    pub fn update_type(&mut self, node_type: NodeType)
        ensures
            final(self)@ == (NodeView { node_type, ..old(self)@ }),
    {
        self.node_type = node_type;
        proof {
            lemma_view_children(*old(self));
            lemma_view_children(*final(self));
        }
        assert(final(self)@.children =~= old(self)@.children);
    }

    /// The name.
    pub fn get_name(&self) -> (s: &String)
        ensures
            s@ == self@.name,
    {
        &self.name
    }

    /// The kind.
    pub fn get_type(&self) -> (t: &NodeType)
        ensures
            *t == self@.node_type,
    {
        &self.node_type
    }

    /// The branch data.
    pub fn get_branch_data(&self) -> (b: &BranchData)
        ensures
            b@ == self@.branch,
    {
        &self.branch_data
    }

    /// The tags.
    pub fn get_tags(&self) -> (t: &Vec<CommitTag>)
        ensures
            t@.map_values(|x: CommitTag| x@) == self@.tags,
    {
        &self.tags
    }

    /// The children, in the order they were added.
    pub fn iter_children(&self) -> (c: &Vec<Node>)
        ensures
            c@.len() == self@.children.len(),
            forall|i: int| 0 <= i < c@.len() ==> #[trigger] c@[i]@ == self@.children[i],
    {
        proof {
            lemma_view_children(*self);
        }
        &self.children
    }

    /// Does the node have children?
    pub fn has_children(&self) -> (b: bool)
        ensures
            b == (self@.children.len() > 0),
    {
        proof {
            lemma_view_children(*self);
        }
        self.children.len() > 0
    }

    /// The position of the child called `name`, or -1 as `find_child` gives it.
    fn child_position(&self, name: &String) -> (i: Option<usize>)
        ensures
            match i {
                Some(k) => k == find_child(self@.children, name@, 0) && k < self@.children.len(),
                None => find_child(self@.children, name@, 0) == -1,
            },
    {
        proof {
            lemma_view_children(*self);
        }
        let mut k: usize = 0;
        while k < self.children.len()
            invariant
                k <= self@.children.len(),
                self@.children.len() == self.children@.len(),
                forall|j: int| 0 <= j < self.children@.len() ==> #[trigger] self@.children[j] == self.children@[j]@,
                find_child(self@.children, name@, 0) == find_child(self@.children, name@, k as int),
            decreases self.children@.len() - k,
        {
            if self.children[k].name == *name {
                return Some(k);
            }
            k = k + 1;
        }
        None
    }


    /// Adds a child called `name` carrying `metadata`, of the kind decided below this node,
    /// with no children of its own; a child of that name is replaced by it, otherwise it is
    /// appended. Afterwards the name finds the new child.
    fn add_child(&mut self, name: String, metadata: PayloadType) -> (t: NodeType)
        ensures
            ({
                let nc = new_child(old(self)@, name@, metadata@);
                let i = find_child(old(self)@.children, name@, 0);
                &&& i == -1 ==> final(self)@ == (NodeView { children: old(self)@.children.push(nc), ..old(self)@ })
                    && find_child(final(self)@.children, name@, 0) == old(self)@.children.len()
                &&& i != -1 ==> final(self)@ == (NodeView { children: old(self)@.children.update(i, nc), ..old(self)@ })
                    && find_child(final(self)@.children, name@, 0) == i
                &&& t == nc.node_type
            }),
    {
        let position = self.child_position(&name);
        let (branch, tags) = match metadata {
            PayloadType::Branch(branch) => (branch, Vec::new()),
            PayloadType::Tag(tag) => {
                let mut tags = Vec::new();
                tags.push(tag);
                (BranchData::empty(), tags)
            },
        };
        let node_type = self.node_type.decide_next_type(name.as_str(), &branch);
        let ghost nc = new_child(old(self)@, name@, metadata@);
        let child = Node::new(name, node_type, branch, tags);
        proof {
            lemma_view_children(*old(self));
            assert(child@.tags =~= nc.tags);
            assert(child@.children =~= nc.children);
            assert(child@ == nc);
        }
        match position {
            Some(k) => {
                self.children.set(k, child);
                proof {
                    lemma_view_children(*final(self));
                    assert(final(self)@.children =~= old(self)@.children.update(k as int, nc));
                    lemma_find_child_update(old(self)@.children, name@, k as int, nc);
                }
            },
            None => {
                self.children.push(child);
                proof {
                    lemma_view_children(*final(self));
                    assert(final(self)@.children =~= old(self)@.children.push(nc));
                    lemma_find_child_push(old(self)@.children, name@, nc);
                }
            },
        }
        node_type
    }

    /// Applies `metadata` to the child at position `k`.
    fn update_child(&mut self, k: usize, metadata: PayloadType) -> (t: NodeType)
        requires
            k < old(self)@.children.len(),
        ensures
            final(self)@ == (NodeView {
                children: old(self)@.children.update(
                    k as int,
                    updated_child(old(self)@, old(self)@.children[k as int], metadata@),
                ),
                ..old(self)@
            }),
            t == updated_child(old(self)@, old(self)@.children[k as int], metadata@).node_type,
    {
        proof {
            lemma_view_children(*old(self));
        }
        let parent_type = self.node_type;
        let t = match metadata {
            PayloadType::Branch(branch) => {
                let new_type = parent_type.decide_next_type(self.children[k].name.as_str(), &branch);
                self.children[k].update_type(new_type);
                self.children[k].update_branch_data(branch);
                new_type
            },
            PayloadType::Tag(tag) => {
                self.children[k].add_tag(tag);
                self.children[k].node_type
            },
        };
        proof {
            lemma_view_children(*final(self));
        }
        assert(final(self)@.children =~= old(self)@.children.update(
            k as int,
            updated_child(old(self)@, old(self)@.children[k as int], metadata@),
        ));
        t
    }

    /// Inserts `metadata` at `path` below this node: nodes missing on the way are created
    /// without branch data, the last node is created with the payload or updated by it.
    /// Gives back the kind of the node at `path` afterwards (this node's kind for the empty
    /// path).
    pub fn insert_path(&mut self, path: &NormalizedPath, metadata: PayloadType) -> (t: NodeType)
        ensures
            final(self)@ == inserted(old(self)@, path@, metadata@),
            t == inserted_type(old(self)@, path@, metadata@),
        decreases path@.len(),
    {
        if path.len() == 0 {
            return self.node_type;
        }
        proof {
            lemma_lookup_inserted_step(self@, path@, metadata@);
            lemma_find_child(self@.children, path@[0], 0);
        }
        let name = path.get(0).unwrap().clone();
        let pos = self.child_position(&name);
        assert(name@ == path@[0]);
        if path.len() == 1 {
            match pos {
                Some(k) => {
                    let t = self.update_child(k, metadata);
                    assert(final(self)@ == inserted(old(self)@, path@, metadata@));
                    t
                },
                None => {
                    let t = self.add_child(name, metadata);
                    assert(final(self)@ == inserted(old(self)@, path@, metadata@));
                    t
                },
            }
        } else {
            let k = match pos {
                Some(k) => k,
                None => {
                    self.add_child(name, PayloadType::Branch(BranchData::empty()));
                    proof {
                        lemma_view_children(*self);
                    }
                    self.children.len() - 1
                },
            };
            let ghost mid = self@;
            let rest = path.strip_n_left(1);
            assert(rest@ == path@.drop_first());
            proof {
                lemma_view_children(*self);
            }
            let ghost child = mid.children[k as int];
            assert(child == if pos.is_some() {
                old(self)@.children[k as int]
            } else {
                new_child(old(self)@, path@[0], PayloadView::Branch((None, None)))
            });
            let t = self.children[k].insert_path(&rest, metadata);
            proof {
                lemma_view_children(*final(self));
                lemma_lookup_inserted_some(child, path@.drop_first(), metadata@);
            }
            assert(final(self)@.children =~= mid.children.update(
                k as int,
                inserted(child, path@.drop_first(), metadata@),
            ));
            if pos.is_some() {
                assert(final(self)@ == inserted(old(self)@, path@, metadata@));
            } else {
                assert(mid.children.update(k as int, inserted(child, path@.drop_first(), metadata@))
                    =~= old(self)@.children.push(inserted(child, path@.drop_first(), metadata@)));
                assert(final(self)@ == inserted(old(self)@, path@, metadata@));
            }
            t
        }
    }

    /// The child called `name`, if there is one.
    pub fn get_child(&self, name: &String) -> (c: Option<&Node>)
        ensures
            match c {
                Some(n) => lookup(self@, seq![name@]) == Some(n@),
                None => lookup(self@, seq![name@]) is None,
            },
    {
        proof {
            lemma_view_children(*self);
        }
        let pos = self.child_position(name);
        assert(seq![name@].drop_first() =~= Seq::<Seq<char>>::empty());
        match pos {
            Some(k) => {
                assert(lookup(self@.children[k as int], seq![name@].drop_first()) == Some(
                    self@.children[k as int],
                ));
                Some(&self.children[k])
            },
            None => None,
        }
    }

    /// The path of one segment made of the name.
    pub fn as_qualified_path(&self) -> (p: NormalizedPath)
        ensures
            p@ == path_segments(self@.name),
    {
        QualifiedPath::from_str(self.name.as_str())
    }
}

} // verus!
