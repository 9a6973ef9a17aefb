//! The branch tree of a repository and typed paths into it.

use crate::model::error::{ModelError, PathNotFoundError, WrongNodeTypeError};
use crate::model::node::{
    inserted, inserted_type, law_insert_keeps_names_distinct, lookup, tree_wf, BranchData, CommitTag,
    Node, NodeView, PayloadType, PayloadView,
};
use crate::model::node_type::{IsGitObject, NodeType};
use crate::model::path::{NormalizedPath, QualifiedPath};
use crate::text::owned;
use core::marker::PhantomData;
use vstd::prelude::*;

verus! {

/// A path that is known to lead to a node of a kind that `T` covers.
pub struct NodePath<T: IsGitObject> {
    path: QualifiedPath,
    node_type: NodeType,
    marker: PhantomData<T>,
}

impl<T: IsGitObject> NodePath<T> {
    /// The kind of the node the path leads to is one that `T` covers.
    #[verifier::type_invariant]
    pub closed spec fn typed(self) -> bool {
        T::accepts(self.node_type)
    }

    /// A typed path leads to a node of a kind that `T` covers.
    pub proof fn lemma_typed(self)
        requires
            self.typed(),
        ensures
            T::accepts(self@.1),
    {
    }
}

impl<T: IsGitObject> View for NodePath<T> {
    /// The segments of the path and the kind of the node it leads to.
    type V = (Seq<Seq<char>>, NodeType);

    closed spec fn view(&self) -> (Seq<Seq<char>>, NodeType) {
        (self.path@, self.node_type)
    }
}

impl<T: IsGitObject> Clone for NodePath<T> {
    fn clone(&self) -> (r: Self)
        ensures
            r@ == self@,
    {
        proof {
            use_type_invariant(self);
        }
        NodePath { path: self.path.clone(), node_type: self.node_type, marker: PhantomData }
    }
}

impl<T: IsGitObject> NodePath<T> {
    /// A typed path; the kind must be one that `T` covers.
    pub fn new(path: QualifiedPath, node_type: NodeType) -> (p: Self)
        requires
            T::accepts(node_type),
        ensures
            p@ == (path@, node_type),
    {
        NodePath { path, node_type, marker: PhantomData }
    }

    /// The path.
    pub fn to_qualified_path(&self) -> (p: QualifiedPath)
        ensures
            p@ == self@.0,
    {
        self.path.clone()
    }

    /// The path, normalized.
    pub fn to_normalized_path(&self) -> (p: NormalizedPath)
        ensures
            p@ == self@.0,
    {
        self.path.clone()
    }

    /// The kind of the node the path leads to, one that `T` covers.
    pub fn get_type(&self) -> (t: NodeType)
        ensures
            t == self@.1,
            T::accepts(t),
    {
        proof {
            use_type_invariant(self);
        }
        self.node_type
    }

    /// The same path typed by `U`, if `U` covers the node's kind.
    pub fn try_convert_to<U: IsGitObject>(&self) -> (p: Option<NodePath<U>>)
        ensures
            p is Some <==> U::accepts(self@.1),
            p is Some ==> p.unwrap()@ == self@,
    {
        if U::is_compatible(&self.node_type) {
            Some(NodePath { path: self.path.clone(), node_type: self.node_type, marker: PhantomData })
        } else {
            None
        }
    }

    /// Do both lead along the same segments?
    pub fn equals(&self, other: &NodePath<T>) -> (b: bool)
        ensures
            b == (self@.0 == other@.0),
    {
        self.path.equals(&other.path)
    }
}

/// Looking up `p` followed by one more segment is a step down from the node at `p`.
pub proof fn lemma_lookup_push(v: NodeView, p: Seq<Seq<char>>, seg: Seq<char>)
    ensures
        lookup(v, p.push(seg)) == match lookup(v, p) {
            Some(n) => lookup(n, seq![seg]),
            None => None,
        },
    decreases p.len(),
{
    if p.len() == 0 {
        assert(p.push(seg) =~= seq![seg]);
    } else {
        assert(p.push(seg).drop_first() =~= p.drop_first().push(seg));
        assert(p.push(seg)[0] == p[0]);
        let i = crate::model::node::find_child(v.children, p[0], 0);
        if 0 <= i < v.children.len() {
            lemma_lookup_push(v.children[i], p.drop_first(), seg);
        }
    }
}

/// The tree with nothing but the virtual root.
pub open spec fn empty_model() -> NodeView {
    NodeView {
        name: Seq::empty(),
        node_type: NodeType::VirtualRoot,
        branch: (None, None),
        tags: Seq::empty(),
        children: Seq::empty(),
    }
}

/// The branch tree of a repository, below a virtual root.
pub struct TreeDataModel {
    root: Node,
}

impl View for TreeDataModel {
    type V = NodeView;

    closed spec fn view(&self) -> NodeView {
        self.root@
    }
}

impl TreeDataModel {
    /// A tree with only the virtual root.
    pub fn new() -> (m: Self)
        ensures
            m@ == empty_model(),
            tree_wf(m@),
    {
        let m = TreeDataModel {
            root: Node::new(String::new(), NodeType::VirtualRoot, BranchData::empty(), Vec::new()),
        };
        assert(m@.tags =~= Seq::<(Seq<char>, Seq<char>)>::empty());
        assert(m@.name =~= Seq::<char>::empty());
        m
    }

    /// The virtual root.
    pub fn get_root(&self) -> (r: &Node)
        ensures
            r@ == self@,
    {
        &self.root
    }

    /// Inserts a branch called `branch` at `path` and gives back the kind of the node there.
    pub fn insert_branch(&mut self, path: &QualifiedPath, branch: String) -> (t: NodeType)
        ensures
            final(self)@ == inserted(old(self)@, path@, PayloadView::Branch((Some(branch@), None))),
            t == inserted_type(old(self)@, path@, PayloadView::Branch((Some(branch@), None))),
            tree_wf(old(self)@) ==> tree_wf(final(self)@),
    {
        proof {
            if tree_wf(old(self)@) {
                law_insert_keeps_names_distinct(old(self)@, path@, PayloadView::Branch((Some(branch@), None)));
            }
        }
        self.root.insert_path(path, PayloadType::Branch(BranchData::new(Some(branch), None)))
    }

    /// Inserts `tag` at `path`: the node there gets the tag (and is created if missing), and
    /// gives back the kind of the node there.
    pub fn insert_tag(&mut self, path: &QualifiedPath, tag: CommitTag) -> (t: NodeType)
        ensures
            final(self)@ == inserted(old(self)@, path@, PayloadView::Tag(tag@)),
            t == inserted_type(old(self)@, path@, PayloadView::Tag(tag@)),
            tree_wf(old(self)@) ==> tree_wf(final(self)@),
    {
        proof {
            if tree_wf(old(self)@) {
                law_insert_keeps_names_distinct(old(self)@, path@, PayloadView::Tag(tag@));
            }
        }
        self.root.insert_path(path, PayloadType::Tag(tag))
    }

    /// Inserts the nodes of `path` without branch data where they are missing and gives back
    /// the kind of the node at `path`.
    pub fn insert_qualified_path(&mut self, path: &QualifiedPath) -> (t: NodeType)
        ensures
            final(self)@ == inserted(old(self)@, path@, PayloadView::Branch((None, None))),
            t == inserted_type(old(self)@, path@, PayloadView::Branch((None, None))),
            tree_wf(old(self)@) ==> tree_wf(final(self)@),
    {
        proof {
            if tree_wf(old(self)@) {
                law_insert_keeps_names_distinct(old(self)@, path@, PayloadView::Branch((None, None)));
            }
        }
        self.root.insert_path(path, PayloadType::Branch(BranchData::empty()))
    }

    /// The node at `path`, if there is one.
    pub fn get_node(&self, path: &QualifiedPath) -> (n: Option<&Node>)
        ensures
            match n {
                Some(x) => lookup(self@, path@) == Some(x@),
                None => lookup(self@, path@) is None,
            },
    {
        let mut cur: &Node = &self.root;
        let mut i: usize = 0;
        while i < path.len()
            invariant
                i <= path@.len(),
                lookup(self@, path@.take(i as int)) == Some(cur@),
            decreases path@.len() - i,
        {
            let seg = path.get(i).unwrap();
            proof {
                lemma_lookup_push(self@, path@.take(i as int), seg@);
                assert(path@.take(i as int).push(seg@) =~= path@.take(i + 1));
            }
            match cur.get_child(seg) {
                Some(c) => {
                    cur = c;
                },
                None => {
                    proof {
                        lemma_lookup_none_extends(self@, path@.take(i + 1), path@);
                    }
                    return None;
                },
            }
            i = i + 1;
        }
        assert(path@.take(path@.len() as int) =~= path@);
        Some(cur)
    }

    /// The path typed by `T` if it leads to a node of a kind `T` covers; otherwise the error
    /// that says which of both failed.
    pub fn assert_path<T: IsGitObject>(&self, path: &QualifiedPath) -> (r: Result<NodePath<T>, ModelError>)
        ensures
            match r {
                Ok(p) => lookup(self@, path@) is Some && T::accepts(lookup(self@, path@).unwrap().node_type)
                    && p@ == (path@, lookup(self@, path@).unwrap().node_type),
                Err(ModelError::PathNotFound(_)) => lookup(self@, path@) is None,
                Err(ModelError::WrongNodeType(_)) => lookup(self@, path@) is Some && !T::accepts(
                    lookup(self@, path@).unwrap().node_type,
                ),
            },
    {
        match self.get_node(path) {
            None => Err(ModelError::PathNotFound(PathNotFoundError::new(owned("fatal: path not found")))),
            Some(node) => {
                let t = *node.get_type();
                if T::is_compatible(&t) {
                    Ok(NodePath::new(path.clone(), t))
                } else {
                    let mut msg = owned("fatal: path is of type ");
                    msg.append(t.get_type_name().as_str());
                    Err(ModelError::WrongNodeType(WrongNodeTypeError::new(msg)))
                }
            },
        }
    }

    /// The path typed by `T` if it leads to a node of a kind `T` covers.
    pub fn get_node_path<T: IsGitObject>(&self, path: &QualifiedPath) -> (r: Option<NodePath<T>>)
        ensures
            r is Some <==> (lookup(self@, path@) is Some && T::accepts(lookup(self@, path@).unwrap().node_type)),
            r is Some ==> r.unwrap()@ == (path@, lookup(self@, path@).unwrap().node_type),
    {
        match self.assert_path::<T>(path) {
            Ok(p) => Some(p),
            Err(_) => None,
        }
    }

    /// All paths typed by `T`, or the first error.
    pub fn assert_all<T: IsGitObject>(&self, paths: &Vec<QualifiedPath>) -> (r: Result<Vec<NodePath<T>>, ModelError>)
        ensures
            match r {
                Ok(v) => v@.len() == paths@.len() && forall|i: int|
                    #![trigger v@[i]]
                    0 <= i < paths@.len() ==> typed_at::<T>(self@, paths@[i]@, v@[i]@),
                Err(_) => exists|i: int|
                    #![trigger paths@[i]]
                    0 <= i < paths@.len() && !(lookup(self@, paths@[i]@) is Some && T::accepts(
                        lookup(self@, paths@[i]@).unwrap().node_type,
                    )),
            },
    {
        let mut out: Vec<NodePath<T>> = Vec::new();
        let mut i: usize = 0;
        while i < paths.len()
            invariant
                i <= paths@.len(),
                out@.len() == i,
                forall|j: int| #![trigger out@[j]] 0 <= j < i ==> typed_at::<T>(self@, paths@[j]@, out@[j]@),
            decreases paths@.len() - i,
        {
            match self.assert_path::<T>(&paths[i]) {
                Ok(p) => {
                    out.push(p);
                },
                Err(e) => {
                    assert(!(lookup(self@, paths@[i as int]@) is Some && T::accepts(
                        lookup(self@, paths@[i as int]@).unwrap().node_type,
                    )));
                    return Err(e);
                },
            }
            i = i + 1;
        }
        Ok(out)
    }
}

/// `p` is the typed form of `q` in the tree `m`: `q` leads to a node of a kind `T` covers.
pub open spec fn typed_at<T: IsGitObject>(m: NodeView, q: Seq<Seq<char>>, p: (Seq<Seq<char>>, NodeType)) -> bool {
    &&& lookup(m, q) is Some
    &&& T::accepts(lookup(m, q).unwrap().node_type)
    &&& p == (q, lookup(m, q).unwrap().node_type)
}

/// Once a path leads nowhere, no longer path through it leads anywhere.
pub proof fn lemma_lookup_none_extends(v: NodeView, p: Seq<Seq<char>>, q: Seq<Seq<char>>)
    requires
        p.len() <= q.len(),
        q.subrange(0, p.len() as int) == p,
        lookup(v, p) is None,
    ensures
        lookup(v, q) is None,
    decreases p.len(),
{
    if p.len() > 0 {
        assert(q[0] == p[0]);
        let i = crate::model::node::find_child(v.children, p[0], 0);
        if 0 <= i < v.children.len() {
            assert(q.drop_first().subrange(0, p.len() - 1) =~= p.drop_first());
            lemma_lookup_none_extends(v.children[i], p.drop_first(), q.drop_first());
        }
    }
}

} // verus!
