//! The kinds of nodes in the branch tree and the rule that decides a child's kind.

use crate::model::node::BranchData;
use crate::text::{owned, str_eq};
use vstd::prelude::*;

verus! {

/// The kind of a node in the branch tree of a product line.
#[derive(Clone, Copy, Debug, PartialEq, Eq, Hash, Structural)]
pub enum NodeType {
    /// The root above all areas.
    VirtualRoot,
    /// An area such as `main`, a child of the root.
    ConcreteArea,
    /// The `feature` node of an area.
    FeatureRoot,
    /// The `product` node of an area.
    ProductRoot,
    /// A feature grouping node without a branch of its own.
    AbstractFeature,
    /// A feature with a branch.
    ConcreteFeature,
    /// A product grouping node without a branch of its own.
    AbstractProduct,
    /// A product with a branch.
    ConcreteProduct,
    /// Anything else.
    Unknown,
}

/// The kind of a child called `name` below a node of kind `parent`; `has_branch` says
/// whether the child carries a branch.
pub open spec fn next_type_spec(parent: NodeType, name: Seq<char>, has_branch: bool) -> NodeType {
    match parent {
        NodeType::VirtualRoot => NodeType::ConcreteArea,
        NodeType::ConcreteArea => if name == seq!['f', 'e', 'a', 't', 'u', 'r', 'e'] {
            NodeType::FeatureRoot
        } else if name == seq!['p', 'r', 'o', 'd', 'u', 'c', 't'] {
            NodeType::ProductRoot
        } else {
            NodeType::Unknown
        },
        NodeType::FeatureRoot | NodeType::AbstractFeature | NodeType::ConcreteFeature => {
            if has_branch {
                NodeType::ConcreteFeature
            } else {
                NodeType::AbstractFeature
            }
        },
        NodeType::ProductRoot | NodeType::AbstractProduct | NodeType::ConcreteProduct => {
            if has_branch {
                NodeType::ConcreteProduct
            } else {
                NodeType::AbstractProduct
            }
        },
        NodeType::Unknown => NodeType::Unknown,
    }
}

/// Below the feature root, a feature group or a feature, a child that carries a branch is a
/// feature and one without is a feature group; likewise below the product root, a product
/// group or a product, with products and product groups. Below the virtual root every child
/// is an area, and below an area only `feature` and `product` are the roots of their kinds.
pub proof fn law_kinds_below(name: Seq<char>, has_branch: bool)
    ensures
        forall|t: NodeType|
            (t == NodeType::FeatureRoot || t == NodeType::AbstractFeature || t == NodeType::ConcreteFeature)
                ==> #[trigger] next_type_spec(t, name, has_branch) == if has_branch {
                NodeType::ConcreteFeature
            } else {
                NodeType::AbstractFeature
            },
        forall|t: NodeType|
            (t == NodeType::ProductRoot || t == NodeType::AbstractProduct || t == NodeType::ConcreteProduct)
                ==> #[trigger] next_type_spec(t, name, has_branch) == if has_branch {
                NodeType::ConcreteProduct
            } else {
                NodeType::AbstractProduct
            },
        next_type_spec(NodeType::VirtualRoot, name, has_branch) == NodeType::ConcreteArea,
        next_type_spec(NodeType::ConcreteArea, name, has_branch) == if name == "feature"@ {
            NodeType::FeatureRoot
        } else if name == "product"@ {
            NodeType::ProductRoot
        } else {
            NodeType::Unknown
        },
        next_type_spec(NodeType::Unknown, name, has_branch) == NodeType::Unknown,
{
    reveal_strlit("feature");
    reveal_strlit("product");
    assert("feature"@ =~= seq!['f', 'e', 'a', 't', 'u', 'r', 'e']);
    assert("product"@ =~= seq!['p', 'r', 'o', 'd', 'u', 'c', 't']);
}

impl NodeType {
    /// The kind of a child called `name` with the given branch data below a node of this kind.
    pub fn decide_next_type(&self, name: &str, metadata: &BranchData) -> (t: NodeType)
        ensures
            t == next_type_spec(*self, name@, metadata@.0 is Some),
    {
        let has_branch = metadata.has_branch();
        match self {
            NodeType::VirtualRoot => NodeType::ConcreteArea,
            NodeType::ConcreteArea => {
                proof {
                    reveal_strlit("feature");
                    reveal_strlit("product");
                }
                if str_eq(name, "feature") {
                    assert("feature"@ =~= seq!['f', 'e', 'a', 't', 'u', 'r', 'e']);
                    NodeType::FeatureRoot
                } else if str_eq(name, "product") {
                    assert("product"@ =~= seq!['p', 'r', 'o', 'd', 'u', 'c', 't']);
                    NodeType::ProductRoot
                } else {
                    assert("feature"@ =~= seq!['f', 'e', 'a', 't', 'u', 'r', 'e']);
                    assert("product"@ =~= seq!['p', 'r', 'o', 'd', 'u', 'c', 't']);
                    NodeType::Unknown
                }
            },
            NodeType::FeatureRoot | NodeType::AbstractFeature | NodeType::ConcreteFeature => {
                if has_branch {
                    NodeType::ConcreteFeature
                } else {
                    NodeType::AbstractFeature
                }
            },
            NodeType::ProductRoot | NodeType::AbstractProduct | NodeType::ConcreteProduct => {
                if has_branch {
                    NodeType::ConcreteProduct
                } else {
                    NodeType::AbstractProduct
                }
            },
            NodeType::Unknown => NodeType::Unknown,
        }
    }

    /// The name of the kind, as error messages give it.
    pub fn get_type_name(&self) -> (s: String)
        ensures
            s@ == type_name_spec(*self),
    {
        proof {
            reveal_strlit("VirtualRoot");
            reveal_strlit("ConcreteArea");
            reveal_strlit("FeatureRoot");
            reveal_strlit("ProductRoot");
            reveal_strlit("AbstractFeature");
            reveal_strlit("ConcreteFeature");
            reveal_strlit("AbstractProduct");
            reveal_strlit("ConcreteProduct");
            reveal_strlit("Unknown");
        }
        match self {
            NodeType::VirtualRoot => owned("VirtualRoot"),
            NodeType::ConcreteArea => owned("ConcreteArea"),
            NodeType::FeatureRoot => owned("FeatureRoot"),
            NodeType::ProductRoot => owned("ProductRoot"),
            NodeType::AbstractFeature => owned("AbstractFeature"),
            NodeType::ConcreteFeature => owned("ConcreteFeature"),
            NodeType::AbstractProduct => owned("AbstractProduct"),
            NodeType::ConcreteProduct => owned("ConcreteProduct"),
            NodeType::Unknown => owned("Unknown"),
        }
    }

    /// The short label that tree displays show next to a node.
    pub fn get_short_name(&self) -> (s: String)
        ensures
            s@ == short_name_spec(*self),
    {
        proof {
            reveal_strlit("root");
            reveal_strlit("area");
            reveal_strlit("features");
            reveal_strlit("products");
            reveal_strlit("feature group");
            reveal_strlit("feature");
            reveal_strlit("product group");
            reveal_strlit("product");
            reveal_strlit("unknown");
        }
        match self {
            NodeType::VirtualRoot => owned("root"),
            NodeType::ConcreteArea => owned("area"),
            NodeType::FeatureRoot => owned("features"),
            NodeType::ProductRoot => owned("products"),
            NodeType::AbstractFeature => owned("feature group"),
            NodeType::ConcreteFeature => owned("feature"),
            NodeType::AbstractProduct => owned("product group"),
            NodeType::ConcreteProduct => owned("product"),
            NodeType::Unknown => owned("unknown"),
        }
    }
}

/// The name of a kind.
pub open spec fn type_name_spec(t: NodeType) -> Seq<char> {
    match t {
        NodeType::VirtualRoot => "VirtualRoot"@,
        NodeType::ConcreteArea => "ConcreteArea"@,
        NodeType::FeatureRoot => "FeatureRoot"@,
        NodeType::ProductRoot => "ProductRoot"@,
        NodeType::AbstractFeature => "AbstractFeature"@,
        NodeType::ConcreteFeature => "ConcreteFeature"@,
        NodeType::AbstractProduct => "AbstractProduct"@,
        NodeType::ConcreteProduct => "ConcreteProduct"@,
        NodeType::Unknown => "Unknown"@,
    }
}

/// The short label of a kind.
pub open spec fn short_name_spec(t: NodeType) -> Seq<char> {
    match t {
        NodeType::VirtualRoot => "root"@,
        NodeType::ConcreteArea => "area"@,
        NodeType::FeatureRoot => "features"@,
        NodeType::ProductRoot => "products"@,
        NodeType::AbstractFeature => "feature group"@,
        NodeType::ConcreteFeature => "feature"@,
        NodeType::AbstractProduct => "product group"@,
        NodeType::ConcreteProduct => "product"@,
        NodeType::Unknown => "unknown"@,
    }
}

/// A kind of git object that a typed path may point to.
pub trait IsGitObject: Sized {
    /// The node kinds that this kind of object covers.
    spec fn accepts(node_type: NodeType) -> bool;

    /// Does this kind of object cover nodes of kind `node_type`?
    fn is_compatible(node_type: &NodeType) -> (b: bool)
        ensures
            b == Self::accepts(*node_type),
    ;

    /// The name of this kind of object.
    spec fn identifier_spec() -> Seq<char>;

    /// The name of this kind of object.
    fn identifier() -> (s: String)
        ensures
            s@ == Self::identifier_spec(),
    ;
}

/// Any node of the tree.
pub struct AnyGitObject;

/// An area such as `main`.
pub struct ConcreteArea;

/// A feature with a branch.
pub struct ConcreteFeature;

/// A product with a branch.
pub struct ConcreteProduct;

impl IsGitObject for AnyGitObject {
    open spec fn accepts(node_type: NodeType) -> bool {
        true
    }

    fn is_compatible(node_type: &NodeType) -> (b: bool) {
        true
    }

    open spec fn identifier_spec() -> Seq<char> {
        "any"@
    }

    fn identifier() -> (s: String) {
        owned("any")
    }
}

impl IsGitObject for ConcreteArea {
    open spec fn accepts(node_type: NodeType) -> bool {
        node_type == NodeType::ConcreteArea
    }

    fn is_compatible(node_type: &NodeType) -> (b: bool) {
        *node_type == NodeType::ConcreteArea
    }

    open spec fn identifier_spec() -> Seq<char> {
        "area"@
    }

    fn identifier() -> (s: String) {
        owned("area")
    }
}

impl IsGitObject for ConcreteFeature {
    open spec fn accepts(node_type: NodeType) -> bool {
        node_type == NodeType::ConcreteFeature
    }

    fn is_compatible(node_type: &NodeType) -> (b: bool) {
        *node_type == NodeType::ConcreteFeature
    }

    open spec fn identifier_spec() -> Seq<char> {
        "feature"@
    }

    fn identifier() -> (s: String) {
        owned("feature")
    }
}

impl IsGitObject for ConcreteProduct {
    open spec fn accepts(node_type: NodeType) -> bool {
        node_type == NodeType::ConcreteProduct
    }

    fn is_compatible(node_type: &NodeType) -> (b: bool) {
        *node_type == NodeType::ConcreteProduct
    }

    open spec fn identifier_spec() -> Seq<char> {
        "product"@
    }

    fn identifier() -> (s: String) {
        owned("product")
    }
}

} // verus!
