use tangl::model::display::DisplayTree;
use tangl::model::error::ModelError;
use tangl::model::node::{BranchData, CommitHash, CommitTag, Node, PayloadType};
use tangl::model::node_type::{AnyGitObject, ConcreteArea, ConcreteFeature, ConcreteProduct, NodeType};
use tangl::model::path::QualifiedPath;
use tangl::model::traverse::{name_less, OfType, WithBranch};
use tangl::model::tree::{NodePath, TreeDataModel};

fn strings(paths: &Vec<QualifiedPath>) -> Vec<String> {
    paths.iter().map(|p| p.to_path_string()).collect()
}

fn feature_model() -> TreeDataModel {
    let mut model = TreeDataModel::new();
    for (branch, name) in [
        ("_main/_feature/_root/bar", "_main/_feature/_root/bar"),
        ("_main/_feature/_root/foo", "_main/_feature/_root/foo"),
        ("_main/_feature/root", "_main/_feature/root"),
        ("main", "main"),
        ("_main/_product/myprod", "_main/_product/myprod"),
    ] {
        let path = QualifiedPath::to_normalized_path(branch);
        model.insert_branch(&path, name.to_string());
    }
    model
}

#[test]
fn path_from_str_drops_empty_segments() {
    let p = QualifiedPath::from_str("/main//feature/");
    assert_eq!(p.len(), 2);
    assert_eq!(p.get(0).unwrap(), "main");
    assert_eq!(p.get(1).unwrap(), "feature");
    assert!(p.get(2).is_none());
    assert_eq!(p.to_path_string(), "/main/feature");
}

#[test]
fn path_normalization_removes_inner_underscores() {
    let p = QualifiedPath::to_normalized_path("_main/_feature/_root/bar");
    assert_eq!(p.to_path_string(), "/main/feature/root/bar");
    let q = QualifiedPath::to_normalized_path("/main/feature/_x");
    assert_eq!(q.to_path_string(), "/main/feature/x");
}

#[test]
fn path_git_branch_marks_inner_segments() {
    let p = QualifiedPath::from_str("/main/feature/root/bar");
    assert_eq!(p.to_git_branch(), "_main/_feature/_root/bar");
    let single = QualifiedPath::from_str("/main");
    assert_eq!(single.to_git_branch(), "main");
    assert_eq!(QualifiedPath::new().to_git_branch(), "");
}

#[test]
fn path_git_branch_round_trip() {
    let p = QualifiedPath::from_str("/main/product/myprod");
    let back = QualifiedPath::to_normalized_path(p.to_git_branch().as_str());
    assert!(back.equals(&p));
}

#[test]
fn path_operations() {
    let p = QualifiedPath::from_str("/a/b/c");
    assert_eq!(p.last().unwrap(), "c");
    assert_eq!(p.parent().to_path_string(), "/a/b");
    assert_eq!(p.strip_n_left(1).to_path_string(), "/b/c");
    assert_eq!(p.strip_n_left(5).to_path_string(), "");
    let joined = p.concat(&QualifiedPath::from_str("/d"));
    assert_eq!(joined.to_path_string(), "/a/b/c/d");
    let mut q = QualifiedPath::new();
    assert!(q.is_empty());
    q.push("x".to_string());
    assert_eq!(q.to_path_string(), "/x");
    assert!(!p.equals(&q));
}

#[test]
fn commit_hash_short_form() {
    let h = CommitHash::new("0123456789abcdef".to_string());
    assert_eq!(h.get_full_hash(), "0123456789abcdef");
    assert_eq!(h.get_short_hash(), "01234567");
    assert!(h.equals(&CommitHash::new("0123456789abcdef".to_string())));
    assert!(!h.equals(&CommitHash::new("0123456789abcdee".to_string())));
}

#[test]
fn commit_tag_takes_last_segment() {
    let t = CommitTag::new("_main/_feature/v1".to_string());
    assert_eq!(t.get_tag(), "v1");
    assert_eq!(t.get_full_path(), "_main/_feature/v1");
}

#[test]
fn branch_data_accessors() {
    let empty = BranchData::empty();
    assert!(!empty.has_branch());
    assert!(empty.get_branch().is_none());
    let data = BranchData::new(Some("main".to_string()), Some(CommitHash::new("aaaaaaaabbbb".to_string())));
    assert!(data.has_branch());
    assert_eq!(data.get_branch().unwrap(), "main");
    assert_eq!(data.get_head().unwrap().get_full_hash(), "aaaaaaaabbbb");
}

#[test]
fn node_types_follow_the_tree_layout() {
    assert_eq!(NodeType::VirtualRoot.decide_next_type("main", &BranchData::empty()), NodeType::ConcreteArea);
    assert_eq!(NodeType::ConcreteArea.decide_next_type("feature", &BranchData::empty()), NodeType::FeatureRoot);
    assert_eq!(NodeType::ConcreteArea.decide_next_type("product", &BranchData::empty()), NodeType::ProductRoot);
    assert_eq!(NodeType::ConcreteArea.decide_next_type("other", &BranchData::empty()), NodeType::Unknown);
    let with_branch = BranchData::new(Some("b".to_string()), None);
    assert_eq!(NodeType::FeatureRoot.decide_next_type("x", &with_branch), NodeType::ConcreteFeature);
    assert_eq!(NodeType::FeatureRoot.decide_next_type("x", &BranchData::empty()), NodeType::AbstractFeature);
    assert_eq!(NodeType::ProductRoot.decide_next_type("x", &with_branch), NodeType::ConcreteProduct);
    assert_eq!(NodeType::AbstractProduct.decide_next_type("x", &BranchData::empty()), NodeType::AbstractProduct);
    assert_eq!(NodeType::ConcreteFeature.get_type_name(), "ConcreteFeature");
    assert_eq!(NodeType::ConcreteFeature.get_short_name(), "feature");
}

#[test]
fn insert_path_creates_missing_nodes() {
    let mut root = Node::new(String::new(), NodeType::VirtualRoot, BranchData::empty(), vec![]);
    let path = QualifiedPath::from_str("/main/feature/root");
    let t = root.insert_path(&path, PayloadType::Branch(BranchData::new(Some("b".to_string()), None)));
    assert_eq!(t, NodeType::ConcreteFeature);
    let main = root.get_child(&"main".to_string()).unwrap();
    assert_eq!(*main.get_type(), NodeType::ConcreteArea);
    assert!(!main.get_branch_data().has_branch());
    let feature = main.get_child(&"feature".to_string()).unwrap();
    assert_eq!(*feature.get_type(), NodeType::FeatureRoot);
    let leaf = feature.get_child(&"root".to_string()).unwrap();
    assert!(leaf.get_branch_data().has_branch());
    assert!(!leaf.has_children());
}

#[test]
fn insert_then_lookup_finds_the_node() {
    let model = feature_model();
    let node = model.get_node(&QualifiedPath::from_str("/main/feature/root/bar")).unwrap();
    assert_eq!(node.get_name(), "bar");
    assert_eq!(node.get_branch_data().get_branch().unwrap(), "_main/_feature/_root/bar");
    assert!(model.get_node(&QualifiedPath::from_str("/main/feature/nothing")).is_none());
}

#[test]
fn reinserting_updates_branch_data_and_type() {
    let mut model = TreeDataModel::new();
    let path = QualifiedPath::from_str("/main/feature/x/y");
    model.insert_qualified_path(&path);
    let before = model.get_node(&QualifiedPath::from_str("/main/feature/x")).unwrap();
    assert_eq!(*before.get_type(), NodeType::AbstractFeature);
    let t = model.insert_branch(&QualifiedPath::from_str("/main/feature/x"), "x".to_string());
    assert_eq!(t, NodeType::ConcreteFeature);
    let after = model.get_node(&QualifiedPath::from_str("/main/feature/x")).unwrap();
    assert!(after.get_branch_data().has_branch());
    assert!(after.has_children());
}

#[test]
fn tags_are_added_to_the_node() {
    let mut model = TreeDataModel::new();
    let path = QualifiedPath::from_str("/main/v1");
    model.insert_tag(&path, CommitTag::new("_main/v1".to_string()));
    model.insert_tag(&path, CommitTag::new("_main/v1".to_string()));
    let node = model.get_node(&path).unwrap();
    assert_eq!(node.get_tags().len(), 2);
    assert_eq!(node.get_tags()[0].get_tag(), "v1");
    assert!(!node.get_branch_data().has_branch());
}

#[test]
fn assert_path_reports_both_errors() {
    let model = feature_model();
    let ok = model.assert_path::<ConcreteFeature>(&QualifiedPath::from_str("/main/feature/root/foo"));
    assert!(ok.is_ok());
    assert_eq!(ok.unwrap().get_type(), NodeType::ConcreteFeature);
    match model.assert_path::<ConcreteProduct>(&QualifiedPath::from_str("/main/feature/root/foo")) {
        Err(ModelError::WrongNodeType(e)) => assert_eq!(e.message(), "fatal: path is of type ConcreteFeature"),
        _ => panic!("expected a wrong node type"),
    }
    match model.assert_path::<ConcreteProduct>(&QualifiedPath::from_str("/nowhere")) {
        Err(ModelError::PathNotFound(e)) => assert_eq!(e.message(), "fatal: path not found"),
        _ => panic!("expected a missing path"),
    }
    assert!(model.get_node_path::<ConcreteArea>(&QualifiedPath::from_str("/main")).is_some());
    assert!(model.get_node_path::<ConcreteArea>(&QualifiedPath::from_str("/main/feature")).is_none());
}

#[test]
fn assert_all_stops_at_the_first_bad_path() {
    let model = feature_model();
    let good = vec![
        QualifiedPath::from_str("/main/feature/root/bar"),
        QualifiedPath::from_str("/main/feature/root"),
    ];
    let typed = model.assert_all::<ConcreteFeature>(&good).unwrap();
    assert_eq!(typed.len(), 2);
    assert_eq!(typed[1].to_qualified_path().to_path_string(), "/main/feature/root");
    let bad = vec![QualifiedPath::from_str("/main/feature/root/bar"), QualifiedPath::from_str("/main")];
    assert!(model.assert_all::<ConcreteFeature>(&bad).is_err());
}

#[test]
fn node_path_conversions() {
    let p = NodePath::<ConcreteFeature>::new(QualifiedPath::from_str("/main/feature/a"), NodeType::ConcreteFeature);
    assert!(p.try_convert_to::<AnyGitObject>().is_some());
    assert!(p.try_convert_to::<ConcreteProduct>().is_none());
    let q = p.clone();
    assert!(p.equals(&q));
    assert_eq!(q.to_normalized_path().to_path_string(), "/main/feature/a");
}

#[test]
fn names_are_ordered_like_strings() {
    assert!(name_less(&"bar".to_string(), &"baz".to_string()));
    assert!(!name_less(&"baz".to_string(), &"bar".to_string()));
    assert!(name_less(&"ba".to_string(), &"bar".to_string()));
    assert!(!name_less(&"bar".to_string(), &"bar".to_string()));
    assert!(name_less(&"B".to_string(), &"a".to_string()));
}

#[test]
fn branch_paths_come_children_first_in_name_order() {
    let model = feature_model();
    let paths = model.get_qualified_paths_with_branches();
    assert_eq!(
        strings(&paths),
        vec![
            "/main/feature/root/bar",
            "/main/feature/root/foo",
            "/main/feature/root",
            "/main/product/myprod",
            "/main",
        ]
    );
}

#[test]
fn qualified_paths_by_category() {
    let model = feature_model();
    let root = model.get_root();
    let by_type = root.get_qualified_paths_by(
        &QualifiedPath::new(),
        &OfType,
        &vec![NodeType::ConcreteFeature, NodeType::ConcreteProduct, NodeType::ConcreteArea],
    );
    assert_eq!(by_type.len(), 3);
    assert_eq!(
        strings(&by_type[0]),
        vec!["/main/feature/root", "/main/feature/root/bar", "/main/feature/root/foo"]
    );
    assert_eq!(strings(&by_type[1]), vec!["/main/product/myprod"]);
    assert_eq!(strings(&by_type[2]), vec!["/main"]);
    let leaf = model.get_node(&QualifiedPath::from_str("/main/feature/root/bar")).unwrap();
    assert!(leaf.get_qualified_paths_by(&QualifiedPath::new(), &OfType, &vec![NodeType::ConcreteFeature]).is_empty());
    let with_branch = root.get_qualified_paths_by(&QualifiedPath::from_str("/x"), &WithBranch, &vec![true]);
    assert_eq!(
        strings(&with_branch[0]),
        vec!["/x/main", "/x/main/feature/root", "/x/main/feature/root/bar", "/x/main/feature/root/foo", "/x/main/product/myprod"]
    );
}

fn labels(tree: &DisplayTree, depth: usize, out: &mut Vec<String>) {
    out.push(format!("{}{}", " ".repeat(depth), tree.get_label()));
    for leaf in tree.get_leaves() {
        labels(leaf, depth + 1, out);
    }
}

#[test]
fn display_tree_labels_and_order() {
    colored::control::set_override(false);
    let model = feature_model();
    let tree = model.get_root().build_display_tree(false);
    let mut out = vec![];
    labels(&tree, 0, &mut out);
    assert_eq!(
        out,
        vec![
            " [root]",
            " main [area]",
            "  feature [features]",
            "   root [feature]",
            "    bar [feature]",
            "    foo [feature]",
            "  product [products]",
            "   myprod [product]",
        ]
    );
    let text = model.get_root().display_tree(false);
    assert_eq!(
        text,
        " [root]\n└── main [area]\n    ├── feature [features]\n    │   └── root [feature]\n    │       ├── bar [feature]\n    │       └── foo [feature]\n    └── product [products]\n        └── myprod [product]\n"
    );
}

#[test]
fn display_tree_paints_branches_blue() {
    colored::control::set_override(true);
    let model = feature_model();
    let tree = model.get_root().build_display_tree(false);
    let main = &tree.get_leaves()[0];
    assert_eq!(main.get_label(), "\u{1b}[34mmain\u{1b}[0m [area]");
    let feature = &main.get_leaves()[0];
    assert_eq!(feature.get_label(), "feature [features]");
    colored::control::set_override(false);
}

#[test]
fn inserting_twice_keeps_one_child_per_name() {
    let mut model = TreeDataModel::new();
    model.insert_branch(&QualifiedPath::from_str("/main/feature/a"), "a".to_string());
    model.insert_branch(&QualifiedPath::from_str("/main/feature/a"), "a2".to_string());
    model.insert_qualified_path(&QualifiedPath::from_str("/main/feature/b"));
    let feature = model.get_node(&QualifiedPath::from_str("/main/feature")).unwrap();
    assert_eq!(feature.iter_children().len(), 2);
    assert_eq!(model.get_root().iter_children().len(), 1);
    let a = model.get_node(&QualifiedPath::from_str("/main/feature/a")).unwrap();
    assert_eq!(a.get_branch_data().get_branch().unwrap(), "a2");
}

#[test]
fn branch_paths_lead_to_nodes_with_branches() {
    let model = feature_model();
    for path in model.get_qualified_paths_with_branches() {
        let node = model.get_node(&path).unwrap();
        assert!(node.get_branch_data().has_branch());
    }
}
