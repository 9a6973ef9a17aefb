use tangl::git::conflict::MergeResult;
use tangl::git::error::{GitError, GitWrongNodeTypeError};
use tangl::git::interface::{output_to_result, CommandOutput, GitCLI, GitInterface, GitPath};
use tangl::model::node_type::{AnyGitObject, ConcreteArea, ConcreteFeature, ConcreteProduct, NodeType};
use tangl::model::path::QualifiedPath;

/// What `git branch` prints in a repository with `main` checked out and the feature branches
/// of the populated test repository.
const FEATURE_BRANCHES: &str = "  _main/_feature/_root/bar\n  _main/_feature/_root/baz\n  _main/_feature/_root/foo\n  _main/_feature/root\n* main\n";

fn ok(stdout: &str) -> CommandOutput {
    CommandOutput { success: true, stdout: stdout.to_string(), stderr: String::new() }
}

fn failed(stderr: &str) -> CommandOutput {
    CommandOutput { success: false, stdout: String::new(), stderr: stderr.to_string() }
}

fn args(v: &[&str]) -> Vec<String> {
    v.iter().map(|s| s.to_string()).collect()
}

#[test]
fn interface_populate_model() {
    let interface = GitInterface::new(GitPath::CustomDirectory("/tmp/repo".to_string()), FEATURE_BRANCHES, "");
    let paths = interface.get_model().get_qualified_paths_with_branches();
    let strings: Vec<String> = paths.iter().map(|p| p.to_path_string()).collect();
    assert_eq!(
        strings,
        vec![
            "/main/feature/root/bar",
            "/main/feature/root/baz",
            "/main/feature/root/foo",
            "/main/feature/root",
            "/main",
        ]
    );
}

#[test]
fn interface_get_current_branch_absolute() {
    let interface = GitInterface::new(GitPath::CustomDirectory("/tmp/repo".to_string()), FEATURE_BRANCHES, "");
    let current = interface.get_current_qualified_path(&ok("main\n")).unwrap();
    assert_eq!(current.to_path_string(), "/main")
}

#[test]
fn listing_with_tags_and_blank_lines() {
    let interface = GitInterface::default("* main\n\n  _main/_product/p\n", "_main/v1\n\n");
    let model = interface.get_model();
    let product = model.get_node(&QualifiedPath::from_str("/main/product/p")).unwrap();
    assert_eq!(*product.get_type(), NodeType::ConcreteProduct);
    assert_eq!(product.get_branch_data().get_branch().unwrap(), "_main/_product/p");
    let tag = model.get_node(&QualifiedPath::from_str("/main/v1")).unwrap();
    assert_eq!(tag.get_tags().len(), 1);
    assert_eq!(tag.get_tags()[0].get_tag(), "v1");
    assert_eq!(tag.get_tags()[0].get_full_path(), "_main/v1");
}

#[test]
fn output_is_trimmed() {
    assert_eq!(output_to_result(&ok("  hello \n")).unwrap(), "hello");
    let err = output_to_result(&failed("\nfatal: bad\n")).unwrap_err();
    assert_eq!(err.message(), "fatal: bad");
}

#[test]
fn cli_arguments_for_a_directory_with_colors() {
    let mut cli = GitCLI::in_custom_directory("/repo".to_string());
    assert_eq!(cli.arguments(&args(&["status"])), args(&["--git-dir=/repo/.git", "--work-tree=/repo", "status"]));
    cli.colored(true);
    assert_eq!(
        cli.arguments(&args(&["log", "-n", "1"])),
        args(&["--git-dir=/repo/.git", "--work-tree=/repo", "-c", "color.ui=always", "log", "-n", "1"])
    );
    let here = GitCLI::in_current_directory();
    assert_eq!(here.arguments(&args(&["branch"])), args(&["branch"]));
}

#[test]
fn colored_output_reaches_the_arguments() {
    let mut interface = GitInterface::default("* main\n", "");
    interface.colored_output(true);
    assert_eq!(interface.cli().arguments(&args(&["status"])), args(&["-c", "color.ui=always", "status"]));
}

#[test]
fn current_branch_errors_come_from_git() {
    let interface = GitInterface::default("* main\n", "");
    match interface.get_current_qualified_path(&failed("fatal: not a git repository\n")) {
        Err(GitError::Git(e)) => assert_eq!(e.message(), "fatal: not a git repository"),
        _ => panic!("expected a git error"),
    }
}

#[test]
fn current_node_path_checks_the_type() {
    let interface = GitInterface::default(FEATURE_BRANCHES, "");
    let any = interface.assert_current_node_path::<AnyGitObject>(&ok("_main/_feature/root\n")).unwrap();
    assert_eq!(any.get_type(), NodeType::ConcreteFeature);
    let feature = interface.assert_current_node_path::<ConcreteFeature>(&ok("_main/_feature/root")).unwrap();
    assert_eq!(feature.to_qualified_path().to_path_string(), "/main/feature/root");
    match interface.assert_current_node_path::<ConcreteProduct>(&ok("main")) {
        Err(GitWrongNodeTypeError::WrongNodeType(e)) => {
            assert_eq!(e.message(), "fatal: current branch is not of type 'product'")
        },
        _ => panic!("expected a wrong node type"),
    }
    match interface.assert_current_node_path::<AnyGitObject>(&failed("boom")) {
        Err(GitWrongNodeTypeError::Git(e)) => assert_eq!(e.message(), "boom"),
        _ => panic!("expected a git error"),
    }
}

#[test]
fn current_area_is_the_first_segment() {
    let interface = GitInterface::default(FEATURE_BRANCHES, "");
    let area = interface.get_current_area(&ok("_main/_feature/root")).unwrap();
    assert_eq!(area.to_qualified_path().to_path_string(), "/main");
    assert_eq!(area.get_type(), NodeType::ConcreteArea);
}

#[test]
fn create_branch_checks_the_new_type() {
    let mut interface = GitInterface::default(FEATURE_BRANCHES, "");
    let created = interface.create_branch::<ConcreteFeature>(&QualifiedPath::from_str("/main/feature/new")).unwrap();
    assert_eq!(created.get_type(), NodeType::ConcreteFeature);
    let node = interface.get_model().get_node(&QualifiedPath::from_str("/main/feature/new")).unwrap();
    assert_eq!(node.get_branch_data().get_branch().unwrap(), "_main/_feature/new");
    match interface.create_branch::<ConcreteProduct>(&QualifiedPath::from_str("/main/feature/other")) {
        Err(GitWrongNodeTypeError::WrongNodeType(e)) => assert_eq!(
            e.message(),
            "Expected to create branch of type 'product', but it would be of type 'ConcreteFeature'"
        ),
        _ => panic!("expected a wrong node type"),
    }
    assert!(interface.get_model().get_node(&QualifiedPath::from_str("/main/feature/other")).is_some());
    let area = interface.create_branch::<ConcreteArea>(&QualifiedPath::from_str("/dev")).unwrap();
    assert_eq!(area.to_qualified_path().to_path_string(), "/dev");
}

#[test]
fn merge_outcome_follows_the_exit_status() {
    let interface = GitInterface::default(FEATURE_BRANCHES, "");
    let path = interface.get_model().assert_path::<ConcreteFeature>(&QualifiedPath::from_str("/main/feature/root")).unwrap();
    let (stat, text) = interface.merge(&path, &ok("Merge made\n"));
    assert_eq!(*stat.get_stat(), MergeResult::Success);
    assert_eq!(text, "Merge made\n");
    let (stat, text) = interface.merge(&path, &failed("CONFLICT\n"));
    assert_eq!(*stat.get_stat(), MergeResult::Conflict);
    assert_eq!(stat.get_path().to_qualified_path().to_path_string(), "/main/feature/root");
    assert_eq!(text, "CONFLICT\n");
}

#[test]
fn tag_name_below_the_current_branch() {
    let interface = GitInterface::default(FEATURE_BRANCHES, "");
    let name = interface.create_tag(&ok("_main/_feature/root\n"), &QualifiedPath::from_str("/v2")).unwrap();
    assert_eq!(name, "_main/_feature/_root/v2");
    assert!(interface.create_tag(&failed("no"), &QualifiedPath::from_str("/v2")).is_err());
}

#[test]
fn commit_from_log_output() {
    let interface = GitInterface::default("* main\n", "");
    let commit = interface.get_commit_from_hash("abcdef0123456789".to_string(), &ok("Message\n\nbody\n")).unwrap();
    assert_eq!(commit.get_hash().get_full_hash(), "abcdef0123456789");
    assert_eq!(commit.get_message(), "Message\n\nbody");
    assert!(interface.get_commit_from_hash("abcdef0123456789".to_string(), &failed("bad object")).is_err());
}

#[test]
fn commit_history_hashes_in_order() {
    let interface = GitInterface::default("* main\n", "");
    let mut history = interface.iter_commit_history(&ok("\n1111111111\n2222222222\n")).unwrap();
    assert_eq!(history.next().unwrap(), "1111111111");
    assert_eq!(history.next().unwrap(), "2222222222");
    assert!(history.next().is_none());
    assert!(history.next().is_none());
}

#[test]
fn file_listings_split_by_line() {
    let interface = GitInterface::default("* main\n", "");
    assert_eq!(interface.get_files_managed_by_branch(&ok("a.txt\nsrc/b.rs\n")).unwrap(), vec!["a.txt", "src/b.rs"]);
    assert_eq!(interface.get_files_changed_by_commit(&ok("only\n")).unwrap(), vec!["only"]);
    assert_eq!(interface.get_files_changed_by_commit(&ok("")).unwrap(), vec![""]);
    assert!(interface.get_files_managed_by_branch(&failed("x")).is_err());
}
