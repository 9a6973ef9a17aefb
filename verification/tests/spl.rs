use tangl::git::commit::{
    from_commit_message, to_commit_message, Base, Commit, CommitIterator, CommitMetadataContainer,
    METADATA_SEPARATOR,
};
use tangl::git::error::GitError;
use tangl::git::interface::GitInterface;
use tangl::model::node_type::{ConcreteFeature, ConcreteProduct, NodeType};
use tangl::model::path::QualifiedPath;
use tangl::model::tree::NodePath;
use tangl::spl::derivation::{
    derivation_commit_message, DerivationData, DerivationError, DerivationManager, DerivationMetadata,
    DerivationRun, DerivationState, FeatureMetadata,
};
use tangl::git::checker::ChainStep;
use tangl::git::conflict::{MergeResult, MergeStatistic};
use tangl::git::error::{GitCommandError, GitModelError, GitSerdeError};
use tangl::spl::error::{
    AbortDerivationError, ContinueDerivationError, InitializeDerivationError, OptimizeMergeOrderError,
    UpdateProductError,
};
use tangl::spl::inspection::{InspectionManager, InspectionStep};

const BRANCHES: &str = "  _main/_feature/a\n  _main/_feature/b\n  _main/_product/p\n* main\n";

fn feature(name: &str) -> NodePath<ConcreteFeature> {
    NodePath::new(QualifiedPath::from_str(&format!("/main/feature/{}", name)), NodeType::ConcreteFeature)
}

fn metadata(paths: &[&str]) -> Vec<FeatureMetadata> {
    paths.iter().map(|p| FeatureMetadata::new(p.to_string())).collect()
}

fn paths_of(v: &Vec<FeatureMetadata>) -> Vec<String> {
    v.iter().map(|f| f.get_qualified_path().to_path_string()).collect()
}

fn is_uuid(s: &str) -> bool {
    s.len() == 36
        && s.chars().enumerate().all(|(i, c)| {
            if i == 8 || i == 13 || i == 18 || i == 23 {
                c == '-'
            } else {
                c.is_ascii_digit() || ('a'..='f').contains(&c)
            }
        })
        && s.chars().nth(14) == Some('4')
}

#[test]
fn metadata_message_framing() {
    let message = to_commit_message("---h---", "{\"a\":1}");
    assert_eq!(message, "---metadata---\n---h---\n{\"a\":1}");
    assert_eq!(METADATA_SEPARATOR, "---metadata---");
    assert_eq!(from_commit_message("---h---", &message).unwrap(), "\n{\"a\":1}");
    assert!(from_commit_message("---other---", &message).is_none());
    assert_eq!(from_commit_message("", "ab").unwrap(), "a");
}

#[test]
fn base_metadata_is_empty() {
    assert_eq!(Base::header(), "");
    assert_eq!(Base {}.to_json(), "");
    let _ = Base::from_json("anything");
    let container = CommitMetadataContainer::new("H", "J");
    assert_eq!(container.get_metadata(), "---metadata---\nH\nJ");
}

#[test]
fn commit_metadata_sections() {
    let c = Commit::new("0123456789".to_string(), "msg\n---metadata---\nA\n---metadata---\nB".to_string());
    assert_eq!(c.get_metadata(), vec!["\nA\n", "\nB"]);
    assert_eq!(c.get_message(), "msg\n---metadata---\nA\n---metadata---\nB");
    let plain = Commit::new("0123456789".to_string(), "no metadata".to_string());
    assert!(plain.get_metadata().is_empty());
    let same = Commit::new("0123456789".to_string(), "other".to_string());
    assert!(plain.equals(&same));
    assert!(!plain.equals(&Commit::new("9876543210".to_string(), "other".to_string())));
}

#[test]
fn commit_iterator_hands_out_each_hash_once() {
    let mut it = CommitIterator::new(vec!["a".to_string(), "b".to_string()]);
    assert_eq!(it.next().unwrap(), "a");
    assert_eq!(it.next().unwrap(), "b");
    assert!(it.next().is_none());
}

#[test]
fn derivation_state_strings() {
    assert_eq!(DerivationState::from_string("in_progress"), DerivationState::InProgress);
    assert_eq!(DerivationState::from_string("none"), DerivationState::Idle);
    assert_eq!(DerivationState::from_string("anything"), DerivationState::Idle);
    assert_eq!(DerivationState::InProgress.to_string(), "in_progress");
    assert_eq!(DerivationState::Idle.to_string(), "none");
}

#[test]
fn feature_metadata_paths() {
    let from_paths = FeatureMetadata::from_qualified_paths(&vec![QualifiedPath::from_str("/main/feature/a")]);
    assert_eq!(from_paths[0].get_qualified_path().to_path_string(), "/main/feature/a");
    let from_features = FeatureMetadata::from_features(&vec![feature("b")]);
    assert!(from_features[0].equals(&FeatureMetadata::new("/main/feature/b".to_string())));
    let qps = FeatureMetadata::qualified_paths(&metadata(&["/x/y", "/z"]));
    assert_eq!(qps.len(), 2);
    assert_eq!(qps[0].to_path_string(), "/x/y");
}

#[test]
fn first_derivation_has_its_features_as_total() {
    let d = DerivationData::new_with_id("id".to_string(), metadata(&["/f/a", "/f/b"]), "c0ffee00".to_string(), None);
    assert_eq!(d.get_id(), "id");
    assert_eq!(d.get_state(), DerivationState::InProgress);
    assert_eq!(d.get_initial_commit(), "c0ffee00");
    assert!(d.get_completed().is_empty());
    assert_eq!(paths_of(d.get_missing()), vec!["/f/a", "/f/b"]);
    assert_eq!(paths_of(d.get_total()), vec!["/f/a", "/f/b"]);
}

#[test]
fn derivation_in_progress_goes_on_unchanged() {
    let prev = DerivationData::new_with_id("old".to_string(), metadata(&["/f/a"]), "11111111".to_string(), None);
    let d = DerivationData::new_with_id("new".to_string(), metadata(&["/f/z"]), "22222222".to_string(), Some(&prev));
    assert_eq!(d.get_id(), "old");
    assert_eq!(d.get_initial_commit(), "11111111");
    assert_eq!(paths_of(d.get_missing()), vec!["/f/a"]);
}

#[test]
fn derivation_after_a_finished_one_keeps_the_total() {
    let mut prev = DerivationData::new_with_id("old".to_string(), metadata(&["/f/a", "/f/b"]), "11111111".to_string(), None);
    prev.as_finished();
    assert_eq!(prev.get_state(), DerivationState::Idle);
    let d = DerivationData::new_with_id("new".to_string(), metadata(&["/f/c"]), "22222222".to_string(), Some(&prev));
    assert_eq!(d.get_id(), "new");
    assert_eq!(d.get_state(), DerivationState::InProgress);
    assert_eq!(d.get_initial_commit(), "22222222");
    assert_eq!(paths_of(d.get_missing()), vec!["/f/c"]);
    assert_eq!(paths_of(d.get_total()), vec!["/f/a", "/f/b"]);
    let mut again = d.clone();
    again.as_finished();
    again.as_in_progress();
    assert_eq!(again.get_state(), DerivationState::InProgress);
}

#[test]
fn new_derivations_get_a_random_uuid() {
    let a = DerivationData::new(metadata(&["/f/a"]), "33333333".to_string(), None);
    let b = DerivationData::new(metadata(&["/f/a"]), "33333333".to_string(), None);
    assert!(is_uuid(a.get_id()));
    assert!(is_uuid(b.get_id()));
    assert_ne!(a.get_id(), b.get_id());
    assert_eq!(paths_of(a.get_missing()), vec!["/f/a"]);
}

#[test]
fn marking_completed_moves_the_feature() {
    let mut d = DerivationData::new_with_id("id".to_string(), metadata(&["/f/a", "/f/b", "/f/a"]), "c".to_string(), None);
    d.mark_as_completed(&QualifiedPath::from_str("/f/a"));
    assert_eq!(paths_of(d.get_missing()), vec!["/f/b"]);
    assert_eq!(paths_of(d.get_completed()), vec!["/f/a"]);
    d.mark_as_completed(&QualifiedPath::from_str("/f/unknown"));
    assert_eq!(paths_of(d.get_missing()), vec!["/f/b"]);
    assert_eq!(paths_of(d.get_completed()), vec!["/f/a"]);
}

#[test]
fn reorder_missing_follows_the_new_order() {
    let mut d = DerivationData::new_with_id("id".to_string(), metadata(&["/f/a", "/f/b"]), "c".to_string(), None);
    d.reorder_missing(&vec![QualifiedPath::from_str("/f/b"), QualifiedPath::from_str("/f/a")]);
    assert_eq!(paths_of(d.get_missing()), vec!["/f/b", "/f/a"]);
    assert_eq!(paths_of(d.get_total()), vec!["/f/a", "/f/b"]);
}

#[test]
fn derivation_metadata_parts() {
    let data = DerivationData::new_with_id("id".to_string(), vec![], "c".to_string(), None);
    let with_data = DerivationMetadata::new(None, Some(data));
    assert!(with_data.get_pointer().is_none());
    assert_eq!(with_data.get_data().as_ref().unwrap().get_id(), "id");
    let with_pointer = DerivationMetadata::new(Some("abcdefgh".to_string()), None);
    assert_eq!(with_pointer.get_pointer().as_ref().unwrap(), "abcdefgh");
    assert_eq!(DerivationMetadata::header(), "---derivation-metadata---");
    assert_eq!(derivation_commit_message("Derivation start", "M"), "Derivation start\n\nM");
}

fn manager_state(git: &GitInterface, product: &NodePath<ConcreteProduct>, state: DerivationData) -> DerivationData {
    let manager = DerivationManager::new(product, git, state);
    manager.get_current_state()
}

#[test]
fn manager_initializes_only_when_idle() {
    let git = GitInterface::default(BRANCHES, "");
    let product: NodePath<ConcreteProduct> = NodePath::new(QualifiedPath::from_str("/main/product/p"), NodeType::ConcreteProduct);
    let mut idle = DerivationData::new_with_id("old".to_string(), metadata(&["/main/feature/a"]), "11111111".to_string(), None);
    idle.as_finished();
    assert_eq!(manager_state(&git, &product, idle.clone()).get_id(), "old");
    let mut manager = DerivationManager::new(&product, &git, idle);
    let last = Commit::new("4444444444".to_string(), "last".to_string());
    let started = manager.initialize_derivation(&vec![feature("a"), feature("b")], &last).unwrap();
    assert!(is_uuid(started.get_id()));
    assert_eq!(started.get_initial_commit(), "4444444444");
    assert_eq!(paths_of(started.get_missing()), vec!["/main/feature/a", "/main/feature/b"]);
    assert_eq!(paths_of(started.get_total()), vec!["/main/feature/a"]);
    assert_eq!(manager.get_current_state().get_id(), "old");
    assert_eq!(manager.progress_message(), "Derivation finished");
    manager.adopt_state(started.clone());
    assert_eq!(manager.get_current_state().get_id(), started.get_id());
    assert!(matches!(
        manager.initialize_derivation(&vec![feature("a")], &last),
        Err(DerivationError::DerivationInProgress)
    ));
    assert_eq!(manager.progress_message(), "Derivation progress");
}

#[test]
fn manager_continues_with_the_missing_features() {
    let git = GitInterface::default(BRANCHES, "");
    let product: NodePath<ConcreteProduct> = NodePath::new(QualifiedPath::from_str("/main/product/p"), NodeType::ConcreteProduct);
    let state = DerivationData::new_with_id(
        "id".to_string(),
        metadata(&["/main/feature/a", "/main/feature/b"]),
        "11111111".to_string(),
        None,
    );
    let mut manager = DerivationManager::new(&product, &git, state);
    let todo = manager.continue_derivation().unwrap();
    assert_eq!(todo.len(), 2);
    assert_eq!(todo[1].to_qualified_path().to_path_string(), "/main/feature/b");
    let after = manager.record_merged(&vec![todo[0].clone()]);
    assert_eq!(paths_of(after.get_completed()), vec!["/main/feature/a"]);
    assert_eq!(paths_of(after.get_missing()), vec!["/main/feature/b"]);
    let mut finished = after.clone();
    finished.as_finished();
    let idle_manager = DerivationManager::new(&product, &git, finished);
    assert!(matches!(idle_manager.continue_derivation(), Err(DerivationError::NoDerivationInProgress)));
    assert_eq!(idle_manager.progress_message(), "Derivation finished");
}

#[test]
fn manager_reports_features_missing_from_the_model() {
    let git = GitInterface::default(BRANCHES, "");
    let product: NodePath<ConcreteProduct> = NodePath::new(QualifiedPath::from_str("/main/product/p"), NodeType::ConcreteProduct);
    let state = DerivationData::new_with_id("id".to_string(), metadata(&["/main/feature/zzz"]), "1".to_string(), None);
    let manager = DerivationManager::new(&product, &git, state);
    assert!(matches!(manager.continue_derivation(), Err(DerivationError::Model(_))));
}

#[test]
fn inspection_reads_the_derivation_parts() {
    let git = GitInterface::default(BRANCHES, "");
    let inspector = InspectionManager::new(&git);
    let message = derivation_commit_message(
        "Derivation start",
        &to_commit_message("---derivation-metadata---", "{\"pointer\":null}"),
    );
    let commit = Commit::new("5555555555".to_string(), message);
    assert_eq!(inspector.derivation_sections(&commit), vec!["\n{\"pointer\":null}"]);
    let other = Commit::new("5555555555".to_string(), to_commit_message("---other---", "{}"));
    assert!(inspector.derivation_sections(&other).is_empty());
}

#[test]
fn inspection_decides_by_the_number_of_records() {
    let git = GitInterface::default(BRANCHES, "");
    let inspector = InspectionManager::new(&git);
    let commit = Commit::new("abcdef0123".to_string(), "m".to_string());
    match inspector.inspect_commit(&commit, vec![]) {
        InspectionStep::Found(d) => {
            assert!(is_uuid(d.get_id()));
            assert_eq!(d.get_initial_commit(), "abcdef0123");
            assert!(d.get_missing().is_empty());
        },
        _ => panic!("expected a new record"),
    }
    let data = DerivationData::new_with_id("rec".to_string(), vec![], "c".to_string(), None);
    match inspector.inspect_commit(&commit, vec![DerivationMetadata::new(None, Some(data.clone()))]) {
        InspectionStep::Found(d) => assert_eq!(d.get_id(), "rec"),
        _ => panic!("expected the record"),
    }
    match inspector.inspect_commit(&commit, vec![DerivationMetadata::new(Some("feedbeef00".to_string()), None)]) {
        InspectionStep::Follow(p) => assert_eq!(p, "feedbeef00"),
        _ => panic!("expected a pointer"),
    }
    let two = vec![DerivationMetadata::new(None, Some(data.clone())), DerivationMetadata::new(None, Some(data))];
    match inspector.inspect_commit(&commit, two) {
        InspectionStep::Failed(m) => assert_eq!(m, "fatal: commit abcdef01 contains multiple derivation metadata"),
        _ => panic!("expected an error"),
    }
}

#[test]
fn abort_errors_wrap_git_errors() {
    let e: AbortDerivationError = GitError::Io(std::io::Error::new(std::io::ErrorKind::Other, "x")).into();
    assert!(matches!(e, AbortDerivationError::Git(GitError::Io(_))));
}

fn merged_names(run: &DerivationRun) -> Vec<String> {
    run.finish().iter().map(|p| p.to_qualified_path().to_path_string()).collect()
}

#[test]
fn derivation_run_stops_at_the_first_failed_merge() {
    let mut run = DerivationRun::start(vec![feature("a"), feature("b"), feature("c")]);
    assert!(merged_names(&run).is_empty());
    match run.next_step() {
        ChainStep::Merge(p) => {
            assert_eq!(p.to_qualified_path().to_path_string(), "/main/feature/a");
            assert!(!run.record_merge(MergeStatistic::new(p, MergeResult::Success)));
        },
        ChainStep::Done => panic!("a merge was expected"),
    }
    match run.next_step() {
        ChainStep::Merge(p) => {
            assert_eq!(p.to_qualified_path().to_path_string(), "/main/feature/b");
            assert!(run.record_merge(MergeStatistic::new(p, MergeResult::Conflict)));
        },
        ChainStep::Done => panic!("a merge was expected"),
    }
    assert!(matches!(run.next_step(), ChainStep::Done));
    assert_eq!(merged_names(&run), vec!["/main/feature/a"]);
}

#[test]
fn derivation_run_merges_every_feature_without_failure() {
    let mut run = DerivationRun::start(vec![feature("a"), feature("b")]);
    while let ChainStep::Merge(p) = run.next_step() {
        assert!(!run.record_merge(MergeStatistic::new(p, MergeResult::Success)));
    }
    assert_eq!(merged_names(&run), vec!["/main/feature/a", "/main/feature/b"]);
    let empty = DerivationRun::start(vec![]);
    assert!(matches!(empty.next_step(), ChainStep::Done));
    assert!(empty.finish().is_empty());
}

#[test]
fn derivation_run_treats_up_to_date_as_failure() {
    let mut run = DerivationRun::start(vec![feature("a"), feature("b")]);
    if let ChainStep::Merge(p) = run.next_step() {
        assert!(run.record_merge(MergeStatistic::new(p, MergeResult::UpToDate)));
    } else {
        panic!("a merge was expected");
    }
    assert!(matches!(run.next_step(), ChainStep::Done));
    assert!(merged_names(&run).is_empty());
}

fn io_error() -> std::io::Error {
    std::io::Error::new(std::io::ErrorKind::Other, "x")
}

#[test]
fn derivation_errors_convert_as_their_causes() {
    let e: InitializeDerivationError = GitError::Io(io_error()).into();
    assert!(matches!(e, InitializeDerivationError::PathAssertion(GitModelError::Io(_))));
    let e: InitializeDerivationError = GitError::Git(GitCommandError::new("m".to_string())).into();
    assert!(matches!(e, InitializeDerivationError::PathAssertion(GitModelError::Git(_))));
    let json = serde_json::from_str::<u8>("x").unwrap_err();
    let e: InitializeDerivationError = GitSerdeError::Serde(json).into();
    assert!(matches!(e, InitializeDerivationError::Serde(_)));
    let e: ContinueDerivationError = GitSerdeError::Git(GitCommandError::new("m".to_string())).into();
    assert!(matches!(e, ContinueDerivationError::PathAssertion(GitModelError::Git(_))));
    let e: ContinueDerivationError = GitError::Io(io_error()).into();
    assert!(matches!(e, ContinueDerivationError::PathAssertion(GitModelError::Io(_))));
    let e: UpdateProductError = InitializeDerivationError::DerivationInProgress.into();
    assert!(matches!(e, UpdateProductError::DerivationInProgress));
    let e: UpdateProductError = GitModelError::Io(io_error()).into();
    assert!(matches!(e, UpdateProductError::PathAssertion(GitModelError::Io(_))));
    let e: OptimizeMergeOrderError = GitSerdeError::Io(io_error()).into();
    assert!(matches!(e, OptimizeMergeOrderError::PathAssertion(GitModelError::Io(_))));
    let json = serde_json::from_str::<u8>("x").unwrap_err();
    let e: OptimizeMergeOrderError = GitSerdeError::Serde(json).into();
    assert!(matches!(e, OptimizeMergeOrderError::Serde(_)));
}
