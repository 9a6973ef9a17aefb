use tangl::git::checker::{ChainCheck, ChainStep, ConflictAnalyzer, ConflictChecker};
use tangl::git::conflict::{
    Conflict2DMatrix, MergeChainStatistic, MergeChainStatistics, MergeResult, MergeStatistic,
    MergeStatisticWeight, MergeStatistics, NormalizedMergeStatistic,
};
use tangl::git::interface::GitInterface;
use tangl::model::node_type::{ConcreteFeature, ConcreteProduct, NodeType};
use tangl::model::path::QualifiedPath;
use tangl::model::tree::NodePath;

const BRANCHES: &str = "  _main/_feature/a\n  _main/_feature/b\n  _main/_feature/c\n  _main/_feature/d\n* main\n";

fn feature(name: &str) -> NodePath<ConcreteFeature> {
    NodePath::new(QualifiedPath::from_str(&format!("/main/feature/{}", name)), NodeType::ConcreteFeature)
}

fn stat(name: &str, r: MergeResult) -> MergeStatistic<ConcreteFeature> {
    MergeStatistic::new(feature(name), r)
}

fn chain(base: &str, stats: Vec<(&str, MergeResult)>) -> MergeChainStatistic<ConcreteFeature, ConcreteFeature> {
    let mut c = MergeChainStatistic::new(feature(base));
    for (n, r) in stats {
        c.push(stat(n, r));
    }
    c
}

fn names(v: &Vec<NodePath<ConcreteFeature>>) -> Vec<String> {
    v.iter().map(|p| p.to_qualified_path().last().unwrap().clone()).collect()
}

fn chain_names(c: &MergeChainStatistic<ConcreteFeature, ConcreteFeature>) -> Vec<(String, MergeResult)> {
    c.get_chain()
        .iter()
        .map(|s| (s.get_path().to_qualified_path().last().unwrap().clone(), *s.get_stat()))
        .collect()
}

#[test]
fn merge_result_labels() {
    assert_eq!(MergeResult::Base.label(), "(Base)");
    assert_eq!(MergeResult::Success.label(), "(Ok)");
    assert_eq!(MergeResult::UpToDate.label(), "(Up To Date)");
    assert_eq!(MergeResult::Conflict.label(), "(Conflict)");
    assert_eq!(MergeResult::Merging.label(), "(Merging)");
    assert_eq!(MergeResult::Aborted.label(), "(Aborted)");
}

#[test]
fn merge_result_display_in_color() {
    colored::control::set_override(true);
    assert_eq!(MergeResult::Conflict.display(), "\u{1b}[31m(Conflict)\u{1b}[0m");
    assert_eq!(MergeResult::Success.display(), "\u{1b}[32m(Ok)\u{1b}[0m");
    assert_eq!(stat("a", MergeResult::Base).display(), "\u{1b}[34m(Base)\u{1b}[0m /main/feature/a");
    colored::control::set_override(false);
    assert_eq!(MergeResult::Merging.display(), "(Merging)");
}

#[test]
fn chain_counters_follow_pushes() {
    let c = chain("a", vec![("b", MergeResult::Success), ("c", MergeResult::UpToDate), ("d", MergeResult::Conflict)]);
    assert_eq!(c.len(), 3);
    assert_eq!(c.get_n_success(), 1);
    assert_eq!(c.get_n_up_to_date(), 1);
    assert_eq!(c.get_n_conflict(), 1);
    assert_eq!(c.get_n_merges(), 2);
    assert!(c.contains_conflicts());
    assert!(!c.all_up_to_date());
    assert_eq!(*c.get_base().get_stat(), MergeResult::Base);
    assert!(c.get(3).is_none());
    assert_eq!(*c.get(2).unwrap().get_stat(), MergeResult::Conflict);
}

#[test]
fn chain_remove_insert_replace_keep_counters() {
    let mut c = chain("a", vec![("b", MergeResult::Conflict), ("c", MergeResult::UpToDate)]);
    let removed = c.remove(0);
    assert_eq!(*removed.get_stat(), MergeResult::Conflict);
    assert_eq!(c.get_n_conflict(), 0);
    c.insert(0, removed);
    assert_eq!(c.get_n_conflict(), 1);
    assert_eq!(chain_names(&c), vec![("b".to_string(), MergeResult::Conflict), ("c".to_string(), MergeResult::UpToDate)]);
    c.replace(1, stat("d", MergeResult::Success));
    assert_eq!(c.get_n_up_to_date(), 0);
    assert_eq!(c.get_n_success(), 1);
    assert_eq!(chain_names(&c), vec![("b".to_string(), MergeResult::Conflict), ("d".to_string(), MergeResult::Success)]);
}

#[test]
fn chain_all_up_to_date() {
    assert!(chain("a", vec![]).all_up_to_date());
    assert!(chain("a", vec![("b", MergeResult::Conflict)]).all_up_to_date());
    assert!(chain("a", vec![("b", MergeResult::Base), ("c", MergeResult::UpToDate)]).all_up_to_date());
    assert!(!chain("a", vec![("b", MergeResult::Success), ("c", MergeResult::Success)]).all_up_to_date());
}

#[test]
fn chain_fill_does_not_count() {
    let mut c = MergeChainStatistic::new(feature("a"));
    c.fill(vec![stat("b", MergeResult::Conflict)]);
    assert_eq!(c.len(), 1);
    assert_eq!(c.get_n_conflict(), 0);
    assert!(!c.is_empty());
}

#[test]
fn chain_fill_from_normalized_types_paths() {
    let git = GitInterface::default(BRANCHES, "");
    let mut c = MergeChainStatistic::<ConcreteFeature, ConcreteFeature>::new(feature("a"));
    let ok = vec![NormalizedMergeStatistic::new(QualifiedPath::from_str("/main/feature/b"), MergeResult::Conflict)];
    assert!(c.fill_from_normalized(ok, &git).is_ok());
    assert_eq!(c.get_n_conflict(), 1);
    let bad = vec![NormalizedMergeStatistic::new(QualifiedPath::from_str("/main"), MergeResult::Success)];
    assert!(c.fill_from_normalized(bad, &git).is_err());
    let round = c.get(0).unwrap().to_normalized();
    assert_eq!(round.get_path().to_path_string(), "/main/feature/b");
    assert_eq!(*round.get_stat(), MergeResult::Conflict);
    assert!(MergeStatistic::<ConcreteProduct>::from_normalized(round, &git).is_err());
}

#[test]
fn chain_display_as_path_and_list() {
    colored::control::set_override(false);
    let mut c = chain("a", vec![("b", MergeResult::Success), ("c", MergeResult::Conflict)]);
    assert_eq!(c.display_as_path(), "(Ok) /main/feature/b <- (Conflict) /main/feature/c");
    c.insert(0, stat("a", MergeResult::Base));
    assert_eq!(
        c.display_as_list(),
        vec!["(Base) /main/feature/a", " <- (Ok) /main/feature/b", " <- (Conflict) /main/feature/c"]
    );
}

#[test]
fn chains_totals() {
    let mut all: MergeChainStatistics<ConcreteFeature, ConcreteFeature> = MergeChainStatistics::new();
    all.push(chain("a", vec![("b", MergeResult::Success), ("c", MergeResult::Conflict)]));
    all.fill_from_iter(vec![
        chain("b", vec![("a", MergeResult::Success)]),
        chain("c", vec![("a", MergeResult::Conflict), ("b", MergeResult::Conflict)]),
    ]);
    assert_eq!(all.n_ok(), 2);
    assert_eq!(all.n_conflicts(), 3);
    assert_eq!(all.iter_all().len(), 3);
    let conflicts = all.iter_conflicts();
    assert_eq!(conflicts.len(), 2);
    assert_eq!(conflicts[1].get_n_conflict(), 2);
}

#[test]
fn weights_and_lowest() {
    let w = MergeStatisticWeight::Simple;
    assert_eq!(w.get_weight(&MergeResult::UpToDate), 1);
    assert_eq!(w.get_weight(&MergeResult::Success), 0);
    assert_eq!(w.get_weight(&MergeResult::Conflict), -1);
    assert_eq!(w.get_weight(&MergeResult::Aborted), -10);
    let mut s = MergeStatistics::new(MergeStatisticWeight::Simple);
    s.push(stat("a", MergeResult::UpToDate));
    s.push(stat("b", MergeResult::Conflict));
    s.push(stat("c", MergeResult::Conflict));
    s.push(stat("d", MergeResult::Success));
    assert_eq!(s.len(), 4);
    assert_eq!(s.accumulate_weights(), -1);
    let lowest = s.get_lowest();
    assert_eq!(lowest.get_path().to_qualified_path().to_path_string(), "/main/feature/b");
    let copy = s.clone();
    assert!(copy.same_as(&s));
}

fn pairwise_matrix() -> Conflict2DMatrix<ConcreteFeature> {
    let mut all: MergeChainStatistics<ConcreteFeature, ConcreteFeature> = MergeChainStatistics::new();
    all.fill_from_iter(vec![
        chain("a", vec![("b", MergeResult::Success)]),
        chain("a", vec![("c", MergeResult::Conflict)]),
        chain("b", vec![("a", MergeResult::Success)]),
        chain("b", vec![("c", MergeResult::UpToDate)]),
        chain("c", vec![("a", MergeResult::Conflict)]),
        chain("c", vec![("b", MergeResult::UpToDate)]),
    ]);
    Conflict2DMatrix::new(&all)
}

#[test]
fn predict_conflicts_takes_the_lowest_vote() {
    let m = pairwise_matrix();
    let order = vec![feature("a"), feature("b"), feature("c")];
    let predicted = m.predict_conflicts(&feature("a"), &order).unwrap();
    assert_eq!(
        chain_names(&predicted),
        vec![("b".to_string(), MergeResult::Success), ("c".to_string(), MergeResult::Conflict)]
    );
    assert_eq!(predicted.get_n_conflict(), 1);
    let product_base: NodePath<ConcreteProduct> =
        NodePath::new(QualifiedPath::from_str("/main/product/p"), NodeType::ConcreteProduct);
    assert!(m.predict_conflicts(&product_base, &order).is_none());
}

#[test]
fn estimate_best_path_is_greedy() {
    let m = pairwise_matrix();
    let from_a = m.estimate_best_path(&feature("a")).unwrap();
    assert_eq!(
        chain_names(&from_a),
        vec![("b".to_string(), MergeResult::Success), ("c".to_string(), MergeResult::Conflict)]
    );
    let from_c = m.estimate_best_path(&feature("c")).unwrap();
    assert_eq!(
        chain_names(&from_c),
        vec![("b".to_string(), MergeResult::UpToDate), ("a".to_string(), MergeResult::Conflict)]
    );
}

#[test]
fn checker_plans_permutations() {
    let git = GitInterface::default(BRANCHES, "");
    let checker = ConflictChecker::new(&git);
    let paths = vec![feature("a"), feature("b"), feature("c")];
    let plans = checker.check_k_permutations(&paths, 2);
    let shown: Vec<(String, Vec<String>)> =
        plans.iter().map(|p| (p.get_base().to_qualified_path().last().unwrap().clone(), names(p.get_chain()))).collect();
    assert_eq!(
        shown,
        vec![
            ("a".to_string(), vec!["b".to_string()]),
            ("a".to_string(), vec!["c".to_string()]),
            ("b".to_string(), vec!["a".to_string()]),
            ("b".to_string(), vec!["c".to_string()]),
            ("c".to_string(), vec!["a".to_string()]),
            ("c".to_string(), vec!["b".to_string()]),
        ]
    );
    let by_order = checker.check_by_order(&paths);
    assert_eq!(names(by_order.get_chain()), vec!["b", "c"]);
}

#[test]
fn checker_plans_against_a_base() {
    let git = GitInterface::default(BRANCHES, "");
    let checker = ConflictChecker::new(&git);
    let targets = vec![feature("b"), feature("c")];
    let plans = checker.check_permutations_against_base(&targets, &feature("a"), 2);
    assert_eq!(plans.len(), 2);
    assert_eq!(names(plans[0].get_chain()), vec!["b", "c"]);
    assert_eq!(names(plans[1].get_chain()), vec!["c", "b"]);
    assert_eq!(plans[1].get_base().to_qualified_path().to_path_string(), "/main/feature/a");
    assert_eq!(checker.check_permutations_against_base(&targets, &feature("a"), 3).len(), 0);
}

#[test]
fn checker_plans_n_against_combinations() {
    let git = GitInterface::default(BRANCHES, "");
    let checker = ConflictChecker::new(&git);
    let plans = checker.check_n_against_permutations(&vec![feature("d")], &vec![feature("a"), feature("b")], 1);
    let shown: Vec<Vec<String>> = plans
        .iter()
        .map(|p| {
            let mut v = vec![p.get_base().to_qualified_path().last().unwrap().clone()];
            v.extend(names(p.get_chain()));
            v
        })
        .collect();
    assert_eq!(shown, vec![vec!["a", "d"], vec!["d", "a"], vec!["b", "d"], vec!["d", "b"]]);
}

#[test]
fn chain_check_aborts_after_a_conflict() {
    let chain_paths = vec![feature("a"), feature("b"), feature("c"), feature("d")];
    let mut check = ChainCheck::start(&feature("base"), &chain_paths);
    let mut merged = vec![];
    loop {
        match check.next_step() {
            ChainStep::Merge(p) => {
                let name = p.to_qualified_path().last().unwrap().clone();
                merged.push(name.clone());
                let result = if name == "b" { MergeResult::Success } else { MergeResult::Conflict };
                let abort = check.record_merge(MergeStatistic::new(p, result));
                assert_eq!(abort, result == MergeResult::Conflict);
            },
            ChainStep::Done => break,
        }
    }
    assert_eq!(merged, vec!["b", "c"]);
    let result = check.finish();
    assert_eq!(
        chain_names(&result),
        vec![
            ("b".to_string(), MergeResult::Success),
            ("c".to_string(), MergeResult::Conflict),
            ("d".to_string(), MergeResult::Aborted),
        ]
    );
    assert_eq!(result.get_n_conflict(), 1);
}

#[test]
fn chain_check_of_one_path_merges_nothing() {
    let mut check = ChainCheck::start(&feature("base"), &vec![feature("a")]);
    assert!(matches!(check.next_step(), ChainStep::Done));
    assert!(check.finish().is_empty());
}

#[test]
fn analyzer_filters_and_rebases() {
    let git = GitInterface::default(BRANCHES, "");
    let mut analyzer = ConflictAnalyzer::new(ConflictChecker::new(&git));
    let paths = vec![feature("a"), feature("b"), feature("c")];
    let pairwise = vec![
        chain("base", vec![("x", MergeResult::Success), ("a", MergeResult::Conflict)]),
        chain("base", vec![("b", MergeResult::Success)]),
        chain("base", vec![("x", MergeResult::Success), ("c", MergeResult::Success)]),
    ];
    assert_eq!(names(&analyzer.paths_compatible_with_base(&paths, &pairwise)), vec!["b", "c"]);
    let second = analyzer.second_phase_plans(&paths, &feature("base"), &pairwise);
    assert_eq!(second.len(), 2);
    assert_eq!(names(second[0].get_chain()), vec!["b", "c"]);
    assert_eq!(names(second[1].get_chain()), vec!["c", "b"]);
    assert_eq!(second[0].get_base().to_qualified_path().to_path_string(), "/main/feature/base");
    let with_base = vec![
        chain("base", vec![("b", MergeResult::Success), ("c", MergeResult::Conflict), ("x", MergeResult::Success)]),
        chain("base", vec![("c", MergeResult::Success), ("b", MergeResult::UpToDate)]),
    ];
    let pairs = vec![chain("a", vec![("b", MergeResult::Success)]), chain("b", vec![("a", MergeResult::Conflict)])];
    let matrix = analyzer.calculate_2d_heuristics_matrix_with_merge_base(pairs, with_base);
    let predicted = matrix.predict_conflicts(&feature("a"), &vec![feature("a"), feature("b")]).unwrap();
    assert_eq!(chain_names(&predicted), vec![("b".to_string(), MergeResult::Success)]);
    let from_base = matrix.predict_conflicts(&feature("base"), &vec![feature("base"), feature("b")]).unwrap();
    assert_eq!(chain_names(&from_base), vec![("b".to_string(), MergeResult::Base)]);
    let from_base = matrix.predict_conflicts(&feature("base"), &vec![feature("base"), feature("c")]).unwrap();
    assert_eq!(chain_names(&from_base), vec![("c".to_string(), MergeResult::Base)]);
}

#[test]
fn chain_insert_then_remove_restores() {
    let mut c = chain("a", vec![("b", MergeResult::Success), ("c", MergeResult::UpToDate)]);
    let before = chain_names(&c);
    c.insert(1, stat("x", MergeResult::Conflict));
    assert_eq!(c.get_n_conflict(), 1);
    let back = c.remove(1);
    assert_eq!(back.get_path().to_qualified_path().to_path_string(), "/main/feature/x");
    assert_eq!(*back.get_stat(), MergeResult::Conflict);
    assert_eq!(chain_names(&c), before);
    assert_eq!((c.get_n_success(), c.get_n_up_to_date(), c.get_n_conflict()), (1, 1, 0));
}

#[test]
fn normalized_statistic_round_trip() {
    let git = GitInterface::default(BRANCHES, "");
    let s = stat("b", MergeResult::UpToDate);
    let back = MergeStatistic::<ConcreteFeature>::from_normalized(s.to_normalized(), &git).unwrap();
    assert_eq!(back.get_path().to_qualified_path().to_path_string(), "/main/feature/b");
    assert_eq!(*back.get_stat(), MergeResult::UpToDate);
}

#[test]
fn accumulated_weight_grows_by_the_pushed_weight() {
    let mut s = MergeStatistics::new(MergeStatisticWeight::Simple);
    assert_eq!(s.accumulate_weights(), 0);
    s.push(stat("a", MergeResult::UpToDate));
    assert_eq!(s.accumulate_weights(), 1);
    s.push(stat("b", MergeResult::Aborted));
    assert_eq!(s.accumulate_weights(), -9);
}
