//! Which merge chains to check, and the decisions while one is checked: the conflict checker
//! plans chains from permutations and combinations of paths, and a chain check decides after
//! each merge whether the rest of the chain is merged or recorded as aborted.

use crate::git::conflict::{
    can_uncount, chain_inserted, chain_pushed, chain_removed, chain_start, chains_fold, chains_view,
    count_result, counters_consistent, keys_view, lemma_count_push, matrix_of, matrix_wf, sum_conflicts,
    sum_successes, ChainView, ChainsView, Conflict2DMatrix, KeyView, MergeChainStatistic,
    MergeChainStatistics, MergeResult, MergeStatistic, StatView,
};
use crate::git::interface::GitInterface;
use crate::model::node_type::IsGitObject;
use crate::model::tree::NodePath;
use itertools::Itertools;
use vstd::prelude::*;

verus! {

/// The `k`-permutations of `s` in lexicographic order of positions: for each position `i`,
/// `s[i]` followed by each `k - 1`-permutation of the rest.
pub open spec fn perms_spec<A>(s: Seq<A>, k: nat) -> Seq<Seq<A>>
    decreases s.len(), 1int, 0int,
{
    if k == 0 {
        seq![Seq::empty()]
    } else {
        perms_from(s, k, 0)
    }
}

/// The `k`-permutations of `s` that start at a position from `i` on.
pub open spec fn perms_from<A>(s: Seq<A>, k: nat, i: int) -> Seq<Seq<A>>
    decreases s.len(), 0int, s.len() - i,
{
    if k == 0 || i < 0 || i >= s.len() {
        Seq::empty()
    } else {
        prepend_all(s[i], perms_spec(s.remove(i), (k - 1) as nat)) + perms_from(s, k, i + 1)
    }
}

/// Each of `ps` with `x` in front.
pub open spec fn prepend_all<A>(x: A, ps: Seq<Seq<A>>) -> Seq<Seq<A>>
    decreases ps.len(),
{
    if ps.len() == 0 {
        Seq::empty()
    } else {
        prepend_all(x, ps.drop_last()).push(seq![x] + ps.last())
    }
}

/// The `k`-combinations of `s` in lexicographic order of positions.
pub open spec fn combs_spec<A>(s: Seq<A>, k: nat) -> Seq<Seq<A>>
    decreases s.len(),
{
    if k == 0 {
        seq![Seq::empty()]
    } else if s.len() == 0 {
        Seq::empty()
    } else {
        prepend_all(s[0], combs_spec(s.drop_first(), (k - 1) as nat)) + combs_spec(s.drop_first(), k)
    }
}

/// Every permutation has `k` elements.
pub proof fn lemma_perms_len<A>(s: Seq<A>, k: nat)
    ensures
        forall|j: int| 0 <= j < perms_spec(s, k).len() ==> (#[trigger] perms_spec(s, k)[j]).len() == k,
    decreases s.len(), 1int, 0int,
{
    if k > 0 {
        lemma_perms_from_len(s, k, 0);
        assert(perms_spec(s, k) == perms_from(s, k, 0));
    } else {
        assert(perms_spec(s, k) =~= seq![Seq::<A>::empty()]);
        assert forall|j: int| 0 <= j < perms_spec(s, k).len() implies (#[trigger] perms_spec(s, k)[j]).len() == k by {
            assert(perms_spec(s, k)[j] == Seq::<A>::empty());
        }
    }
}

/// Every permutation from position `i` on has `k` elements.
pub proof fn lemma_perms_from_len<A>(s: Seq<A>, k: nat, i: int)
    ensures
        forall|j: int| 0 <= j < perms_from(s, k, i).len() ==> (#[trigger] perms_from(s, k, i)[j]).len() == k,
    decreases s.len(), 0int, s.len() - i,
{
    if !(k == 0 || i < 0 || i >= s.len()) {
        lemma_perms_len(s.remove(i), (k - 1) as nat);
        lemma_prepend_len(s[i], perms_spec(s.remove(i), (k - 1) as nat), (k - 1) as nat);
        lemma_perms_from_len(s, k, i + 1);
        let a = prepend_all(s[i], perms_spec(s.remove(i), (k - 1) as nat));
        let b = perms_from(s, k, i + 1);
        assert forall|j: int| 0 <= j < (a + b).len() implies (#[trigger] (a + b)[j]).len() == k by {
            if j < a.len() {
                assert((a + b)[j] == a[j]);
            } else {
                assert((a + b)[j] == b[j - a.len()]);
            }
        }
    }
}

/// Prepending adds one element.
pub proof fn lemma_prepend_len<A>(x: A, ps: Seq<Seq<A>>, k: nat)
    requires
        forall|j: int| 0 <= j < ps.len() ==> (#[trigger] ps[j]).len() == k,
    ensures
        prepend_all(x, ps).len() == ps.len(),
        forall|j: int| 0 <= j < ps.len() ==> (#[trigger] prepend_all(x, ps)[j]) == seq![x] + ps[j],
        forall|j: int| 0 <= j < ps.len() ==> (#[trigger] prepend_all(x, ps)[j]).len() == k + 1,
    decreases ps.len(),
{
    if ps.len() > 0 {
        lemma_prepend_len(x, ps.drop_last(), k);
        assert forall|j: int| 0 <= j < ps.len() implies (#[trigger] prepend_all(x, ps)[j]) == seq![x] + ps[j] by {
            if j < ps.len() - 1 {
                assert(ps.drop_last()[j] == ps[j]);
            }
        }
    }
}

/// The `k`-permutations of `items`, from `Itertools::permutations`: in lexicographic order of
/// positions, as its source generates them and its documented example shows; none when `k`
/// exceeds the number of items, one empty permutation when `k` is 0. The elements are
/// clones, which keep their views.
#[verifier::external_body]
fn permutations_of<T: IsGitObject>(items: &Vec<NodePath<T>>, k: usize) -> (r: Vec<Vec<NodePath<T>>>)
    ensures
        paths_views(r@) == perms_spec(keys_view(items@), k as nat),
{
    items.iter().cloned().permutations(k).collect()
}

/// The `k`-combinations of `items`, from `Itertools::combinations`: in lexicographic order of
/// positions, as its source generates them and its documented example shows; none when `k`
/// exceeds the number of items, one empty combination when `k` is 0. The elements are
/// clones, which keep their views.
#[verifier::external_body]
fn combinations_of<T: IsGitObject>(items: &Vec<NodePath<T>>, k: usize) -> (r: Vec<Vec<NodePath<T>>>)
    ensures
        paths_views(r@) == combs_spec(keys_view(items@), k as nat),
{
    items.iter().cloned().combinations(k).collect()
}

/// The views of vectors of paths.
pub open spec fn paths_views<T: IsGitObject>(v: Seq<Vec<NodePath<T>>>) -> Seq<Seq<KeyView>> {
    v.map_values(|p: Vec<NodePath<T>>| keys_view(p@))
}

/// A chain to check: the base and the paths to merge onto it.
pub type PlanView = (KeyView, Seq<KeyView>);

/// The chain a permutation stands for: its first path is the base, the others follow.
pub open spec fn plan_of(p: Seq<KeyView>) -> PlanView {
    (p[0], p.drop_first())
}

/// The chains that permutations stand for.
pub open spec fn perm_plans(ps: Seq<Seq<KeyView>>) -> Seq<PlanView>
    decreases ps.len(),
{
    if ps.len() == 0 {
        Seq::empty()
    } else {
        perm_plans(ps.drop_last()).push(plan_of(ps.last()))
    }
}

/// Chains from `base` through each of `ps`.
pub open spec fn base_plans(base: KeyView, ps: Seq<Seq<KeyView>>) -> Seq<PlanView>
    decreases ps.len(),
{
    if ps.len() == 0 {
        Seq::empty()
    } else {
        base_plans(base, ps.drop_last()).push((base, ps.last()))
    }
}

/// For each combination `c` of `cs`, the chains of the permutations of `c` with `p` added.
pub open spec fn comb_plans(cs: Seq<Seq<KeyView>>, p: KeyView, k: nat) -> Seq<PlanView>
    decreases cs.len(),
{
    if cs.len() == 0 {
        Seq::empty()
    } else {
        comb_plans(cs.drop_last(), p, k) + perm_plans(perms_spec(cs.last().push(p), k + 1))
    }
}

/// For each path `p` of `n`, the chains of every `k`-combination of `against` with `p` added,
/// in every order.
pub open spec fn n_against_plans(n: Seq<KeyView>, against: Seq<KeyView>, k: nat) -> Seq<PlanView>
    decreases n.len(),
{
    if n.len() == 0 {
        Seq::empty()
    } else {
        n_against_plans(n.drop_last(), against, k) + comb_plans(combs_spec(against, k), n.last(), k)
    }
}

/// A chain to check: a base and the paths to merge onto it in order.
pub struct ChainPlan<B: IsGitObject, C: IsGitObject> {
    base: NodePath<B>,
    chain: Vec<NodePath<C>>,
}

impl<B: IsGitObject, C: IsGitObject> View for ChainPlan<B, C> {
    type V = PlanView;

    closed spec fn view(&self) -> PlanView {
        (self.base@, keys_view(self.chain@))
    }
}

/// The views of a vector of plans.
pub open spec fn plans_view<B: IsGitObject, C: IsGitObject>(v: Seq<ChainPlan<B, C>>) -> Seq<PlanView> {
    v.map_values(|p: ChainPlan<B, C>| p@)
}

impl<B: IsGitObject, C: IsGitObject> ChainPlan<B, C> {
    /// The base.
    pub fn get_base(&self) -> (b: &NodePath<B>)
        ensures
            b@ == self@.0,
    {
        &self.base
    }

    /// The paths to merge onto the base.
    pub fn get_chain(&self) -> (c: &Vec<NodePath<C>>)
        ensures
            keys_view(c@) == self@.1,
    {
        &self.chain
    }
}

/// The chain of the paths of `v` from position `from` on.
fn tail_of<T: IsGitObject>(v: &Vec<NodePath<T>>, from: usize) -> (r: Vec<NodePath<T>>)
    requires
        from <= v@.len(),
    ensures
        keys_view(r@) == keys_view(v@).subrange(from as int, v@.len() as int),
{
    let mut r: Vec<NodePath<T>> = Vec::new();
    let mut i = from;
    while i < v.len()
        invariant
            from <= i <= v@.len(),
            keys_view(r@) == keys_view(v@).subrange(from as int, i as int),
        decreases v@.len() - i,
    {
        let ghost before = r@;
        let x = v[i].clone();
        r.push(x);
        proof {
            assert(keys_view(r@) =~= keys_view(before).push(x@));
            assert(x@ == keys_view(v@)[i as int]);
            assert(keys_view(v@).subrange(from as int, i + 1) =~= keys_view(v@).subrange(from as int, i as int).push(keys_view(v@)[i as int]));
        }
        i = i + 1;
    }
    r
}

/// The chains that the permutations `perms` stand for.
fn plans_of_perms<T: IsGitObject>(perms: Vec<Vec<NodePath<T>>>) -> (r: Vec<ChainPlan<T, T>>)
    requires
        forall|j: int| 0 <= j < perms@.len() ==> (#[trigger] perms@[j])@.len() > 0,
    ensures
        plans_view(r@) == perm_plans(paths_views(perms@)),
{
    let mut r: Vec<ChainPlan<T, T>> = Vec::new();
    let mut i: usize = 0;
    while i < perms.len()
        invariant
            i <= perms@.len(),
            forall|j: int| 0 <= j < perms@.len() ==> (#[trigger] perms@[j])@.len() > 0,
            plans_view(r@) == perm_plans(paths_views(perms@).take(i as int)),
        decreases perms@.len() - i,
    {
        let base = perms[i][0].clone();
        let chain = tail_of(&perms[i], 1);
        let plan = ChainPlan { base, chain };
        let ghost before = r@;
        r.push(plan);
        proof {
            let pv = paths_views(perms@);
            assert(pv.take(i + 1).drop_last() =~= pv.take(i as int));
            assert(pv[i as int] == keys_view(perms@[i as int]@));
            assert(keys_view(perms@[i as int]@).subrange(1, perms@[i as int]@.len() as int) =~= keys_view(perms@[i as int]@).drop_first());
            assert(plan@ == plan_of(pv[i as int]));
            assert(plans_view(r@) =~= plans_view(before).push(plan@));
        }
        i = i + 1;
    }
    assert(paths_views(perms@).take(i as int) =~= paths_views(perms@));
    r
}

/// Plans merge chains to check for conflicts between paths.
pub struct ConflictChecker<'a> {
    interface: &'a GitInterface,
}

impl<'a> ConflictChecker<'a> {
    /// A checker of the repository behind `interface`.
    pub fn new(interface: &'a GitInterface) -> (c: Self)
        ensures
            c.interface() == interface,
    {
        Self { interface }
    }

    /// The interface the chains are checked with.
    pub closed spec fn interface(&self) -> &'a GitInterface {
        self.interface
    }

    /// The interface the chains are checked with.
    pub fn get_interface(&self) -> (i: &'a GitInterface)
        ensures
            i == self.interface(),
    {
        self.interface
    }

    /// For every `k`-permutation of `paths`, the chain of its paths: the first is the base.
    pub fn check_k_permutations<T: IsGitObject>(&self, paths: &Vec<NodePath<T>>, k: usize) -> (r: Vec<ChainPlan<T, T>>)
        requires
            k >= 1,
        ensures
            plans_view(r@) == perm_plans(perms_spec(keys_view(paths@), k as nat)),
    {
        let perms = permutations_of(paths, k);
        proof {
            lemma_perms_len(keys_view(paths@), k as nat);
            assert forall|j: int| 0 <= j < perms@.len() implies (#[trigger] perms@[j])@.len() > 0 by {
                assert(paths_views(perms@)[j] == keys_view(perms@[j]@));
            }
        }
        plans_of_perms(perms)
    }

    /// For every `k`-permutation of `targets`, the chain of its paths onto `base`.
    pub fn check_permutations_against_base<B: IsGitObject, T: IsGitObject>(
        &self,
        targets: &Vec<NodePath<T>>,
        base: &NodePath<B>,
        k: usize,
    ) -> (r: Vec<ChainPlan<B, T>>)
        ensures
            plans_view(r@) == base_plans(base@, perms_spec(keys_view(targets@), k as nat)),
    {
        let perms = permutations_of(targets, k);
        let mut r: Vec<ChainPlan<B, T>> = Vec::new();
        let mut i: usize = 0;
        while i < perms.len()
            invariant
                i <= perms@.len(),
                plans_view(r@) == base_plans(base@, paths_views(perms@).take(i as int)),
            decreases perms@.len() - i,
        {
            let chain = tail_of(&perms[i], 0);
            let plan = ChainPlan { base: base.clone(), chain };
            let ghost before = r@;
            r.push(plan);
            proof {
                let pv = paths_views(perms@);
                assert(pv.take(i + 1).drop_last() =~= pv.take(i as int));
                assert(pv[i as int] == keys_view(perms@[i as int]@));
                assert(keys_view(perms@[i as int]@).subrange(0, perms@[i as int]@.len() as int) =~= keys_view(perms@[i as int]@));
                assert(plans_view(r@) =~= plans_view(before).push(plan@));
            }
            i = i + 1;
        }
        assert(paths_views(perms@).take(i as int) =~= paths_views(perms@));
        r
    }

    /// The chain of `paths` in their order: the first is the base.
    pub fn check_by_order<T: IsGitObject>(&self, paths: &Vec<NodePath<T>>) -> (r: ChainPlan<T, T>)
        requires
            paths@.len() >= 1,
        ensures
            r@ == plan_of(keys_view(paths@)),
    {
        let chain = tail_of(paths, 1);
        assert(keys_view(paths@).subrange(1, paths@.len() as int) =~= keys_view(paths@).drop_first());
        ChainPlan { base: paths[0].clone(), chain }
    }

    /// For each path of `n` and each `k`-combination of `against`, the chains of every order
    /// of the combination with the path added.
    pub fn check_n_against_permutations<T: IsGitObject>(
        &self,
        n: &Vec<NodePath<T>>,
        against: &Vec<NodePath<T>>,
        k: usize,
    ) -> (r: Vec<ChainPlan<T, T>>)
        requires
            k < usize::MAX,
        ensures
            plans_view(r@) == n_against_plans(keys_view(n@), keys_view(against@), k as nat),
    {
        let mut r: Vec<ChainPlan<T, T>> = Vec::new();
        let mut i: usize = 0;
        while i < n.len()
            invariant
                i <= n@.len(),
                k < usize::MAX,
                plans_view(r@) == n_against_plans(keys_view(n@).take(i as int), keys_view(against@), k as nat),
            decreases n@.len() - i,
        {
            let combinations = combinations_of(against, k);
            let ghost before_path = plans_view(r@);
            let mut c: usize = 0;
            while c < combinations.len()
                invariant
                    i < n@.len(),
                    c <= combinations@.len(),
                    k < usize::MAX,
                    paths_views(combinations@) == combs_spec(keys_view(against@), k as nat),
                    plans_view(r@) == before_path + comb_plans(paths_views(combinations@).take(c as int), n@[i as int]@, k as nat),
                decreases combinations@.len() - c,
            {
                let mut combination = tail_of(&combinations[c], 0);
                let ghost comb_before = combination@;
                let x = n[i].clone();
                combination.push(x);
                proof {
                    assert(keys_view(combination@) =~= keys_view(comb_before).push(x@));
                    assert(keys_view(combinations@[c as int]@).subrange(0, combinations@[c as int]@.len() as int) =~= keys_view(combinations@[c as int]@));
                }
                let perms = permutations_of(&combination, k + 1);
                proof {
                    lemma_perms_len(keys_view(combination@), (k + 1) as nat);
                    assert forall|j: int| 0 <= j < perms@.len() implies (#[trigger] perms@[j])@.len() > 0 by {
                        assert(paths_views(perms@)[j] == keys_view(perms@[j]@));
                    }
                }
                let mut plans = plans_of_perms(perms);
                let ghost before = plans_view(r@);
                let ghost added = plans_view(plans@);
                r.append(&mut plans);
                proof {
                    let cv = paths_views(combinations@);
                    assert(cv.take(c + 1).drop_last() =~= cv.take(c as int));
                    assert(cv[c as int] == keys_view(combinations@[c as int]@));
                    assert(keys_view(combination@) =~= cv[c as int].push(n@[i as int]@));
                    assert(plans_view(r@) =~= before + added);
                }
                c = c + 1;
            }
            proof {
                assert(paths_views(combinations@).take(c as int) =~= combs_spec(keys_view(against@), k as nat));
                assert(keys_view(n@).take(i + 1).drop_last() =~= keys_view(n@).take(i as int));
                assert(keys_view(n@)[i as int] == n@[i as int]@);
            }
            i = i + 1;
        }
        assert(keys_view(n@).take(i as int) =~= keys_view(n@));
        r
    }

    /// Nothing to clean up: the checker stays as it is.
    pub fn clean_up(&mut self)
        ensures
            final(self).interface() == old(self).interface(),
    {
    }
}


/// What a chain check asks for next: a merge of the path onto the chain so far, or nothing.
pub enum ChainStep<C: IsGitObject> {
    Merge(NodePath<C>),
    Done,
}

/// The state of a chain check as values: the statistic so far, the paths of the chain, the
/// position of the next path, and whether the rest is skipped after a conflict.
pub struct ChainCheckView {
    pub statistic: ChainView,
    pub chain: Seq<KeyView>,
    pub position: nat,
    pub skip: bool,
}

/// After a conflict, every later outcome of the chain is an abort.
pub open spec fn nothing_merged_after_conflict(s: Seq<StatView>) -> bool {
    forall|i: int, j: int|
        0 <= i < j < s.len() && #[trigger] s[i].1 == MergeResult::Conflict ==> #[trigger] s[j].1 == MergeResult::Aborted
}

/// A chain check is consistent: one outcome for each path between the first and the next
/// position, counters that agree with the outcomes, the rest skipped exactly when a merge
/// conflicted, and nothing merged after a conflict.
pub open spec fn check_wf(v: ChainCheckView) -> bool {
    &&& 1 <= v.position <= v.chain.len()
    &&& v.statistic.chain.len() == v.position - 1
    &&& forall|j: int| 0 <= j < v.statistic.chain.len() ==> (#[trigger] v.statistic.chain[j]).0 == v.chain[j + 1]
    &&& counters_consistent(v.statistic)
    &&& v.skip == (count_result(v.statistic.chain, MergeResult::Conflict) > 0)
    &&& nothing_merged_after_conflict(v.statistic.chain)
}

/// The aborts recorded for the paths of `chain` from `from` on.
pub open spec fn aborted_from(chain: Seq<KeyView>, from: int) -> Seq<StatView> {
    Seq::new((chain.len() - from) as nat, |j: int| (chain[from + j], MergeResult::Aborted))
}

/// No outcome counts more often than there are outcomes.
pub proof fn lemma_count_le_len(s: Seq<StatView>, r: MergeResult)
    ensures
        count_result(s, r) <= s.len(),
        count_result(s, r) == 0 <==> forall|j: int| 0 <= j < s.len() ==> (#[trigger] s[j]).1 != r,
    decreases s.len(),
{
    if s.len() > 0 {
        lemma_count_le_len(s.drop_last(), r);
        if count_result(s, r) == 0 {
            assert forall|j: int| 0 <= j < s.len() implies (#[trigger] s[j]).1 != r by {
                if j < s.len() - 1 {
                    assert(s.drop_last()[j] == s[j]);
                }
            }
        } else if s.last().1 != r {
            let j = choose|j: int| 0 <= j < s.drop_last().len() && (#[trigger] s.drop_last()[j]).1 == r;
            assert(s[j] == s.drop_last()[j]);
        }
    }
}

/// The checks of one merge chain: the first path is left out, each other path is merged in
/// turn until a merge conflicts, and every path after a conflict is recorded as aborted.
pub struct ChainCheck<B: IsGitObject, C: IsGitObject> {
    statistic: MergeChainStatistic<B, C>,
    chain: Vec<NodePath<C>>,
    position: usize,
    skip: bool,
}

impl<B: IsGitObject, C: IsGitObject> View for ChainCheck<B, C> {
    type V = ChainCheckView;

    closed spec fn view(&self) -> ChainCheckView {
        ChainCheckView {
            statistic: self.statistic@,
            chain: keys_view(self.chain@),
            position: self.position as nat,
            skip: self.skip,
        }
    }
}

impl<B: IsGitObject, C: IsGitObject> ChainCheck<B, C> {
    /// The check of `chain` onto `base`; the chain holds at least one path.
    pub fn start(base: &NodePath<B>, chain: &Vec<NodePath<C>>) -> (c: Self)
        requires
            chain@.len() >= 1,
        ensures
            check_wf(c@),
            c@.statistic == chain_start(base@),
            c@.chain == keys_view(chain@),
            c@.position == 1,
            !c@.skip,
    {
        let paths = tail_of(chain, 0);
        assert(keys_view(chain@).subrange(0, chain@.len() as int) =~= keys_view(chain@));
        let c = ChainCheck { statistic: MergeChainStatistic::new(base.clone()), chain: paths, position: 1, skip: false };
        assert(count_result(c@.statistic.chain, MergeResult::Conflict) == 0);
        c
    }

    /// The next step: once the rest is skipped, each remaining path is recorded as aborted
    /// and the check is done; otherwise the next path is to be merged, or the check is done.
    pub fn next_step(&mut self) -> (s: ChainStep<C>)
        requires
            check_wf(old(self)@),
        ensures
            check_wf(final(self)@),
            final(self)@.chain == old(self)@.chain,
            final(self)@.skip == old(self)@.skip,
            final(self)@.statistic.base == old(self)@.statistic.base,
            old(self)@.skip ==> final(self)@.position == old(self)@.chain.len() && final(self)@.statistic.chain
                == old(self)@.statistic.chain + aborted_from(old(self)@.chain, old(self)@.position as int)
                && s is Done,
            !old(self)@.skip ==> final(self)@ == old(self)@,
            !old(self)@.skip ==> match s {
                ChainStep::Merge(p) => old(self)@.position < old(self)@.chain.len() && p@ == old(self)@.chain[old(
                    self,
                )@.position as int],
                ChainStep::Done => old(self)@.position == old(self)@.chain.len(),
            },
    {
        if self.skip {
            let ghost start = self.position as int;
            let ghost first = self@.statistic.chain;
            while self.position < self.chain.len()
                invariant
                    self.skip,
                    check_wf(self@),
                    start <= self.position <= self.chain@.len(),
                    self@.chain == old(self)@.chain,
                    self@.statistic.base == old(self)@.statistic.base,
                    self@.statistic.chain == first + aborted_from(self@.chain, start).take(self.position - start),
                    first == old(self)@.statistic.chain,
                    start == old(self)@.position,
                decreases self.chain@.len() - self.position,
            {
                let ghost before = self@;
                proof {
                    lemma_count_le_len(before.statistic.chain, MergeResult::Success);
                    lemma_count_le_len(before.statistic.chain, MergeResult::UpToDate);
                    lemma_count_le_len(before.statistic.chain, MergeResult::Conflict);
                }
                let stat = MergeStatistic::new(self.chain[self.position].clone(), MergeResult::Aborted);
                self.statistic.push(stat);
                self.position = self.position + 1;
                proof {
                    let sc = self@.statistic.chain;
                    lemma_count_push(before.statistic.chain, stat@, MergeResult::Success);
                    lemma_count_push(before.statistic.chain, stat@, MergeResult::UpToDate);
                    lemma_count_push(before.statistic.chain, stat@, MergeResult::Conflict);
                    assert(sc == before.statistic.chain.push(stat@));
                    assert(keys_view(self.chain@)[self.position - 1] == self.chain@[self.position - 1]@);
                    assert forall|j: int| 0 <= j < sc.len() implies (#[trigger] sc[j]).0 == self@.chain[j + 1] by {
                        if j < sc.len() - 1 {
                            assert(sc[j] == before.statistic.chain[j]);
                        }
                    }
                    assert forall|i: int, j: int|
                        0 <= i < j < sc.len() && #[trigger] sc[i].1 == MergeResult::Conflict implies #[trigger] sc[j].1
                        == MergeResult::Aborted by {
                        if j < sc.len() - 1 {
                            assert(sc[i] == before.statistic.chain[i]);
                            assert(sc[j] == before.statistic.chain[j]);
                        }
                    }
                    assert(aborted_from(self@.chain, start).take(self.position - start) =~= aborted_from(
                        self@.chain,
                        start,
                    ).take(before.position - start).push(stat@));
                }
            }
            assert(aborted_from(self@.chain, start).take(self.position - start) =~= aborted_from(self@.chain, start));
            ChainStep::Done
        } else if self.position < self.chain.len() {
            ChainStep::Merge(self.chain[self.position].clone())
        } else {
            ChainStep::Done
        }
    }

    /// Records the statistic of the merge the last step asked for; gives back whether it
    /// conflicted, in which case the merge is to be aborted and the rest is skipped.
    pub fn record_merge(&mut self, stat: MergeStatistic<C>) -> (abort: bool)
        requires
            check_wf(old(self)@),
            !old(self)@.skip,
            old(self)@.position < old(self)@.chain.len(),
            stat@.0 == old(self)@.chain[old(self)@.position as int],
        ensures
            check_wf(final(self)@),
            final(self)@.chain == old(self)@.chain,
            final(self)@.position == old(self)@.position + 1,
            final(self)@.statistic == chain_pushed(old(self)@.statistic, stat@),
            abort == (stat@.1 == MergeResult::Conflict),
            final(self)@.skip == abort,
    {
        let ghost before = self@;
        proof {
            lemma_count_le_len(before.statistic.chain, MergeResult::Success);
            lemma_count_le_len(before.statistic.chain, MergeResult::UpToDate);
            lemma_count_le_len(before.statistic.chain, MergeResult::Conflict);
        }
        let abort = *stat.get_stat() == MergeResult::Conflict;
        let ghost sv = stat@;
        let pos = self.position;
        let n = self.chain.len();
        assert(pos < n);
        self.statistic.push(stat);
        self.position = pos + 1;
        self.skip = abort;
        proof {
            let sc = self@.statistic.chain;
            lemma_count_push(before.statistic.chain, sv, MergeResult::Success);
            lemma_count_push(before.statistic.chain, sv, MergeResult::UpToDate);
            lemma_count_push(before.statistic.chain, sv, MergeResult::Conflict);
            assert(sc == before.statistic.chain.push(sv));
            assert forall|j: int| 0 <= j < sc.len() implies (#[trigger] sc[j]).0 == self@.chain[j + 1] by {
                if j < sc.len() - 1 {
                    assert(sc[j] == before.statistic.chain[j]);
                }
            }
            assert forall|i: int, j: int|
                0 <= i < j < sc.len() && #[trigger] sc[i].1 == MergeResult::Conflict implies #[trigger] sc[j].1
                == MergeResult::Aborted by {
                assert(sc[i] == before.statistic.chain[i]);
                assert((before.statistic.chain[i]).1 != MergeResult::Conflict);
            }
        }
        abort
    }

    /// The statistic of the finished chain.
    pub fn finish(self) -> (r: MergeChainStatistic<B, C>)
        requires
            check_wf(self@),
            self@.position == self@.chain.len(),
        ensures
            r@ == self@.statistic,
            r@.chain.len() == self@.chain.len() - 1,
            forall|j: int| 0 <= j < r@.chain.len() ==> (#[trigger] r@.chain[j]).0 == self@.chain[j + 1],
            counters_consistent(r@),
            nothing_merged_after_conflict(r@.chain),
    {
        self.statistic
    }
}


/// The second path of each chain in which a conflict was counted, in order.
pub open spec fn conflicting_paths(cs: Seq<ChainView>) -> Seq<KeyView>
    decreases cs.len(),
{
    if cs.len() == 0 {
        Seq::empty()
    } else if cs.last().n_conflict > 0 {
        conflicting_paths(cs.drop_last()).push(cs.last().chain[1].0)
    } else {
        conflicting_paths(cs.drop_last())
    }
}

/// Every chain in which a conflict was counted has a second path.
pub open spec fn conflicts_have_second(cs: Seq<ChainView>) -> bool {
    forall|k: int| 0 <= k < cs.len() && (#[trigger] cs[k]).n_conflict > 0 ==> cs[k].chain.len() >= 2
}

/// The chain `v` rebased onto its second path: its first two outcomes are removed and the
/// second path is put in front as the base of the rest.
pub open spec fn rebased(v: ChainView) -> ChainView {
    chain_inserted(chain_removed(chain_removed(v, 0), 0), 0, (v.chain[1].0, MergeResult::Base))
}

/// The first two outcomes of `v` can be removed with their counters.
pub open spec fn can_rebase(v: ChainView) -> bool {
    &&& v.chain.len() >= 2
    &&& can_uncount(v, v.chain[0].1)
    &&& can_uncount(chain_removed(v, 0), v.chain[1].1)
}

/// Each chain of `cs` rebased.
pub open spec fn all_rebased(cs: Seq<ChainView>) -> Seq<ChainView> {
    cs.map_values(|v: ChainView| rebased(v))
}

/// Appending chains to none gives exactly those chains.
pub proof fn lemma_fold_statistics(v: ChainsView, cs: Seq<ChainView>)
    ensures
        chains_fold(v, cs).statistics == v.statistics + cs,
    decreases cs.len(),
{
    if cs.len() > 0 {
        lemma_fold_statistics(v, cs.drop_last());
        assert(v.statistics + cs =~= (v.statistics + cs.drop_last()).push(cs.last()));
    }
}

/// Analyses the pairwise conflicts between paths merged onto a common base.
pub struct ConflictAnalyzer<'a> {
    checker: ConflictChecker<'a>,
}

impl<'a> ConflictAnalyzer<'a> {
    /// An analyzer that plans its chains with `checker`.
    pub fn new(checker: ConflictChecker<'a>) -> (a: Self)
        ensures
            a.checker_interface() == checker.interface(),
    {
        Self { checker }
    }

    /// The interface the chains are checked with.
    pub closed spec fn checker_interface(&self) -> &'a GitInterface {
        self.checker.interface()
    }

    /// The paths of `paths` that did not conflict with the base: those that are not the
    /// second path of a chain of `pairwise` in which a conflict was counted.
    pub fn paths_compatible_with_base<C: IsGitObject>(
        &self,
        paths: &Vec<NodePath<C>>,
        pairwise: &Vec<MergeChainStatistic<C, C>>,
    ) -> (r: Vec<NodePath<C>>)
        requires
            conflicts_have_second(chains_view(pairwise@)),
        ensures
            keys_view(r@) == keys_view(paths@).filter(
                |p: KeyView| !conflicting_paths(chains_view(pairwise@)).contains(p),
            ),
    {
        let ghost cv = chains_view(pairwise@);
        let mut conflicting: Vec<NodePath<C>> = Vec::new();
        let mut i: usize = 0;
        while i < pairwise.len()
            invariant
                i <= pairwise@.len(),
                cv == chains_view(pairwise@),
                conflicts_have_second(cv),
                keys_view(conflicting@) == conflicting_paths(cv.take(i as int)),
            decreases pairwise@.len() - i,
        {
            let result = &pairwise[i];
            assert(cv.take(i + 1).drop_last() =~= cv.take(i as int));
            assert(cv[i as int] == result@);
            if result.contains_conflicts() {
                let chain = result.get_chain();
                assert(cv[i as int].n_conflict > 0);
                let p = chain[1].get_path().clone();
                let ghost before = conflicting@;
                conflicting.push(p);
                assert(keys_view(conflicting@) =~= keys_view(before).push(p@));
            }
            i = i + 1;
        }
        assert(cv.take(i as int) =~= cv);
        let ghost bad = keys_view(conflicting@);
        let ghost pk = keys_view(paths@);
        let mut r: Vec<NodePath<C>> = Vec::new();
        let mut j: usize = 0;
        while j < paths.len()
            invariant
                j <= paths@.len(),
                bad == keys_view(conflicting@),
                pk == keys_view(paths@),
                keys_view(r@) == pk.take(j as int).filter(|p: KeyView| !bad.contains(p)),
            decreases paths@.len() - j,
        {
            reveal_with_fuel(Seq::filter, 1);
            assert(pk.take(j + 1).drop_last() =~= pk.take(j as int));
            let path = &paths[j];
            assert(pk[j as int] == path@);
            let mut found = false;
            let mut c: usize = 0;
            while c < conflicting.len()
                invariant
                    c <= conflicting@.len(),
                    bad == keys_view(conflicting@),
                    found == exists|w: int| 0 <= w < c && #[trigger] bad[w] == path@,
                decreases conflicting@.len() - c,
            {
                let same = conflicting[c].equals(path) && conflicting[c].get_type() == path.get_type();
                proof {
                    assert(bad[c as int] == conflicting@[c as int]@);
                }
                found = found || same;
                c = c + 1;
            }
            assert(found == bad.contains(path@));
            if !found {
                let ghost before = r@;
                r.push(path.clone());
                assert(keys_view(r@) =~= keys_view(before).push(path@));
            }
            j = j + 1;
        }
        assert(pk.take(j as int) =~= pk);
        r
    }

    /// The plans of the second phase: every ordered pair of the paths of `paths` that did not
    /// conflict with the base in `pairwise`, each merged onto `base`.
    pub fn second_phase_plans<C: IsGitObject>(
        &self,
        paths: &Vec<NodePath<C>>,
        base: &NodePath<C>,
        pairwise: &Vec<MergeChainStatistic<C, C>>,
    ) -> (r: Vec<ChainPlan<C, C>>)
        requires
            conflicts_have_second(chains_view(pairwise@)),
        ensures
            plans_view(r@) == base_plans(
                base@,
                perms_spec(
                    keys_view(paths@).filter(|p: KeyView| !conflicting_paths(chains_view(pairwise@)).contains(p)),
                    2,
                ),
            ),
    {
        let compatible = self.paths_compatible_with_base(paths, pairwise);
        self.checker.check_permutations_against_base(&compatible, base, 2)
    }

    /// The matrix of the chains of `pairwise` (each path merged onto the base) and of the
    /// chains of `with_base` (two paths merged onto the base) rebased onto their second path.
    pub fn calculate_2d_heuristics_matrix_with_merge_base<C: IsGitObject>(
        &mut self,
        pairwise: Vec<MergeChainStatistic<C, C>>,
        with_base: Vec<MergeChainStatistic<C, C>>,
    ) -> (m: Conflict2DMatrix<C>)
        requires
            forall|k: int| 0 <= k < pairwise@.len() ==> 1 <= (#[trigger] pairwise@[k])@.chain.len() <= 2,
            forall|k: int| 0 <= k < with_base@.len() ==> can_rebase(#[trigger] with_base@[k]@),
            forall|k: int| 0 <= k < with_base@.len() ==> (#[trigger] with_base@[k])@.chain.len() <= 3,
            sum_successes(chains_view(pairwise@) + all_rebased(chains_view(with_base@))) <= usize::MAX,
            sum_conflicts(chains_view(pairwise@) + all_rebased(chains_view(with_base@))) <= usize::MAX,
        ensures
            m@ == matrix_of(chains_view(pairwise@) + all_rebased(chains_view(with_base@))),
            matrix_wf(m@),
            final(self).checker_interface() == old(self).checker_interface(),
    {
        let ghost wv = chains_view(with_base@);
        let ghost pv = chains_view(pairwise@);
        let mut rebased_chains: Vec<MergeChainStatistic<C, C>> = Vec::new();
        let mut with_base = with_base;
        let mut i: usize = 0;
        while i < with_base.len()
            invariant
                i <= with_base@.len(),
                wv == chains_view(with_base@),
                forall|k: int| 0 <= k < with_base@.len() ==> can_rebase(#[trigger] with_base@[k]@),
                chains_view(rebased_chains@) == all_rebased(wv.take(i as int)),
            decreases with_base@.len() - i,
        {
            let mut result = with_base[i].clone();
            assert(wv[i as int] == with_base@[i as int]@);
            let ghost v = result@;
            result.remove(0);
            let second = result.remove(0);
            assert(chain_removed(v, 0).chain[0] == v.chain[1]);
            let new = MergeStatistic::new(second.get_path().clone(), MergeResult::Base);
            result.insert(0, new);
            assert(result@ == rebased(v));
            let ghost before = rebased_chains@;
            rebased_chains.push(result);
            assert(chains_view(rebased_chains@) =~= chains_view(before).push(rebased(v)));
            assert(all_rebased(wv.take(i + 1)) =~= all_rebased(wv.take(i as int)).push(rebased(v)));
            i = i + 1;
        }
        assert(wv.take(i as int) =~= wv);
        let mut all = pairwise;
        let ghost rv = chains_view(rebased_chains@);
        all.append(&mut rebased_chains);
        assert(chains_view(all@) =~= pv + rv);
        let mut statistics: MergeChainStatistics<C, C> = MergeChainStatistics::new();
        statistics.fill_from_iter(all);
        proof {
            lemma_fold_statistics(ChainsView { statistics: Seq::empty(), total_successes: 0, total_conflicts: 0 }, pv + rv);
            assert(Seq::<ChainView>::empty() + (pv + rv) =~= pv + rv);
            assert forall|k: int| 0 <= k < statistics@.statistics.len() implies 1 <= (#[trigger] statistics@.statistics[k]).chain.len() <= 2 by {
                if k < pv.len() {
                    assert(statistics@.statistics[k] == pairwise@[k]@);
                } else {
                    let w = k - pv.len();
                    assert(statistics@.statistics[k] == rv[w]);
                    assert(rv[w] == rebased(wv[w]));
                    assert(wv[w] == with_base@[w]@);
                }
            }
        }
        self.checker.clean_up();
        Conflict2DMatrix::new(&statistics)
    }
}

} // verus!
