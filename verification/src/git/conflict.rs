//! Merge statistics: the outcome of each merge in a chain of merges, counters over a chain
//! and over many chains, weights of outcomes, and a matrix of pairwise outcomes from which
//! merge orders are predicted and estimated.

use crate::git::error::InvalidPathError;
use crate::git::interface::GitInterface;
use crate::model::node::{lookup, NodeView};
use crate::model::node_type::{IsGitObject, NodeType};
use crate::model::path::{path_string_spec, NormalizedPath};
use crate::model::tree::NodePath;
use crate::paint::{is_painted, lemma_no_escape_unchanged, no_escape, paint, paint_prefix, paint_reset, Paint};
use crate::text::{group_strs_view, join_spec, join_strings, owned, strs_view};
use vstd::prelude::*;

verus! {

broadcast use group_strs_view;

/// The outcome of one step of a merge chain.
#[derive(Clone, Copy, Debug, PartialEq, Eq, Hash, Structural)]
pub enum MergeResult {
    Base,
    Success,
    UpToDate,
    Conflict,
    Merging,
    Aborted,
}

/// The label of an outcome.
pub open spec fn result_label(r: MergeResult) -> Seq<char> {
    match r {
        MergeResult::Base => "(Base)"@,
        MergeResult::Success => "(Ok)"@,
        MergeResult::UpToDate => "(Up To Date)"@,
        MergeResult::Conflict => "(Conflict)"@,
        MergeResult::Merging => "(Merging)"@,
        MergeResult::Aborted => "(Aborted)"@,
    }
}

/// The color of an outcome's label.
pub open spec fn result_color(r: MergeResult) -> Paint {
    match r {
        MergeResult::Base => Paint::Blue,
        MergeResult::Success => Paint::Green,
        MergeResult::UpToDate => Paint::Green,
        MergeResult::Conflict => Paint::Red,
        MergeResult::Merging => Paint::Yellow,
        MergeResult::Aborted => Paint::Red,
    }
}

impl MergeResult {
    /// The plain label: `(Base)`, `(Ok)`, `(Up To Date)`, `(Conflict)`, `(Merging)`, `(Aborted)`.
    pub fn label(&self) -> (s: String)
        ensures
            s@ == result_label(*self),
            no_escape(s@),
    {
        proof {
            reveal_strlit("(Base)");
            reveal_strlit("(Ok)");
            reveal_strlit("(Up To Date)");
            reveal_strlit("(Conflict)");
            reveal_strlit("(Merging)");
            reveal_strlit("(Aborted)");
        }
        match self {
            MergeResult::Base => owned("(Base)"),
            MergeResult::Success => owned("(Ok)"),
            MergeResult::UpToDate => owned("(Up To Date)"),
            MergeResult::Conflict => owned("(Conflict)"),
            MergeResult::Merging => owned("(Merging)"),
            MergeResult::Aborted => owned("(Aborted)"),
        }
    }

    /// The label in its color (blue for the base, green for success and up to date, red for
    /// conflicts and aborts, yellow while merging) when the terminal takes colors.
    pub fn display(&self) -> (s: String)
        ensures
            is_painted(s@, result_label(*self), result_color(*self)),
            s@ == result_label(*self) || s@ == paint_prefix(result_color(*self)) + result_label(*self)
                + paint_reset(),
    {
        let l = self.label();
        proof {
            lemma_no_escape_unchanged(l@, paint_prefix(result_color(*self)));
        }
        let color = match self {
            MergeResult::Base => Paint::Blue,
            MergeResult::Success => Paint::Green,
            MergeResult::UpToDate => Paint::Green,
            MergeResult::Conflict => Paint::Red,
            MergeResult::Merging => Paint::Yellow,
            MergeResult::Aborted => Paint::Red,
        };
        paint(l.as_str(), color)
    }
}

/// A merge outcome for a path given in normalized form.
pub struct NormalizedMergeStatistic {
    path: NormalizedPath,
    stat: MergeResult,
}

impl View for NormalizedMergeStatistic {
    type V = (Seq<Seq<char>>, MergeResult);

    closed spec fn view(&self) -> (Seq<Seq<char>>, MergeResult) {
        (self.path@, self.stat)
    }
}

impl NormalizedMergeStatistic {
    /// The outcome `stat` for `path`.
    pub fn new(path: NormalizedPath, stat: MergeResult) -> (s: Self)
        ensures
            s@ == (path@, stat),
    {
        Self { path, stat }
    }

    /// The path.
    pub fn get_path(&self) -> (p: &NormalizedPath)
        ensures
            p@ == self@.0,
    {
        &self.path
    }

    /// The outcome.
    pub fn get_stat(&self) -> (r: &MergeResult)
        ensures
            *r == self@.1,
    {
        &self.stat
    }
}

/// The view of a merge statistic: the typed path and the outcome.
pub type StatView = ((Seq<Seq<char>>, NodeType), MergeResult);

/// A merge outcome for a typed path.
pub struct MergeStatistic<T: IsGitObject> {
    path: NodePath<T>,
    stat: MergeResult,
}

impl<T: IsGitObject> View for MergeStatistic<T> {
    type V = StatView;

    closed spec fn view(&self) -> StatView {
        (self.path@, self.stat)
    }
}

impl<T: IsGitObject> Clone for MergeStatistic<T> {
    fn clone(&self) -> (r: Self)
        ensures
            r@ == self@,
    {
        MergeStatistic { path: self.path.clone(), stat: self.stat }
    }
}

/// What displaying a statistic with outcome `v.1` and path `v.0.0` can give: the painted
/// label, a space and the path string.
pub open spec fn stat_rendering(s: Seq<char>, v: StatView) -> bool {
    exists|l: Seq<char>|
        is_painted(l, result_label(v.1), result_color(v.1)) && s == l + seq![' '] + path_string_spec(
            v.0.0,
        )
}

impl<T: IsGitObject> MergeStatistic<T> {
    /// The outcome `stat` for `path`.
    pub fn new(path: NodePath<T>, stat: MergeResult) -> (s: Self)
        ensures
            s@ == (path@, stat),
    {
        Self { path, stat }
    }

    /// The statistic of a normalized one whose path leads to a node of a kind `T` covers in
    /// the model of `git`; otherwise the error that says what is wrong with the path.
    pub fn from_normalized(stat: NormalizedMergeStatistic, git: &GitInterface) -> (r: Result<Self, InvalidPathError>)
        ensures
            (r is Ok) == (typed_statistic::<T>(git.model_view(), stat@) is Some),
            r is Ok ==> Some(r.unwrap()@) == typed_statistic::<T>(git.model_view(), stat@),
            match r {
                Ok(s) => lookup(git.model_view(), stat@.0) is Some && T::accepts(
                    lookup(git.model_view(), stat@.0).unwrap().node_type,
                ) && s@ == ((stat@.0, lookup(git.model_view(), stat@.0).unwrap().node_type), stat@.1),
                Err(_) => !(lookup(git.model_view(), stat@.0) is Some && T::accepts(
                    lookup(git.model_view(), stat@.0).unwrap().node_type,
                )),
            },
    {
        let path = git.assert_path::<T>(stat.get_path());
        match path {
            Ok(p) => Ok(Self::new(p, *stat.get_stat())),
            Err(e) => Err(e),
        }
    }

    /// The normalized form.
    pub fn to_normalized(&self) -> (n: NormalizedMergeStatistic)
        ensures
            n@ == (self@.0.0, self@.1),
    {
        NormalizedMergeStatistic::new(self.path.to_normalized_path(), self.stat)
    }

    /// The path.
    pub fn get_path(&self) -> (p: &NodePath<T>)
        ensures
            p@ == self@.0,
    {
        &self.path
    }

    /// The outcome.
    pub fn get_stat(&self) -> (r: &MergeResult)
        ensures
            *r == self@.1,
    {
        &self.stat
    }

    /// The painted outcome label, a space and the path.
    pub fn display(&self) -> (s: String)
        ensures
            stat_rendering(s@, self@),
    {
        let mut s = self.stat.display();
        let ghost l = s@;
        proof {
            reveal_strlit(" ");
        }
        s.append(" ");
        s.append(self.path.to_qualified_path().to_path_string().as_str());
        assert(s@ == l + seq![' '] + path_string_spec(self@.0.0));
        s
    }
}

/// What reading a normalized statistic against the tree `m` gives: the statistic typed by the
/// kind of the node its path leads to, when `T` covers that kind; nothing otherwise.
pub open spec fn typed_statistic<T: IsGitObject>(m: NodeView, n: (Seq<Seq<char>>, MergeResult)) -> Option<StatView> {
    if lookup(m, n.0) is Some && T::accepts(lookup(m, n.0).unwrap().node_type) {
        Some(((n.0, lookup(m, n.0).unwrap().node_type), n.1))
    } else {
        None
    }
}

/// A statistic whose path leads in the tree to a node of the statistic's own kind, a kind that
/// `T` covers, comes back unchanged from its normalized form.
pub proof fn law_normalized_round_trip<T: IsGitObject>(m: NodeView, s: StatView)
    requires
        lookup(m, s.0.0) is Some,
        lookup(m, s.0.0).unwrap().node_type == s.0.1,
        T::accepts(s.0.1),
    ensures
        typed_statistic::<T>(m, (s.0.0, s.1)) == Some(s),
{
}

/// 1 when `b` holds, else 0.
pub open spec fn ind(b: bool) -> nat {
    if b {
        1
    } else {
        0
    }
}

/// How many statistics of `s` have outcome `r`.
pub open spec fn count_result(s: Seq<StatView>, r: MergeResult) -> nat
    decreases s.len(),
{
    if s.len() == 0 {
        0
    } else {
        count_result(s.drop_last(), r) + ind(s.last().1 == r)
    }
}

/// Counting after appending.
pub proof fn lemma_count_push(s: Seq<StatView>, x: StatView, r: MergeResult)
    ensures
        count_result(s.push(x), r) == count_result(s, r) + ind(x.1 == r),
{
    assert(s.push(x).drop_last() =~= s);
}

/// Counting after removing position `i`.
pub proof fn lemma_count_remove(s: Seq<StatView>, i: int, r: MergeResult)
    requires
        0 <= i < s.len(),
    ensures
        count_result(s, r) == count_result(s.remove(i), r) + ind(s[i].1 == r),
    decreases s.len(),
{
    if i == s.len() - 1 {
        assert(s.remove(i) =~= s.drop_last());
    } else {
        lemma_count_remove(s.drop_last(), i, r);
        assert(s.remove(i).drop_last() =~= s.drop_last().remove(i));
        assert(s.remove(i).last() == s.last());
    }
}

/// Counting after inserting at position `i`.
pub proof fn lemma_count_insert(s: Seq<StatView>, i: int, x: StatView, r: MergeResult)
    requires
        0 <= i <= s.len(),
    ensures
        count_result(s.insert(i, x), r) == count_result(s, r) + ind(x.1 == r),
{
    lemma_count_remove(s.insert(i, x), i, r);
    assert(s.insert(i, x).remove(i) =~= s);
}

/// A chain of merges as values: the base, the outcomes after it, and the counters.
pub struct ChainView {
    pub base: StatView,
    pub chain: Seq<StatView>,
    pub n_success: nat,
    pub n_up_to_date: nat,
    pub n_conflict: nat,
}

/// The counters agree with the outcomes in the chain.
pub open spec fn counters_consistent(v: ChainView) -> bool {
    &&& v.n_success == count_result(v.chain, MergeResult::Success)
    &&& v.n_up_to_date == count_result(v.chain, MergeResult::UpToDate)
    &&& v.n_conflict == count_result(v.chain, MergeResult::Conflict)
}

/// The counters after counting one more outcome `r`.
pub open spec fn counted(v: ChainView, r: MergeResult) -> ChainView {
    ChainView {
        n_success: v.n_success + ind(r == MergeResult::Success),
        n_up_to_date: v.n_up_to_date + ind(r == MergeResult::UpToDate),
        n_conflict: v.n_conflict + ind(r == MergeResult::Conflict),
        ..v
    }
}

/// The counters after uncounting an outcome `r`.
pub open spec fn uncounted(v: ChainView, r: MergeResult) -> ChainView {
    ChainView {
        n_success: (v.n_success - ind(r == MergeResult::Success)) as nat,
        n_up_to_date: (v.n_up_to_date - ind(r == MergeResult::UpToDate)) as nat,
        n_conflict: (v.n_conflict - ind(r == MergeResult::Conflict)) as nat,
        ..v
    }
}

/// The counter of outcome `r` can go up by one within `usize`.
pub open spec fn room_for(v: ChainView, r: MergeResult) -> bool {
    match r {
        MergeResult::Success => v.n_success < usize::MAX,
        MergeResult::UpToDate => v.n_up_to_date < usize::MAX,
        MergeResult::Conflict => v.n_conflict < usize::MAX,
        _ => true,
    }
}

/// The counter of outcome `r` can go down by one.
pub open spec fn can_uncount(v: ChainView, r: MergeResult) -> bool {
    match r {
        MergeResult::Success => v.n_success > 0,
        MergeResult::UpToDate => v.n_up_to_date > 0,
        MergeResult::Conflict => v.n_conflict > 0,
        _ => true,
    }
}

/// The chain after appending `x` and counting it.
pub open spec fn chain_pushed(v: ChainView, x: StatView) -> ChainView {
    counted(ChainView { chain: v.chain.push(x), ..v }, x.1)
}

/// The chain after inserting `x` at `i` and counting it.
pub open spec fn chain_inserted(v: ChainView, i: int, x: StatView) -> ChainView {
    counted(ChainView { chain: v.chain.insert(i, x), ..v }, x.1)
}

/// The chain after removing position `i` and uncounting it.
pub open spec fn chain_removed(v: ChainView, i: int) -> ChainView {
    uncounted(ChainView { chain: v.chain.remove(i), ..v }, v.chain[i].1)
}

/// The outcomes of a chain of merges after a base, with counters of successes, up-to-date
/// merges and conflicts.
pub struct MergeChainStatistic<B: IsGitObject, C: IsGitObject> {
    base: MergeStatistic<B>,
    chain: Vec<MergeStatistic<C>>,
    n_success: usize,
    n_up_to_date: usize,
    n_conflict: usize,
}

/// The views of a vector of statistics.
pub open spec fn stats_view<T: IsGitObject>(v: Seq<MergeStatistic<T>>) -> Seq<StatView> {
    v.map_values(|s: MergeStatistic<T>| s@)
}

/// `stats_view` keeps the length.
pub broadcast proof fn lemma_stats_view_len<T: IsGitObject>(v: Seq<MergeStatistic<T>>)
    ensures
        #[trigger] stats_view(v).len() == v.len(),
{
}

/// `stats_view` views each element.
pub broadcast proof fn lemma_stats_view_index<T: IsGitObject>(v: Seq<MergeStatistic<T>>, i: int)
    requires
        0 <= i < v.len(),
    ensures
        #[trigger] stats_view(v)[i] == v[i]@,
{
}

/// `stats_view` of a push.
pub broadcast proof fn lemma_stats_view_push<T: IsGitObject>(v: Seq<MergeStatistic<T>>, x: MergeStatistic<T>)
    ensures
        #[trigger] stats_view(v.push(x)) == stats_view(v).push(x@),
{
    assert(stats_view(v.push(x)) =~= stats_view(v).push(x@));
}

/// The facts about `stats_view` that the proofs here use.
pub broadcast group group_stats_view {
    lemma_stats_view_len,
    lemma_stats_view_index,
    lemma_stats_view_push,
}

impl<B: IsGitObject, C: IsGitObject> View for MergeChainStatistic<B, C> {
    type V = ChainView;

    closed spec fn view(&self) -> ChainView {
        ChainView {
            base: self.base@,
            chain: stats_view(self.chain@),
            n_success: self.n_success as nat,
            n_up_to_date: self.n_up_to_date as nat,
            n_conflict: self.n_conflict as nat,
        }
    }
}

impl<B: IsGitObject, C: IsGitObject> Clone for MergeChainStatistic<B, C> {
    fn clone(&self) -> (r: Self)
        ensures
            r@ == self@,
    {
        broadcast use group_stats_view;

        let mut chain: Vec<MergeStatistic<C>> = Vec::new();
        let mut i: usize = 0;
        while i < self.chain.len()
            invariant
                i <= self.chain@.len(),
                stats_view(chain@) == stats_view(self.chain@).take(i as int),
            decreases self.chain@.len() - i,
        {
            let c = self.chain[i].clone();
            let ghost before = chain@;
            chain.push(c);
            proof {
                lemma_stats_view_push(before, c);
                lemma_stats_view_index(self.chain@, i as int);
            }
            i = i + 1;
            assert(stats_view(chain@) =~= stats_view(self.chain@).take(i as int));
        }
        assert(stats_view(self.chain@).take(i as int) =~= stats_view(self.chain@));
        MergeChainStatistic {
            base: self.base.clone(),
            chain,
            n_success: self.n_success,
            n_up_to_date: self.n_up_to_date,
            n_conflict: self.n_conflict,
        }
    }
}

/// What displaying a chain as a path can give: the renderings of its statistics joined by ` <- `.
pub open spec fn chain_rendering(s: Seq<char>, chain: Seq<StatView>) -> bool {
    exists|rs: Seq<Seq<char>>|
        rs.len() == chain.len() && (forall|i: int| 0 <= i < chain.len() ==> stat_rendering(#[trigger] rs[i], chain[i]))
            && s == join_spec(rs, " <- "@)
}

impl<B: IsGitObject, C: IsGitObject> MergeChainStatistic<B, C> {
    /// An empty chain after `base`.
    pub fn new(base: NodePath<B>) -> (s: Self)
        ensures
            s@ == (ChainView {
                base: (base@, MergeResult::Base),
                chain: Seq::empty(),
                n_success: 0,
                n_up_to_date: 0,
                n_conflict: 0,
            }),
    {
        let s = Self {
            base: MergeStatistic::new(base, MergeResult::Base),
            chain: Vec::new(),
            n_success: 0,
            n_up_to_date: 0,
            n_conflict: 0,
        };
        assert(s@.chain =~= Seq::<StatView>::empty());
        s
    }

    fn add_to_internal_counters(&mut self, stat: &MergeStatistic<C>)
        requires
            room_for(old(self)@, stat@.1),
        ensures
            final(self)@ == counted(old(self)@, stat@.1),
    {
        match stat.get_stat() {
            MergeResult::Success => self.n_success = self.n_success + 1,
            MergeResult::UpToDate => self.n_up_to_date = self.n_up_to_date + 1,
            MergeResult::Conflict => self.n_conflict = self.n_conflict + 1,
            _ => {},
        }
    }

    fn subtract_from_internal_counters(&mut self, stat: &MergeStatistic<C>)
        requires
            can_uncount(old(self)@, stat@.1),
        ensures
            final(self)@ == uncounted(old(self)@, stat@.1),
    {
        match stat.get_stat() {
            MergeResult::Success => self.n_success = self.n_success - 1,
            MergeResult::UpToDate => self.n_up_to_date = self.n_up_to_date - 1,
            MergeResult::Conflict => self.n_conflict = self.n_conflict - 1,
            _ => {},
        }
    }

    /// Appends `stat` and counts it.
    pub fn push(&mut self, stat: MergeStatistic<C>)
        requires
            room_for(old(self)@, stat@.1),
        ensures
            final(self)@ == chain_pushed(old(self)@, stat@),
    {
        broadcast use group_stats_view;

        self.add_to_internal_counters(&stat);
        let ghost mid = self@;
        self.chain.push(stat);
        assert(stats_view(self.chain@) =~= mid.chain.push(stat@));
    }

    /// Appends all of `stats` without counting them.
    pub fn fill(&mut self, stats: Vec<MergeStatistic<C>>)
        ensures
            final(self)@ == (ChainView { chain: old(self)@.chain + stats_view(stats@), ..old(self)@ }),
    {
        broadcast use group_stats_view;

        let mut i: usize = 0;
        while i < stats.len()
            invariant
                i <= stats@.len(),
                self@ == (ChainView { chain: old(self)@.chain + stats_view(stats@).take(i as int), ..old(self)@ }),
            decreases stats@.len() - i,
        {
            let c = stats[i].clone();
            let ghost before = self.chain@;
            self.chain.push(c);
            proof {
                lemma_stats_view_push(before, c);
                lemma_stats_view_index(stats@, i as int);
            }
            i = i + 1;
            assert(stats_view(self.chain@) =~= old(self)@.chain + stats_view(stats@).take(i as int));
        }
        assert(stats_view(stats@).take(i as int) =~= stats_view(stats@));
    }

    /// Converts each of `stats` against the model of `git` and appends it, counted, until one
    /// fails to convert; that error is given back and the conversions before it stay appended.
    pub fn fill_from_normalized(&mut self, stats: Vec<NormalizedMergeStatistic>, git: &GitInterface) -> (r: Result<(), InvalidPathError>)
        requires
            old(self)@.n_success + stats@.len() <= usize::MAX,
            old(self)@.n_up_to_date + stats@.len() <= usize::MAX,
            old(self)@.n_conflict + stats@.len() <= usize::MAX,
        ensures
            match r {
                Ok(_) => (forall|k: int| 0 <= k < stats@.len() ==> convertible::<C>(git.model_view(), #[trigger] stats@[k]@.0))
                    && final(self)@ == fold_pushed(old(self)@, converted_all(git.model_view(), normalized_views(stats@))),
                Err(_) => exists|j: int| 0 <= j < stats@.len() && !convertible::<C>(git.model_view(), #[trigger] stats@[j]@.0)
                    && (forall|k: int| 0 <= k < j ==> convertible::<C>(git.model_view(), #[trigger] stats@[k]@.0))
                    && final(self)@ == fold_pushed(old(self)@, converted_all(git.model_view(), normalized_views(stats@).take(j))),
            },
    {
        let mut i: usize = 0;
        while i < stats.len()
            invariant
                i <= stats@.len(),
                old(self)@.n_success + stats@.len() <= usize::MAX,
                old(self)@.n_up_to_date + stats@.len() <= usize::MAX,
                old(self)@.n_conflict + stats@.len() <= usize::MAX,
                self@.n_success <= old(self)@.n_success + i,
                self@.n_up_to_date <= old(self)@.n_up_to_date + i,
                self@.n_conflict <= old(self)@.n_conflict + i,
                forall|k: int| 0 <= k < i ==> convertible::<C>(git.model_view(), #[trigger] stats@[k]@.0),
                self@ == fold_pushed(old(self)@, converted_all(git.model_view(), normalized_views(stats@).take(i as int))),
            decreases stats@.len() - i,
        {
            let ghost before = self@;
            match MergeStatistic::<C>::from_normalized(stats[i].clone(), git) {
                Ok(st) => {
                    self.push(st);
                    assert(normalized_views(stats@).take(i + 1).drop_last() =~= normalized_views(stats@).take(i as int));
                    assert(converted_all(git.model_view(), normalized_views(stats@).take(i + 1)).drop_last()
                        =~= converted_all(git.model_view(), normalized_views(stats@).take(i as int)));
                },
                Err(e) => {
                    return Err(e);
                },
            }
            i = i + 1;
        }
        assert(normalized_views(stats@).take(i as int) =~= normalized_views(stats@));
        Ok(())
    }
}

impl<B: IsGitObject, C: IsGitObject> MergeChainStatistic<B, C> {
    /// Inserts `stat` at `index` and counts it.
    pub fn insert(&mut self, index: usize, stat: MergeStatistic<C>)
        requires
            index <= old(self)@.chain.len(),
            room_for(old(self)@, stat@.1),
        ensures
            final(self)@ == chain_inserted(old(self)@, index as int, stat@),
    {
        self.add_to_internal_counters(&stat);
        let ghost mid = self.chain@;
        self.chain.insert(index, stat);
        assert(stats_view(self.chain@) =~= stats_view(mid).insert(index as int, stat@));
    }

    /// Removes and gives back the statistic at `index`, uncounting it.
    pub fn remove(&mut self, index: usize) -> (s: MergeStatistic<C>)
        requires
            index < old(self)@.chain.len(),
            can_uncount(old(self)@, old(self)@.chain[index as int].1),
        ensures
            s@ == old(self)@.chain[index as int],
            final(self)@ == chain_removed(old(self)@, index as int),
    {
        let ghost before = self.chain@;
        let statistic = self.chain.remove(index);
        assert(stats_view(self.chain@) =~= stats_view(before).remove(index as int));
        self.subtract_from_internal_counters(&statistic);
        statistic
    }

    /// The statistic at `index`, if there is one.
    pub fn get(&self, index: usize) -> (s: Option<&MergeStatistic<C>>)
        ensures
            index < self@.chain.len() ==> s is Some && s.unwrap()@ == self@.chain[index as int],
            index >= self@.chain.len() ==> s is None,
    {
        if index < self.chain.len() {
            Some(&self.chain[index])
        } else {
            None
        }
    }

    /// The base.
    pub fn get_base(&self) -> (s: &MergeStatistic<B>)
        ensures
            s@ == self@.base,
    {
        &self.base
    }

    /// Replaces the statistic at `index` by `stat`, keeping the counters in step.
    pub fn replace(&mut self, index: usize, stat: MergeStatistic<C>)
        requires
            index < old(self)@.chain.len(),
            can_uncount(old(self)@, old(self)@.chain[index as int].1),
            room_for(chain_removed(old(self)@, index as int), stat@.1),
        ensures
            final(self)@ == chain_inserted(chain_removed(old(self)@, index as int), index as int, stat@),
    {
        self.remove(index);
        self.insert(index, stat);
    }

    /// The statistics after the base.
    pub fn get_chain(&self) -> (c: &Vec<MergeStatistic<C>>)
        ensures
            stats_view(c@) == self@.chain,
    {
        &self.chain
    }

    /// The statistics after the base, in order.
    pub fn iter(&self) -> (c: &Vec<MergeStatistic<C>>)
        ensures
            stats_view(c@) == self@.chain,
    {
        &self.chain
    }

    /// The number of counted successes.
    pub fn get_n_success(&self) -> (n: usize)
        ensures
            n == self@.n_success,
    {
        self.n_success
    }

    /// The number of counted merges: successes and conflicts.
    pub fn get_n_merges(&self) -> (n: usize)
        requires
            self@.n_success + self@.n_conflict <= usize::MAX,
        ensures
            n == self@.n_success + self@.n_conflict,
    {
        self.n_success + self.n_conflict
    }

    /// The number of counted up-to-date merges.
    pub fn get_n_up_to_date(&self) -> (n: usize)
        ensures
            n == self@.n_up_to_date,
    {
        self.n_up_to_date
    }

    /// With at most one statistic, true; otherwise whether all but one were counted up to date.
    pub fn all_up_to_date(&self) -> (b: bool)
        ensures
            b == (self@.chain.len() <= 1 || self@.n_up_to_date == self@.chain.len() - 1),
    {
        if self.chain.len() == 0 || self.chain.len() == 1 {
            true
        } else {
            self.n_up_to_date == self.chain.len() - 1
        }
    }

    /// The number of statistics after the base.
    pub fn len(&self) -> (n: usize)
        ensures
            n == self@.chain.len(),
    {
        self.chain.len()
    }

    /// Are there no statistics after the base?
    pub fn is_empty(&self) -> (b: bool)
        ensures
            b == (self@.chain.len() == 0),
    {
        self.chain.len() == 0
    }

    /// The number of counted conflicts.
    pub fn get_n_conflict(&self) -> (n: usize)
        ensures
            n == self@.n_conflict,
    {
        self.n_conflict
    }

    /// Was a conflict counted?
    pub fn contains_conflicts(&self) -> (b: bool)
        ensures
            b == (self@.n_conflict > 0),
    {
        self.n_conflict > 0
    }

    /// The statistics after the base, displayed and joined by ` <- `.
    pub fn display_as_path(&self) -> (s: String)
        ensures
            chain_rendering(s@, self@.chain),
    {
        let mut parts: Vec<String> = Vec::new();
        let mut i: usize = 0;
        while i < self.chain.len()
            invariant
                i <= self.chain@.len(),
                parts@.len() == i,
                forall|k: int| 0 <= k < i ==> stat_rendering(#[trigger] parts@[k]@, self.chain@[k]@),
            decreases self.chain@.len() - i,
        {
            parts.push(self.chain[i].display());
            i = i + 1;
        }
        proof {
            reveal_strlit(" <- ");
        }
        let s = join_strings(&parts, " <- ");
        assert(stats_view(self.chain@).len() == self.chain@.len());
        assert forall|k: int| 0 <= k < self@.chain.len() implies stat_rendering(#[trigger] strs_view(parts@)[k], self@.chain[k]) by {
            assert(strs_view(parts@)[k] == parts@[k]@);
        }
        s
    }

    /// Each statistic after the base displayed, all but base statistics preceded by ` <- `.
    pub fn display_as_list(&self) -> (v: Vec<String>)
        ensures
            v@.len() == self@.chain.len(),
            forall|k: int| 0 <= k < v@.len() ==> list_rendering(#[trigger] v@[k]@, self@.chain[k]),
    {
        let mut parts: Vec<String> = Vec::new();
        let mut i: usize = 0;
        proof {
            reveal_strlit(" <- ");
        }
        while i < self.chain.len()
            invariant
                i <= self.chain@.len(),
                parts@.len() == i,
                forall|k: int| 0 <= k < i ==> list_rendering(#[trigger] parts@[k]@, self.chain@[k]@),
            decreases self.chain@.len() - i,
        {
            let shown = self.chain[i].display();
            match self.chain[i].get_stat() {
                MergeResult::Base => parts.push(shown),
                _ => {
                    proof {
                        reveal_strlit(" <- ");
                    }
                    let mut line = owned(" <- ");
                    line.append(shown.as_str());
                    assert(line@.subrange(0, 4) =~= " <- "@);
                    assert(line@.subrange(4, line@.len() as int) =~= shown@);
                    parts.push(line);
                },
            }
            i = i + 1;
        }
        parts
    }
}

/// What one line of a chain's list display can give: the statistic's rendering, preceded by
/// ` <- ` unless it is a base statistic.
pub open spec fn list_rendering(s: Seq<char>, v: StatView) -> bool {
    if v.1 == MergeResult::Base {
        stat_rendering(s, v)
    } else {
        s.len() >= 4 && s.subrange(0, 4) == " <- "@ && stat_rendering(s.subrange(4, s.len() as int), v)
    }
}

/// A new chain's counters agree with its (empty) chain; appending, inserting and removing keep
/// the counters in agreement with the chain; while they agree, every statistic of the chain can
/// be uncounted, so removal never underflows.
pub proof fn law_counters_follow_chain(v: ChainView, i: int, x: StatView)
    ensures
        counters_consistent(ChainView { chain: Seq::empty(), n_success: 0, n_up_to_date: 0, n_conflict: 0, ..v }),
        counters_consistent(v) ==> counters_consistent(chain_pushed(v, x)),
        counters_consistent(v) && 0 <= i <= v.chain.len() ==> counters_consistent(chain_inserted(v, i, x)),
        counters_consistent(v) && 0 <= i < v.chain.len() ==> can_uncount(v, v.chain[i].1)
            && counters_consistent(chain_removed(v, i)),
{
    lemma_count_push(v.chain, x, MergeResult::Success);
    lemma_count_push(v.chain, x, MergeResult::UpToDate);
    lemma_count_push(v.chain, x, MergeResult::Conflict);
    if 0 <= i <= v.chain.len() {
        lemma_count_insert(v.chain, i, x, MergeResult::Success);
        lemma_count_insert(v.chain, i, x, MergeResult::UpToDate);
        lemma_count_insert(v.chain, i, x, MergeResult::Conflict);
    }
    if 0 <= i < v.chain.len() {
        lemma_count_remove(v.chain, i, MergeResult::Success);
        lemma_count_remove(v.chain, i, MergeResult::UpToDate);
        lemma_count_remove(v.chain, i, MergeResult::Conflict);
    }
}

/// Removing the statistic at `i` and inserting it again at `i` gives back the chain and its
/// counters.
pub proof fn law_remove_then_insert_restores(v: ChainView, i: int)
    requires
        0 <= i < v.chain.len(),
        can_uncount(v, v.chain[i].1),
    ensures
        chain_inserted(chain_removed(v, i), i, v.chain[i]) == v,
{
    assert(v.chain.remove(i).insert(i, v.chain[i]) =~= v.chain);
}

/// Inserting a statistic at `i` and removing position `i` again gives back that statistic and
/// the chain with its counters as they were.
pub proof fn law_insert_then_remove_restores(v: ChainView, i: int, x: StatView)
    requires
        0 <= i <= v.chain.len(),
    ensures
        chain_inserted(v, i, x).chain[i] == x,
        chain_removed(chain_inserted(v, i, x), i) == v,
{
    assert(v.chain.insert(i, x).remove(i) =~= v.chain);
}

/// Appending a statistic adds its weight to the sum of the weights.
pub proof fn law_weight_sum_push(w: MergeStatisticWeight, s: Seq<StatView>, x: StatView)
    ensures
        weight_sum(w, s.push(x)) == weight_sum(w, s) + weight_spec(w, x.1),
        weight_sum(w, Seq::empty()) == 0,
{
    assert(s.push(x).drop_last() =~= s);
}

/// Many merge chains, with the successes and conflicts counted over all of them.
pub struct MergeChainStatistics<B: IsGitObject, T: IsGitObject> {
    statistics: Vec<MergeChainStatistic<B, T>>,
    total_successes: usize,
    total_conflicts: usize,
}

/// Many merge chains as values, with their totals.
pub struct ChainsView {
    pub statistics: Seq<ChainView>,
    pub total_successes: nat,
    pub total_conflicts: nat,
}

/// The views of a vector of chains.
pub open spec fn chains_view<B: IsGitObject, T: IsGitObject>(v: Seq<MergeChainStatistic<B, T>>) -> Seq<ChainView> {
    v.map_values(|c: MergeChainStatistic<B, T>| c@)
}

/// The successes counted over all chains.
pub open spec fn sum_successes(s: Seq<ChainView>) -> nat
    decreases s.len(),
{
    if s.len() == 0 {
        0
    } else {
        sum_successes(s.drop_last()) + s.last().n_success
    }
}

/// The conflicts counted over all chains.
pub open spec fn sum_conflicts(s: Seq<ChainView>) -> nat
    decreases s.len(),
{
    if s.len() == 0 {
        0
    } else {
        sum_conflicts(s.drop_last()) + s.last().n_conflict
    }
}

/// The totals agree with the chains.
pub open spec fn totals_consistent(v: ChainsView) -> bool {
    v.total_successes == sum_successes(v.statistics) && v.total_conflicts == sum_conflicts(v.statistics)
}

/// The chains after appending `c` and adding its counters to the totals.
pub open spec fn chains_pushed(v: ChainsView, c: ChainView) -> ChainsView {
    ChainsView {
        statistics: v.statistics.push(c),
        total_successes: v.total_successes + c.n_success,
        total_conflicts: v.total_conflicts + c.n_conflict,
    }
}

/// The chains after appending each of `cs` in turn.
pub open spec fn chains_fold(v: ChainsView, cs: Seq<ChainView>) -> ChainsView
    decreases cs.len(),
{
    if cs.len() == 0 {
        v
    } else {
        chains_pushed(chains_fold(v, cs.drop_last()), cs.last())
    }
}

/// The totals after appending chains grow by their counters.
pub proof fn lemma_fold_totals(v: ChainsView, cs: Seq<ChainView>)
    ensures
        chains_fold(v, cs).total_successes == v.total_successes + sum_successes(cs),
        chains_fold(v, cs).total_conflicts == v.total_conflicts + sum_conflicts(cs),
    decreases cs.len(),
{
    if cs.len() > 0 {
        lemma_fold_totals(v, cs.drop_last());
    }
}

/// The counters over a prefix are at most those over all chains.
pub proof fn lemma_sums_prefix(cs: Seq<ChainView>, k: int)
    requires
        0 <= k <= cs.len(),
    ensures
        sum_successes(cs.take(k)) <= sum_successes(cs),
        sum_conflicts(cs.take(k)) <= sum_conflicts(cs),
    decreases cs.len(),
{
    if k < cs.len() {
        assert(cs.drop_last().take(k) =~= cs.take(k));
        lemma_sums_prefix(cs.drop_last(), k);
    } else {
        assert(cs.take(k) =~= cs);
    }
}

/// An empty collection of chains has consistent totals, and appending a chain keeps the totals
/// equal to the counts over all chains.
pub proof fn law_totals_follow_chains(v: ChainsView, c: ChainView)
    ensures
        totals_consistent(ChainsView { statistics: Seq::empty(), total_successes: 0, total_conflicts: 0 }),
        totals_consistent(v) ==> totals_consistent(chains_pushed(v, c)),
{
    assert(v.statistics.push(c).drop_last() =~= v.statistics);
}

impl<B: IsGitObject, T: IsGitObject> View for MergeChainStatistics<B, T> {
    type V = ChainsView;

    closed spec fn view(&self) -> ChainsView {
        ChainsView {
            statistics: chains_view(self.statistics@),
            total_successes: self.total_successes as nat,
            total_conflicts: self.total_conflicts as nat,
        }
    }
}

impl<B: IsGitObject, T: IsGitObject> MergeChainStatistics<B, T> {
    /// No chains.
    pub fn new() -> (s: Self)
        ensures
            s@ == (ChainsView { statistics: Seq::empty(), total_successes: 0, total_conflicts: 0 }),
    {
        let s = Self { statistics: Vec::new(), total_successes: 0, total_conflicts: 0 };
        assert(s@.statistics =~= Seq::<ChainView>::empty());
        s
    }

    /// Appends each chain of `statistics` in turn.
    pub fn fill_from_iter(&mut self, statistics: Vec<MergeChainStatistic<B, T>>)
        requires
            old(self)@.total_successes + sum_successes(chains_view(statistics@)) <= usize::MAX,
            old(self)@.total_conflicts + sum_conflicts(chains_view(statistics@)) <= usize::MAX,
        ensures
            final(self)@ == chains_fold(old(self)@, chains_view(statistics@)),
    {
        let ghost all = chains_view(statistics@);
        let mut i: usize = 0;
        while i < statistics.len()
            invariant
                all == chains_view(statistics@),
                i <= statistics@.len(),
                self@ == chains_fold(old(self)@, all.take(i as int)),
                old(self)@.total_successes + sum_successes(all) <= usize::MAX,
                old(self)@.total_conflicts + sum_conflicts(all) <= usize::MAX,
            decreases statistics@.len() - i,
        {
            let c = statistics[i].clone();
            proof {
                assert(all.take(i + 1).drop_last() =~= all.take(i as int));
                lemma_fold_totals(old(self)@, all.take(i + 1));
                lemma_sums_prefix(all, i + 1);
            }
            self.push(c);
            i = i + 1;
        }
        assert(all.take(i as int) =~= all);
    }

    /// Appends a chain and adds its counters to the totals.
    pub fn push(&mut self, statistic: MergeChainStatistic<B, T>)
        requires
            old(self)@.total_successes + statistic@.n_success <= usize::MAX,
            old(self)@.total_conflicts + statistic@.n_conflict <= usize::MAX,
        ensures
            final(self)@ == chains_pushed(old(self)@, statistic@),
    {
        self.total_successes = self.total_successes + statistic.n_success;
        self.total_conflicts = self.total_conflicts + statistic.n_conflict;
        let ghost before = self.statistics@;
        self.statistics.push(statistic);
        assert(chains_view(self.statistics@) =~= chains_view(before).push(statistic@));
    }

    /// All chains.
    pub fn iter_all(&self) -> (v: &Vec<MergeChainStatistic<B, T>>)
        ensures
            chains_view(v@) == self@.statistics,
    {
        &self.statistics
    }

    /// The chains in which a conflict was counted, in order.
    pub fn iter_conflicts(&self) -> (v: Vec<MergeChainStatistic<B, T>>)
        ensures
            chains_view(v@) == self@.statistics.filter(|c: ChainView| c.n_conflict > 0),
    {
        let mut out: Vec<MergeChainStatistic<B, T>> = Vec::new();
        let mut i: usize = 0;
        while i < self.statistics.len()
            invariant
                i <= self.statistics@.len(),
                chains_view(out@) == chains_view(self.statistics@).take(i as int).filter(|c: ChainView| c.n_conflict > 0),
            decreases self.statistics@.len() - i,
        {
            reveal_with_fuel(Seq::filter, 1);
            assert(chains_view(self.statistics@).take(i + 1).drop_last() =~= chains_view(self.statistics@).take(i as int));
            let ghost before = out@;
            if self.statistics[i].contains_conflicts() {
                let c = self.statistics[i].clone();
                out.push(c);
                assert(chains_view(out@) =~= chains_view(before).push(c@));
            }
            i = i + 1;
        }
        assert(chains_view(self.statistics@).take(i as int) =~= chains_view(self.statistics@));
        out
    }

    /// The successes counted over all chains.
    pub fn n_ok(&self) -> (n: usize)
        ensures
            n == self@.total_successes,
    {
        self.total_successes
    }

    /// The conflicts counted over all chains.
    pub fn n_conflicts(&self) -> (n: usize)
        ensures
            n == self@.total_conflicts,
    {
        self.total_conflicts
    }
}

/// How outcomes are weighed.
#[derive(Clone, Copy, Debug, PartialEq, Eq, Hash, Structural)]
pub enum MergeStatisticWeight {
    /// Up to date 1; base, success and merging 0; conflict -1; aborted -10.
    Simple,
}

/// The weight of an outcome.
pub open spec fn weight_spec(w: MergeStatisticWeight, r: MergeResult) -> int {
    match w {
        MergeStatisticWeight::Simple => match r {
            MergeResult::Base => 0,
            MergeResult::UpToDate => 1,
            MergeResult::Success => 0,
            MergeResult::Conflict => -1,
            MergeResult::Merging => 0,
            MergeResult::Aborted => -10,
        },
    }
}

impl MergeStatisticWeight {
    /// The weight of an outcome.
    pub fn get_weight(&self, statistic: &MergeResult) -> (w: i32)
        ensures
            w == weight_spec(*self, *statistic),
    {
        match self {
            Self::Simple => match statistic {
                MergeResult::Base => 0,
                MergeResult::UpToDate => 1,
                MergeResult::Success => 0,
                MergeResult::Conflict => -1,
                MergeResult::Merging => 0,
                MergeResult::Aborted => -10,
            },
        }
    }
}

/// The sum of the weights of the outcomes of `s`.
pub open spec fn weight_sum(w: MergeStatisticWeight, s: Seq<StatView>) -> int
    decreases s.len(),
{
    if s.len() == 0 {
        0
    } else {
        weight_sum(w, s.drop_last()) + weight_spec(w, s.last().1)
    }
}

/// Every running sum of weights fits in `i32`.
pub open spec fn weights_fit(w: MergeStatisticWeight, s: Seq<StatView>) -> bool {
    forall|k: int| 0 <= k <= s.len() ==> i32::MIN <= #[trigger] weight_sum(w, s.take(k)) <= i32::MAX
}

/// The position of the first statistic of least weight.
pub open spec fn lowest_index(w: MergeStatisticWeight, s: Seq<StatView>) -> int
    decreases s.len(),
{
    if s.len() <= 1 {
        0
    } else {
        let j = lowest_index(w, s.drop_last());
        if weight_spec(w, s.last().1) < weight_spec(w, s[j].1) {
            s.len() - 1
        } else {
            j
        }
    }
}

/// `lowest_index` is the first position of least weight.
pub proof fn law_lowest_index(w: MergeStatisticWeight, s: Seq<StatView>)
    requires
        s.len() > 0,
    ensures
        is_lowest(w, s, lowest_index(w, s)),
    decreases s.len(),
{
    if s.len() > 1 {
        let d = s.drop_last();
        law_lowest_index(w, d);
        assert forall|k: int| 0 <= k < d.len() implies #[trigger] s[k] == d[k] by {}
        let j = lowest_index(w, d);
        assert(weight_spec(w, d[j].1) == weight_spec(w, s[j].1));
        assert forall|k: int| 0 <= k < s.len() - 1 implies weight_spec(w, s[j].1) <= weight_spec(w, #[trigger] s[k].1) by {
            assert(weight_spec(w, d[j].1) <= weight_spec(w, d[k].1));
        }
        assert forall|k: int| 0 <= k < j implies weight_spec(w, #[trigger] s[k].1) > weight_spec(w, s[j].1) by {
            assert(weight_spec(w, d[k].1) > weight_spec(w, d[j].1));
        }
    }
}

/// The position of the statistic of least weight, the first of them on ties.
pub open spec fn is_lowest(w: MergeStatisticWeight, s: Seq<StatView>, k: int) -> bool {
    &&& 0 <= k < s.len()
    &&& forall|j: int| 0 <= j < s.len() ==> weight_spec(w, s[k].1) <= weight_spec(w, #[trigger] s[j].1)
    &&& forall|j: int| 0 <= j < k ==> weight_spec(w, #[trigger] s[j].1) > weight_spec(w, s[k].1)
}

/// Statistics weighed together, as the votes of a path.
pub struct MergeStatistics<T: IsGitObject> {
    statistics: Vec<MergeStatistic<T>>,
    weights: MergeStatisticWeight,
}

impl<T: IsGitObject> View for MergeStatistics<T> {
    type V = (Seq<StatView>, MergeStatisticWeight);

    closed spec fn view(&self) -> (Seq<StatView>, MergeStatisticWeight) {
        (stats_view(self.statistics@), self.weights)
    }
}

impl<T: IsGitObject> Clone for MergeStatistics<T> {
    fn clone(&self) -> (r: Self)
        ensures
            r@ == self@,
    {
        let mut statistics: Vec<MergeStatistic<T>> = Vec::new();
        let mut i: usize = 0;
        while i < self.statistics.len()
            invariant
                i <= self.statistics@.len(),
                stats_view(statistics@) == stats_view(self.statistics@).take(i as int),
            decreases self.statistics@.len() - i,
        {
            let c = self.statistics[i].clone();
            let ghost before = statistics@;
            statistics.push(c);
            proof {
                lemma_stats_view_push(before, c);
                lemma_stats_view_index(self.statistics@, i as int);
            }
            i = i + 1;
            assert(stats_view(statistics@) =~= stats_view(self.statistics@).take(i as int));
        }
        assert(stats_view(self.statistics@).take(i as int) =~= stats_view(self.statistics@));
        MergeStatistics { statistics, weights: self.weights }
    }
}

impl<T: IsGitObject> MergeStatistics<T> {
    /// No statistics, weighed by `weights`.
    pub fn new(weights: MergeStatisticWeight) -> (s: Self)
        ensures
            s@ == (Seq::<StatView>::empty(), weights),
    {
        let s = Self { statistics: Vec::new(), weights };
        assert(s@.0 =~= Seq::<StatView>::empty());
        s
    }

    /// Appends a statistic.
    pub fn push(&mut self, statistic: MergeStatistic<T>)
        ensures
            final(self)@ == (old(self)@.0.push(statistic@), old(self)@.1),
    {
        let ghost before = self.statistics@;
        self.statistics.push(statistic);
        proof {
            lemma_stats_view_push(before, statistic);
        }
    }

    /// The number of statistics.
    pub fn len(&self) -> (n: usize)
        ensures
            n == self@.0.len(),
    {
        self.statistics.len()
    }

    /// The sum of the weights of all statistics.
    pub fn accumulate_weights(&self) -> (sum: i32)
        requires
            weights_fit(self@.1, self@.0),
        ensures
            sum == weight_sum(self@.1, self@.0),
    {
        let mut sum: i32 = 0;
        let mut i: usize = 0;
        while i < self.statistics.len()
            invariant
                i <= self.statistics@.len(),
                weights_fit(self@.1, self@.0),
                sum == weight_sum(self@.1, self@.0.take(i as int)),
            decreases self.statistics@.len() - i,
        {
            proof {
                lemma_stats_view_index(self.statistics@, i as int);
                assert(self@.0.take(i + 1).drop_last() =~= self@.0.take(i as int));
                assert(i32::MIN <= weight_sum(self@.1, self@.0.take(i + 1)) <= i32::MAX);
            }
            sum = sum + self.weights.get_weight(self.statistics[i].get_stat());
            i = i + 1;
        }
        assert(self@.0.take(i as int) =~= self@.0);
        sum
    }

    /// The statistic of least weight, the first of them on ties.
    pub fn get_lowest(&self) -> (s: &MergeStatistic<T>)
        requires
            self@.0.len() > 0,
        ensures
            s@ == self@.0[lowest_index(self@.1, self@.0)],
    {
        let mut best: usize = 0;
        let mut i: usize = 1;
        proof {
            lemma_stats_view_index(self.statistics@, 0);
            assert(lowest_index(self@.1, self@.0.take(1)) == 0);
        }
        while i < self.statistics.len()
            invariant
                self@.0.len() == self.statistics@.len(),
                forall|j: int| 0 <= j < self.statistics@.len() ==> #[trigger] self@.0[j] == self.statistics@[j]@,
                0 <= best < i <= self.statistics@.len(),
                forall|j: int| 0 <= j < i ==> weight_spec(self@.1, self@.0[best as int].1) <= weight_spec(self@.1, #[trigger] self@.0[j].1),
                best == lowest_index(self@.1, self@.0.take(i as int)),
            decreases self.statistics@.len() - i,
        {
            let wi = self.weights.get_weight(self.statistics[i].get_stat());
            let wb = self.weights.get_weight(self.statistics[best].get_stat());
            proof {
                assert(self@.0.take(i + 1).drop_last() =~= self@.0.take(i as int));
                assert(self@.0.take(i as int)[best as int] == self@.0[best as int]);
            }
            if wi < wb {
                best = i;
            }
            i = i + 1;
        }
        assert(self@.0.take(i as int) =~= self@.0);
        &self.statistics[best]
    }
}

/// A typed path as values.
pub type KeyView = (Seq<Seq<char>>, NodeType);

/// A row of the matrix: its key and the statistics stored in it, each under its own path.
pub type RowView = (KeyView, Seq<StatView>);

/// The first row from `from` on whose key has the segments `k`, or -1.
pub open spec fn row_pos(rows: Seq<RowView>, k: Seq<Seq<char>>, from: int) -> int
    decreases rows.len() - from,
{
    if from < 0 || from >= rows.len() {
        -1
    } else if rows[from].0.0 == k {
        from
    } else {
        row_pos(rows, k, from + 1)
    }
}

/// The first statistic from `from` on whose path has the segments `k`, or -1.
pub open spec fn entry_pos(es: Seq<StatView>, k: Seq<Seq<char>>, from: int) -> int
    decreases es.len() - from,
{
    if from < 0 || from >= es.len() {
        -1
    } else if es[from].0.0 == k {
        from
    } else {
        entry_pos(es, k, from + 1)
    }
}

/// The statistics with `x` stored under its path: replacing the one there, or appended.
pub open spec fn set_entry(es: Seq<StatView>, x: StatView) -> Seq<StatView> {
    let i = entry_pos(es, x.0.0, 0);
    if 0 <= i < es.len() {
        es.update(i, x)
    } else {
        es.push(x)
    }
}

/// The rows with a row for `base` (appended empty if missing) in which `x` is stored.
pub open spec fn matrix_add(rows: Seq<RowView>, base: KeyView, x: StatView) -> Seq<RowView> {
    let i = row_pos(rows, base.0, 0);
    if 0 <= i < rows.len() {
        rows.update(i, (rows[i].0, set_entry(rows[i].1, x)))
    } else {
        rows.push((base, seq![x]))
    }
}

/// The matrix of a list of chains: each chain stores its first statistic in the row of its base.
pub open spec fn matrix_of(chains: Seq<ChainView>) -> Seq<RowView>
    decreases chains.len(),
{
    if chains.len() == 0 {
        Seq::empty()
    } else {
        matrix_add(matrix_of(chains.drop_last()), chains.last().base.0, chains.last().chain[0])
    }
}

/// The row of `p` holds a statistic for `c`.
pub open spec fn has_entry(rows: Seq<RowView>, p: Seq<Seq<char>>, c: Seq<Seq<char>>) -> bool {
    let i = row_pos(rows, p, 0);
    0 <= i < rows.len() && 0 <= entry_pos(rows[i].1, c, 0) < rows[i].1.len()
}

/// The statistic that the row of `p` holds for `c`.
pub open spec fn entry_of(rows: Seq<RowView>, p: Seq<Seq<char>>, c: Seq<Seq<char>>) -> StatView {
    let i = row_pos(rows, p, 0);
    rows[i].1[entry_pos(rows[i].1, c, 0)]
}

/// The vote of `voters` on candidate `c`: the statistic each voter's row holds for `c`.
pub open spec fn vote_of(rows: Seq<RowView>, voters: Seq<KeyView>, c: Seq<Seq<char>>) -> Seq<StatView> {
    Seq::new(voters.len(), |j: int| entry_of(rows, voters[j].0, c))
}

/// `row_pos` gives the first row with the key, or -1 when there is none.
pub proof fn lemma_row_pos(rows: Seq<RowView>, k: Seq<Seq<char>>, from: int)
    requires
        0 <= from,
    ensures
        row_pos(rows, k, from) == -1 || (from <= row_pos(rows, k, from) < rows.len() && rows[row_pos(rows, k, from)].0.0 == k),
        forall|j: int| from <= j < rows.len() && (row_pos(rows, k, from) == -1 || j < row_pos(rows, k, from)) ==> rows[j].0.0 != k,
    decreases rows.len() - from,
{
    if from < rows.len() && rows[from].0.0 != k {
        lemma_row_pos(rows, k, from + 1);
    }
}

/// `entry_pos` gives the first statistic with the path, or -1 when there is none.
pub proof fn lemma_entry_pos(es: Seq<StatView>, k: Seq<Seq<char>>, from: int)
    requires
        0 <= from,
    ensures
        entry_pos(es, k, from) == -1 || (from <= entry_pos(es, k, from) < es.len() && es[entry_pos(es, k, from)].0.0 == k),
        forall|j: int| from <= j < es.len() && (entry_pos(es, k, from) == -1 || j < entry_pos(es, k, from)) ==> es[j].0.0 != k,
    decreases es.len() - from,
{
    if from < es.len() && es[from].0.0 != k {
        lemma_entry_pos(es, k, from + 1);
    }
}

/// A row of the matrix: a key path and the statistics stored under their own paths.
struct MatrixRow<T: IsGitObject> {
    key: NodePath<T>,
    entries: Vec<MergeStatistic<T>>,
}

/// The view of a row.
spec fn row_view<T: IsGitObject>(r: MatrixRow<T>) -> RowView {
    (r.key@, stats_view(r.entries@))
}

/// The outcomes of merging pairs of paths: the row of a base holds, for each second path,
/// the statistic of merging it onto the base.
pub struct Conflict2DMatrix<T: IsGitObject> {
    matrix: Vec<MatrixRow<T>>,
}

impl<T: IsGitObject> View for Conflict2DMatrix<T> {
    type V = Seq<RowView>;

    closed spec fn view(&self) -> Seq<RowView> {
        self.matrix@.map_values(|r: MatrixRow<T>| row_view(r))
    }
}

impl<T: IsGitObject> Conflict2DMatrix<T> {
    fn find_row(&self, key: &NodePath<T>) -> (r: Option<usize>)
        ensures
            match r {
                Some(i) => i == row_pos(self@, key@.0, 0) && i < self@.len(),
                None => row_pos(self@, key@.0, 0) == -1,
            },
    {
        let mut i: usize = 0;
        while i < self.matrix.len()
            invariant
                i <= self.matrix@.len(),
                self@.len() == self.matrix@.len(),
                row_pos(self@, key@.0, 0) == row_pos(self@, key@.0, i as int),
            decreases self.matrix@.len() - i,
        {
            assert(self@[i as int] == row_view(self.matrix@[i as int]));
            if self.matrix[i].key.equals(key) {
                return Some(i);
            }
            i = i + 1;
        }
        None
    }

    fn find_entry(entries: &Vec<MergeStatistic<T>>, key: &NodePath<T>) -> (r: Option<usize>)
        ensures
            match r {
                Some(i) => i == entry_pos(stats_view(entries@), key@.0, 0) && i < entries@.len(),
                None => entry_pos(stats_view(entries@), key@.0, 0) == -1,
            },
    {
        let mut i: usize = 0;
        while i < entries.len()
            invariant
                i <= entries@.len(),
                entry_pos(stats_view(entries@), key@.0, 0) == entry_pos(stats_view(entries@), key@.0, i as int),
            decreases entries@.len() - i,
        {
            proof {
                lemma_stats_view_index(entries@, i as int);
                lemma_stats_view_len(entries@);
            }
            if entries[i].get_path().equals(key) {
                return Some(i);
            }
            i = i + 1;
        }
        proof {
            lemma_stats_view_len(entries@);
        }
        None
    }

    /// The statistic that the row of `p` holds for `c`.
    fn get_entry(&self, p: &NodePath<T>, c: &NodePath<T>) -> (s: &MergeStatistic<T>)
        requires
            has_entry(self@, p@.0, c@.0),
        ensures
            s@ == entry_of(self@, p@.0, c@.0),
    {
        let i = self.find_row(p).unwrap();
        assert(self@[i as int] == row_view(self.matrix@[i as int]));
        let j = Self::find_entry(&self.matrix[i].entries, c).unwrap();
        proof {
            lemma_stats_view_index(self.matrix@[i as int].entries@, j as int);
        }
        &self.matrix[i].entries[j]
    }

    /// Stores `stat` in the row of `base`, adding the row if it is missing.
    fn add(&mut self, base: &NodePath<T>, stat: MergeStatistic<T>)
        ensures
            final(self)@ == matrix_add(old(self)@, base@, stat@),
    {
        broadcast use group_stats_view;

        let ghost old_rows = self@;
        match self.find_row(base) {
            Some(i) => {
                let ghost row = self.matrix@[i as int];
                assert(old_rows[i as int] == row_view(row));
                match Self::find_entry(&self.matrix[i].entries, stat.get_path()) {
                    Some(j) => {
                        let ghost before = self.matrix[i as int].entries@;
                        let ghost sv = stat@;
                        self.matrix[i].entries.set(j, stat);
                        assert(stats_view(self.matrix@[i as int].entries@) =~= stats_view(before).update(j as int, sv));
                    },
                    None => {
                        let ghost before = self.matrix[i as int].entries@;
                        let ghost sv = stat@;
                        self.matrix[i].entries.push(stat);
                        proof {
                            lemma_stats_view_push(before, stat);
                        }
                    },
                }
                assert(self@ =~= matrix_add(old_rows, base@, stat@));
            },
            None => {
                let mut entries: Vec<MergeStatistic<T>> = Vec::new();
                let ghost sv = stat@;
                entries.push(stat);
                assert(stats_view(entries@) =~= seq![sv]);
                self.matrix.push(MatrixRow { key: base.clone(), entries });
                assert(self@ =~= matrix_add(old_rows, base@, sv));
            },
        }
    }

    /// The matrix of all chains of `statistics`: each chain stores its first statistic in the
    /// row of its base. Every chain must hold one or two statistics.
    pub fn new(statistics: &MergeChainStatistics<T, T>) -> (m: Self)
        requires
            forall|k: int| 0 <= k < statistics@.statistics.len() ==> 1 <= (#[trigger] statistics@.statistics[k]).chain.len() <= 2,
        ensures
            m@ == matrix_of(statistics@.statistics),
            matrix_wf(m@),
    {
        proof {
            law_matrix_of_wf(statistics@.statistics);
        }
        let mut m = Conflict2DMatrix { matrix: Vec::new() };
        let chains = statistics.iter_all();
        let mut i: usize = 0;
        assert(m@ =~= matrix_of(chains_view(chains@).take(0)));
        while i < chains.len()
            invariant
                i <= chains@.len(),
                chains_view(chains@) == statistics@.statistics,
                forall|k: int| 0 <= k < statistics@.statistics.len() ==> 1 <= (#[trigger] statistics@.statistics[k]).chain.len() <= 2,
                m@ == matrix_of(chains_view(chains@).take(i as int)),
            decreases chains@.len() - i,
        {
            let chain = &chains[i];
            assert(chain@ == statistics@.statistics[i as int]);
            let base = chain.get_base();
            let second = chain.get(0).unwrap();
            m.add(base.get_path(), second.clone());
            assert(chains_view(chains@).take(i + 1).drop_last() =~= chains_view(chains@).take(i as int));
            i = i + 1;
        }
        assert(chains_view(chains@).take(i as int) =~= chains_view(chains@));
        m
    }
}

/// The keys of the rows are distinct, and in each row the statistics are stored under distinct paths.
pub open spec fn matrix_wf(rows: Seq<RowView>) -> bool {
    &&& forall|i: int, j: int| 0 <= i < j < rows.len() ==> rows[i].0.0 != rows[j].0.0
    &&& forall|i: int, a: int, b: int| 0 <= i < rows.len() && 0 <= a < b < rows[i].1.len() ==> rows[i].1[a].0.0 != rows[i].1[b].0.0
}

/// Storing a statistic keeps the statistics of a row under distinct paths.
proof fn lemma_set_entry_distinct(es: Seq<StatView>, x: StatView)
    requires
        forall|a: int, b: int| 0 <= a < b < es.len() ==> es[a].0.0 != es[b].0.0,
    ensures
        forall|a: int, b: int| 0 <= a < b < set_entry(es, x).len() ==> set_entry(es, x)[a].0.0 != set_entry(es, x)[b].0.0,
{
    lemma_entry_pos(es, x.0.0, 0);
    let i = entry_pos(es, x.0.0, 0);
    let r = set_entry(es, x);
    if 0 <= i < es.len() {
        assert forall|a: int, b: int| 0 <= a < b < r.len() implies r[a].0.0 != r[b].0.0 by {
            assert(es[a].0.0 != es[b].0.0);
        }
    } else {
        assert forall|a: int, b: int| 0 <= a < b < r.len() implies r[a].0.0 != r[b].0.0 by {
            if b < es.len() {
                assert(es[a].0.0 != es[b].0.0);
            } else {
                assert(r[a] == es[a]);
            }
        }
    }
}

/// The matrix of any chains has one row per base and, in each row, one statistic per path:
/// storing a chain's first statistic never duplicates a row or an entry.
pub proof fn law_matrix_of_wf(chains: Seq<ChainView>)
    ensures
        matrix_wf(matrix_of(chains)),
    decreases chains.len(),
{
    if chains.len() > 0 {
        law_matrix_of_wf(chains.drop_last());
        let rows = matrix_of(chains.drop_last());
        let base = chains.last().base.0;
        let x = chains.last().chain[0];
        lemma_row_pos(rows, base.0, 0);
        let i = row_pos(rows, base.0, 0);
        let m = matrix_add(rows, base, x);
        if 0 <= i < rows.len() {
            lemma_set_entry_distinct(rows[i].1, x);
            assert forall|a: int, b: int| 0 <= a < b < m.len() implies m[a].0.0 != m[b].0.0 by {
                assert(rows[a].0.0 != rows[b].0.0);
            }
            assert forall|r: int, a: int, b: int| 0 <= r < m.len() && 0 <= a < b < m[r].1.len() implies m[r].1[a].0.0
                != m[r].1[b].0.0 by {
                if r != i {
                    assert(m[r] == rows[r]);
                }
            }
        } else {
            assert forall|a: int, b: int| 0 <= a < b < m.len() implies m[a].0.0 != m[b].0.0 by {
                if b < rows.len() {
                    assert(rows[a].0.0 != rows[b].0.0);
                } else {
                    assert(m[a] == rows[a]);
                }
            }
            assert forall|r: int, a: int, b: int| 0 <= r < m.len() && 0 <= a < b < m[r].1.len() implies m[r].1[a].0.0
                != m[r].1[b].0.0 by {
                if r < rows.len() {
                    assert(m[r] == rows[r]);
                }
            }
        }
    }
}

/// Every vote on a candidate by no more voters than there are rows keeps its running sums of
/// weights within `i32`.
pub open spec fn votes_fit(rows: Seq<RowView>) -> bool {
    forall|voters: Seq<KeyView>, c: Seq<Seq<char>>|
        voters.len() <= rows.len() ==> #[trigger] weights_fit(MergeStatisticWeight::Simple, vote_of(rows, voters, c))
}

/// A matrix of fewer than a hundred million rows has votes that fit.
pub proof fn lemma_votes_fit(rows: Seq<RowView>)
    requires
        rows.len() <= 100_000_000,
    ensures
        votes_fit(rows),
{
    assert forall|voters: Seq<KeyView>, c: Seq<Seq<char>>| voters.len() <= rows.len() implies #[trigger] weights_fit(
        MergeStatisticWeight::Simple,
        vote_of(rows, voters, c),
    ) by {
        lemma_weights_fit(MergeStatisticWeight::Simple, vote_of(rows, voters, c));
    }
}

/// Every row holds a statistic for every other row's key.
pub open spec fn matrix_complete(rows: Seq<RowView>) -> bool {
    forall|i: int, j: int| 0 <= i < rows.len() && 0 <= j < rows.len() && i != j ==> has_entry(rows, rows[i].0.0, rows[j].0.0)
}

/// The position of the first candidate whose vote weighs most.
pub open spec fn best_index(rows: Seq<RowView>, voters: Seq<KeyView>, cands: Seq<KeyView>) -> int
    decreases cands.len(),
{
    if cands.len() <= 1 {
        0
    } else {
        let j = best_index(rows, voters, cands.drop_last());
        if weight_sum(MergeStatisticWeight::Simple, vote_of(rows, voters, cands.last().0)) > weight_sum(
            MergeStatisticWeight::Simple,
            vote_of(rows, voters, cands[j].0),
        ) {
            cands.len() - 1
        } else {
            j
        }
    }
}

/// The candidates in the order the greedy estimate picks them: each time the remaining
/// candidate whose vote by the paths picked so far weighs most (the first of them on ties).
pub open spec fn greedy_order(rows: Seq<RowView>, voters: Seq<KeyView>, missing: Seq<KeyView>) -> Seq<KeyView>
    decreases missing.len(),
{
    if missing.len() == 0 {
        Seq::empty()
    } else {
        let m = best_index(rows, voters, missing);
        if !(0 <= m < missing.len()) {
            Seq::empty()
        } else {
            seq![missing[m]] + greedy_order(rows, voters.push(missing[m]), missing.remove(m))
        }
    }
}

/// The votes that each pick of the greedy estimate received.
pub open spec fn greedy_votes(rows: Seq<RowView>, voters: Seq<KeyView>, missing: Seq<KeyView>) -> Seq<Seq<StatView>>
    decreases missing.len(),
{
    if missing.len() == 0 {
        Seq::empty()
    } else {
        let m = best_index(rows, voters, missing);
        if !(0 <= m < missing.len()) {
            Seq::empty()
        } else {
            seq![vote_of(rows, voters, missing[m].0)] + greedy_votes(rows, voters.push(missing[m]), missing.remove(m))
        }
    }
}

/// `best_index` is the first position of a candidate whose vote weighs most.
pub proof fn lemma_best_index(rows: Seq<RowView>, voters: Seq<KeyView>, cands: Seq<KeyView>)
    requires
        cands.len() > 0,
    ensures
        0 <= best_index(rows, voters, cands) < cands.len(),
        forall|j: int| 0 <= j < cands.len() ==> weight_sum(MergeStatisticWeight::Simple, vote_of(rows, voters, (#[trigger] cands[j]).0))
            <= weight_sum(MergeStatisticWeight::Simple, vote_of(rows, voters, cands[best_index(rows, voters, cands)].0)),
        forall|j: int| 0 <= j < best_index(rows, voters, cands) ==> weight_sum(MergeStatisticWeight::Simple, vote_of(rows, voters, (#[trigger] cands[j]).0))
            < weight_sum(MergeStatisticWeight::Simple, vote_of(rows, voters, cands[best_index(rows, voters, cands)].0)),
    decreases cands.len(),
{
    if cands.len() > 1 {
        let d = cands.drop_last();
        lemma_best_index(rows, voters, d);
        assert forall|k: int| 0 <= k < d.len() implies #[trigger] cands[k] == d[k] by {}
    }
}

/// The statistic of least weight of each vote.
pub open spec fn lowest_of_votes(votes: Seq<Seq<StatView>>) -> Seq<StatView> {
    votes.map_values(|v: Seq<StatView>| v[lowest_index(MergeStatisticWeight::Simple, v)])
}

/// An empty chain after `base`.
pub open spec fn chain_start(base: KeyView) -> ChainView {
    ChainView { base: (base, MergeResult::Base), chain: Seq::empty(), n_success: 0, n_up_to_date: 0, n_conflict: 0 }
}

/// The keys of the rows without those with the segments of `start`.
pub open spec fn other_keys(rows: Seq<RowView>, start: Seq<Seq<char>>) -> Seq<KeyView> {
    rows.map_values(|r: RowView| r.0).filter(|k: KeyView| k.0 != start)
}

/// The voters of the predicted chain at step `k`: the base and the paths of `order` before
/// position `k + 1`, after the first.
pub open spec fn predict_voters(base: KeyView, order: Seq<KeyView>, k: int) -> Seq<KeyView> {
    seq![base] + order.subrange(1, k + 1)
}

/// The votes of the predicted chain: for each path of `order` after the first, the vote of
/// the base and the paths before it.
pub open spec fn predict_votes(rows: Seq<RowView>, base: KeyView, order: Seq<KeyView>) -> Seq<Seq<StatView>> {
    Seq::new((order.len() - 1) as nat, |k: int| vote_of(rows, predict_voters(base, order, k), order[k + 1].0))
}

/// Weights of a vote stay within ten times its length.
pub proof fn lemma_weight_bounds(w: MergeStatisticWeight, s: Seq<StatView>)
    ensures
        -10 * s.len() <= weight_sum(w, s) <= s.len(),
    decreases s.len(),
{
    if s.len() > 0 {
        lemma_weight_bounds(w, s.drop_last());
    }
}

/// Short votes have running sums within `i32`.
pub proof fn lemma_weights_fit(w: MergeStatisticWeight, s: Seq<StatView>)
    requires
        s.len() <= 100_000_000,
    ensures
        weights_fit(w, s),
{
    assert forall|k: int| 0 <= k <= s.len() implies i32::MIN <= #[trigger] weight_sum(w, s.take(k)) <= i32::MAX by {
        lemma_weight_bounds(w, s.take(k));
    }
}

/// The views of a vector of typed paths.
pub open spec fn keys_view<T: IsGitObject>(v: Seq<NodePath<T>>) -> Seq<KeyView> {
    v.map_values(|p: NodePath<T>| p@)
}

/// The views of a vector of votes.
pub open spec fn votes_view<T: IsGitObject>(v: Seq<MergeStatistics<T>>) -> Seq<Seq<StatView>> {
    v.map_values(|s: MergeStatistics<T>| s@.0)
}

impl<T: IsGitObject> MergeStatistics<T> {
    /// Do both hold the same statistics under the same weights?
    pub fn same_as(&self, other: &MergeStatistics<T>) -> (b: bool)
        ensures
            b == (self@ == other@),
    {
        if self.weights != other.weights || self.statistics.len() != other.statistics.len() {
            proof {
                if self@ == other@ {
                    lemma_stats_view_len(self.statistics@);
                    lemma_stats_view_len(other.statistics@);
                }
            }
            return false;
        }
        let mut i: usize = 0;
        while i < self.statistics.len()
            invariant
                i <= self.statistics@.len(),
                self.statistics@.len() == other.statistics@.len(),
                forall|k: int| 0 <= k < i ==> #[trigger] self.statistics@[k]@ == other.statistics@[k]@,
            decreases self.statistics@.len() - i,
        {
            let a = &self.statistics[i];
            let b = &other.statistics[i];
            if !(a.get_path().equals(b.get_path()) && a.get_path().get_type() == b.get_path().get_type()
                && *a.get_stat() == *b.get_stat()) {
                proof {
                    if self@ == other@ {
                        lemma_stats_view_index(self.statistics@, i as int);
                        lemma_stats_view_index(other.statistics@, i as int);
                    }
                }
                return false;
            }
            i = i + 1;
        }
        proof {
            assert forall|k: int| 0 <= k < self.statistics@.len() implies #[trigger] stats_view(self.statistics@)[k] == stats_view(other.statistics@)[k] by {
                lemma_stats_view_index(self.statistics@, k);
                lemma_stats_view_index(other.statistics@, k);
            }
            lemma_stats_view_len(self.statistics@);
            lemma_stats_view_len(other.statistics@);
            assert(stats_view(self.statistics@) =~= stats_view(other.statistics@));
        }
        true
    }
}

impl<T: IsGitObject> Conflict2DMatrix<T> {
    /// The votes of `voters` on each of `targets`, in the order of `targets`: for each
    /// target, the statistic each voter's row holds for it.
    fn calculate_votes(&self, voters: &Vec<NodePath<T>>, targets: &Vec<NodePath<T>>) -> (votes: Vec<MergeStatistics<T>>)
        requires
            forall|j: int, k: int| 0 <= j < voters@.len() && 0 <= k < targets@.len() ==> has_entry(self@, voters@[j]@.0, targets@[k]@.0),
        ensures
            votes@.len() == targets@.len(),
            forall|k: int| 0 <= k < targets@.len() ==> (#[trigger] votes@[k])@ == (vote_of(self@, keys_view(voters@), targets@[k]@.0), MergeStatisticWeight::Simple),
    {
        let mut votes: Vec<MergeStatistics<T>> = Vec::new();
        let mut k: usize = 0;
        while k < targets.len()
            invariant
                k <= targets@.len(),
                votes@.len() == k,
                forall|j: int, k2: int| 0 <= j < voters@.len() && 0 <= k2 < targets@.len() ==> has_entry(self@, voters@[j]@.0, targets@[k2]@.0),
                forall|k2: int| 0 <= k2 < k ==> (#[trigger] votes@[k2])@ == (vote_of(self@, keys_view(voters@), targets@[k2]@.0), MergeStatisticWeight::Simple),
            decreases targets@.len() - k,
        {
            let mut statistics = MergeStatistics::new(MergeStatisticWeight::Simple);
            let mut j: usize = 0;
            while j < voters.len()
                invariant
                    k < targets@.len(),
                    j <= voters@.len(),
                    forall|j2: int, k2: int| 0 <= j2 < voters@.len() && 0 <= k2 < targets@.len() ==> has_entry(self@, voters@[j2]@.0, targets@[k2]@.0),
                    statistics@ == (vote_of(self@, keys_view(voters@), targets@[k as int]@.0).take(j as int), MergeStatisticWeight::Simple),
                decreases voters@.len() - j,
            {
                let st = self.get_entry(&voters[j], &targets[k]);
                statistics.push(st.clone());
                j = j + 1;
                assert(statistics@.0 =~= vote_of(self@, keys_view(voters@), targets@[k as int]@.0).take(j as int));
            }
            assert(vote_of(self@, keys_view(voters@), targets@[k as int]@.0).take(j as int) =~= vote_of(self@, keys_view(voters@), targets@[k as int]@.0));
            votes.push(statistics);
            k = k + 1;
        }
        votes
    }
}

/// Pushing each of `xs` onto `v` appends them to the chain, keeps the base, and raises each
/// counter by at most their number.
pub proof fn lemma_fold_pushed(v: ChainView, xs: Seq<StatView>)
    ensures
        fold_pushed(v, xs).chain == v.chain + xs,
        fold_pushed(v, xs).base == v.base,
        fold_pushed(v, xs).n_success <= v.n_success + xs.len(),
        fold_pushed(v, xs).n_up_to_date <= v.n_up_to_date + xs.len(),
        fold_pushed(v, xs).n_conflict <= v.n_conflict + xs.len(),
    decreases xs.len(),
{
    if xs.len() > 0 {
        lemma_fold_pushed(v, xs.drop_last());
        assert(v.chain + xs =~= (v.chain + xs.drop_last()).push(xs.last()));
    } else {
        assert(v.chain + xs =~= v.chain);
    }
}

impl<T: IsGitObject> Conflict2DMatrix<T> {
    /// The chain after `start` whose statistics are the least-weight statistic of each vote.
    fn statistics_from_votes<B: IsGitObject>(&self, start: &NodePath<T>, votes: &Vec<MergeStatistics<T>>) -> (r: Option<MergeChainStatistic<B, T>>)
        requires
            forall|k: int| 0 <= k < votes@.len() ==> (#[trigger] votes@[k])@.0.len() > 0 && votes@[k]@.1 == MergeStatisticWeight::Simple,
        ensures
            B::accepts(start@.1) ==> r is Some,
            r is Some ==> B::accepts(start@.1),
            r is Some ==> r.unwrap()@ == fold_pushed(chain_start(start@), lowest_of_votes(votes_view(votes@))),
    {
        let base = start.try_convert_to::<B>();
        let base = match base {
            Some(b) => b,
            None => {
                return None;
            },
        };
        let mut chain_statistic = MergeChainStatistic::new(base);
        let mut i: usize = 0;
        while i < votes.len()
            invariant
                i <= votes@.len(),
                forall|k: int| 0 <= k < votes@.len() ==> (#[trigger] votes@[k])@.0.len() > 0 && votes@[k]@.1 == MergeStatisticWeight::Simple,
                chain_statistic@ == fold_pushed(chain_start(start@), lowest_of_votes(votes_view(votes@)).take(i as int)),
            decreases votes@.len() - i,
        {
            proof {
                lemma_fold_pushed(chain_start(start@), lowest_of_votes(votes_view(votes@)).take(i as int));
            }
            let lowest = votes[i].get_lowest().clone();
            chain_statistic.push(lowest);
            proof {
                assert(lowest_of_votes(votes_view(votes@)).take(i + 1).drop_last() =~= lowest_of_votes(votes_view(votes@)).take(i as int));
            }
            i = i + 1;
        }
        assert(lowest_of_votes(votes_view(votes@)).take(i as int) =~= lowest_of_votes(votes_view(votes@)));
        Some(chain_statistic)
    }

    /// The chain that merging the paths of `order` after the first onto `base` is predicted to
    /// give: each path is voted on by the base and the paths merged before it, and its
    /// statistic is the least-weight one of its vote. `None` exactly when the base cannot be
    /// typed by `T`.
    pub fn predict_conflicts<B: IsGitObject>(&self, base: &NodePath<B>, order: &Vec<NodePath<T>>) -> (r: Option<MergeChainStatistic<B, T>>)
        requires
            order@.len() >= 1,
            forall|k: int| 1 <= k < order@.len() ==> has_entry(self@, base@.0, (#[trigger] order@[k])@.0),
            forall|j: int, k: int| 1 <= j < k < order@.len() ==> has_entry(self@, (#[trigger] order@[j])@.0, (#[trigger] order@[k])@.0),
        ensures
            r is Some <==> T::accepts(base@.1),
            r is Some ==> r.unwrap()@ == fold_pushed(chain_start(base@), lowest_of_votes(predict_votes(self@, base@, keys_view(order@)))),
    {
        proof {
            use_type_invariant(base);
            base.lemma_typed();
        }
        let start = match base.try_convert_to::<T>() {
            Some(s) => s,
            None => {
                return None;
            },
        };
        let mut voters: Vec<NodePath<T>> = Vec::new();
        voters.push(start.clone());
        let mut chosen: Vec<MergeStatistics<T>> = Vec::new();
        let ghost pv = predict_votes(self@, base@, keys_view(order@));
        let mut k: usize = 1;
        while k < order.len()
            invariant
                1 <= k <= order@.len(),
                start@ == base@,
                keys_view(voters@) == predict_voters(base@, keys_view(order@), k - 1),
                votes_view(chosen@) == pv.take(k - 1),
                chosen@.len() == k - 1,
                voters@.len() == k,
                pv.len() == order@.len() - 1,
                forall|k2: int| 0 <= k2 < chosen@.len() ==> (#[trigger] chosen@[k2])@.0.len() > 0 && chosen@[k2]@.1 == MergeStatisticWeight::Simple,
                pv == predict_votes(self@, base@, keys_view(order@)),
                forall|k2: int| 1 <= k2 < order@.len() ==> has_entry(self@, base@.0, (#[trigger] order@[k2])@.0),
                forall|j: int, k2: int| 1 <= j < k2 < order@.len() ==> has_entry(self@, (#[trigger] order@[j])@.0, (#[trigger] order@[k2])@.0),
            decreases order@.len() - k,
        {
            let mut targets: Vec<NodePath<T>> = Vec::new();
            targets.push(order[k].clone());
            proof {
                let pvk = predict_voters(base@, keys_view(order@), k - 1);
                assert(pvk.len() == k);
                assert(voters@.len() == k);
                assert(targets@[0]@ == order@[k as int]@);
                assert forall|j: int, k2: int| 0 <= j < voters@.len() && 0 <= k2 < targets@.len() implies has_entry(self@, voters@[j]@.0, targets@[k2]@.0) by {
                    assert(keys_view(voters@)[j] == voters@[j]@);
                    assert(pvk[j] == voters@[j]@);
                    if j > 0 {
                        assert(pvk[j] == keys_view(order@).subrange(1, k as int)[j - 1]);
                        assert(keys_view(order@)[j] == order@[j]@);
                        assert(has_entry(self@, order@[j]@.0, order@[k as int]@.0));
                    } else {
                        assert(pvk[0] == base@);
                        assert(has_entry(self@, base@.0, order@[k as int]@.0));
                    }
                }
            }
            let votes = self.calculate_votes(&voters, &targets);
            let vote = votes[0].clone();
            proof {
                assert(keys_view(voters@) == predict_voters(base@, keys_view(order@), k - 1));
                assert(keys_view(order@)[k as int] == order@[k as int]@);
                assert(vote@.0 == pv[k - 1]);
                assert(vote@.0.len() == voters@.len());
            }
            let ghost before = chosen@;
            chosen.push(vote);
            assert forall|i: int| 0 <= i < k implies #[trigger] votes_view(chosen@)[i] == pv.take(k as int)[i] by {
                if i < k - 1 {
                    assert(chosen@[i] == before[i]);
                    assert(votes_view(before)[i] == pv.take(k - 1)[i]);
                }
            }
            assert(votes_view(chosen@) =~= pv.take(k as int));
            let ghost vbefore = voters@;
            let next = order[k].clone();
            voters.push(next);
            assert forall|i: int| 0 <= i <= k implies #[trigger] keys_view(voters@)[i] == predict_voters(base@, keys_view(order@), k as int)[i] by {
                if i < k {
                    assert(voters@[i] == vbefore[i]);
                    assert(keys_view(vbefore)[i] == predict_voters(base@, keys_view(order@), k - 1)[i]);
                    if i > 0 {
                        assert(predict_voters(base@, keys_view(order@), k - 1)[i] == keys_view(order@)[i]);
                        assert(predict_voters(base@, keys_view(order@), k as int)[i] == keys_view(order@)[i]);
                    }
                } else {
                    assert(predict_voters(base@, keys_view(order@), k as int)[i] == keys_view(order@)[k as int]);
                }
            }
            assert(keys_view(voters@) =~= predict_voters(base@, keys_view(order@), k as int));
            k = k + 1;
        }
        assert(pv.take(k - 1) =~= pv);
        self.statistics_from_votes::<B>(&start, &chosen)
    }
}

/// The facts about the keys that the greedy estimate keeps: every voter and every missing
/// path is the key of a row, no missing path is a voter, and the missing paths are distinct.
pub open spec fn estimate_keys_ok(rows: Seq<RowView>, voters: Seq<KeyView>, missing: Seq<KeyView>) -> bool {
    &&& forall|j: int| 0 <= j < voters.len() ==> 0 <= row_pos(rows, (#[trigger] voters[j]).0, 0)
    &&& forall|k: int| 0 <= k < missing.len() ==> 0 <= row_pos(rows, (#[trigger] missing[k]).0, 0)
    &&& forall|j: int, k: int| 0 <= j < voters.len() && 0 <= k < missing.len() ==> (#[trigger] voters[j]).0 != (#[trigger] missing[k]).0
    &&& forall|a: int, b: int| 0 <= a < b < missing.len() ==> (#[trigger] missing[a]).0 != (#[trigger] missing[b]).0
}

/// With the key facts, every voter's row holds a statistic for every missing path.
pub proof fn lemma_estimate_entries(rows: Seq<RowView>, voters: Seq<KeyView>, missing: Seq<KeyView>)
    requires
        matrix_complete(rows),
        estimate_keys_ok(rows, voters, missing),
    ensures
        forall|j: int, k: int| 0 <= j < voters.len() && 0 <= k < missing.len() ==> has_entry(rows, (#[trigger] voters[j]).0, (#[trigger] missing[k]).0),
{
    assert forall|j: int, k: int| 0 <= j < voters.len() && 0 <= k < missing.len() implies has_entry(rows, (#[trigger] voters[j]).0, (#[trigger] missing[k]).0) by {
        let i1 = row_pos(rows, voters[j].0, 0);
        let i2 = row_pos(rows, missing[k].0, 0);
        lemma_row_pos(rows, voters[j].0, 0);
        lemma_row_pos(rows, missing[k].0, 0);
        assert(i1 != i2);
        assert(has_entry(rows, rows[i1].0.0, rows[i2].0.0));
    }
}

/// The votes of distinct missing paths differ: the first voter's statistic for a path
/// carries that path.
pub proof fn lemma_votes_distinct(rows: Seq<RowView>, voters: Seq<KeyView>, missing: Seq<KeyView>, a: int, b: int)
    requires
        matrix_complete(rows),
        estimate_keys_ok(rows, voters, missing),
        voters.len() > 0,
        0 <= a < missing.len(),
        0 <= b < missing.len(),
        a != b,
    ensures
        vote_of(rows, voters, missing[a].0) != vote_of(rows, voters, missing[b].0),
{
    lemma_estimate_entries(rows, voters, missing);
    assert(has_entry(rows, voters[0].0, missing[a].0));
    assert(has_entry(rows, voters[0].0, missing[b].0));
    let i = row_pos(rows, voters[0].0, 0);
    lemma_entry_pos(rows[i].1, missing[a].0, 0);
    lemma_entry_pos(rows[i].1, missing[b].0, 0);
    assert(vote_of(rows, voters, missing[a].0)[0].0.0 == missing[a].0);
    assert(vote_of(rows, voters, missing[b].0)[0].0.0 == missing[b].0);
    if a < b {
        assert(missing[a].0 != missing[b].0);
    } else {
        assert(missing[b].0 != missing[a].0);
    }
}

impl<T: IsGitObject> Conflict2DMatrix<T> {
    /// The chain estimated to merge best from `base_path`: starting from the base, repeatedly
    /// the remaining row key whose vote by the paths chosen so far weighs most is chosen (the
    /// first of them in row order on ties); each chosen path's statistic is the least-weight
    /// one of its vote. `None` exactly when the base cannot be typed by `T`.
    pub fn estimate_best_path<B: IsGitObject>(&self, base_path: &NodePath<B>) -> (r: Option<MergeChainStatistic<B, T>>)
        requires
            matrix_wf(self@),
            matrix_complete(self@),
            votes_fit(self@),
            T::accepts(base_path@.1) ==> 0 <= row_pos(self@, base_path@.0, 0),
        ensures
            r is Some <==> T::accepts(base_path@.1),
            r is Some ==> r.unwrap()@ == fold_pushed(
                chain_start(base_path@),
                lowest_of_votes(greedy_votes(self@, seq![base_path@], other_keys(self@, base_path@.0))),
            ),
    {
        proof {
            use_type_invariant(base_path);
            base_path.lemma_typed();
        }
        let start = match base_path.try_convert_to::<T>() {
            Some(s) => s,
            None => {
                return None;
            },
        };
        let ghost rows = self@;
        // the row keys other than the start, in row order
        let mut missing: Vec<NodePath<T>> = Vec::new();
        let mut r: usize = 0;
        let ghost keys = self@.map_values(|row: RowView| row.0);
        let ghost mut idx: Seq<int> = Seq::empty();
        while r < self.matrix.len()
            invariant
                r <= self.matrix@.len(),
                rows == self@,
                self@.len() == self.matrix@.len(),
                keys == self@.map_values(|row: RowView| row.0),
                keys_view(missing@) == keys.take(r as int).filter(|k: KeyView| k.0 != start@.0),
                idx.len() == missing@.len(),
                forall|k: int| 0 <= k < idx.len() ==> 0 <= #[trigger] idx[k] < r && keys_view(missing@)[k] == keys[idx[k]],
                forall|a: int, b: int| 0 <= a < b < idx.len() ==> #[trigger] idx[a] < #[trigger] idx[b],
            decreases self.matrix@.len() - r,
        {
            reveal_with_fuel(Seq::filter, 1);
            assert(keys.take(r + 1).drop_last() =~= keys.take(r as int));
            assert(self@[r as int] == row_view(self.matrix@[r as int]));
            if !self.matrix[r].key.equals(&start) {
                let ghost before = missing@;
                missing.push(self.matrix[r].key.clone());
                assert(keys_view(missing@) =~= keys_view(before).push(keys[r as int]));
                proof {
                    idx = idx.push(r as int);
                }
            }
            r = r + 1;
        }
        assert(keys.take(r as int) =~= keys);
        let ghost m0 = keys_view(missing@);
        assert(m0 == other_keys(self@, base_path@.0));
        proof {
            assert forall|k: int| 0 <= k < m0.len() implies 0 <= row_pos(rows, (#[trigger] m0[k]).0, 0) by {
                lemma_row_pos_of_key(rows, idx[k]);
            }
            assert forall|a: int, b: int| 0 <= a < b < m0.len() implies (#[trigger] m0[a]).0 != (#[trigger] m0[b]).0 by {
                assert(idx[a] < idx[b]);
            }
            lemma_filter_len_le(keys, start@.0);
        }
        let mut voters: Vec<NodePath<T>> = Vec::new();
        voters.push(start.clone());
        assert(keys_view(voters@) =~= seq![base_path@]);
        let mut chosen: Vec<MergeStatistics<T>> = Vec::new();
        assert(votes_view(chosen@) + greedy_votes(rows, keys_view(voters@), keys_view(missing@)) =~= greedy_votes(rows, seq![base_path@], m0));
        while missing.len() > 0
            invariant
                rows == self@,
                matrix_wf(rows),
                matrix_complete(rows),
                votes_fit(rows),
                m0.len() <= rows.len(),
                voters@.len() >= 1,
                voters@.len() + missing@.len() == 1 + m0.len(),
                estimate_keys_ok(rows, keys_view(voters@), keys_view(missing@)),
                votes_view(chosen@) + greedy_votes(rows, keys_view(voters@), keys_view(missing@)) == greedy_votes(rows, seq![base_path@], m0),
                forall|k: int| 0 <= k < chosen@.len() ==> (#[trigger] chosen@[k])@.0.len() > 0 && chosen@[k]@.1 == MergeStatisticWeight::Simple,
            decreases missing@.len(),
        {
            let ghost kv = keys_view(voters@);
            let ghost km = keys_view(missing@);
            proof {
                lemma_estimate_entries(rows, kv, km);
                assert forall|j: int, k: int| 0 <= j < voters@.len() && 0 <= k < missing@.len() implies has_entry(self@, voters@[j]@.0, missing@[k]@.0) by {
                    assert(kv[j] == voters@[j]@);
                    assert(km[k] == missing@[k]@);
                }
            }
            let votes = self.calculate_votes(&voters, &missing);
            // the first candidate whose vote weighs most
            let mut best: usize = 0;
            proof {
                assert(votes@[0]@.0 == vote_of(rows, kv, missing@[0]@.0));
                assert(weights_fit(MergeStatisticWeight::Simple, vote_of(rows, kv, missing@[0]@.0)));
                assert(km.take(1).len() == 1);
            }
            let mut best_weight = votes[0].accumulate_weights();
            let mut i: usize = 1;
            while i < votes.len()
                invariant
                    votes@.len() == missing@.len(),
                    km == keys_view(missing@),
                    kv == keys_view(voters@),
                    votes_fit(rows),
                    kv.len() <= rows.len(),
                    forall|k: int| 0 <= k < missing@.len() ==> (#[trigger] votes@[k])@ == (vote_of(rows, kv, missing@[k]@.0), MergeStatisticWeight::Simple),
                    1 <= i <= votes@.len(),
                    best < i,
                    best == best_index(rows, kv, km.take(i as int)),
                    best_weight == weight_sum(MergeStatisticWeight::Simple, votes@[best as int]@.0),
                decreases votes@.len() - i,
            {
                proof {
                    assert(votes@[i as int]@.0 == vote_of(rows, kv, missing@[i as int]@.0));
                    assert(weights_fit(MergeStatisticWeight::Simple, vote_of(rows, kv, missing@[i as int]@.0)));
                    assert(km.take(i + 1).drop_last() =~= km.take(i as int));
                    assert(km.take(i as int)[best as int] == km[best as int]);
                    assert(km[best as int] == missing@[best as int]@);
                    assert(km[i as int] == missing@[i as int]@);
                }
                let w = votes[i].accumulate_weights();
                if w > best_weight {
                    best = i;
                    best_weight = w;
                }
                i = i + 1;
            }
            assert(km.take(i as int) =~= km);
            proof {
                lemma_best_index(rows, kv, km);
            }
            // the candidates whose vote equals the best one's
            let mut group: Vec<usize> = Vec::new();
            let mut g: usize = 0;
            while g < votes.len()
                invariant
                    votes@.len() == missing@.len(),
                    km == keys_view(missing@),
                    kv == keys_view(voters@),
                    kv.len() > 0,
                    best < votes@.len(),
                    matrix_complete(rows),
                    estimate_keys_ok(rows, kv, km),
                    forall|k: int| 0 <= k < missing@.len() ==> (#[trigger] votes@[k])@ == (vote_of(rows, kv, missing@[k]@.0), MergeStatisticWeight::Simple),
                    g <= votes@.len(),
                    group@ == if best < g { seq![best] } else { Seq::<usize>::empty() },
                decreases votes@.len() - g,
            {
                proof {
                    if g != best {
                        lemma_votes_distinct(rows, kv, km, g as int, best as int);
                        assert(km[g as int] == missing@[g as int]@);
                        assert(km[best as int] == missing@[best as int]@);
                    }
                }
                if votes[g].same_as(&votes[best]) {
                    group.push(g);
                }
                g = g + 1;
            }
            // distinct paths receive distinct votes (`lemma_votes_distinct`), so the group of
            // candidates with the best vote is the best candidate alone, and no tie between
            // equal votes is left to break
            let winner = group[0];
            assert(winner == best);
            let ghost old_missing = missing@;
            let ghost old_voters = voters@;
            let picked = missing.remove(winner);
            let vote = votes[winner].clone();
            voters.push(picked);
            let ghost old_chosen = chosen@;
            chosen.push(vote);
            proof {
                let m = best as int;
                assert(km[m] == old_missing[m]@);
                assert(keys_view(missing@) =~= km.remove(m));
                assert(keys_view(voters@) =~= kv.push(km[m]));
                assert(votes_view(chosen@) =~= votes_view(old_chosen).push(vote_of(rows, kv, km[m].0)));
                assert(greedy_votes(rows, kv, km) == seq![vote_of(rows, kv, km[m].0)] + greedy_votes(rows, kv.push(km[m]), km.remove(m)));
                assert(votes_view(chosen@) + greedy_votes(rows, keys_view(voters@), keys_view(missing@)) =~= votes_view(old_chosen) + greedy_votes(rows, kv, km));
                assert(vote@.0.len() == kv.len());
                // the picked path joins the voters and leaves the missing paths
                assert forall|j: int| 0 <= j < keys_view(voters@).len() implies 0 <= row_pos(rows, (#[trigger] keys_view(voters@)[j]).0, 0) by {
                    if j < kv.len() {
                        assert(keys_view(voters@)[j] == kv[j]);
                    }
                }
                assert forall|k: int| 0 <= k < keys_view(missing@).len() implies 0 <= row_pos(rows, (#[trigger] keys_view(missing@)[k]).0, 0) by {
                    assert(keys_view(missing@)[k] == km.remove(m)[k]);
                }
                assert forall|j: int, k: int| 0 <= j < keys_view(voters@).len() && 0 <= k < keys_view(missing@).len()
                    implies (#[trigger] keys_view(voters@)[j]).0 != (#[trigger] keys_view(missing@)[k]).0 by {
                    let k0 = if k < m { k } else { k + 1 };
                    assert(keys_view(missing@)[k] == km[k0]);
                    if j < kv.len() {
                        assert(keys_view(voters@)[j] == kv[j]);
                    } else {
                        assert(keys_view(voters@)[j] == km[m]);
                        if k0 < m {
                            assert(km[k0].0 != km[m].0);
                        } else {
                            assert(km[m].0 != km[k0].0);
                        }
                    }
                }
                assert forall|a: int, b: int| 0 <= a < b < keys_view(missing@).len() implies (#[trigger] keys_view(missing@)[a]).0 != (#[trigger] keys_view(missing@)[b]).0 by {
                    let a0 = if a < m { a } else { a + 1 };
                    let b0 = if b < m { b } else { b + 1 };
                    assert(keys_view(missing@)[a] == km[a0]);
                    assert(keys_view(missing@)[b] == km[b0]);
                }
            }
        }
        assert(keys_view(missing@) =~= Seq::<KeyView>::empty());
        assert(votes_view(chosen@) =~= greedy_votes(rows, seq![base_path@], m0));
        self.statistics_from_votes::<B>(&start, &chosen)
    }
}

/// The greedy estimate picks every missing path exactly once, so there are as many picks and
/// votes as missing paths and each missing path is picked; its first pick is a candidate whose
/// vote weighs at least as much as every other candidate's vote, and it records that vote.
pub proof fn law_greedy_estimate(rows: Seq<RowView>, voters: Seq<KeyView>, missing: Seq<KeyView>)
    ensures
        greedy_order(rows, voters, missing).len() == missing.len(),
        greedy_votes(rows, voters, missing).len() == missing.len(),
        forall|k: int| 0 <= k < missing.len() ==> greedy_order(rows, voters, missing).contains(#[trigger] missing[k]),
        missing.len() > 0 ==> {
            &&& greedy_votes(rows, voters, missing)[0] == vote_of(rows, voters, greedy_order(rows, voters, missing)[0].0)
            &&& forall|k: int| 0 <= k < missing.len() ==> weight_sum(MergeStatisticWeight::Simple, vote_of(rows, voters, (#[trigger] missing[k]).0))
                <= weight_sum(MergeStatisticWeight::Simple, greedy_votes(rows, voters, missing)[0])
        },
    decreases missing.len(),
{
    if missing.len() > 0 {
        lemma_best_index(rows, voters, missing);
        let m = best_index(rows, voters, missing);
        let rest = missing.remove(m);
        law_greedy_estimate(rows, voters.push(missing[m]), rest);
        let order = greedy_order(rows, voters, missing);
        assert(order == seq![missing[m]] + greedy_order(rows, voters.push(missing[m]), rest));
        assert forall|k: int| 0 <= k < missing.len() implies order.contains(#[trigger] missing[k]) by {
            if k == m {
                assert(order[0] == missing[m]);
            } else {
                let k0 = if k < m { k } else { k - 1 };
                assert(rest[k0] == missing[k]);
                let sub = greedy_order(rows, voters.push(missing[m]), rest);
                let w = choose|w: int| 0 <= w < sub.len() && sub[w] == rest[k0];
                assert(order[w + 1] == missing[k]);
            }
        }
    }
}

/// In a matrix with distinct keys, the key of row `r` is found at `r`.
pub proof fn lemma_row_pos_of_key(rows: Seq<RowView>, r: int)
    requires
        matrix_wf(rows),
        0 <= r < rows.len(),
    ensures
        row_pos(rows, rows[r].0.0, 0) == r,
{
    lemma_row_pos(rows, rows[r].0.0, 0);
    let p = row_pos(rows, rows[r].0.0, 0);
    if p != r {
        if p == -1 {
            assert(rows[r].0.0 != rows[r].0.0);
        } else if p < r {
            assert(rows[p].0.0 != rows[r].0.0);
        } else {
            assert(rows[r].0.0 != rows[r].0.0);
        }
    }
}

/// A filter is no longer than what it filters.
pub proof fn lemma_filter_len_le(keys: Seq<KeyView>, start: Seq<Seq<char>>)
    ensures
        keys.filter(|k: KeyView| k.0 != start).len() <= keys.len(),
    decreases keys.len(),
{
    reveal_with_fuel(Seq::filter, 1);
    if keys.len() > 0 {
        lemma_filter_len_le(keys.drop_last(), start);
    }
}

/// Does `p` lead, in the tree `m`, to a node of a kind `T` covers?
pub open spec fn convertible<T: IsGitObject>(m: crate::model::node::NodeView, p: Seq<Seq<char>>) -> bool {
    lookup(m, p) is Some && T::accepts(lookup(m, p).unwrap().node_type)
}

/// The views of normalized statistics.
pub open spec fn normalized_views(v: Seq<NormalizedMergeStatistic>) -> Seq<(Seq<Seq<char>>, MergeResult)> {
    v.map_values(|s: NormalizedMergeStatistic| s@)
}

/// The typed statistics that normalized ones become in the tree `m`.
pub open spec fn converted_all(m: crate::model::node::NodeView, v: Seq<(Seq<Seq<char>>, MergeResult)>) -> Seq<StatView> {
    v.map_values(|x: (Seq<Seq<char>>, MergeResult)| ((x.0, lookup(m, x.0).unwrap().node_type), x.1))
}

/// The chain after pushing each of `xs` in turn.
pub open spec fn fold_pushed(v: ChainView, xs: Seq<StatView>) -> ChainView
    decreases xs.len(),
{
    if xs.len() == 0 {
        v
    } else {
        chain_pushed(fold_pushed(v, xs.drop_last()), xs.last())
    }
}

impl Clone for NormalizedMergeStatistic {
    fn clone(&self) -> (r: Self)
        ensures
            r@ == self@,
    {
        NormalizedMergeStatistic { path: self.path.clone(), stat: self.stat }
    }
}

/// Each predicted statistic is the entry of one of its voters, and weighs no more than the
/// entry that the base's row, or the row of any path merged before it, holds for its path:
/// in particular a conflict held by the row of an earlier path shows in the prediction.
pub proof fn law_prediction_heeds_earlier_paths(rows: Seq<RowView>, base: KeyView, order: Seq<KeyView>)
    requires
        order.len() >= 1,
    ensures
        ({
            let c = fold_pushed(chain_start(base), lowest_of_votes(predict_votes(rows, base, order)));
            &&& c.base == (base, MergeResult::Base)
            &&& c.chain.len() == order.len() - 1
            &&& forall|k: int|
                0 <= k < order.len() - 1 ==> weight_spec(MergeStatisticWeight::Simple, (#[trigger] c.chain[k]).1)
                    <= weight_spec(MergeStatisticWeight::Simple, entry_of(rows, base.0, order[k + 1].0).1)
            &&& forall|j: int, k: int|
                #![trigger c.chain[k], order[j]]
                1 <= j <= k < order.len() - 1 ==> weight_spec(MergeStatisticWeight::Simple, c.chain[k].1)
                    <= weight_spec(MergeStatisticWeight::Simple, entry_of(rows, order[j].0, order[k + 1].0).1)
            &&& forall|k: int|
                0 <= k < order.len() - 1 ==> (#[trigger] c.chain[k] == entry_of(rows, base.0, order[k + 1].0)
                    || exists|j: int| 1 <= j <= k && c.chain[k] == #[trigger] entry_of(rows, order[j].0, order[k + 1].0))
        }),
{
    let w = MergeStatisticWeight::Simple;
    let votes = predict_votes(rows, base, order);
    let lv = lowest_of_votes(votes);
    let c = fold_pushed(chain_start(base), lv);
    lemma_fold_pushed(chain_start(base), lv);
    assert(c.chain =~= lv);
    assert forall|k: int| 0 <= k < order.len() - 1 implies {
        &&& weight_spec(w, lv[k].1) <= weight_spec(w, entry_of(rows, base.0, order[k + 1].0).1)
        &&& forall|j: int| 1 <= j <= k ==> weight_spec(w, lv[k].1)
            <= weight_spec(w, #[trigger] entry_of(rows, order[j].0, order[k + 1].0).1)
        &&& (lv[k] == entry_of(rows, base.0, order[k + 1].0)
            || exists|j: int| 1 <= j <= k && lv[k] == #[trigger] entry_of(rows, order[j].0, order[k + 1].0))
    } by {
        let voters = predict_voters(base, order, k);
        let vk = vote_of(rows, voters, order[k + 1].0);
        assert(votes[k] == vk);
        assert(voters.len() == k + 1);
        law_lowest_index(w, vk);
        let li = lowest_index(w, vk);
        assert(lv[k] == vk[li]);
        assert(voters[0] == base);
        assert(vk[0] == entry_of(rows, base.0, order[k + 1].0));
        assert forall|j: int| 1 <= j <= k implies weight_spec(w, lv[k].1)
            <= weight_spec(w, #[trigger] entry_of(rows, order[j].0, order[k + 1].0).1) by {
            assert(voters[j] == order[j]);
            assert(vk[j] == entry_of(rows, order[j].0, order[k + 1].0));
        }
        if li > 0 {
            assert(voters[li] == order[li]);
            assert(vk[li] == entry_of(rows, order[li].0, order[k + 1].0));
        }
    }
}

/// The vote recorded for each pick of the greedy estimate is the vote of the first voters
/// followed by every path picked before it.
pub proof fn law_greedy_voters_grow(rows: Seq<RowView>, voters: Seq<KeyView>, missing: Seq<KeyView>)
    ensures
        forall|k: int|
            0 <= k < missing.len() ==> #[trigger] greedy_votes(rows, voters, missing)[k] == vote_of(
                rows,
                voters + greedy_order(rows, voters, missing).take(k),
                greedy_order(rows, voters, missing)[k].0,
            ),
    decreases missing.len(),
{
    if missing.len() > 0 {
        lemma_best_index(rows, voters, missing);
        let m = best_index(rows, voters, missing);
        let rest = missing.remove(m);
        let v2 = voters.push(missing[m]);
        law_greedy_voters_grow(rows, v2, rest);
        law_greedy_estimate(rows, v2, rest);
        let order = greedy_order(rows, voters, missing);
        let sub = greedy_order(rows, v2, rest);
        let votes = greedy_votes(rows, voters, missing);
        let subv = greedy_votes(rows, v2, rest);
        assert(order == seq![missing[m]] + sub);
        assert(votes == seq![vote_of(rows, voters, missing[m].0)] + subv);
        assert forall|k: int| 0 <= k < missing.len() implies #[trigger] votes[k] == vote_of(
            rows,
            voters + order.take(k),
            order[k].0,
        ) by {
            if k == 0 {
                assert(voters + order.take(0) =~= voters);
            } else {
                assert(votes[k] == subv[k - 1]);
                assert(order[k] == sub[k - 1]);
                assert(voters + order.take(k) =~= v2 + sub.take(k - 1));
            }
        }
    }
}

/// Each statistic of the greedy estimate from `base` weighs no more than the entry that the
/// base's row, or the row of any path picked before it, holds for its path, and is the entry
/// of one of them: a conflict held by the row of an earlier pick shows in the estimate.
pub proof fn law_estimate_heeds_earlier_picks(rows: Seq<RowView>, base: KeyView, missing: Seq<KeyView>)
    ensures
        ({
            let order = greedy_order(rows, seq![base], missing);
            let c = fold_pushed(chain_start(base), lowest_of_votes(greedy_votes(rows, seq![base], missing)));
            &&& c.base == (base, MergeResult::Base)
            &&& c.chain.len() == missing.len()
            &&& order.len() == missing.len()
            &&& forall|k: int|
                0 <= k < missing.len() ==> weight_spec(MergeStatisticWeight::Simple, (#[trigger] c.chain[k]).1)
                    <= weight_spec(MergeStatisticWeight::Simple, entry_of(rows, base.0, order[k].0).1)
            &&& forall|j: int, k: int|
                #![trigger c.chain[k], order[j]]
                0 <= j < k < missing.len() ==> weight_spec(MergeStatisticWeight::Simple, c.chain[k].1)
                    <= weight_spec(MergeStatisticWeight::Simple, entry_of(rows, order[j].0, order[k].0).1)
            &&& forall|k: int|
                0 <= k < missing.len() ==> (#[trigger] c.chain[k] == entry_of(rows, base.0, order[k].0)
                    || exists|j: int| 0 <= j < k && c.chain[k] == #[trigger] entry_of(rows, order[j].0, order[k].0))
        }),
{
    let w = MergeStatisticWeight::Simple;
    let v0 = seq![base];
    let order = greedy_order(rows, v0, missing);
    let votes = greedy_votes(rows, v0, missing);
    let lv = lowest_of_votes(votes);
    law_greedy_estimate(rows, v0, missing);
    law_greedy_voters_grow(rows, v0, missing);
    let c = fold_pushed(chain_start(base), lv);
    lemma_fold_pushed(chain_start(base), lv);
    assert(c.chain =~= lv);
    assert forall|k: int| 0 <= k < missing.len() implies {
        &&& weight_spec(w, lv[k].1) <= weight_spec(w, entry_of(rows, base.0, order[k].0).1)
        &&& forall|j: int| 0 <= j < k ==> weight_spec(w, lv[k].1)
            <= weight_spec(w, #[trigger] entry_of(rows, order[j].0, order[k].0).1)
        &&& (lv[k] == entry_of(rows, base.0, order[k].0)
            || exists|j: int| 0 <= j < k && lv[k] == #[trigger] entry_of(rows, order[j].0, order[k].0))
    } by {
        let voters = v0 + order.take(k);
        let vk = vote_of(rows, voters, order[k].0);
        assert(votes[k] == vk);
        assert(voters.len() == k + 1);
        law_lowest_index(w, vk);
        let li = lowest_index(w, vk);
        assert(lv[k] == vk[li]);
        assert(voters[0] == base);
        assert(vk[0] == entry_of(rows, base.0, order[k].0));
        assert forall|j: int| 0 <= j < k implies weight_spec(w, lv[k].1)
            <= weight_spec(w, #[trigger] entry_of(rows, order[j].0, order[k].0).1) by {
            assert(voters[j + 1] == order[j]);
            assert(vk[j + 1] == entry_of(rows, order[j].0, order[k].0));
        }
        if li > 0 {
            assert(voters[li] == order[li - 1]);
            assert(vk[li] == entry_of(rows, order[li - 1].0, order[k].0));
        }
    }
}

} // verus!
