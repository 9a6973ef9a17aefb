//! Derivations of products: which features a product is derived from, which of them are
//! merged already, the metadata recorded for a derivation in commit messages, and the
//! decisions of a derivation in progress.

use crate::git::checker::ChainStep;
use crate::git::commit::Commit;
use crate::git::conflict::{keys_view, KeyView, MergeResult, MergeStatistic};
use crate::git::interface::GitInterface;
use crate::model::error::ModelError;
use crate::model::node::lookup;
use crate::model::node_type::{ConcreteFeature, ConcreteProduct, IsGitObject};
use crate::model::path::{
    law_path_string_round_trip, path_segments, path_string_spec, valid_segment, QualifiedPath,
};
use crate::model::tree::{typed_at, NodePath};
use crate::text::{owned, str_eq};
use vstd::prelude::*;
use vstd::std_specs::convert::FromSpecImpl;

verus! {

/// A feature a product is derived from, by its path string.
pub struct FeatureMetadata {
    path: String,
}

impl View for FeatureMetadata {
    type V = Seq<char>;

    closed spec fn view(&self) -> Seq<char> {
        self.path@
    }
}

impl Clone for FeatureMetadata {
    fn clone(&self) -> (r: Self)
        ensures
            r@ == self@,
    {
        FeatureMetadata { path: self.path.clone() }
    }
}

/// The path strings of a vector of features.
pub open spec fn features_view(v: Seq<FeatureMetadata>) -> Seq<Seq<char>> {
    v.map_values(|f: FeatureMetadata| f@)
}

/// The paths that the path strings `fs` stand for.
pub open spec fn feature_paths(fs: Seq<Seq<char>>) -> Seq<Seq<Seq<char>>> {
    fs.map_values(|f: Seq<char>| path_segments(f))
}

/// Features recorded by the path strings of paths whose segments are valid stand for those
/// paths again: what `from_qualified_paths` or `from_features` records, `qualified_paths`
/// reads back unchanged.
pub proof fn law_features_stand_for_their_paths(paths: Seq<Seq<Seq<char>>>)
    requires
        forall|i: int, j: int| 0 <= i < paths.len() && 0 <= j < paths[i].len() ==> valid_segment(#[trigger] paths[i][j]),
    ensures
        feature_paths(paths.map_values(|p: Seq<Seq<char>>| path_string_spec(p))) == paths,
{
    let fs = paths.map_values(|p: Seq<Seq<char>>| path_string_spec(p));
    assert forall|i: int| 0 <= i < paths.len() implies #[trigger] feature_paths(fs)[i] == paths[i] by {
        assert forall|j: int| 0 <= j < paths[i].len() implies valid_segment(#[trigger] paths[i][j]) by {}
        law_path_string_round_trip(paths[i]);
    }
    assert(feature_paths(fs) =~= paths);
}

/// A copy of a vector of features.
fn clone_features(v: &Vec<FeatureMetadata>) -> (r: Vec<FeatureMetadata>)
    ensures
        features_view(r@) == features_view(v@),
{
    let mut r: Vec<FeatureMetadata> = Vec::new();
    let mut i: usize = 0;
    while i < v.len()
        invariant
            i <= v@.len(),
            features_view(r@) == features_view(v@).take(i as int),
        decreases v@.len() - i,
    {
        let f = v[i].clone();
        let ghost before = r@;
        r.push(f);
        assert(features_view(r@) =~= features_view(before).push(f@));
        i = i + 1;
        assert(features_view(v@).take(i as int) =~= features_view(v@).take(i - 1).push(v@[i - 1]@));
    }
    assert(features_view(v@).take(i as int) =~= features_view(v@));
    r
}

/// Does one of `v` have the path string `f`?
fn contains_feature(v: &Vec<FeatureMetadata>, f: &FeatureMetadata) -> (b: bool)
    ensures
        b == features_view(v@).contains(f@),
{
    let mut i: usize = 0;
    while i < v.len()
        invariant
            i <= v@.len(),
            forall|k: int| 0 <= k < i ==> features_view(v@)[k] != f@,
        decreases v@.len() - i,
    {
        if v[i].equals(f) {
            assert(features_view(v@)[i as int] == f@);
            return true;
        }
        i = i + 1;
    }
    false
}

impl FeatureMetadata {
    /// The feature with path string `path`.
    pub fn new(path: String) -> (f: Self)
        ensures
            f@ == path@,
    {
        FeatureMetadata { path }
    }

    /// The features of the given paths, by their path strings.
    pub fn from_qualified_paths(paths: &Vec<QualifiedPath>) -> (v: Vec<Self>)
        ensures
            features_view(v@) == paths@.map_values(|p: QualifiedPath| path_string_spec(p@)),
    {
        let mut v: Vec<Self> = Vec::new();
        let mut i: usize = 0;
        while i < paths.len()
            invariant
                i <= paths@.len(),
                features_view(v@) == paths@.take(i as int).map_values(|p: QualifiedPath| path_string_spec(p@)),
            decreases paths@.len() - i,
        {
            let f = Self::new(paths[i].to_path_string());
            let ghost before = v@;
            v.push(f);
            assert(features_view(v@) =~= features_view(before).push(f@));
            i = i + 1;
            assert(paths@.take(i as int).map_values(|p: QualifiedPath| path_string_spec(p@)) =~= paths@.take(
                i - 1,
            ).map_values(|p: QualifiedPath| path_string_spec(p@)).push(path_string_spec(paths@[i - 1]@)));
        }
        assert(paths@.take(i as int) =~= paths@);
        v
    }

    /// The features of the given feature paths, by their path strings.
    pub fn from_features(features: &Vec<NodePath<ConcreteFeature>>) -> (v: Vec<Self>)
        ensures
            features_view(v@) == features@.map_values(|p: NodePath<ConcreteFeature>| path_string_spec(p@.0)),
    {
        let mut v: Vec<Self> = Vec::new();
        let mut i: usize = 0;
        while i < features.len()
            invariant
                i <= features@.len(),
                features_view(v@) == features@.take(i as int).map_values(
                    |p: NodePath<ConcreteFeature>| path_string_spec(p@.0),
                ),
            decreases features@.len() - i,
        {
            let f = Self::new(features[i].to_qualified_path().to_path_string());
            let ghost before = v@;
            v.push(f);
            assert(features_view(v@) =~= features_view(before).push(f@));
            i = i + 1;
            assert(features@.take(i as int).map_values(|p: NodePath<ConcreteFeature>| path_string_spec(p@.0))
                =~= features@.take(i - 1).map_values(|p: NodePath<ConcreteFeature>| path_string_spec(p@.0)).push(
                path_string_spec(features@[i - 1]@.0),
            ));
        }
        assert(features@.take(i as int) =~= features@);
        v
    }

    /// The paths of the given features.
    pub fn qualified_paths(metadata: &Vec<Self>) -> (v: Vec<QualifiedPath>)
        ensures
            v@.map_values(|p: QualifiedPath| p@) == feature_paths(features_view(metadata@)),
    {
        let mut v: Vec<QualifiedPath> = Vec::new();
        let mut i: usize = 0;
        while i < metadata.len()
            invariant
                i <= metadata@.len(),
                v@.map_values(|p: QualifiedPath| p@) == feature_paths(features_view(metadata@)).take(i as int),
            decreases metadata@.len() - i,
        {
            let p = metadata[i].get_qualified_path();
            let ghost before = v@;
            v.push(p);
            assert(v@.map_values(|p: QualifiedPath| p@) =~= before.map_values(|p: QualifiedPath| p@).push(p@));
            i = i + 1;
            assert(feature_paths(features_view(metadata@)).take(i as int) =~= feature_paths(
                features_view(metadata@),
            ).take(i - 1).push(path_segments(metadata@[i - 1]@)));
        }
        assert(feature_paths(features_view(metadata@)).take(i as int) =~= feature_paths(features_view(metadata@)));
        v
    }

    /// The path string.
    pub fn get_path(&self) -> (s: &String)
        ensures
            s@ == self@,
    {
        &self.path
    }

    /// The path the path string stands for.
    pub fn get_qualified_path(&self) -> (p: QualifiedPath)
        ensures
            p@ == path_segments(self@),
    {
        QualifiedPath::from_str(self.path.as_str())
    }

    /// Do both have the same path string?
    pub fn equals(&self, other: &FeatureMetadata) -> (b: bool)
        ensures
            b == (self@ == other@),
    {
        str_eq(self.path.as_str(), other.path.as_str())
    }
}

/// Whether a derivation is in progress.
#[derive(Clone, Copy, Debug, PartialEq, Eq, Structural)]
pub enum DerivationState {
    InProgress,
    Idle,
}

/// The state that a stored state string stands for: in progress only for `in_progress`.
pub open spec fn state_of(s: Seq<char>) -> DerivationState {
    if s == "in_progress"@ {
        DerivationState::InProgress
    } else {
        DerivationState::Idle
    }
}

/// The string a state is stored as.
pub open spec fn state_string(s: DerivationState) -> Seq<char> {
    match s {
        DerivationState::InProgress => "in_progress"@,
        DerivationState::Idle => "none"@,
    }
}

impl DerivationState {
    /// The state a stored string stands for.
    pub fn from_string(from: &str) -> (s: Self)
        ensures
            s == state_of(from@),
    {
        if str_eq(from, "in_progress") {
            DerivationState::InProgress
        } else {
            DerivationState::Idle
        }
    }

    /// The string the state is stored as.
    pub fn to_string(&self) -> (s: String)
        ensures
            s@ == state_string(*self),
    {
        match self {
            DerivationState::InProgress => owned("in_progress"),
            DerivationState::Idle => owned("none"),
        }
    }
}

/// A state read back from the string it is stored as is the same state.
pub proof fn law_state_string_round_trip(s: DerivationState)
    ensures
        state_of(state_string(s)) == s,
{
    reveal_strlit("in_progress");
    reveal_strlit("none");
    if s == DerivationState::Idle {
        assert(state_string(s) != "in_progress"@) by {
            assert(state_string(s).len() != "in_progress"@.len());
        }
    }
}

/// The record of a derivation as values.
pub struct DerivationView {
    pub id: Seq<char>,
    pub state: Seq<char>,
    pub initial_commit: Seq<char>,
    pub completed: Seq<Seq<char>>,
    pub missing: Seq<Seq<char>>,
    pub total: Seq<Seq<char>>,
}

/// The record of a derivation: its id and state, the commit it started from, and the
/// features merged, still missing, and in total.
pub struct DerivationData {
    id: String,
    state: String,
    initial_commit: String,
    completed: Vec<FeatureMetadata>,
    missing: Vec<FeatureMetadata>,
    total: Vec<FeatureMetadata>,
}

impl View for DerivationData {
    type V = DerivationView;

    closed spec fn view(&self) -> DerivationView {
        DerivationView {
            id: self.id@,
            state: self.state@,
            initial_commit: self.initial_commit@,
            completed: features_view(self.completed@),
            missing: features_view(self.missing@),
            total: features_view(self.total@),
        }
    }
}

impl Clone for DerivationData {
    fn clone(&self) -> (r: Self)
        ensures
            r@ == self@,
    {
        DerivationData {
            id: self.id.clone(),
            state: self.state.clone(),
            initial_commit: self.initial_commit.clone(),
            completed: clone_features(&self.completed),
            missing: clone_features(&self.missing),
            total: clone_features(&self.total),
        }
    }
}

/// The record a derivation of `features` from `initial_commit` starts with, under the id
/// `id`, after the record `prev`: a derivation still in progress goes on unchanged; after a
/// finished one the new derivation keeps its total features; the first derivation has the
/// features as its total.
pub open spec fn started_derivation(
    id: Seq<char>,
    features: Seq<Seq<char>>,
    initial_commit: Seq<char>,
    prev: Option<DerivationView>,
) -> DerivationView {
    match prev {
        Some(p) => if state_of(p.state) == DerivationState::InProgress {
            p
        } else {
            DerivationView {
                id,
                state: "in_progress"@,
                initial_commit,
                completed: Seq::empty(),
                missing: features,
                total: p.total,
            }
        },
        None => DerivationView {
            id,
            state: "in_progress"@,
            initial_commit,
            completed: Seq::empty(),
            missing: features,
            total: features,
        },
    }
}

/// The view of an optional record.
pub open spec fn opt_data_view(d: Option<&DerivationData>) -> Option<DerivationView> {
    match d {
        Some(x) => Some(x@),
        None => None,
    }
}

/// Is `s` a UUID in its hyphenated lower-case form?
pub open spec fn is_uuid_string(s: Seq<char>) -> bool {
    &&& s.len() == 36
    &&& forall|i: int|
        0 <= i < 36 ==> if i == 8 || i == 13 || i == 18 || i == 23 {
            s[i] == '-'
        } else {
            ('0' <= #[trigger] s[i] <= '9') || ('a' <= s[i] <= 'f')
        }
    &&& s[14] == '4'
    &&& s[19] == '8' || s[19] == '9' || s[19] == 'a' || s[19] == 'b'
}

/// A fresh random UUID of version 4 (`Uuid::new_v4`), in the hyphenated lower-case form that
/// its `to_string` gives: 36 characters, hyphens after the 8th, 12th, 16th and 20th digit,
/// the version digit `4`, and a variant digit of `8`, `9`, `a` or `b`. Which UUID comes out
/// is chance and is not stated.
#[verifier::external_body]
fn new_v4_string() -> (s: String)
    ensures
        is_uuid_string(s@),
{
    uuid::Uuid::new_v4().to_string()
}

/// The path strings of `missing` without those that stand for `feature`.
pub open spec fn without_feature(missing: Seq<Seq<char>>, feature: Seq<Seq<char>>) -> Seq<Seq<char>> {
    missing.filter(|m: Seq<char>| path_segments(m) != feature)
}

/// The position of the first of `ms` that stands for the path `feature`, or -1.
pub open spec fn first_feature(ms: Seq<Seq<char>>, feature: Seq<Seq<char>>, from: int) -> int
    decreases ms.len() - from,
{
    if from < 0 || from >= ms.len() {
        -1
    } else if path_segments(ms[from]) == feature {
        from
    } else {
        first_feature(ms, feature, from + 1)
    }
}

/// The record after `feature` was merged: when a missing feature stands for it, the first such
/// one joins the completed features and every one that stands for it leaves the missing ones.
pub open spec fn completed_with(d: DerivationView, feature: Seq<Seq<char>>) -> DerivationView {
    let k = first_feature(d.missing, feature, 0);
    if 0 <= k < d.missing.len() {
        DerivationView {
            missing: without_feature(d.missing, feature),
            completed: d.completed.push(d.missing[k]),
            ..d
        }
    } else {
        d
    }
}

/// Once a feature is marked as completed, no missing feature stands for it any more, and
/// nothing else changes but the completed features, which grow by at most one.
pub proof fn law_completed_leaves_missing(d: DerivationView, feature: Seq<Seq<char>>)
    ensures
        forall|i: int|
            0 <= i < completed_with(d, feature).missing.len() ==> path_segments(
                #[trigger] completed_with(d, feature).missing[i],
            ) != feature,
        completed_with(d, feature).id == d.id,
        completed_with(d, feature).state == d.state,
        completed_with(d, feature).total == d.total,
        completed_with(d, feature).initial_commit == d.initial_commit,
        completed_with(d, feature).completed.len() <= d.completed.len() + 1,
{
    let k = first_feature(d.missing, feature, 0);
    lemma_first_feature(d.missing, feature, 0);
    if 0 <= k < d.missing.len() {
        let kept = without_feature(d.missing, feature);
        assert forall|i: int| 0 <= i < kept.len() implies path_segments(#[trigger] kept[i]) != feature by {
            d.missing.lemma_filter_pred(|m: Seq<char>| path_segments(m) != feature, i);
        }
    } else {
        assert forall|i: int| 0 <= i < d.missing.len() implies path_segments(#[trigger] d.missing[i]) != feature by {}
    }
}

/// The first position from `from` on that stands for the feature is what `first_feature`
/// finds.
proof fn lemma_first_feature_is(ms: Seq<Seq<char>>, feature: Seq<Seq<char>>, from: int, i: int)
    requires
        0 <= from <= i < ms.len(),
        path_segments(ms[i]) == feature,
        forall|j: int| from <= j < i ==> path_segments(#[trigger] ms[j]) != feature,
    ensures
        first_feature(ms, feature, from) == i,
    decreases i - from,
{
    if from < i {
        lemma_first_feature_is(ms, feature, from + 1, i);
    }
}

/// Marking a merged feature as completed when the missing feature at `i` is the first that
/// stands for it: that one is appended to the completed features, the missing features that
/// stand for it leave and the others keep their order, and nothing else changes.
pub proof fn law_completed_keeps_missing_order(d: DerivationView, feature: Seq<Seq<char>>, i: int)
    requires
        0 <= i < d.missing.len(),
        path_segments(d.missing[i]) == feature,
        forall|j: int| 0 <= j < i ==> path_segments(#[trigger] d.missing[j]) != feature,
    ensures
        completed_with(d, feature) == (DerivationView {
            missing: d.missing.filter(|m: Seq<char>| path_segments(m) != feature),
            completed: d.completed.push(d.missing[i]),
            ..d
        }),
{
    lemma_first_feature_is(d.missing, feature, 0, i);
}

/// Marking a feature that no missing feature stands for changes nothing.
pub proof fn law_completed_unknown_feature(d: DerivationView, feature: Seq<Seq<char>>)
    requires
        forall|j: int| 0 <= j < d.missing.len() ==> path_segments(#[trigger] d.missing[j]) != feature,
    ensures
        completed_with(d, feature) == d,
{
    lemma_first_feature(d.missing, feature, 0);
}

/// A derivation continues the previous record while that one is in progress; otherwise it
/// starts in progress under the given id and commit, with no completed features, the given
/// features missing, and the total features of the previous record (the given features when
/// there is none).
pub proof fn law_started_derivation(
    id: Seq<char>,
    features: Seq<Seq<char>>,
    initial_commit: Seq<char>,
    prev: Option<DerivationView>,
)
    ensures
        ({
            let d = started_derivation(id, features, initial_commit, prev);
            match prev {
                Some(p) => if state_of(p.state) == DerivationState::InProgress {
                    d == p
                } else {
                    &&& d.completed == Seq::<Seq<char>>::empty()
                    &&& d.missing == features
                    &&& d.total == p.total
                    &&& d.id == id
                    &&& d.initial_commit == initial_commit
                    &&& state_of(d.state) == DerivationState::InProgress
                },
                None => {
                    &&& d.completed == Seq::<Seq<char>>::empty()
                    &&& d.missing == features
                    &&& d.total == features
                    &&& d.id == id
                    &&& d.initial_commit == initial_commit
                    &&& state_of(d.state) == DerivationState::InProgress
                },
            }
        }),
{
}

/// `first_feature` finds the first position from `from` on that stands for the feature, or
/// reports that none does.
pub proof fn lemma_first_feature(ms: Seq<Seq<char>>, feature: Seq<Seq<char>>, from: int)
    requires
        0 <= from,
    ensures
        first_feature(ms, feature, from) == -1 || (from <= first_feature(ms, feature, from) < ms.len()
            && path_segments(ms[first_feature(ms, feature, from)]) == feature),
        first_feature(ms, feature, from) == -1 ==> forall|j: int| from <= j < ms.len() ==> path_segments(
            #[trigger] ms[j],
        ) != feature,
    decreases ms.len() - from,
{
    if from < ms.len() && path_segments(ms[from]) != feature {
        lemma_first_feature(ms, feature, from + 1);
    }
}

impl DerivationData {
    /// The record a derivation of `features` from `initial_commit` starts with under the id
    /// `id`, after the record `previously_finished` if there is one.
    pub fn new_with_id(
        id: String,
        features: Vec<FeatureMetadata>,
        initial_commit: String,
        previously_finished: Option<&Self>,
    ) -> (d: Self)
        ensures
            d@ == started_derivation(id@, features_view(features@), initial_commit@, opt_data_view(previously_finished)),
    {
        match previously_finished {
            Some(prev) => match prev.get_state() {
                DerivationState::InProgress => prev.clone(),
                DerivationState::Idle => {
                    let mut total = clone_features(prev.get_total());
                    let mut i: usize = 0;
                    while i < prev.total.len()
                        invariant
                            i <= prev.total@.len(),
                            features_view(total@) == features_view(prev.total@),
                        decreases prev.total@.len() - i,
                    {
                        let f = &prev.total[i];
                        assert(features_view(total@)[i as int] == f@);
                        if !contains_feature(&total, f) {
                            total.push(f.clone());
                        }
                        i = i + 1;
                    }
                    let d = DerivationData {
                        id,
                        initial_commit,
                        state: DerivationState::InProgress.to_string(),
                        completed: Vec::new(),
                        missing: features,
                        total,
                    };
                    assert(d@.completed =~= Seq::<Seq<char>>::empty());
                    d
                },
            },
            None => {
                let missing = clone_features(&features);
                let d = DerivationData {
                    id,
                    initial_commit,
                    state: DerivationState::InProgress.to_string(),
                    completed: Vec::new(),
                    missing,
                    total: features,
                };
                assert(d@.completed =~= Seq::<Seq<char>>::empty());
                d
            },
        }
    }

    /// The record with the given parts, as it was read back from a commit.
    pub fn from_parts(
        id: String,
        state: String,
        initial_commit: String,
        completed: Vec<FeatureMetadata>,
        missing: Vec<FeatureMetadata>,
        total: Vec<FeatureMetadata>,
    ) -> (d: Self)
        ensures
            d@ == (DerivationView {
                id: id@,
                state: state@,
                initial_commit: initial_commit@,
                completed: features_view(completed@),
                missing: features_view(missing@),
                total: features_view(total@),
            }),
    {
        DerivationData { id, state, initial_commit, completed, missing, total }
    }

    /// The state string as it is stored.
    pub fn get_state_string(&self) -> (s: &String)
        ensures
            s@ == self@.state,
    {
        &self.state
    }

    /// The record a derivation of `features` from `initial_commit` starts with, after the
    /// record `previously_finished` if there is one; a new derivation gets a fresh random id.
    pub fn new(features: Vec<FeatureMetadata>, initial_commit: String, previously_finished: Option<&Self>) -> (d: Self)
        ensures
            d@ == started_derivation(d@.id, features_view(features@), initial_commit@, opt_data_view(previously_finished)),
            match previously_finished {
                Some(p) => state_of(p@.state) == DerivationState::InProgress ==> d@ == p@,
                None => true,
            },
            !(previously_finished is Some && state_of(previously_finished.unwrap()@.state)
                == DerivationState::InProgress) ==> is_uuid_string(d@.id),
    {
        let uuid = new_v4_string();
        Self::new_with_id(uuid, features, initial_commit, previously_finished)
    }

    /// Marks the derivation as finished.
    pub fn as_finished(&mut self)
        ensures
            final(self)@ == (DerivationView { state: "none"@, ..old(self)@ }),
    {
        self.state = DerivationState::Idle.to_string();
    }

    /// Marks the derivation as in progress.
    pub fn as_in_progress(&mut self)
        ensures
            final(self)@ == (DerivationView { state: "in_progress"@, ..old(self)@ }),
    {
        self.state = DerivationState::InProgress.to_string();
    }

    /// Records that `feature` was merged.
    pub fn mark_as_completed(&mut self, feature: &QualifiedPath)
        ensures
            final(self)@ == completed_with(old(self)@, feature@),
    {
        let ghost ms = features_view(self.missing@);
        let mut found: Option<FeatureMetadata> = None;
        let mut kept: Vec<FeatureMetadata> = Vec::new();
        let mut i: usize = 0;
        while i < self.missing.len()
            invariant
                i <= self.missing@.len(),
                ms == features_view(self.missing@),
                features_view(kept@) == ms.take(i as int).filter(|m: Seq<char>| path_segments(m) != feature@),
                match found {
                    Some(f) => 0 <= first_feature(ms, feature@, 0) < i && f@ == ms[first_feature(ms, feature@, 0)],
                    None => first_feature(ms, feature@, 0) == first_feature(ms, feature@, i as int),
                },
            decreases self.missing@.len() - i,
        {
            reveal_with_fuel(Seq::filter, 1);
            assert(ms.take(i + 1).drop_last() =~= ms.take(i as int));
            assert(ms[i as int] == self.missing@[i as int]@);
            let same = self.missing[i].get_qualified_path().equals(feature);
            if same {
                if found.is_none() {
                    found = Some(self.missing[i].clone());
                }
            } else {
                let ghost before = kept@;
                kept.push(self.missing[i].clone());
                assert(features_view(kept@) =~= features_view(before).push(ms[i as int]));
            }
            i = i + 1;
        }
        assert(ms.take(i as int) =~= ms);
        match found {
            Some(f) => {
                self.missing = kept;
                let ghost before = self.completed@;
                self.completed.push(f);
                assert(features_view(self.completed@) =~= features_view(before).push(f@));
            },
            None => {
                assert(first_feature(ms, feature@, i as int) == -1);
            },
        }
    }

    /// Puts the missing features in the order of `new_order`, whose paths each stand for a
    /// missing feature.
    pub fn reorder_missing(&mut self, new_order: &Vec<QualifiedPath>)
        requires
            forall|k: int| 0 <= k < new_order@.len() ==> feature_paths(old(self)@.missing).contains(#[trigger] new_order@[k]@),
        ensures
            final(self)@ == (DerivationView {
                missing: new_order@.map_values(|p: QualifiedPath| path_string_spec(p@)),
                ..old(self)@
            }),
    {
        self.missing = FeatureMetadata::from_qualified_paths(new_order);
    }

    /// The merged features.
    pub fn get_completed(&self) -> (v: &Vec<FeatureMetadata>)
        ensures
            features_view(v@) == self@.completed,
    {
        &self.completed
    }

    /// The features still to merge.
    pub fn get_missing(&self) -> (v: &Vec<FeatureMetadata>)
        ensures
            features_view(v@) == self@.missing,
    {
        &self.missing
    }

    /// All features of the product.
    pub fn get_total(&self) -> (v: &Vec<FeatureMetadata>)
        ensures
            features_view(v@) == self@.total,
    {
        &self.total
    }

    /// The state.
    pub fn get_state(&self) -> (s: DerivationState)
        ensures
            s == state_of(self@.state),
    {
        DerivationState::from_string(self.state.as_str())
    }

    /// The id.
    pub fn get_id(&self) -> (s: &String)
        ensures
            s@ == self@.id,
    {
        &self.id
    }

    /// The commit the derivation started from.
    pub fn get_initial_commit(&self) -> (s: &String)
        ensures
            s@ == self@.initial_commit,
    {
        &self.initial_commit
    }
}

/// Derivation metadata as values: a pointer to another commit or a record, never both.
pub type MetadataView = (Option<Seq<char>>, Option<DerivationView>);

/// The metadata of a derivation stored in a commit: either a pointer to the commit that holds
/// the record, or the record itself.
pub struct DerivationMetadata {
    pointer: Option<String>,
    data: Option<DerivationData>,
}

impl View for DerivationMetadata {
    type V = MetadataView;

    closed spec fn view(&self) -> MetadataView {
        (
            match self.pointer {
                Some(p) => Some(p@),
                None => None,
            },
            match self.data {
                Some(d) => Some(d@),
                None => None,
            },
        )
    }
}

impl Clone for DerivationMetadata {
    fn clone(&self) -> (r: Self)
        ensures
            r@ == self@,
    {
        let pointer = match &self.pointer {
            Some(p) => Some(p.clone()),
            None => None,
        };
        let data = match &self.data {
            Some(d) => Some(d.clone()),
            None => None,
        };
        DerivationMetadata { pointer, data }
    }
}

impl DerivationMetadata {
    /// The header under which the metadata is stored in a commit message.
    pub fn header() -> (h: String)
        ensures
            h@ == "---derivation-metadata---"@,
    {
        owned("---derivation-metadata---")
    }

    /// Metadata with a pointer or a record; exactly one of both is given.
    pub fn new(pointer: Option<String>, data: Option<DerivationData>) -> (m: Self)
        requires
            pointer is Some != data is Some,
        ensures
            m@.0 == (match pointer {
                Some(p) => Some(p@),
                None => None::<Seq<char>>,
            }),
            m@.1 == (match data {
                Some(d) => Some(d@),
                None => None::<DerivationView>,
            }),
    {
        DerivationMetadata { pointer, data }
    }

    /// Metadata as it was read back from a commit, with whatever pointer and record it holds.
    pub fn from_parts(pointer: Option<String>, data: Option<DerivationData>) -> (m: Self)
        ensures
            m@.0 == (match pointer {
                Some(p) => Some(p@),
                None => None::<Seq<char>>,
            }),
            m@.1 == (match data {
                Some(d) => Some(d@),
                None => None::<DerivationView>,
            }),
    {
        DerivationMetadata { pointer, data }
    }

    /// The pointer to the commit that holds the record, if any.
    pub fn get_pointer(&self) -> (p: &Option<String>)
        ensures
            match p {
                Some(s) => self@.0 == Some(s@),
                None => self@.0 is None,
            },
    {
        &self.pointer
    }

    /// The record, if any.
    pub fn get_data(&self) -> (d: &Option<DerivationData>)
        ensures
            match d {
                Some(x) => self@.1 == Some(x@),
                None => self@.1 is None,
            },
    {
        &self.data
    }
}

/// What can go wrong in a derivation.
#[derive(Debug)]
pub enum DerivationError {
    Io(std::io::Error),
    Model(ModelError),
    DerivationInProgress,
    NoDerivationInProgress,
}

impl From<ModelError> for DerivationError {
    fn from(value: ModelError) -> (r: Self) {
        DerivationError::Model(value)
    }
}

impl FromSpecImpl<ModelError> for DerivationError {
    open spec fn obeys_from_spec() -> bool {
        true
    }

    open spec fn from_spec(value: ModelError) -> Self {
        DerivationError::Model(value)
    }
}

impl From<std::io::Error> for DerivationError {
    fn from(value: std::io::Error) -> (r: Self) {
        DerivationError::Io(value)
    }
}

impl FromSpecImpl<std::io::Error> for DerivationError {
    open spec fn obeys_from_spec() -> bool {
        true
    }

    open spec fn from_spec(value: std::io::Error) -> Self {
        DerivationError::Io(value)
    }
}

/// The commit message of a derivation step: the message, an empty line, and the framed
/// metadata.
pub open spec fn derivation_message_spec(message: Seq<char>, metadata: Seq<char>) -> Seq<char> {
    message + seq!['\n', '\n'] + metadata
}

/// The commit message of a derivation step: the message, an empty line, and the framed
/// metadata.
pub fn derivation_commit_message(message: &str, metadata: &str) -> (s: String)
    ensures
        s@ == derivation_message_spec(message@, metadata@),
{
    proof {
        reveal_strlit("\n\n");
    }
    let mut s = owned(message);
    s.append("\n\n");
    s.append(metadata);
    s
}

/// The record after each of `merged` was marked as completed, in order.
pub open spec fn completed_all(d: DerivationView, merged: Seq<Seq<Seq<char>>>) -> DerivationView
    decreases merged.len(),
{
    if merged.len() == 0 {
        d
    } else {
        completed_with(completed_all(d, merged.drop_last()), merged.last())
    }
}

/// The decisions of the derivation of a product: which features to merge next and what the
/// record says after the merges.
pub struct DerivationManager<'a> {
    product: &'a NodePath<ConcreteProduct>,
    current_state: DerivationData,
    git: &'a GitInterface,
}

impl<'a> DerivationManager<'a> {
    /// The manager of the derivation of `product` in the repository behind `git`, whose
    /// current record is `current_state`.
    pub fn new(product: &'a NodePath<ConcreteProduct>, git: &'a GitInterface, current_state: DerivationData) -> (m: Self)
        ensures
            m.state_view() == current_state@,
            m.git() == git,
            m.product() == product,
    {
        Self { product, current_state, git }
    }

    /// The current record, as a view.
    pub closed spec fn state_view(&self) -> DerivationView {
        self.current_state@
    }

    /// The interface of the repository.
    pub closed spec fn git(&self) -> &'a GitInterface {
        self.git
    }

    /// The product.
    pub closed spec fn product(&self) -> &'a NodePath<ConcreteProduct> {
        self.product
    }

    /// The current record.
    pub fn get_current_state(&self) -> (d: DerivationData)
        ensures
            d@ == self.state_view(),
    {
        self.current_state.clone()
    }

    /// Starts a derivation of `features` from the last commit `last_commit` of the product,
    /// when none is in progress: gives back the new record, to be stored with the message
    /// `Derivation start` and adopted once it is stored. The current record stays as it is.
    pub fn initialize_derivation(
        &self,
        features: &Vec<NodePath<ConcreteFeature>>,
        last_commit: &Commit,
    ) -> (r: Result<DerivationData, DerivationError>)
        ensures
            state_of(self.state_view().state) == DerivationState::InProgress ==> (r matches Err(
                DerivationError::DerivationInProgress,
            )),
            state_of(self.state_view().state) == DerivationState::Idle ==> r is Ok && r.unwrap()@
                == started_derivation(
                r.unwrap()@.id,
                features@.map_values(|p: NodePath<ConcreteFeature>| path_string_spec(p@.0)),
                last_commit@.0,
                Some(self.state_view()),
            ) && is_uuid_string(r.unwrap()@.id),
    {
        match self.current_state.get_state() {
            DerivationState::Idle => {
                let feature_metadata = FeatureMetadata::from_features(features);
                let hash = last_commit.get_hash().get_full_hash().clone();
                Ok(DerivationData::new(feature_metadata, hash, Some(&self.current_state)))
            },
            DerivationState::InProgress => Err(DerivationError::DerivationInProgress),
        }
    }

    /// Makes `data` the current record, once it is stored.
    pub fn adopt_state(&mut self, data: DerivationData)
        ensures
            final(self).state_view() == data@,
            final(self).git() == old(self).git(),
            final(self).product() == old(self).product(),
    {
        self.current_state = data;
    }

    /// Goes on with the derivation in progress: the features still missing, in order, typed
    /// as features of the model; an error when no derivation is in progress or a missing
    /// feature is no feature of the model.
    pub fn continue_derivation(&self) -> (r: Result<Vec<NodePath<ConcreteFeature>>, DerivationError>)
        ensures
            state_of(self.state_view().state) == DerivationState::Idle ==> (r matches Err(
                DerivationError::NoDerivationInProgress,
            )),
            state_of(self.state_view().state) == DerivationState::InProgress ==> match r {
                Ok(v) => v@.len() == self.state_view().missing.len() && forall|i: int|
                    #![trigger v@[i]]
                    0 <= i < v@.len() ==> typed_at::<ConcreteFeature>(
                        self.git().model_view(),
                        path_segments(self.state_view().missing[i]),
                        v@[i]@,
                    ),
                Err(DerivationError::Model(_)) => exists|i: int|
                    #![trigger self.state_view().missing[i]]
                    0 <= i < self.state_view().missing.len() && !(lookup(
                        self.git().model_view(),
                        path_segments(self.state_view().missing[i]),
                    ) is Some && lookup(
                        self.git().model_view(),
                        path_segments(self.state_view().missing[i]),
                    ).unwrap().node_type == crate::model::node_type::NodeType::ConcreteFeature),
                Err(_) => false,
            },
    {
        match self.current_state.get_state() {
            DerivationState::InProgress => {
                let paths = FeatureMetadata::qualified_paths(&self.current_state.missing);
                let ghost fp = paths@;
                assert(fp.map_values(|p: QualifiedPath| p@).len() == fp.len());
                assert(feature_paths(self.state_view().missing).len() == self.state_view().missing.len());
                match self.git.get_model().assert_all::<ConcreteFeature>(&paths) {
                    Ok(features) => {
                        proof {
                            assert forall|i: int| 0 <= i < features@.len() implies typed_at::<ConcreteFeature>(
                                self.git().model_view(),
                                path_segments(self.state_view().missing[i]),
                                #[trigger] features@[i]@,
                            ) by {
                                assert(fp.map_values(|p: QualifiedPath| p@)[i] == fp[i]@);
                                assert(feature_paths(self.state_view().missing)[i] == path_segments(
                                    self.state_view().missing[i],
                                ));
                            }
                        }
                        Ok(features)
                    },
                    Err(e) => {
                        proof {
                            let i = choose|i: int|
                                #![trigger fp[i]]
                                0 <= i < fp.len() && !(lookup(self.git().model_view(), fp[i]@) is Some
                                    && ConcreteFeature::accepts(lookup(self.git().model_view(), fp[i]@).unwrap().node_type));
                            assert(fp.map_values(|p: QualifiedPath| p@)[i] == fp[i]@);
                            assert(feature_paths(self.state_view().missing)[i] == path_segments(
                                self.state_view().missing[i],
                            ));
                        }
                        Err(DerivationError::Model(e))
                    },
                }
            },
            DerivationState::Idle => Err(DerivationError::NoDerivationInProgress),
        }
    }

    /// Records that the features `merged` were merged, in order, and gives back the new record.
    pub fn record_merged(&mut self, merged: &Vec<NodePath<ConcreteFeature>>) -> (d: DerivationData)
        ensures
            final(self).state_view() == completed_all(
                old(self).state_view(),
                merged@.map_values(|p: NodePath<ConcreteFeature>| p@.0),
            ),
            d@ == final(self).state_view(),
            final(self).git() == old(self).git(),
            final(self).product() == old(self).product(),
    {
        let mut new_state = self.current_state.clone();
        let ghost ps = merged@.map_values(|p: NodePath<ConcreteFeature>| p@.0);
        let mut i: usize = 0;
        while i < merged.len()
            invariant
                i <= merged@.len(),
                ps == merged@.map_values(|p: NodePath<ConcreteFeature>| p@.0),
                new_state@ == completed_all(self.current_state@, ps.take(i as int)),
            decreases merged@.len() - i,
        {
            assert(ps.take(i + 1).drop_last() =~= ps.take(i as int));
            new_state.mark_as_completed(&merged[i].to_qualified_path());
            i = i + 1;
        }
        assert(ps.take(i as int) =~= ps);
        self.current_state = new_state;
        self.current_state.clone()
    }

    /// The message the derivation step is stored with: progress while the derivation is in
    /// progress, otherwise its end.
    pub fn progress_message(&self) -> (s: String)
        ensures
            state_of(self.state_view().state) == DerivationState::InProgress ==> s@ == "Derivation progress"@,
            state_of(self.state_view().state) == DerivationState::Idle ==> s@ == "Derivation finished"@,
    {
        match self.current_state.get_state() {
            DerivationState::InProgress => owned("Derivation progress"),
            DerivationState::Idle => owned("Derivation finished"),
        }
    }
}

/// The state of a derivation run as values: the features to merge, in order, how many of
/// them were merged, and whether a merge failed.
pub struct DerivationRunView {
    pub features: Seq<KeyView>,
    pub position: nat,
    pub stopped: bool,
}

/// A derivation run is consistent: no more features merged than there are, and a failed
/// merge stands at a feature of the run.
pub open spec fn run_wf(v: DerivationRunView) -> bool {
    &&& v.position <= v.features.len()
    &&& v.stopped ==> v.position < v.features.len()
}

/// The run after the outcome `r` of the merge of its next feature: one more feature merged
/// on a success, otherwise stopped.
pub open spec fn run_step(v: DerivationRunView, r: MergeResult) -> DerivationRunView {
    if r == MergeResult::Success {
        DerivationRunView { position: v.position + 1, ..v }
    } else {
        DerivationRunView { stopped: true, ..v }
    }
}

/// The run after the outcomes `rs` of its merges, in order.
pub open spec fn run_through(v: DerivationRunView, rs: Seq<MergeResult>) -> DerivationRunView
    decreases rs.len(),
{
    if rs.len() == 0 {
        v
    } else {
        run_step(run_through(v, rs.drop_last()), rs.last())
    }
}

/// A run merges its features in order until the first merge that does not succeed: when
/// every merge but the last one recorded succeeded, the merged features are those whose
/// merge succeeded, and the run is stopped exactly when the last merge failed.
pub proof fn law_run_merges_until_first_failure(features: Seq<KeyView>, rs: Seq<MergeResult>)
    requires
        rs.len() <= features.len(),
        forall|i: int| 0 <= i < rs.len() - 1 ==> #[trigger] rs[i] == MergeResult::Success,
    ensures
        ({
            let v = run_through(DerivationRunView { features, position: 0, stopped: false }, rs);
            &&& run_wf(v)
            &&& v.features == features
            &&& v.stopped == (rs.len() > 0 && rs.last() != MergeResult::Success)
            &&& v.position == if v.stopped { rs.len() - 1 } else { rs.len() as int }
        }),
    decreases rs.len(),
{
    if rs.len() > 0 {
        let prev = rs.drop_last();
        assert forall|i: int| 0 <= i < prev.len() - 1 implies #[trigger] prev[i] == MergeResult::Success by {
            assert(prev[i] == rs[i]);
        }
        law_run_merges_until_first_failure(features, prev);
        if prev.len() > 0 {
            assert(prev.last() == rs[prev.len() - 1]);
        }
    }
}

/// The run of one derivation step: the missing features are merged in order until a merge
/// fails; the merged ones are those before the first failure.
pub struct DerivationRun {
    features: Vec<NodePath<ConcreteFeature>>,
    position: usize,
    stopped: bool,
}

impl View for DerivationRun {
    type V = DerivationRunView;

    closed spec fn view(&self) -> DerivationRunView {
        DerivationRunView { features: keys_view(self.features@), position: self.position as nat, stopped: self.stopped }
    }
}

impl DerivationRun {
    /// The run over `features`, in order, with nothing merged yet.
    pub fn start(features: Vec<NodePath<ConcreteFeature>>) -> (r: Self)
        ensures
            run_wf(r@),
            r@.features == keys_view(features@),
            r@.position == 0,
            !r@.stopped,
    {
        DerivationRun { features, position: 0, stopped: false }
    }

    /// The next step: the merge of the next feature, or nothing once a merge failed or every
    /// feature was merged.
    pub fn next_step(&self) -> (s: ChainStep<ConcreteFeature>)
        requires
            run_wf(self@),
        ensures
            match s {
                ChainStep::Merge(p) => !self@.stopped && self@.position < self@.features.len() && p@
                    == self@.features[self@.position as int],
                ChainStep::Done => self@.stopped || self@.position == self@.features.len(),
            },
    {
        if !self.stopped && self.position < self.features.len() {
            ChainStep::Merge(self.features[self.position].clone())
        } else {
            ChainStep::Done
        }
    }

    /// Records the statistic of the merge the last step asked for; gives back whether it
    /// failed, in which case the merge is to be aborted and the run stops.
    pub fn record_merge(&mut self, stat: MergeStatistic<ConcreteFeature>) -> (abort: bool)
        requires
            run_wf(old(self)@),
            !old(self)@.stopped,
            old(self)@.position < old(self)@.features.len(),
            stat@.0 == old(self)@.features[old(self)@.position as int],
        ensures
            run_wf(final(self)@),
            final(self)@ == run_step(old(self)@, stat@.1),
            abort == (stat@.1 != MergeResult::Success),
            final(self)@.features == old(self)@.features,
            final(self)@.stopped == abort,
            !abort ==> final(self)@.position == old(self)@.position + 1,
            abort ==> final(self)@.position == old(self)@.position,
    {
        let abort = !(*stat.get_stat() == MergeResult::Success);
        let n = self.features.len();
        assert(keys_view(self.features@).len() == self.features@.len());
        assert(self.position < n);
        if abort {
            self.stopped = true;
        } else {
            self.position = self.position + 1;
        }
        abort
    }

    /// The features merged so far, in order: those before the first failed merge.
    pub fn finish(&self) -> (merged: Vec<NodePath<ConcreteFeature>>)
        requires
            run_wf(self@),
        ensures
            keys_view(merged@) == self@.features.take(self@.position as int),
    {
        let mut merged: Vec<NodePath<ConcreteFeature>> = Vec::new();
        let mut i: usize = 0;
        while i < self.position
            invariant
                i <= self.position <= self.features@.len(),
                keys_view(merged@) == keys_view(self.features@).take(i as int),
            decreases self.position - i,
        {
            let ghost before = merged@;
            let p = self.features[i].clone();
            merged.push(p);
            assert(merged@ == before.push(p));
            assert(keys_view(self.features@)[i as int] == self.features@[i as int]@);
            i = i + 1;
            assert(keys_view(merged@) =~= keys_view(self.features@).take(i as int)) by {
                assert(keys_view(merged@).len() == merged@.len());
                assert(keys_view(before).len() == before.len());
                assert(keys_view(self.features@).len() == self.features@.len());
                assert forall|k: int| 0 <= k < i implies keys_view(merged@)[k] == keys_view(self.features@)[k] by {
                    assert(keys_view(merged@)[k] == merged@[k]@);
                    if k < i - 1 {
                        assert(merged@[k] == before[k]);
                        assert(keys_view(before)[k] == before[k]@);
                        assert(keys_view(before)[k] == keys_view(self.features@).take(i - 1)[k]);
                    }
                }
            }
        }
        merged
    }
}

} // verus!
