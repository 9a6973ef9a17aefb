//! The inspection of the derivation metadata of a product's commits: which record holds the
//! current state of its derivation.

use crate::git::commit::{commit_message_spec, metadata_part, metadata_sections, Commit, METADATA_SEPARATOR};
use crate::git::interface::GitInterface;
use crate::spl::derivation::{
    derivation_message_spec,
    features_view, is_uuid_string, started_derivation, DerivationData, DerivationMetadata,
    FeatureMetadata,
};
use crate::text::{
    contains_spec, group_strs_view, lemma_first_match, lemma_match_in_part, lemma_no_match_anywhere,
    lemma_no_match_over, lemma_split_once, matches_at, owned,
    strs_view,
};
use vstd::prelude::*;
use vstd::utf8::{encode_utf8, is_char_boundary};

verus! {

broadcast use group_strs_view;

/// The header of derivation metadata.
pub open spec fn derivation_header() -> Seq<char> {
    "---derivation-metadata---"@
}

/// For each metadata section that holds derivation metadata, the part to read it from.
pub open spec fn derivation_parts(sections: Seq<Seq<char>>) -> Seq<Seq<char>>
    decreases sections.len(),
{
    if sections.len() == 0 {
        Seq::empty()
    } else {
        let prev = derivation_parts(sections.drop_last());
        match metadata_part(derivation_header(), sections.last()) {
            Some(p) => prev.push(p),
            None => prev,
        }
    }
}

/// The separator and the header hold no line break, and the separator does not occur in the
/// header.
proof fn lemma_literals()
    ensures
        METADATA_SEPARATOR@.len() == 14,
        derivation_header().len() == 25,
        !METADATA_SEPARATOR@.contains('\n'),
        !derivation_header().contains('\n'),
        !contains_spec(derivation_header(), METADATA_SEPARATOR@),
{
    reveal_strlit("---metadata---");
    reveal_strlit("---derivation-metadata---");
    let sep = METADATA_SEPARATOR@;
    let h = derivation_header();
    assert(sep == "---metadata---"@);
    assert forall|i: int| 0 <= i < sep.len() implies sep[i] != '\n' by {}
    assert forall|i: int| 0 <= i < h.len() implies h[i] != '\n' by {}
    assert forall|j: int| 0 <= j implies !matches_at(h, sep, j) by {
        if matches_at(h, sep, j) {
            if j == 11 {
                assert(h.subrange(j, j + 14)[0] == h[11]);
            } else {
                assert(h.subrange(j, j + 14)[3] == h[j + 3]);
            }
        }
    }
    lemma_first_match(h, sep, 0);
}

/// What a derivation commit stores, the inspection reads back: the message of a derivation
/// step whose text and serialized metadata hold no metadata separator (and the metadata no
/// derivation header) has exactly one part of derivation metadata, the serialized metadata
/// after the line break that ends the header.
pub proof fn law_derivation_message_round_trip(message: Seq<char>, json: Seq<char>)
    requires
        !contains_spec(message, METADATA_SEPARATOR@),
        !contains_spec(json, METADATA_SEPARATOR@),
        !contains_spec(json, derivation_header()),
    ensures
        derivation_parts(
            metadata_sections(derivation_message_spec(message, commit_message_spec(derivation_header(), json))),
        ) == seq![seq!['\n'] + json],
{
    lemma_literals();
    let sep = METADATA_SEPARATOR@;
    let h = derivation_header();
    let nl = seq!['\n'];
    let a_part = message + seq!['\n', '\n'];
    let b_part = nl + h + nl + json;
    let full = derivation_message_spec(message, commit_message_spec(h, json));
    assert(full =~= a_part + sep + b_part);
    let a = a_part.len() as int;
    let ml = message.len() as int;
    lemma_no_match_anywhere(message, sep);
    lemma_no_match_anywhere(json, sep);
    lemma_no_match_anywhere(json, h);
    lemma_no_match_anywhere(h, sep);
    assert(full.subrange(a, a + 14) =~= sep);
    assert(full.subrange(0, ml) =~= message);
    assert(full.subrange(a + 15, a + 40) =~= h);
    assert(full.subrange(a + 41, full.len() as int) =~= json);
    assert(full[ml] == '\n' && full[ml + 1] == '\n' && full[a + 14] == '\n' && full[a + 40] == '\n');
    assert forall|j: int| #![trigger matches_at(full, sep, j)] 0 <= j && j != a implies !matches_at(full, sep, j) by {
        if j + 14 <= full.len() {
            if j < a {
                if j + 14 <= ml {
                    if matches_at(full, sep, j) {
                        lemma_match_in_part(full, message, 0, sep, j);
                    }
                } else if j <= ml {
                    lemma_no_match_over(full, sep, '\n', ml, j);
                } else {
                    lemma_no_match_over(full, sep, '\n', ml + 1, j);
                }
            } else if j <= a + 14 {
                lemma_no_match_over(full, sep, '\n', a + 14, j);
            } else if j + 14 <= a + 40 {
                if matches_at(full, sep, j) {
                    lemma_match_in_part(full, h, a + 15, sep, j);
                }
            } else if j <= a + 40 {
                lemma_no_match_over(full, sep, '\n', a + 40, j);
            } else {
                if matches_at(full, sep, j) {
                    lemma_match_in_part(full, json, a + 41, sep, j);
                }
            }
        }
    }
    lemma_split_once(full, sep, a);
    assert(full.subrange(a + 14, full.len() as int) =~= b_part);
    let sections = metadata_sections(full);
    assert(sections =~= seq![b_part]);
    assert(b_part.subrange(1, 26) =~= h);
    assert(b_part.subrange(27, b_part.len() as int) =~= json);
    assert(b_part[0] == '\n' && b_part[26] == '\n');
    assert forall|j: int| #![trigger matches_at(b_part, h, j)] 0 <= j && j != 1 implies !matches_at(b_part, h, j) by {
        if j + 25 <= b_part.len() {
            if j == 0 {
                lemma_no_match_over(b_part, h, '\n', 0, j);
            } else if j <= 26 {
                lemma_no_match_over(b_part, h, '\n', 26, j);
            } else {
                if matches_at(b_part, h, j) {
                    lemma_match_in_part(b_part, json, 27, h, j);
                }
            }
        }
    }
    lemma_split_once(b_part, h, 1);
    assert(b_part.subrange(26, b_part.len() as int) =~= nl + json);
    assert(metadata_part(h, b_part) == Some(nl + json));
    assert(sections.drop_last() =~= Seq::<Seq<char>>::empty());
    assert(derivation_parts(sections.drop_last()) =~= Seq::<Seq<char>>::empty());
}

/// What the inspection of a commit found: the current record, the commit the metadata points
/// to, where the search goes on, or an error message.
pub enum InspectionStep {
    Found(DerivationData),
    Follow(String),
    Failed(String),
}

/// Reads the derivation state of products from their commits.
pub struct InspectionManager<'a> {
    git: &'a GitInterface,
}

impl<'a> InspectionManager<'a> {
    /// An inspector of the repository behind `git`.
    pub fn new(git: &'a GitInterface) -> (m: Self)
        ensures
            m.git() == git,
    {
        Self { git }
    }

    /// The interface of the repository.
    pub closed spec fn git(&self) -> &'a GitInterface {
        self.git
    }

    /// The parts of the metadata sections of `commit` that hold derivation metadata, to be
    /// deserialized.
    pub fn derivation_sections(&self, commit: &Commit) -> (v: Vec<String>)
        ensures
            strs_view(v@) == derivation_parts(metadata_sections(commit@.1)),
    {
        let sections = commit.get_metadata();
        let header = DerivationMetadata::header();
        let ghost ss = strs_view(sections@);
        let mut v: Vec<String> = Vec::new();
        let mut i: usize = 0;
        while i < sections.len()
            invariant
                i <= sections@.len(),
                ss == strs_view(sections@),
                ss == metadata_sections(commit@.1),
                header@ == derivation_header(),
                strs_view(v@) == derivation_parts(ss.take(i as int)),
            decreases sections@.len() - i,
        {
            assert(ss.take(i + 1).drop_last() =~= ss.take(i as int));
            assert(ss[i as int] == sections@[i as int]@);
            match crate::git::commit::from_commit_message(header.as_str(), sections[i].as_str()) {
                Some(part) => {
                    v.push(part);
                },
                None => {},
            }
            i = i + 1;
        }
        assert(ss.take(i as int) =~= ss);
        v
    }

    /// The decision for `commit`, given the derivation metadata read from it: without
    /// metadata a new record starts at the commit; with one record that record is current;
    /// with a pointer the search goes on at the commit it points to; more than one is an error.
    pub fn inspect_commit(&self, commit: &Commit, metadata: Vec<DerivationMetadata>) -> (s: InspectionStep)
        requires
            metadata@.len() == 1 && metadata@[0]@.1 is None ==> metadata@[0]@.0 is Some,
            metadata@.len() > 1 ==> encode_utf8(commit@.0).len() >= 8 && is_char_boundary(encode_utf8(commit@.0), 8),
        ensures
            metadata@.len() == 0 ==> match s {
                InspectionStep::Found(d) => d@ == started_derivation(d@.id, Seq::empty(), commit@.0, None)
                    && is_uuid_string(d@.id),
                _ => false,
            },
            metadata@.len() == 1 && metadata@[0]@.1 is Some ==> match s {
                InspectionStep::Found(d) => Some(d@) == metadata@[0]@.1,
                _ => false,
            },
            metadata@.len() == 1 && metadata@[0]@.1 is None ==> match s {
                InspectionStep::Follow(p) => Some(p@) == metadata@[0]@.0,
                _ => false,
            },
            metadata@.len() > 1 ==> match s {
                InspectionStep::Failed(m) => exists|short: Seq<char>|
                    encode_utf8(short) == encode_utf8(commit@.0).subrange(0, 8) && m@ == "fatal: commit "@ + short
                        + " contains multiple derivation metadata"@,
                _ => false,
            },
    {
        let n = metadata.len();
        if n == 0 {
            let hash = commit.get_hash().get_full_hash().clone();
            let none: Vec<FeatureMetadata> = Vec::new();
            assert(features_view(none@) =~= Seq::<Seq<char>>::empty());
            InspectionStep::Found(DerivationData::new(none, hash, None))
        } else if n == 1 {
            let only = &metadata[0];
            match only.get_data() {
                Some(data) => InspectionStep::Found(data.clone()),
                None => {
                    let pointer = only.get_pointer().clone().unwrap();
                    InspectionStep::Follow(pointer)
                },
            }
        } else {
            let short = commit.get_hash().get_short_hash();
            let mut message = owned("fatal: commit ");
            message.append(short.as_str());
            message.append(" contains multiple derivation metadata");
            InspectionStep::Failed(message)
        }
    }
}

} // verus!
