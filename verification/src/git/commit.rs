//! Commits, and the metadata the library keeps in commit messages: a separator line, a
//! header that names the kind of metadata, and the serialized metadata after it.

use crate::model::node::CommitHash;
use crate::text::{
    contains_spec, contains_str, first_match, group_strs_view, lemma_first_match, lemma_match_in_part,
    lemma_no_match_anywhere, lemma_no_match_over, lemma_split_once, matches_at, owned, split_from,
    split_spec, split_str, strs_view,
};
use vstd::prelude::*;
use vstd::utf8::encode_utf8;

verus! {

broadcast use group_strs_view;

/// The line that opens a metadata section of a commit message.
pub const METADATA_SEPARATOR: &'static str = "---metadata---";

/// The commit message that carries the serialized metadata `json` under `header`.
pub open spec fn commit_message_spec(header: Seq<char>, json: Seq<char>) -> Seq<char> {
    METADATA_SEPARATOR@ + seq!['\n'] + header + seq!['\n'] + json
}

/// The part of `content` that holds the metadata under `header`: the piece between the
/// first and the second occurrence of the header, when the header occurs at all.
pub open spec fn metadata_part(header: Seq<char>, content: Seq<char>) -> Option<Seq<char>> {
    if !contains_spec(content, header) {
        None
    } else {
        Some(split_spec(content, header)[1])
    }
}

/// The metadata sections of a commit message: the pieces after each separator, none when
/// the separator does not occur.
pub open spec fn metadata_sections(message: Seq<char>) -> Seq<Seq<char>> {
    let pieces = split_spec(message, METADATA_SEPARATOR@);
    if pieces.len() > 1 {
        pieces.drop_first()
    } else {
        Seq::empty()
    }
}

/// Splitting from a position inside the string gives at least one piece.
pub proof fn lemma_split_from_nonempty(s: Seq<char>, pat: Seq<char>, start: int)
    requires
        pat.len() > 0,
        0 <= start <= s.len(),
    ensures
        split_from(s, pat, start).len() >= 1,
    decreases s.len() - start,
{
    let m = first_match(s, pat, start);
    lemma_first_match(s, pat, start);
    if !(m < start || m + pat.len() > s.len()) {
        lemma_split_from_nonempty(s, pat, m + pat.len());
    }
}

/// A string in which the pattern occurs splits into at least two pieces.
pub proof fn lemma_split_contains(s: Seq<char>, pat: Seq<char>)
    requires
        contains_spec(s, pat),
    ensures
        split_spec(s, pat).len() >= 2,
{
    if pat.len() > 0 {
        lemma_first_match(s, pat, 0);
        let m = first_match(s, pat, 0);
        lemma_split_from_nonempty(s, pat, m + pat.len());
    }
}

/// What is framed under a header is read back under it: for a non-empty header without line
/// breaks that does not occur in the separator, and metadata in which the header does not
/// occur, the part read from the framed message is the metadata after the line break that
/// ends the header.
pub proof fn law_metadata_part_round_trip(header: Seq<char>, json: Seq<char>)
    requires
        header.len() > 0,
        !header.contains('\n'),
        !contains_spec(METADATA_SEPARATOR@, header),
        !contains_spec(json, header),
    ensures
        metadata_part(header, commit_message_spec(header, json)) == Some(seq!['\n'] + json),
{
    reveal_strlit("---metadata---");
    let sep = METADATA_SEPARATOR@;
    assert(sep == "---metadata---"@);
    let l = sep.len() as int;
    let hl = header.len() as int;
    let full = commit_message_spec(header, json);
    lemma_no_match_anywhere(sep, header);
    lemma_no_match_anywhere(json, header);
    assert(full.subrange(0, l) =~= sep);
    assert(full.subrange(l + 1, l + 1 + hl) =~= header);
    assert(full.subrange(l + 2 + hl, full.len() as int) =~= json);
    assert(full[l] == '\n' && full[l + 1 + hl] == '\n');
    assert(matches_at(full, header, l + 1));
    assert forall|j: int| #![trigger matches_at(full, header, j)] 0 <= j && j != l + 1 implies !matches_at(
        full,
        header,
        j,
    ) by {
        if j + hl <= full.len() {
            if j + hl <= l {
                if matches_at(full, header, j) {
                    lemma_match_in_part(full, sep, 0, header, j);
                }
            } else if j <= l {
                lemma_no_match_over(full, header, '\n', l, j);
            } else if j <= l + 1 + hl {
                lemma_no_match_over(full, header, '\n', l + 1 + hl, j);
            } else {
                if matches_at(full, header, j) {
                    lemma_match_in_part(full, json, l + 2 + hl, header, j);
                }
            }
        }
    }
    lemma_split_once(full, header, l + 1);
    assert(full.subrange(l + 1 + hl, full.len() as int) =~= seq!['\n'] + json);
}

/// The commit message that carries the serialized metadata `json` under `header`.
pub fn to_commit_message(header: &str, json: &str) -> (s: String)
    ensures
        s@ == commit_message_spec(header@, json@),
{
    proof {
        reveal_strlit("\n");
    }
    let mut s = owned(METADATA_SEPARATOR);
    s.append("\n");
    s.append(header);
    s.append("\n");
    s.append(json);
    s
}

/// The part of `content` to deserialize as metadata under `header`, if the header occurs.
pub fn from_commit_message(header: &str, content: &str) -> (r: Option<String>)
    ensures
        match r {
            Some(s) => metadata_part(header@, content@) == Some(s@),
            None => metadata_part(header@, content@) is None,
        },
{
    if !contains_str(content, header) {
        None
    } else {
        let pieces = split_str(content, header);
        proof {
            lemma_split_contains(content@, header@);
        }
        Some(pieces[1].clone())
    }
}

/// Metadata that carries nothing.
pub struct Base {}

impl Base {
    /// The empty header.
    pub fn header() -> (h: String)
        ensures
            h@ == Seq::<char>::empty(),
    {
        String::new()
    }

    /// The empty serialization.
    pub fn to_json(&self) -> (s: String)
        ensures
            s@ == Seq::<char>::empty(),
    {
        String::new()
    }

    /// Reads the metadata from any content: there is nothing to read.
    pub fn from_json(_content: &str) -> (b: Base) {
        Base {  }
    }
}

/// A commit message that carries metadata.
pub struct CommitMetadataContainer {
    metadata: String,
}

impl View for CommitMetadataContainer {
    type V = Seq<char>;

    closed spec fn view(&self) -> Seq<char> {
        self.metadata@
    }
}

impl CommitMetadataContainer {
    /// The message that carries the serialized metadata `json` under `header`.
    pub fn new(header: &str, json: &str) -> (c: Self)
        ensures
            c@ == commit_message_spec(header@, json@),
    {
        CommitMetadataContainer { metadata: to_commit_message(header, json) }
    }

    /// The message.
    pub fn get_metadata(&self) -> (s: &String)
        ensures
            s@ == self@,
    {
        &self.metadata
    }
}

/// A commit: its hash and its message.
pub struct Commit {
    hash: CommitHash,
    message: String,
}

impl View for Commit {
    type V = (Seq<char>, Seq<char>);

    closed spec fn view(&self) -> (Seq<char>, Seq<char>) {
        (self.hash@, self.message@)
    }
}

impl Clone for Commit {
    fn clone(&self) -> (r: Self)
        ensures
            r@ == self@,
    {
        Commit { hash: self.hash.clone(), message: self.message.clone() }
    }
}

impl Commit {
    /// The commit with hash `hash` (at least eight bytes long) and message `message`.
    pub fn new(hash: String, message: String) -> (c: Self)
        requires
            encode_utf8(hash@).len() >= 8,
        ensures
            c@ == (hash@, message@),
    {
        Commit { hash: CommitHash::new(hash), message }
    }

    /// The hash.
    pub fn get_hash(&self) -> (h: &CommitHash)
        ensures
            h@ == self@.0,
    {
        &self.hash
    }

    /// The message.
    pub fn get_message(&self) -> (m: &String)
        ensures
            m@ == self@.1,
    {
        &self.message
    }

    /// The metadata sections of the message.
    pub fn get_metadata(&self) -> (v: Vec<String>)
        ensures
            strs_view(v@) == metadata_sections(self@.1),
    {
        let mut extracted = split_str(self.message.as_str(), METADATA_SEPARATOR);
        if extracted.len() > 1 {
            let ghost pieces = strs_view(extracted@);
            extracted.remove(0);
            assert(strs_view(extracted@) =~= pieces.drop_first());
            extracted
        } else {
            let v: Vec<String> = Vec::new();
            assert(strs_view(v@) =~= Seq::<Seq<char>>::empty());
            v
        }
    }

    /// Are both the same commit, that is, do they have the same hash?
    pub fn equals(&self, other: &Commit) -> (b: bool)
        ensures
            b == (self@.0 == other@.0),
    {
        other.hash.equals(&self.hash)
    }
}

/// One step of handing out hashes: the hash at the position, with the position moved on, or
/// nothing once every hash was handed out.
pub open spec fn iterator_step(v: (Seq<Seq<char>>, nat)) -> (Option<Seq<char>>, (Seq<Seq<char>>, nat)) {
    if v.1 < v.0.len() {
        (Some(v.0[v.1 as int]), (v.0, v.1 + 1))
    } else {
        (None, v)
    }
}

/// What `n` steps from `v` hand out, in turn.
pub open spec fn iterator_run(v: (Seq<Seq<char>>, nat), n: nat) -> Seq<Option<Seq<char>>>
    decreases n,
{
    if n == 0 {
        Seq::empty()
    } else {
        seq![iterator_step(v).0] + iterator_run(iterator_step(v).1, (n - 1) as nat)
    }
}

/// From position `p`, any number of steps hand out the hashes from `p` on, in order, and then
/// nothing.
pub proof fn lemma_iterator_run(hashes: Seq<Seq<char>>, p: nat, n: nat)
    requires
        p <= hashes.len(),
    ensures
        iterator_run((hashes, p), n).len() == n,
        forall|k: int|
            0 <= k < n ==> #[trigger] iterator_run((hashes, p), n)[k] == if p + k < hashes.len() {
                Some(hashes[p + k])
            } else {
                None::<Seq<char>>
            },
    decreases n,
{
    if n > 0 {
        let (h, w) = iterator_step((hashes, p));
        lemma_iterator_run(hashes, w.1, (n - 1) as nat);
        let rest = iterator_run(w, (n - 1) as nat);
        assert forall|k: int| 0 <= k < n implies #[trigger] iterator_run((hashes, p), n)[k] == if p + k
            < hashes.len() {
            Some(hashes[p + k])
        } else {
            None::<Seq<char>>
        } by {
            assert(iterator_run((hashes, p), n) == seq![h] + rest);
            if k > 0 {
                assert((seq![h] + rest)[k] == rest[k - 1]);
            }
        }
    }
}

/// A new iterator over `hashes` hands out every hash once, in order, and then nothing: the
/// `k`-th of any number of steps gives the `k`-th hash while there is one, and nothing after.
pub proof fn law_iterator_hands_out_in_order(hashes: Seq<Seq<char>>, n: nat)
    ensures
        iterator_run((hashes, 0nat), n).len() == n,
        forall|k: int|
            0 <= k < n ==> #[trigger] iterator_run((hashes, 0nat), n)[k] == if k < hashes.len() {
                Some(hashes[k])
            } else {
                None::<Seq<char>>
            },
{
    lemma_iterator_run(hashes, 0, n);
}

/// The hashes of a commit history and how many of them were handed out.
pub struct CommitIterator {
    hashes: Vec<String>,
    current_position: usize,
}

impl View for CommitIterator {
    type V = (Seq<Seq<char>>, nat);

    closed spec fn view(&self) -> (Seq<Seq<char>>, nat) {
        (strs_view(self.hashes@), self.current_position as nat)
    }
}

impl CommitIterator {
    /// No more hashes are handed out than there are.
    #[verifier::type_invariant]
    spec fn position_in_range(&self) -> bool {
        self.current_position <= self.hashes@.len()
    }

    /// An iterator over `hashes`, newest first.
    pub fn new(hashes: Vec<String>) -> (i: Self)
        ensures
            i@ == (strs_view(hashes@), 0nat),
    {
        CommitIterator { hashes, current_position: 0 }
    }

    /// The next hash whose commit is to be read, if any is left.
    pub fn next(&mut self) -> (h: Option<String>)
        ensures
            (match h {
                Some(s) => Some(s@),
                None => None::<Seq<char>>,
            }, final(self)@) == iterator_step(old(self)@),
            final(self)@.0 == old(self)@.0,
            final(self)@.1 <= final(self)@.0.len(),
            old(self)@.1 < old(self)@.0.len() ==> h is Some && h.unwrap()@ == old(self)@.0[old(self)@.1 as int]
                && final(self)@.1 == old(self)@.1 + 1,
            old(self)@.1 == old(self)@.0.len() ==> h is None && final(self)@.1 == old(self)@.1,
    {
        proof {
            use_type_invariant(&*self);
        }
        if self.current_position < self.hashes.len() {
            let hash = self.hashes[self.current_position].clone();
            self.current_position = self.current_position + 1;
            Some(hash)
        } else {
            None
        }
    }
}

} // verus!
