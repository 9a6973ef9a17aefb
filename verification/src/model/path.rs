//! Qualified paths such as `/main/feature/root`, and their encoding as git branch names
//! (`_main/_feature/root`: every segment but the last carries a leading underscore).

use crate::text::{
    chars_of, first_match, group_strs_view, join_spec, join_strings, lemma_first_match, matches_at,
    split_from, split_spec, split_str, string_of, strs_view,
};
use vstd::prelude::*;

verus! {

broadcast use group_strs_view;

/// The segments of a path string: the pieces between slashes, empty pieces dropped.
pub open spec fn path_segments(s: Seq<char>) -> Seq<Seq<char>> {
    split_spec(s, seq!['/']).filter(|seg: Seq<char>| seg.len() > 0)
}

/// A segment with one leading underscore removed, if it has one.
pub open spec fn normalize_segment(seg: Seq<char>) -> Seq<char> {
    if seg.len() > 0 && seg[0] == '_' {
        seg.drop_first()
    } else {
        seg
    }
}

/// The segments of a path string or git branch name, with the underscores that mark
/// inner segments removed.
pub open spec fn normalized_segments(s: Seq<char>) -> Seq<Seq<char>> {
    path_segments(s).map_values(|seg: Seq<char>| normalize_segment(seg))
}

/// `/seg1/seg2/...`; the empty path is the empty string.
pub open spec fn path_string_spec(p: Seq<Seq<char>>) -> Seq<char>
    decreases p.len(),
{
    if p.len() == 0 {
        Seq::empty()
    } else {
        path_string_spec(p.drop_last()) + seq!['/'] + p.last()
    }
}

/// The segments as they appear in a git branch name: all but the last prefixed by `_`.
pub open spec fn git_segments(p: Seq<Seq<char>>) -> Seq<Seq<char>> {
    Seq::new(p.len(), |i: int| if i < p.len() - 1 { seq!['_'] + p[i] } else { p[i] })
}

/// The git branch name of a path: its git segments joined by `/`.
pub open spec fn git_branch_spec(p: Seq<Seq<char>>) -> Seq<char> {
    join_spec(git_segments(p), seq!['/'])
}

/// A segment that a path string can carry: not empty, without a slash.
pub open spec fn valid_segment(seg: Seq<char>) -> bool {
    seg.len() > 0 && !seg.contains('/')
}

/// A slash matches exactly where the string holds a slash.
proof fn lemma_slash_match(s: Seq<char>, i: int)
    requires
        0 <= i < s.len(),
    ensures
        matches_at(s, seq!['/'], i) <==> s[i] == '/',
{
    if s[i] == '/' {
        assert(s.subrange(i, i + 1) =~= seq!['/']);
    } else {
        assert(s.subrange(i, i + 1)[0] == s[i]);
    }
}

/// Splitting `a`, a slash and a piece without slashes at slashes gives the pieces of `a`
/// followed by that piece.
proof fn lemma_split_append(a: Seq<char>, x: Seq<char>, start: int)
    requires
        0 <= start <= a.len(),
        !x.contains('/'),
    ensures
        split_from(a + seq!['/'] + x, seq!['/'], start) == split_from(a, seq!['/'], start) + seq![x],
    decreases a.len() - start,
{
    let s = a + seq!['/'] + x;
    let pat = seq!['/'];
    lemma_first_match(s, pat, start);
    lemma_first_match(a, pat, start);
    let ms = first_match(s, pat, start);
    let ma = first_match(a, pat, start);
    assert forall|i: int| start <= i < a.len() implies (matches_at(s, pat, i) <==> matches_at(a, pat, i)) by {
        lemma_slash_match(s, i);
        lemma_slash_match(a, i);
        assert(s[i] == a[i]);
    }
    lemma_slash_match(s, a.len() as int);
    assert(s[a.len() as int] == '/');
    if ma >= start {
        assert(ms == ma) by {
            if ms == -1 || ms > ma {
                assert(!matches_at(s, pat, ma));
            } else if ms < ma {
                assert(matches_at(a, pat, ms));
            }
        }
        assert(s.subrange(start, ms) =~= a.subrange(start, ma));
        lemma_split_append(a, x, ma + 1);
        assert(split_from(s, pat, start) == seq![s.subrange(start, ms)] + split_from(s, pat, ms + 1));
        assert(split_from(a, pat, start) == seq![a.subrange(start, ma)] + split_from(a, pat, ma + 1));
        assert(seq![a.subrange(start, ma)] + (split_from(a, pat, ma + 1) + seq![x]) =~= (seq![
            a.subrange(start, ma),
        ] + split_from(a, pat, ma + 1)) + seq![x]);
    } else {
        assert(ms == a.len()) by {
            if ms == -1 || ms > a.len() {
                assert(!matches_at(s, pat, a.len() as int));
            } else if ms < a.len() {
                assert(matches_at(a, pat, ms));
            }
        }
        let rest: int = a.len() as int + 1;
        lemma_first_match(s, pat, rest);
        let mr = first_match(s, pat, rest);
        assert(mr == -1) by {
            if mr != -1 {
                lemma_slash_match(s, mr);
                assert(x[mr - rest] == s[mr]);
                assert(x.contains('/'));
            }
        }
        assert(s.subrange(rest, s.len() as int) =~= x);
        assert(s.subrange(start, ms) =~= a.subrange(start, a.len() as int));
        assert(split_from(s, pat, rest) == seq![x]);
    }
}

/// Without a segment the path string is empty; it splits into one empty piece.
proof fn lemma_split_path_string(p: Seq<Seq<char>>)
    requires
        forall|i: int| 0 <= i < p.len() ==> valid_segment(#[trigger] p[i]),
    ensures
        split_spec(path_string_spec(p), seq!['/']) == seq![Seq::<char>::empty()] + p,
    decreases p.len(),
{
    if p.len() == 0 {
        assert(path_string_spec(p) =~= Seq::<char>::empty());
        assert(split_spec(Seq::<char>::empty(), seq!['/']) == seq![Seq::<char>::empty().subrange(0, 0)]);
        assert(seq![Seq::<char>::empty()] + p =~= seq![Seq::<char>::empty()]);
        assert(Seq::<char>::empty().subrange(0, 0) =~= Seq::<char>::empty());
    } else {
        let d = p.drop_last();
        assert forall|i: int| 0 <= i < d.len() implies valid_segment(#[trigger] d[i]) by {
            assert(d[i] == p[i]);
        }
        lemma_split_path_string(d);
        assert(valid_segment(p[p.len() - 1]));
        lemma_split_append(path_string_spec(d), p.last(), 0);
        assert(seq![Seq::<char>::empty()] + d + seq![p.last()] =~= seq![Seq::<char>::empty()] + p);
    }
}

/// A path whose segments are valid comes back from its path string: the path string of a
/// path, split at its slashes with the empty pieces dropped, gives the path again.
pub proof fn law_path_string_round_trip(p: Seq<Seq<char>>)
    requires
        forall|i: int| 0 <= i < p.len() ==> valid_segment(#[trigger] p[i]),
    ensures
        path_segments(path_string_spec(p)) == p,
{
    lemma_split_path_string(p);
    let nonempty = |seg: Seq<char>| seg.len() > 0;
    let all = seq![Seq::<char>::empty()] + p;
    Seq::filter_distributes_over_add(seq![Seq::<char>::empty()], p, nonempty);
    reveal_with_fuel(Seq::filter, 2);
    assert(seq![Seq::<char>::empty()].filter(nonempty) =~= Seq::<Seq<char>>::empty());
    lemma_filter_keeps_all(p);
    assert(Seq::<Seq<char>>::empty() + p =~= p);
}

/// Keeping the non-empty segments of a path of valid segments keeps all of them.
proof fn lemma_filter_keeps_all(p: Seq<Seq<char>>)
    requires
        forall|i: int| 0 <= i < p.len() ==> valid_segment(#[trigger] p[i]),
    ensures
        p.filter(|seg: Seq<char>| seg.len() > 0) == p,
    decreases p.len(),
{
    reveal_with_fuel(Seq::filter, 1);
    if p.len() > 0 {
        let d = p.drop_last();
        assert forall|i: int| 0 <= i < d.len() implies valid_segment(#[trigger] d[i]) by {
            assert(d[i] == p[i]);
        }
        lemma_filter_keeps_all(d);
        assert(valid_segment(p[p.len() - 1]));
        assert(d.push(p.last()) =~= p);
    }
}

/// Joining pieces without slashes by slashes and splitting at the slashes gives the pieces.
proof fn lemma_split_join(xs: Seq<Seq<char>>)
    requires
        xs.len() > 0,
        forall|i: int| 0 <= i < xs.len() ==> !(#[trigger] xs[i]).contains('/'),
    ensures
        split_spec(join_spec(xs, seq!['/']), seq!['/']) == xs,
    decreases xs.len(),
{
    let pat = seq!['/'];
    if xs.len() == 1 {
        let x = xs[0];
        assert(join_spec(xs, pat) == x);
        lemma_first_match(x, pat, 0);
        let m = first_match(x, pat, 0);
        assert(m == -1) by {
            if m != -1 {
                lemma_slash_match(x, m);
                assert(x.contains('/'));
            }
        }
        assert(x.subrange(0, x.len() as int) =~= x);
        assert(split_spec(x, pat) =~= xs);
    } else {
        let d = xs.drop_last();
        assert forall|i: int| 0 <= i < d.len() implies !(#[trigger] d[i]).contains('/') by {
            assert(d[i] == xs[i]);
        }
        lemma_split_join(d);
        assert(!xs[xs.len() - 1].contains('/'));
        lemma_split_append(join_spec(d, pat), xs.last(), 0);
        assert(d + seq![xs.last()] =~= xs);
    }
}

/// A path whose segments are valid and whose last segment does not start with an underscore
/// comes back from its git branch name: normalizing the branch name gives the path again.
pub proof fn law_git_branch_round_trip(p: Seq<Seq<char>>)
    requires
        forall|i: int| 0 <= i < p.len() ==> valid_segment(#[trigger] p[i]),
        p.len() > 0 ==> p.last()[0] != '_',
    ensures
        normalized_segments(git_branch_spec(p)) == p,
{
    let g = git_segments(p);
    let nonempty = |seg: Seq<char>| seg.len() > 0;
    if p.len() == 0 {
        assert(join_spec(g, seq!['/']) =~= Seq::<char>::empty());
        assert(split_spec(Seq::<char>::empty(), seq!['/']) == seq![Seq::<char>::empty().subrange(0, 0)]);
        reveal_with_fuel(Seq::filter, 2);
        assert(seq![Seq::<char>::empty().subrange(0, 0)].filter(nonempty) =~= Seq::<Seq<char>>::empty());
        assert(normalized_segments(git_branch_spec(p)) =~= p);
    } else {
        assert forall|i: int| 0 <= i < g.len() implies !(#[trigger] g[i]).contains('/') && g[i].len() > 0 by {
            assert(valid_segment(p[i]));
            if i < p.len() - 1 {
                if g[i].contains('/') {
                    let k = choose|k: int| 0 <= k < g[i].len() && g[i][k] == '/';
                    assert(k > 0);
                    assert(g[i][k] == p[i][k - 1]);
                    assert(p[i].contains('/'));
                }
            }
        }
        lemma_split_join(g);
        assert forall|i: int| 0 <= i < g.len() implies valid_segment(#[trigger] g[i]) by {}
        lemma_filter_keeps_all(g);
        assert forall|i: int| 0 <= i < p.len() implies normalize_segment(#[trigger] g[i]) == p[i] by {
            if i < p.len() - 1 {
                assert((seq!['_'] + p[i]).drop_first() =~= p[i]);
            } else {
                assert(p[i] == p.last());
            }
        }
        assert(path_segments(git_branch_spec(p)) == g);
        assert(normalized_segments(git_branch_spec(p)) =~= p);
    }
}

/// A path of named segments from the root of the branch tree.
pub struct QualifiedPath {
    path: Vec<String>,
}

/// Paths are used in normalized form throughout; the name says which form a caller expects.
pub type NormalizedPath = QualifiedPath;

impl View for QualifiedPath {
    type V = Seq<Seq<char>>;

    closed spec fn view(&self) -> Seq<Seq<char>> {
        strs_view(self.path@)
    }
}

impl Clone for QualifiedPath {
    fn clone(&self) -> (r: Self)
        ensures
            r@ == self@,
    {
        let mut path: Vec<String> = Vec::new();
        let mut i: usize = 0;
        while i < self.path.len()
            invariant
                i <= self.path@.len(),
                strs_view(path@) == strs_view(self.path@).take(i as int),
            decreases self.path@.len() - i,
        {
            path.push(self.path[i].clone());
            i = i + 1;
            assert(strs_view(path@) =~= strs_view(self.path@).take(i as int));
        }
        assert(strs_view(self.path@).take(i as int) =~= strs_view(self.path@));
        QualifiedPath { path }
    }
}

/// Keeps the pieces that are not empty.
fn drop_empty(pieces: Vec<String>) -> (r: Vec<String>)
    ensures
        strs_view(r@) == strs_view(pieces@).filter(|seg: Seq<char>| seg.len() > 0),
{
    let mut r: Vec<String> = Vec::new();
    let mut i: usize = 0;
    while i < pieces.len()
        invariant
            i <= pieces@.len(),
            strs_view(r@) == strs_view(pieces@).take(i as int).filter(
                |seg: Seq<char>| seg.len() > 0,
            ),
        decreases pieces@.len() - i,
    {
        reveal_with_fuel(Seq::filter, 1);
        assert(strs_view(pieces@).take(i + 1).drop_last() =~= strs_view(pieces@).take(i as int));
        let ghost before = r@;
        if pieces[i].unicode_len() > 0 {
            r.push(pieces[i].clone());
            assert(strs_view(r@) =~= strs_view(before).push(pieces@[i as int]@));
        }
        i = i + 1;
    }
    assert(strs_view(pieces@).take(pieces@.len() as int) =~= strs_view(pieces@));
    r
}

/// Removes one leading underscore from `seg`.
fn normalize_segment_exec(seg: &String) -> (r: String)
    ensures
        r@ == normalize_segment(seg@),
{
    let v = chars_of(seg.as_str());
    if v.len() > 0 && v[0] == '_' {
        string_of(&v, 1, v.len())
    } else {
        seg.clone()
    }
}

impl QualifiedPath {
    /// The empty path.
    pub fn new() -> (p: Self)
        ensures
            p@ == Seq::<Seq<char>>::empty(),
    {
        let p = QualifiedPath { path: Vec::new() };
        assert(p@ =~= Seq::<Seq<char>>::empty());
        p
    }

    /// The path whose segments are the non-empty pieces of `s` between slashes.
    pub fn from_str(s: &str) -> (p: Self)
        ensures
            p@ == path_segments(s@),
    {
        proof {
            reveal_strlit("/");
        }
        let pieces = split_str(s, "/");
        assert("/"@ =~= seq!['/']);
        QualifiedPath { path: drop_empty(pieces) }
    }

    /// The path of a git branch name or path string, inner-segment underscores removed.
    pub fn to_normalized_path(s: &str) -> (p: Self)
        ensures
            p@ == normalized_segments(s@),
    {
        let raw = Self::from_str(s);
        let mut path: Vec<String> = Vec::new();
        let mut i: usize = 0;
        while i < raw.path.len()
            invariant
                raw@ == path_segments(s@),
                i <= raw.path@.len(),
                strs_view(path@) == raw@.take(i as int).map_values(
                    |seg: Seq<char>| normalize_segment(seg),
                ),
            decreases raw.path@.len() - i,
        {
            path.push(normalize_segment_exec(&raw.path[i]));
            i = i + 1;
            assert(strs_view(path@) =~= raw@.take(i as int).map_values(
                |seg: Seq<char>| normalize_segment(seg),
            ));
        }
        assert(raw@.take(i as int) =~= raw@);
        QualifiedPath { path }
    }

    /// The path made of the given segments.
    pub fn from_segments(segments: Vec<String>) -> (p: Self)
        ensures
            p@ == strs_view(segments@),
    {
        QualifiedPath { path: segments }
    }

    /// Appends a segment.
    pub fn push(&mut self, segment: String)
        ensures
            final(self)@ == old(self)@.push(segment@),
    {
        self.path.push(segment);
        assert(final(self)@ =~= old(self)@.push(segment@));
    }

    /// The number of segments.
    pub fn len(&self) -> (n: usize)
        ensures
            n == self@.len(),
    {
        self.path.len()
    }

    /// Is the path empty?
    pub fn is_empty(&self) -> (b: bool)
        ensures
            b == (self@.len() == 0),
    {
        self.path.len() == 0
    }

    /// The segment at `index`, if there is one.
    pub fn get(&self, index: usize) -> (seg: Option<&String>)
        ensures
            index < self@.len() ==> seg.is_some() && seg.unwrap()@ == self@[index as int],
            index >= self@.len() ==> seg.is_none(),
    {
        if index < self.path.len() {
            Some(&self.path[index])
        } else {
            None
        }
    }

    /// The last segment, if there is one.
    pub fn last(&self) -> (seg: Option<&String>)
        ensures
            self@.len() > 0 ==> seg.is_some() && seg.unwrap()@ == self@.last(),
            self@.len() == 0 ==> seg.is_none(),
    {
        if self.path.len() > 0 {
            Some(&self.path[self.path.len() - 1])
        } else {
            None
        }
    }

    /// The path without its first `n` segments.
    pub fn strip_n_left(&self, n: usize) -> (p: Self)
        ensures
            n <= self@.len() ==> p@ == self@.skip(n as int),
            n > self@.len() ==> p@.len() == 0,
    {
        let mut path: Vec<String> = Vec::new();
        let mut i: usize = n;
        while i < self.path.len()
            invariant
                n <= self@.len() ==> strs_view(path@) == self@.subrange(n as int, i as int),
                n > self@.len() ==> path@.len() == 0,
                n <= i,
                n <= self@.len() ==> i <= self@.len(),
            decreases self.path@.len() - i,
        {
            path.push(self.path[i].clone());
            i = i + 1;
            assert(strs_view(path@) =~= self@.subrange(n as int, i as int));
        }
        let p = QualifiedPath { path };
        assert(n <= self@.len() ==> p@ =~= self@.skip(n as int));
        p
    }

    /// The path without its last segment (the empty path stays empty).
    pub fn parent(&self) -> (p: Self)
        ensures
            self@.len() > 0 ==> p@ == self@.drop_last(),
            self@.len() == 0 ==> p@.len() == 0,
    {
        let mut path: Vec<String> = Vec::new();
        let mut i: usize = 0;
        while i < self.path.len() && i < self.path.len() - 1
            invariant
                i <= self@.len(),
                self@.len() > 0 ==> i < self@.len(),
                strs_view(path@) == self@.take(i as int),
            decreases self.path@.len() - i,
        {
            path.push(self.path[i].clone());
            i = i + 1;
            assert(strs_view(path@) =~= self@.take(i as int));
        }
        let p = QualifiedPath { path };
        assert(self@.len() > 0 ==> p@ =~= self@.drop_last());
        p
    }

    /// The concatenation of this path and `other`.
    pub fn concat(&self, other: &QualifiedPath) -> (p: Self)
        ensures
            p@ == self@ + other@,
    {
        let mut p = self.clone();
        let mut i: usize = 0;
        while i < other.path.len()
            invariant
                i <= other@.len(),
                p@ == self@ + other@.take(i as int),
            decreases other@.len() - i,
        {
            p.push(other.path[i].clone());
            i = i + 1;
            assert(p@ =~= self@ + other@.take(i as int));
        }
        assert(other@.take(i as int) =~= other@);
        p
    }

    /// Do both paths have the same segments?
    pub fn equals(&self, other: &QualifiedPath) -> (b: bool)
        ensures
            b == (self@ == other@),
    {
        if self.path.len() != other.path.len() {
            return false;
        }
        let mut i: usize = 0;
        while i < self.path.len()
            invariant
                self@.len() == other@.len(),
                i <= self@.len(),
                forall|k: int| 0 <= k < i ==> self@[k] == other@[k],
            decreases self@.len() - i,
        {
            if self.path[i] != other.path[i] {
                assert(self@[i as int] != other@[i as int]);
                return false;
            }
            i = i + 1;
        }
        assert(self@ =~= other@);
        true
    }

    /// The path as a string: `/seg1/seg2/...`.
    pub fn to_path_string(&self) -> (s: String)
        ensures
            s@ == path_string_spec(self@),
    {
        let mut s = String::new();
        let mut i: usize = 0;
        while i < self.path.len()
            invariant
                i <= self@.len(),
                s@ == path_string_spec(self@.take(i as int)),
            decreases self@.len() - i,
        {
            assert(self@.take(i + 1).drop_last() =~= self@.take(i as int));
            s.append("/");
            proof {
                reveal_strlit("/");
            }
            s.append(self.path[i].as_str());
            i = i + 1;
        }
        assert(self@.take(i as int) =~= self@);
        s
    }

    /// The git branch name of this path: segments joined by `/`, all but the last
    /// carrying a leading underscore.
    pub fn to_git_branch(&self) -> (s: String)
        ensures
            s@ == git_branch_spec(self@),
    {
        let mut segments: Vec<String> = Vec::new();
        let n = self.path.len();
        let mut i: usize = 0;
        while i < n
            invariant
                n == self@.len(),
                i <= n,
                strs_view(segments@) == git_segments(self@).take(i as int),
            decreases n - i,
        {
            if i + 1 < n {
                let mut seg = String::new();
                seg.append("_");
                proof {
                    reveal_strlit("_");
                }
                assert("_"@ =~= seq!['_']);
                seg.append(self.path[i].as_str());
                segments.push(seg);
            } else {
                segments.push(self.path[i].clone());
            }
            i = i + 1;
            assert(strs_view(segments@) =~= git_segments(self@).take(i as int));
        }
        assert(git_segments(self@).take(n as int) =~= git_segments(self@));
        proof {
            reveal_strlit("/");
        }
        let s = join_strings(&segments, "/");
        assert("/"@ =~= seq!['/']);
        s
    }
}

} // verus!
