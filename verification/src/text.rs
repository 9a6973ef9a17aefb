//! Character-level string operations with exact specifications over `Seq<char>`.

use vstd::prelude::*;

verus! {

/// The characters of a sequence of strings.
pub open spec fn strs_view(v: Seq<String>) -> Seq<Seq<char>> {
    v.map_values(|x: String| x@)
}

/// `strs_view` keeps the length.
pub broadcast proof fn lemma_strs_view_len(v: Seq<String>)
    ensures
        #[trigger] strs_view(v).len() == v.len(),
{
}

/// `strs_view` views each element.
pub broadcast proof fn lemma_strs_view_index(v: Seq<String>, i: int)
    requires
        0 <= i < v.len(),
    ensures
        #[trigger] strs_view(v)[i] == v[i]@,
{
}

/// `strs_view` of a push.
pub broadcast proof fn lemma_strs_view_push(v: Seq<String>, x: String)
    ensures
        #[trigger] strs_view(v.push(x)) == strs_view(v).push(x@),
{
    assert(strs_view(v.push(x)) =~= strs_view(v).push(x@));
}

/// The facts about `strs_view` that the library's proofs use.
pub broadcast group group_strs_view {
    lemma_strs_view_len,
    lemma_strs_view_index,
    lemma_strs_view_push,
}

/// Does `pat` occur in `s` at position `i`?
pub open spec fn matches_at(s: Seq<char>, pat: Seq<char>, i: int) -> bool {
    0 <= i && i + pat.len() <= s.len() && s.subrange(i, i + pat.len()) == pat
}

/// The first position at or after `from` where `pat` occurs in `s`, or -1.
pub open spec fn first_match(s: Seq<char>, pat: Seq<char>, from: int) -> int
    decreases s.len() + 1 - from,
{
    if from < 0 || from + pat.len() > s.len() {
        -1
    } else if matches_at(s, pat, from) {
        from
    } else {
        first_match(s, pat, from + 1)
    }
}

/// `pat` occurs somewhere in `s`.
pub open spec fn contains_spec(s: Seq<char>, pat: Seq<char>) -> bool {
    first_match(s, pat, 0) >= 0
}

/// The pieces of `s[start..]` between the leftmost non-overlapping occurrences of a
/// non-empty `pat`.
pub open spec fn split_from(s: Seq<char>, pat: Seq<char>, start: int) -> Seq<Seq<char>>
    recommends
        pat.len() > 0,
        0 <= start <= s.len(),
    decreases s.len() - start,
{
    if pat.len() == 0 || start < 0 || start > s.len() {
        seq![]
    } else {
        let m = first_match(s, pat, start);
        if m < start || m + pat.len() > s.len() {
            seq![s.subrange(start, s.len() as int)]
        } else {
            seq![s.subrange(start, m)] + split_from(s, pat, m + pat.len())
        }
    }
}

/// The pieces that `str::split` yields for `s` and `pat`: for an empty pattern an empty
/// piece, each character, and another empty piece.
pub open spec fn split_spec(s: Seq<char>, pat: Seq<char>) -> Seq<Seq<char>> {
    if pat.len() == 0 {
        seq![Seq::<char>::empty()] + Seq::new(s.len(), |i: int| seq![s[i]]) + seq![
            Seq::<char>::empty(),
        ]
    } else {
        split_from(s, pat, 0)
    }
}

/// `first_match` lies in range and really is a match, with no match before it.
pub proof fn lemma_first_match(s: Seq<char>, pat: Seq<char>, from: int)
    requires
        0 <= from,
    ensures
        first_match(s, pat, from) == -1 || (from <= first_match(s, pat, from) && matches_at(
            s,
            pat,
            first_match(s, pat, from),
        )),
        forall|j: int|
            from <= j && (first_match(s, pat, from) == -1 || j < first_match(s, pat, from))
                ==> !matches_at(s, pat, j),
    decreases s.len() + 1 - from,
{
    if from + pat.len() > s.len() {
    } else if matches_at(s, pat, from) {
    } else {
        lemma_first_match(s, pat, from + 1);
    }
}

/// A pattern without the character `c` matches at no position whose window holds `c`.
pub proof fn lemma_no_match_over(s: Seq<char>, pat: Seq<char>, c: char, k: int, i: int)
    requires
        !pat.contains(c),
        0 <= k < s.len(),
        s[k] == c,
        i <= k < i + pat.len(),
    ensures
        !matches_at(s, pat, i),
{
    if matches_at(s, pat, i) {
        assert(s.subrange(i, i + pat.len())[k - i] == s[k]);
        assert(pat[k - i] == c);
    }
}

/// A match inside a part of a string is a match in that part.
pub proof fn lemma_match_in_part(s: Seq<char>, x: Seq<char>, off: int, pat: Seq<char>, i: int)
    requires
        0 <= off,
        off + x.len() <= s.len(),
        s.subrange(off, off + x.len()) == x,
        off <= i,
        i + pat.len() <= off + x.len(),
        matches_at(s, pat, i),
    ensures
        matches_at(x, pat, i - off),
{
    assert(x.subrange(i - off, i - off + pat.len()) =~= s.subrange(i, i + pat.len()));
}

/// A pattern that matches nowhere in `x`.
pub proof fn lemma_no_match_anywhere(x: Seq<char>, pat: Seq<char>)
    requires
        !contains_spec(x, pat),
    ensures
        forall|j: int| #![trigger matches_at(x, pat, j)] 0 <= j ==> !matches_at(x, pat, j),
{
    lemma_first_match(x, pat, 0);
}

/// A string in which a non-empty pattern matches at `at` and nowhere else splits into the
/// piece before and the piece after that match.
pub proof fn lemma_split_once(s: Seq<char>, pat: Seq<char>, at: int)
    requires
        pat.len() > 0,
        matches_at(s, pat, at),
        forall|j: int| #![trigger matches_at(s, pat, j)] 0 <= j && j != at ==> !matches_at(s, pat, j),
    ensures
        split_spec(s, pat) == seq![s.subrange(0, at), s.subrange(at + pat.len(), s.len() as int)],
        contains_spec(s, pat),
{
    lemma_first_match(s, pat, 0);
    let m = first_match(s, pat, 0);
    assert(m == at) by {
        if m == -1 {
            assert(!matches_at(s, pat, at));
        }
    }
    let r = at + pat.len();
    lemma_first_match(s, pat, r);
    let m2 = first_match(s, pat, r);
    assert(m2 == -1) by {
        if m2 != -1 {
            assert(matches_at(s, pat, m2));
        }
    }
    assert(split_from(s, pat, r) == seq![s.subrange(r, s.len() as int)]);
}

/// Appends one character (`String::push`).
#[verifier::external_body]
pub(crate) fn push_char(s: &mut String, c: char)
    ensures
        final(s)@ == old(s)@.push(c),
{
    s.push(c);
}

/// The characters of a string slice.
pub fn chars_of(s: &str) -> (v: Vec<char>)
    ensures
        v@ == s@,
{
    let n = s.unicode_len();
    let mut v: Vec<char> = Vec::new();
    let mut i: usize = 0;
    while i < n
        invariant
            n == s@.len(),
            i <= n,
            v@ == s@.subrange(0, i as int),
        decreases n - i,
    {
        let c = s.get_char(i);
        v.push(c);
        i = i + 1;
    }
    v
}

/// The string made of `v[from..to]`.
pub fn string_of(v: &Vec<char>, from: usize, to: usize) -> (s: String)
    requires
        from <= to <= v@.len(),
    ensures
        s@ == v@.subrange(from as int, to as int),
{
    let mut s = String::new();
    let mut i = from;
    while i < to
        invariant
            from <= i <= to <= v@.len(),
            s@ == v@.subrange(from as int, i as int),
        decreases to - i,
    {
        push_char(&mut s, v[i]);
        i = i + 1;
    }
    s
}

/// Does `pat` occur in `s` at position `i`?
pub fn matches_at_exec(s: &Vec<char>, pat: &Vec<char>, i: usize) -> (b: bool)
    ensures
        b == matches_at(s@, pat@, i as int),
{
    let n = s.len();
    if i > n || pat.len() > n - i {
        return false;
    }
    let mut j: usize = 0;
    while j < pat.len()
        invariant
            n == s@.len(),
            i + pat@.len() <= s@.len(),
            j <= pat@.len(),
            forall|k: int| 0 <= k < j ==> s@[i + k] == pat@[k],
        decreases pat@.len() - j,
    {
        if s[i + j] != pat[j] {
            assert(s@.subrange(i as int, i + pat@.len())[j as int] != pat@[j as int]);
            return false;
        }
        j = j + 1;
    }
    assert(s@.subrange(i as int, i + pat@.len()) =~= pat@);
    true
}

/// Does `pat` occur in `s`?
pub fn contains_str(s: &str, pat: &str) -> (b: bool)
    ensures
        b == contains_spec(s@, pat@),
{
    let sv = chars_of(s);
    let pv = chars_of(pat);
    let mut i: usize = 0;
    while pv.len() <= sv.len() && i <= sv.len() - pv.len()
        invariant
            sv@ == s@,
            pv@ == pat@,
            first_match(sv@, pv@, 0) == first_match(sv@, pv@, i as int),
            i <= sv@.len(),
        decreases sv@.len() - i,
    {
        if matches_at_exec(&sv, &pv, i) {
            assert(first_match(sv@, pv@, i as int) == i);
            return true;
        }
        assert(pv@.len() > 0) by {
            if pv@.len() == 0 {
                assert(sv@.subrange(i as int, i as int) =~= pv@);
            }
        }
        i = i + 1;
    }
    assert(first_match(sv@, pv@, i as int) == -1);
    false
}

/// Splits `s` at every leftmost non-overlapping occurrence of `pat`, as `str::split` does.
pub fn split_str(s: &str, pat: &str) -> (pieces: Vec<String>)
    ensures
        strs_view(pieces@) == split_spec(s@, pat@),
        pieces@.len() >= 1,
{
    let sv = chars_of(s);
    let pv = chars_of(pat);
    let mut pieces: Vec<String> = Vec::new();
    if pv.len() == 0 {
        pieces.push(String::new());
        let mut i: usize = 0;
        while i < sv.len()
            invariant
                i <= sv@.len(),
                pieces@.len() == i + 1,
                pieces@[0]@ == Seq::<char>::empty(),
                forall|k: int| 0 <= k < i ==> #[trigger] pieces@[k + 1]@ == seq![sv@[k]],
            decreases sv@.len() - i,
        {
            let piece = string_of(&sv, i, i + 1);
            assert(piece@ =~= seq![sv@[i as int]]);
            pieces.push(piece);
            i = i + 1;
        }
        pieces.push(String::new());
        assert(strs_view(pieces@) =~= split_spec(s@, pat@)) by {
            assert forall|k: int| 0 <= k < sv@.len() implies strs_view(pieces@)[k + 1] == seq![
                sv@[k],
            ] by {
                assert(pieces@[k + 1]@ == seq![sv@[k]]);
            }
        }
        return pieces;
    }
    let mut start: usize = 0;
    let mut i: usize = 0;
    while pv.len() <= sv.len() && i <= sv.len() - pv.len()
        invariant
            pv@.len() > 0,
            start <= i <= sv@.len(),
            first_match(sv@, pv@, start as int) == first_match(sv@, pv@, i as int),
            strs_view(pieces@) + split_from(sv@, pv@, start as int) == split_from(sv@, pv@, 0),
        decreases sv@.len() - i,
    {
        if matches_at_exec(&sv, &pv, i) {
            let piece = string_of(&sv, start, i);
            let ghost old_pieces = pieces@;
            pieces.push(piece);
            assert(split_from(sv@, pv@, start as int) == seq![
                sv@.subrange(start as int, i as int),
            ] + split_from(sv@, pv@, i + pv@.len()));
            assert(strs_view(pieces@) =~= strs_view(old_pieces) + seq![
                sv@.subrange(start as int, i as int),
            ]);
            start = i + pv.len();
            i = start;
            assert(strs_view(pieces@) + split_from(sv@, pv@, start as int) =~= split_from(
                sv@,
                pv@,
                0,
            ));
        } else {
            i = i + 1;
        }
    }
    let piece = string_of(&sv, start, sv.len());
    let ghost old_pieces = pieces@;
    pieces.push(piece);
    assert(strs_view(pieces@) =~= strs_view(old_pieces) + seq![
        sv@.subrange(start as int, sv@.len() as int),
    ]);
    pieces
}

} // verus!

verus! {

/// `parts` joined with `sep` between consecutive parts.
pub open spec fn join_spec(parts: Seq<Seq<char>>, sep: Seq<char>) -> Seq<char>
    decreases parts.len(),
{
    if parts.len() == 0 {
        Seq::empty()
    } else if parts.len() == 1 {
        parts[0]
    } else {
        join_spec(parts.drop_last(), sep) + sep + parts.last()
    }
}

/// Joins `parts` with `sep` between consecutive parts.
pub fn join_strings(parts: &Vec<String>, sep: &str) -> (s: String)
    ensures
        s@ == join_spec(strs_view(parts@), sep@),
{
    let mut s = String::new();
    let mut i: usize = 0;
    while i < parts.len()
        invariant
            i <= parts@.len(),
            s@ == join_spec(strs_view(parts@).take(i as int), sep@),
        decreases parts@.len() - i,
    {
        assert(strs_view(parts@).take(i + 1).drop_last() =~= strs_view(parts@).take(i as int));
        if i > 0 {
            s.append(sep);
        }
        s.append(parts[i].as_str());
        i = i + 1;
    }
    assert(strs_view(parts@).take(parts@.len() as int) =~= strs_view(parts@));
    s
}

/// A character of the Unicode `White_Space` property, the whitespace that `str::trim` removes.
pub open spec fn is_whitespace_spec(c: char) -> bool {
    ||| ('\u{9}' <= c && c <= '\u{d}')
    ||| c == ' '
    ||| c == '\u{85}'
    ||| c == '\u{a0}'
    ||| c == '\u{1680}'
    ||| ('\u{2000}' <= c && c <= '\u{200a}')
    ||| c == '\u{2028}'
    ||| c == '\u{2029}'
    ||| c == '\u{202f}'
    ||| c == '\u{205f}'
    ||| c == '\u{3000}'
}

/// Is `c` whitespace in the sense of `char::is_whitespace`?
pub fn is_whitespace(c: char) -> (b: bool)
    ensures
        b == is_whitespace_spec(c),
{
    ('\u{9}' <= c && c <= '\u{d}') || c == ' ' || c == '\u{85}' || c == '\u{a0}' || c
        == '\u{1680}' || ('\u{2000}' <= c && c <= '\u{200a}') || c == '\u{2028}' || c == '\u{2029}'
        || c == '\u{202f}' || c == '\u{205f}' || c == '\u{3000}'
}

/// What `str::trim` gives back for `s`.
pub open spec fn trim_spec(s: Seq<char>) -> Seq<char> {
    let lo = leading_ws(s, 0);
    if lo == s.len() {
        Seq::empty()
    } else {
        s.subrange(lo, s.len() - trailing_ws(s, s.len() as int))
    }
}

/// Number of whitespace characters from position `i` on before the first other one.
pub open spec fn leading_ws(s: Seq<char>, i: int) -> int
    decreases s.len() - i,
{
    if i < 0 || i >= s.len() || !is_whitespace_spec(s[i]) {
        i
    } else {
        leading_ws(s, i + 1)
    }
}

/// Number of whitespace characters that end the prefix `s[..end]`.
pub open spec fn trailing_ws(s: Seq<char>, end: int) -> int
    decreases end,
{
    if end <= 0 || end > s.len() || !is_whitespace_spec(s[end - 1]) {
        0
    } else {
        1 + trailing_ws(s, end - 1)
    }
}

/// `s` without its leading and trailing whitespace (`str::trim`).
pub fn trim_string(s: &str) -> (t: String)
    ensures
        t@ == trim_spec(s@),
{
    let v = chars_of(s);
    let n = v.len();
    let mut lo: usize = 0;
    while lo < n && is_whitespace(v[lo])
        invariant
            v@ == s@,
            n == v@.len(),
            lo <= n,
            leading_ws(v@, 0) == leading_ws(v@, lo as int),
        decreases n - lo,
    {
        lo = lo + 1;
    }
    assert(leading_ws(v@, lo as int) == lo);
    if lo == n {
        return String::new();
    }
    let mut hi: usize = n;
    while hi > lo && is_whitespace(v[hi - 1])
        invariant
            v@ == s@,
            n == v@.len(),
            lo < n,
            lo < hi <= n,
            leading_ws(v@, 0) == lo,
            !is_whitespace_spec(v@[lo as int]),
            trailing_ws(v@, n as int) == (n - hi) + trailing_ws(v@, hi as int),
        decreases hi,
    {
        hi = hi - 1;
    }
    assert(trailing_ws(v@, hi as int) == 0);
    string_of(&v, lo, hi)
}

/// `s` with every occurrence of the character `c` removed.
pub open spec fn remove_char_spec(s: Seq<char>, c: char) -> Seq<char> {
    s.filter(|x: char| x != c)
}

/// `s` with every occurrence of the character `c` removed (`str::replace(c, "")`).
pub fn remove_char(s: &str, c: char) -> (t: String)
    ensures
        t@ == remove_char_spec(s@, c),
{
    let v = chars_of(s);
    let mut t = String::new();
    let mut i: usize = 0;
    while i < v.len()
        invariant
            v@ == s@,
            i <= v@.len(),
            t@ == remove_char_spec(v@.take(i as int), c),
        decreases v@.len() - i,
    {
        reveal_with_fuel(Seq::filter, 1);
        assert(v@.take(i + 1).drop_last() =~= v@.take(i as int));
        if v[i] != c {
            push_char(&mut t, v[i]);
        }
        i = i + 1;
    }
    assert(v@.take(v@.len() as int) =~= v@);
    t
}

} // verus!

verus! {

/// Do the two strings have the same characters?
pub fn str_eq(a: &str, b: &str) -> (r: bool)
    ensures
        r == (a@ == b@),
{
    let av = chars_of(a);
    let bv = chars_of(b);
    if av.len() != bv.len() {
        return false;
    }
    let mut i: usize = 0;
    while i < av.len()
        invariant
            av@ == a@,
            bv@ == b@,
            av@.len() == bv@.len(),
            i <= av@.len(),
            forall|k: int| 0 <= k < i ==> av@[k] == bv@[k],
        decreases av@.len() - i,
    {
        if av[i] != bv[i] {
            return false;
        }
        i = i + 1;
    }
    assert(av@ =~= bv@);
    true
}

/// A fresh string holding the characters of a string slice.
pub fn owned(s: &str) -> (r: String)
    ensures
        r@ == s@,
{
    s.to_owned()
}

} // verus!
