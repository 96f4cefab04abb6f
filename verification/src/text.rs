//! Character-sequence utilities shared by the parsers and renderers.
//!
//! All text handling in this crate works over `Vec<char>`, whose view is the
//! same `Seq<char>` that `&str` and `String` views use, so contracts stated
//! over string views compose directly with these helpers.

use vstd::prelude::*;

verus! {

/// Turns a `&str` into the vector of its characters.
pub fn str_chars(s: &str) -> (r: Vec<char>)
    ensures
        r@ == s@,
{
    let n: usize = s.unicode_len();
    let mut r: Vec<char> = Vec::new();
    let mut i: usize = 0;
    while i < n
        invariant
            i <= n,
            n == s@.len(),
            r@ == s@.subrange(0, i as int),
        decreases n - i,
    {
        r.push(s.get_char(i));
        i = i + 1;
        proof {
            assert(r@ =~= s@.subrange(0, i as int));
        }
    }
    proof {
        assert(r@ =~= s@);
    }
    r
}

/// Collects a vector of characters back into a `String`.
///
/// Relies on `String`'s `FromIterator<char>`: the collected string holds
/// exactly the characters of the iterator, in order.
#[verifier::external_body]
pub fn chars_string(v: &Vec<char>) -> (r: String)
    ensures
        r@ == v@,
{
    v.iter().collect()
}

/// True when `pat` occurs in `s` starting at index `at`.
pub open spec fn matches_at(s: Seq<char>, pat: Seq<char>, at: int) -> bool {
    &&& 0 <= at
    &&& at + pat.len() <= s.len()
    &&& s.subrange(at, at + pat.len()) == pat
}

/// True when `pat` occurs somewhere in `s`.
pub open spec fn has_match(s: Seq<char>, pat: Seq<char>) -> bool {
    exists|i: int| matches_at(s, pat, i)
}

/// True when `pat` occurs somewhere at or after index `from`.
pub open spec fn has_match_from(s: Seq<char>, pat: Seq<char>, from: int) -> bool {
    exists|i: int| i >= from && matches_at(s, pat, i)
}

/// Finds the start of the last occurrence of `pat` in `s`.
pub fn rfind(s: &Vec<char>, pat: &Vec<char>) -> (r: Option<usize>)
    requires
        pat.len() >= 1,
    ensures
        match r {
            Some(i) => {
                &&& matches_at(s@, pat@, i as int)
                &&& forall|j: int| j > i ==> !matches_at(s@, pat@, j)
            },
            None => !has_match(s@, pat@),
        },
{
    if pat.len() > s.len() {
        return None;
    }
    let mut k: usize = s.len() - pat.len() + 1;
    while k > 0
        invariant
            k + pat.len() <= s.len() + 1,
            forall|j: int| j >= k ==> !matches_at(s@, pat@, j),
        decreases k,
    {
        k = k - 1;
        if matches_prefix_at(s, pat, k) {
            return Some(k);
        }
    }
    return None;
}

/// Finds the start of the first occurrence of `pat` in `s` at or after `from`.
pub fn find_from(s: &Vec<char>, pat: &Vec<char>, from: usize) -> (r: Option<usize>)
    requires
        pat.len() >= 1,
    ensures
        match r {
            Some(i) => {
                &&& i >= from
                &&& matches_at(s@, pat@, i as int)
                &&& forall|j: int| from <= j < i ==> !matches_at(s@, pat@, j)
            },
            None => !has_match_from(s@, pat@, from as int),
        },
{
    if pat.len() > s.len() {
        return None;
    }
    let mut k: usize = from;
    while k <= s.len() - pat.len()
        invariant
            k >= from,
            1 <= pat.len() <= s.len(),
            forall|j: int| from <= j < k ==> !matches_at(s@, pat@, j),
        decreases s.len() - k,
    {
        if matches_prefix_at(s, pat, k) {
            return Some(k);
        }
        k = k + 1;
    }
    return None;
}

/// Checks that `pat` occurs in `s` at exactly index `at`.
pub fn matches_prefix_at(s: &Vec<char>, pat: &Vec<char>, at: usize) -> (r: bool)
    requires
        at + pat.len() <= s.len(),
    ensures
        r == matches_at(s@, pat@, at as int),
{
    let mut i: usize = 0;
    while i < pat.len()
        invariant
            i <= pat.len(),
            at + pat.len() <= s.len(),
            forall|j: int| 0 <= j < i ==> s@[at + j] == pat@[j],
        decreases pat.len() - i,
    {
        if s[at + i] != pat[i] {
            assert(s@.subrange(at as int, at + pat.len())[i as int] != pat@[i as int]);
            return false;
        }
        i = i + 1;
    }
    proof {
        assert(s@.subrange(at as int, at + pat.len()) =~= pat@);
    }
    return true;
}

/// Extracts `s[from .. to]` as a fresh vector.
pub fn subrange(s: &Vec<char>, from: usize, to: usize) -> (r: Vec<char>)
    requires
        from <= to <= s.len(),
    ensures
        r@ == s@.subrange(from as int, to as int),
{
    let mut r: Vec<char> = Vec::new();
    let mut i: usize = from;
    while i < to
        invariant
            from <= i <= to <= s.len(),
            r@ == s@.subrange(from as int, i as int),
        decreases to - i,
    {
        r.push(s[i]);
        i = i + 1;
        proof {
            assert(r@ =~= s@.subrange(from as int, i as int));
        }
    }
    r
}

/// The whitespace characters that trimming removes.
pub open spec fn is_space(c: char) -> bool {
    c == ' ' || c == '\t' || c == '\r' || c == '\n'
}

/// Number of leading whitespace characters of `s`.
pub open spec fn leading_spaces(s: Seq<char>) -> int
    decreases s.len(),
{
    if s.len() > 0 && is_space(s[0]) {
        1 + leading_spaces(s.drop_first())
    } else {
        0
    }
}

/// Number of trailing whitespace characters of `s`.
pub open spec fn trailing_spaces(s: Seq<char>) -> int
    decreases s.len(),
{
    if s.len() > 0 && is_space(s.last()) {
        1 + trailing_spaces(s.drop_last())
    } else {
        0
    }
}

/// `s` with leading and trailing whitespace removed.
pub open spec fn spec_trim(s: Seq<char>) -> Seq<char> {
    if leading_spaces(s) == s.len() {
        Seq::empty()
    } else {
        s.subrange(leading_spaces(s), s.len() - trailing_spaces(s))
    }
}

proof fn lemma_leading_spaces(s: Seq<char>)
    ensures
        0 <= leading_spaces(s) <= s.len(),
        forall|j: int| 0 <= j < leading_spaces(s) ==> is_space(s[j]),
        leading_spaces(s) < s.len() ==> !is_space(s[leading_spaces(s)]),
    decreases s.len(),
{
    if s.len() > 0 && is_space(s[0]) {
        lemma_leading_spaces(s.drop_first());
        assert forall|j: int| 0 <= j < leading_spaces(s) implies is_space(s[j]) by {
            if j > 0 {
                assert(s.drop_first()[j - 1] == s[j]);
            }
        }
        if leading_spaces(s) < s.len() {
            assert(s.drop_first()[leading_spaces(s) - 1] == s[leading_spaces(s)]);
        }
    }
}

proof fn lemma_trailing_spaces(s: Seq<char>)
    ensures
        0 <= trailing_spaces(s) <= s.len(),
        forall|j: int| s.len() - trailing_spaces(s) <= j < s.len() ==> is_space(s[j]),
        trailing_spaces(s) < s.len() ==> !is_space(s[s.len() - trailing_spaces(s) - 1]),
    decreases s.len(),
{
    if s.len() > 0 && is_space(s.last()) {
        lemma_trailing_spaces(s.drop_last());
        assert forall|j: int| s.len() - trailing_spaces(s) <= j < s.len() implies is_space(
            s[j],
        ) by {
            if j < s.len() - 1 {
                assert(s.drop_last()[j] == s[j]);
            }
        }
        if trailing_spaces(s) < s.len() {
            assert(s.drop_last()[s.len() - trailing_spaces(s) - 1] == s[s.len() - trailing_spaces(
                s,
            ) - 1]);
        }
    }
}

/// Removes leading and trailing whitespace.
pub fn trim(s: &Vec<char>) -> (r: Vec<char>)
    ensures
        r@ == spec_trim(s@),
{
    proof {
        lemma_leading_spaces(s@);
        lemma_trailing_spaces(s@);
    }
    let mut lo: usize = 0;
    while lo < s.len() && is_space_c(s[lo])
        invariant
            lo <= s.len(),
            forall|j: int| 0 <= j < lo ==> is_space(s@[j]),
        decreases s.len() - lo,
    {
        lo = lo + 1;
    }
    if lo == s.len() {
        proof {
            if leading_spaces(s@) < s@.len() {
                assert(!is_space(s@[leading_spaces(s@)]));
            }
            assert(leading_spaces(s@) == s@.len());
        }
        return Vec::new();
    }
    let mut hi: usize = s.len();
    while hi > lo && is_space_c(s[hi - 1])
        invariant
            lo <= hi <= s.len(),
            lo < s.len(),
            !is_space(s@[lo as int]),
            forall|j: int| hi <= j < s.len() ==> is_space(s@[j]),
        decreases hi,
    {
        hi = hi - 1;
    }
    proof {
        // lo is exactly leading_spaces(s@): all before are spaces and s[lo] is not.
        if leading_spaces(s@) < lo {
            assert(is_space(s@[leading_spaces(s@)]));
        }
        assert(leading_spaces(s@) == lo);
        if trailing_spaces(s@) < s@.len() - hi {
            assert(is_space(s@[s@.len() - trailing_spaces(s@) - 1]));
        }
        if trailing_spaces(s@) > s@.len() - hi {
            assert(!is_space(s@[hi - 1]));
            assert(s@.len() - trailing_spaces(s@) <= hi - 1 < s@.len());
        }
        assert(trailing_spaces(s@) == s@.len() - hi);
    }
    subrange(s, lo, hi)
}

/// Exec counterpart of `is_space`.
pub fn is_space_c(c: char) -> (r: bool)
    ensures
        r == is_space(c),
{
    c == ' ' || c == '\t' || c == '\r' || c == '\n'
}

/// If every character of `s` is whitespace, trimming leaves nothing.
pub proof fn lemma_trim_all_space(s: Seq<char>)
    requires
        forall|j: int| 0 <= j < s.len() ==> is_space(#[trigger] s[j]),
    ensures
        spec_trim(s) == Seq::<char>::empty(),
{
    lemma_leading_spaces(s);
    if leading_spaces(s) < s.len() {
        assert(is_space(s[leading_spaces(s)]));
        assert(false);
    }
}

/// Trimming removes exactly the whitespace margins: if `s` is whitespace
/// outside `[lo, hi)` and non-whitespace at both ends of that range, the trim
/// of `s` is that range.
pub proof fn lemma_trim_exact(s: Seq<char>, lo: int, hi: int)
    requires
        0 <= lo < hi <= s.len(),
        forall|j: int| 0 <= j < lo ==> is_space(#[trigger] s[j]),
        forall|j: int| hi <= j < s.len() ==> is_space(#[trigger] s[j]),
        !is_space(s[lo]),
        !is_space(s[hi - 1]),
    ensures
        spec_trim(s) == s.subrange(lo, hi),
{
    lemma_leading_spaces(s);
    lemma_trailing_spaces(s);
    if leading_spaces(s) < lo {
        assert(is_space(s[leading_spaces(s)]));
    }
    if leading_spaces(s) > lo {
        assert(is_space(s[lo]));
    }
    assert(leading_spaces(s) == lo);
    if trailing_spaces(s) < s.len() - hi {
        assert(is_space(s[s.len() - trailing_spaces(s) - 1]));
    }
    if trailing_spaces(s) > s.len() - hi {
        assert(s.len() - trailing_spaces(s) <= hi - 1 < s.len());
        assert(is_space(s[hi - 1]));
    }
    assert(trailing_spaces(s) == s.len() - hi);
}

/// A nonempty trimmed sequence starts and ends with non-whitespace.
pub proof fn lemma_trimmed_ends(s: Seq<char>)
    requires
        spec_trim(s) == s,
        s.len() > 0,
    ensures
        !is_space(s[0]),
        !is_space(s.last()),
{
    lemma_leading_spaces(s);
    lemma_trailing_spaces(s);
    if leading_spaces(s) == s.len() {
        assert(spec_trim(s).len() == 0);
    } else {
        assert(spec_trim(s).len() == s.len() - trailing_spaces(s) - leading_spaces(s));
        assert(leading_spaces(s) == 0 && trailing_spaces(s) == 0);
        assert(!is_space(s[leading_spaces(s)]));
        assert(!is_space(s[s.len() - trailing_spaces(s) - 1]));
    }
}

/// True when `c` occurs in `s`.
pub open spec fn has_char(s: Seq<char>, c: char) -> bool {
    exists|i: int| 0 <= i < s.len() && s[i] == c
}

/// The views of a vector of character vectors.
pub open spec fn lines_view(r: Seq<Vec<char>>) -> Seq<Seq<char>> {
    r.map_values(|v: Vec<char>| v@)
}

/// The segments of `s` between occurrences of `sep`: splitting always yields
/// one more segment than there are separators, so the empty sequence splits
/// into one empty segment.
pub open spec fn spec_split(s: Seq<char>, sep: char) -> Seq<Seq<char>>
    decreases s.len(),
{
    if s.len() == 0 {
        seq![Seq::<char>::empty()]
    } else if s[0] == sep {
        seq![Seq::<char>::empty()] + spec_split(s.drop_first(), sep)
    } else {
        let rest = spec_split(s.drop_first(), sep);
        seq![seq![s[0]] + rest[0]] + rest.drop_first()
    }
}

pub proof fn lemma_split_len(s: Seq<char>, sep: char)
    ensures
        spec_split(s, sep).len() >= 1,
    decreases s.len(),
{
    if s.len() > 0 {
        lemma_split_len(s.drop_first(), sep);
    }
}

/// A separator-free sequence splits into itself alone.
pub proof fn lemma_split_no_sep(a: Seq<char>, sep: char)
    requires
        forall|i: int| 0 <= i < a.len() ==> #[trigger] a[i] != sep,
    ensures
        spec_split(a, sep) == seq![a],
    decreases a.len(),
{
    if a.len() == 0 {
        assert(spec_split(a, sep) =~~= seq![a]);
    } else {
        assert(forall|i: int|
            0 <= i < a.drop_first().len() ==> #[trigger] a.drop_first()[i] != sep);
        lemma_split_no_sep(a.drop_first(), sep);
        assert(seq![a[0]] + a.drop_first() =~= a);
        assert(spec_split(a, sep) =~~= seq![a]);
    }
}

/// Splitting at the first separator: a separator-free prefix becomes the
/// first segment and the rest splits on its own.
pub proof fn lemma_split_at_sep(a: Seq<char>, b: Seq<char>, sep: char)
    requires
        forall|i: int| 0 <= i < a.len() ==> #[trigger] a[i] != sep,
    ensures
        spec_split(a + seq![sep] + b, sep) == seq![a] + spec_split(b, sep),
    decreases a.len(),
{
    let s = a + seq![sep] + b;
    if a.len() == 0 {
        assert(s[0] == sep);
        assert(s.drop_first() =~= b);
        assert(spec_split(s, sep) =~~= seq![a] + spec_split(b, sep));
    } else {
        assert(s[0] == a[0]);
        assert(a[0] != sep);
        assert(s.drop_first() =~= a.drop_first() + seq![sep] + b);
        assert(forall|i: int|
            0 <= i < a.drop_first().len() ==> #[trigger] a.drop_first()[i] != sep);
        lemma_split_at_sep(a.drop_first(), b, sep);
        let rest = spec_split(s.drop_first(), sep);
        lemma_split_len(b, sep);
        assert(rest == seq![a.drop_first()] + spec_split(b, sep));
        assert(rest[0] == a.drop_first());
        assert(seq![s[0]] + rest[0] =~= a);
        assert(rest.drop_first() =~= spec_split(b, sep));
        assert(spec_split(s, sep) =~~= seq![a] + spec_split(b, sep));
    }
}

/// Splits `s` into the segments between occurrences of `sep`.
pub fn split_on(s: &Vec<char>, sep: char) -> (r: Vec<Vec<char>>)
    ensures
        lines_view(r@) == spec_split(s@, sep),
{
    let mut segs: Vec<Vec<char>> = Vec::new();
    let mut cur: Vec<char> = Vec::new();
    let ghost mut start: int = 0;
    let mut i: usize = 0;
    proof {
        assert(s@.subrange(0, s@.len() as int) =~= s@);
    }
    while i < s.len()
        invariant
            0 <= start <= i <= s.len(),
            cur@ == s@.subrange(start, i as int),
            forall|j: int| start <= j < i ==> #[trigger] s@[j] != sep,
            spec_split(s@, sep) == lines_view(segs@) + spec_split(
                s@.subrange(start, s@.len() as int),
                sep,
            ),
        decreases s.len() - i,
    {
        let c = s[i];
        if c == sep {
            proof {
                assert(s@.subrange(start, s@.len() as int) =~= cur@ + seq![sep] + s@.subrange(
                    i + 1,
                    s@.len() as int,
                ));
                lemma_split_at_sep(cur@, s@.subrange(i + 1, s@.len() as int), sep);
            }
            segs.push(cur);
            cur = Vec::new();
            proof {
                start = i + 1;
                assert(lines_view(segs@) =~= lines_view(segs@.drop_last()) + seq![
                    segs@.last()@,
                ]);
                assert(spec_split(s@, sep) =~= lines_view(segs@) + spec_split(
                    s@.subrange(start, s@.len() as int),
                    sep,
                ));
                assert(cur@ =~= s@.subrange(start, i + 1));
            }
        } else {
            cur.push(c);
            proof {
                assert(cur@ =~= s@.subrange(start, i + 1));
            }
        }
        i = i + 1;
    }
    proof {
        lemma_split_no_sep(s@.subrange(start, s@.len() as int), sep);
    }
    segs.push(cur);
    proof {
        assert(lines_view(segs@) =~= lines_view(segs@.drop_last()) + seq![segs@.last()@]);
        assert(lines_view(segs@) =~= spec_split(s@, sep));
    }
    segs
}

/// Position of the first occurrence of `c` in `s`, when one exists.
pub open spec fn first_char_pos(s: Seq<char>, c: char) -> int {
    choose|i: int|
        0 <= i < s.len() && s[i] == c && (forall|j: int| 0 <= j < i ==> s[j] != c)
}

/// Position of the last occurrence of `c` in `s`, when one exists.
pub open spec fn last_char_pos(s: Seq<char>, c: char) -> int {
    choose|i: int|
        0 <= i < s.len() && s[i] == c && (forall|j: int| i < j < s.len() ==> s[j] != c)
}

/// Position of the first occurrence of `pat` in `s`, when one exists.
pub open spec fn first_match_pos(s: Seq<char>, pat: Seq<char>) -> int {
    choose|i: int| matches_at(s, pat, i) && (forall|j: int| 0 <= j < i ==> !matches_at(s, pat, j))
}

/// A match position with a match-free prefix pins down `first_match_pos`.
pub proof fn lemma_first_match_pos(s: Seq<char>, pat: Seq<char>, i: int)
    requires
        matches_at(s, pat, i),
        forall|j: int| 0 <= j < i ==> !matches_at(s, pat, j),
    ensures
        has_match(s, pat),
        first_match_pos(s, pat) == i,
{
    assert(has_match(s, pat));
    let w = first_match_pos(s, pat);
    assert(matches_at(s, pat, w) && (forall|j: int| 0 <= j < w ==> !matches_at(s, pat, j))) by {
        assert(matches_at(s, pat, i) && (forall|j: int| 0 <= j < i ==> !matches_at(s, pat, j)));
    }
    if w < i {
        assert(!matches_at(s, pat, w));
    }
    if w > i {
        assert(!matches_at(s, pat, i));
    }
}

/// Position of the first occurrence of `pat` at or after `from`, when one
/// exists.
pub open spec fn first_match_from(s: Seq<char>, pat: Seq<char>, from: int) -> int {
    choose|i: int|
        i >= from && matches_at(s, pat, i) && (forall|j: int|
            from <= j < i ==> !matches_at(s, pat, j))
}

/// A match position with a match-free gap after `from` pins down
/// `first_match_from`.
pub proof fn lemma_first_match_from(s: Seq<char>, pat: Seq<char>, from: int, i: int)
    requires
        i >= from,
        matches_at(s, pat, i),
        forall|j: int| from <= j < i ==> !matches_at(s, pat, j),
    ensures
        has_match_from(s, pat, from),
        first_match_from(s, pat, from) == i,
{
    assert(has_match_from(s, pat, from));
    let w = first_match_from(s, pat, from);
    assert(w >= from && matches_at(s, pat, w) && (forall|j: int|
        from <= j < w ==> !matches_at(s, pat, j))) by {
        assert(i >= from && matches_at(s, pat, i) && (forall|j: int|
            from <= j < i ==> !matches_at(s, pat, j)));
    }
    if w < i {
        assert(!matches_at(s, pat, w));
    }
    if w > i {
        assert(!matches_at(s, pat, i));
    }
}

/// `s` without its trailing newlines.
pub open spec fn drop_trailing_nl(s: Seq<char>) -> Seq<char>
    decreases s.len(),
{
    if s.len() > 0 && s.last() == '\n' {
        drop_trailing_nl(s.drop_last())
    } else {
        s
    }
}

/// `s` without its leading newlines.
pub open spec fn drop_leading_nl(s: Seq<char>) -> Seq<char>
    decreases s.len(),
{
    if s.len() > 0 && s[0] == '\n' {
        drop_leading_nl(s.drop_first())
    } else {
        s
    }
}

/// Removes trailing newlines.
pub fn trim_end_nl(s: &Vec<char>) -> (r: Vec<char>)
    ensures
        r@ == drop_trailing_nl(s@),
{
    let mut hi: usize = s.len();
    proof {
        assert(s@.take(s@.len() as int) =~= s@);
    }
    while hi > 0 && s[hi - 1] == '\n'
        invariant
            hi <= s.len(),
            drop_trailing_nl(s@) == drop_trailing_nl(s@.take(hi as int)),
        decreases hi,
    {
        proof {
            assert(s@.take(hi as int).last() == s@[hi - 1]);
            assert(s@.take(hi as int).drop_last() =~= s@.take(hi as int - 1));
        }
        hi = hi - 1;
    }
    proof {
        if hi > 0 {
            assert(s@.take(hi as int).last() == s@[hi - 1]);
        }
        assert(drop_trailing_nl(s@.take(hi as int)) == s@.take(hi as int));
    }
    subrange(s, 0, hi)
}

/// Removes leading newlines.
pub fn trim_start_nl(s: &Vec<char>) -> (r: Vec<char>)
    ensures
        r@ == drop_leading_nl(s@),
{
    let mut lo: usize = 0;
    proof {
        assert(s@.skip(0) =~= s@);
    }
    while lo < s.len() && s[lo] == '\n'
        invariant
            lo <= s.len(),
            drop_leading_nl(s@) == drop_leading_nl(s@.skip(lo as int)),
        decreases s.len() - lo,
    {
        proof {
            assert(s@.skip(lo as int)[0] == s@[lo as int]);
            assert(s@.skip(lo as int).drop_first() =~= s@.skip(lo as int + 1));
        }
        lo = lo + 1;
    }
    proof {
        if lo < s.len() {
            assert(s@.skip(lo as int)[0] == s@[lo as int]);
        }
        assert(drop_leading_nl(s@.skip(lo as int)) == s@.skip(lo as int));
        assert(s@.subrange(lo as int, s@.len() as int) =~= s@.skip(lo as int));
    }
    subrange(s, lo, s.len())
}

/// Position of the last occurrence of `pat` in `s`, when one exists.
pub open spec fn last_match_pos(s: Seq<char>, pat: Seq<char>) -> int {
    choose|i: int| matches_at(s, pat, i) && (forall|j: int| j > i ==> !matches_at(s, pat, j))
}

/// A position whose prefix is `c`-free pins down `first_char_pos`.
pub proof fn lemma_first_char_pos(s: Seq<char>, c: char, i: int)
    requires
        0 <= i < s.len(),
        s[i] == c,
        forall|j: int| 0 <= j < i ==> s[j] != c,
    ensures
        has_char(s, c),
        first_char_pos(s, c) == i,
{
    assert(has_char(s, c));
    let w = first_char_pos(s, c);
    assert(0 <= w < s.len() && s[w] == c && (forall|j: int| 0 <= j < w ==> s[j] != c)) by {
        assert(0 <= i < s.len() && s[i] == c && (forall|j: int| 0 <= j < i ==> s[j] != c));
    }
    if w < i {
        assert(s[w] != c);
    }
    if w > i {
        assert(s[i] != c);
    }
}

/// A position whose suffix is `c`-free pins down `last_char_pos`.
pub proof fn lemma_last_char_pos(s: Seq<char>, c: char, i: int)
    requires
        0 <= i < s.len(),
        s[i] == c,
        forall|j: int| i < j < s.len() ==> s[j] != c,
    ensures
        has_char(s, c),
        last_char_pos(s, c) == i,
{
    assert(has_char(s, c));
    let w = last_char_pos(s, c);
    assert(0 <= w < s.len() && s[w] == c && (forall|j: int| w < j < s.len() ==> s[j] != c)) by {
        assert(0 <= i < s.len() && s[i] == c && (forall|j: int| i < j < s.len() ==> s[j] != c));
    }
    if w < i {
        assert(s[i] != c);
    }
    if w > i {
        assert(s[w] != c);
    }
}

/// A match position with no later match pins down `last_match_pos`.
pub proof fn lemma_last_match_pos(s: Seq<char>, pat: Seq<char>, i: int)
    requires
        matches_at(s, pat, i),
        forall|j: int| j > i ==> !matches_at(s, pat, j),
    ensures
        has_match(s, pat),
        last_match_pos(s, pat) == i,
{
    assert(has_match(s, pat));
    let w = last_match_pos(s, pat);
    assert(matches_at(s, pat, w) && (forall|j: int| j > w ==> !matches_at(s, pat, j))) by {
        assert(matches_at(s, pat, i) && (forall|j: int| j > i ==> !matches_at(s, pat, j)));
    }
    if w < i {
        assert(!matches_at(s, pat, i));
    }
    if w > i {
        assert(!matches_at(s, pat, w));
    }
}

/// Finds the first occurrence of the character `c` in `s`.
pub fn find_char(s: &Vec<char>, c: char) -> (r: Option<usize>)
    ensures
        match r {
            Some(i) => {
                &&& (i as int) < s@.len()
                &&& s@[i as int] == c
                &&& forall|j: int| 0 <= j < i ==> s@[j] != c
                &&& first_char_pos(s@, c) == i as int
            },
            None => !has_char(s@, c),
        },
{
    let mut i: usize = 0;
    while i < s.len()
        invariant
            i <= s.len(),
            forall|j: int| 0 <= j < i ==> s@[j] != c,
        decreases s.len() - i,
    {
        if s[i] == c {
            proof {
                lemma_first_char_pos(s@, c, i as int);
            }
            return Some(i);
        }
        i = i + 1;
    }
    return None;
}

/// Finds the last occurrence of the character `c` in `s`.
pub fn rfind_char(s: &Vec<char>, c: char) -> (r: Option<usize>)
    ensures
        match r {
            Some(i) => {
                &&& (i as int) < s@.len()
                &&& s@[i as int] == c
                &&& forall|j: int| i < j < s@.len() ==> s@[j] != c
                &&& last_char_pos(s@, c) == i as int
            },
            None => !has_char(s@, c),
        },
{
    let mut i: usize = s.len();
    while i > 0
        invariant
            i <= s.len(),
            forall|j: int| i <= j < s@.len() ==> s@[j] != c,
        decreases i,
    {
        i = i - 1;
        if s[i] == c {
            proof {
                lemma_last_char_pos(s@, c, i as int);
            }
            return Some(i);
        }
    }
    return None;
}

/// The part of a path after its last slash.
pub open spec fn base_name(path: Seq<char>) -> Seq<char> {
    if has_char(path, '/') {
        path.subrange(last_char_pos(path, '/') + 1, path.len() as int)
    } else {
        path
    }
}

/// The base name of a path without its extension: everything before the base
/// name's last dot.
pub open spec fn stem_of(path: Seq<char>) -> Seq<char> {
    let b = base_name(path);
    if has_char(b, '.') {
        b.subrange(0, last_char_pos(b, '.'))
    } else {
        b
    }
}

/// The directory part of a path: everything before its last slash, empty when
/// there is none.
pub open spec fn parent_of(path: Seq<char>) -> Seq<char> {
    if has_char(path, '/') {
        path.subrange(0, last_char_pos(path, '/'))
    } else {
        Seq::empty()
    }
}

/// The lines of a text, as line-based processing sees them: splitting on
/// newlines, without the empty segment a trailing newline would add.
pub open spec fn std_lines(s: Seq<char>) -> Seq<Seq<char>> {
    if s.len() == 0 {
        Seq::empty()
    } else if s.last() == '\n' {
        spec_split(s, '\n').drop_last()
    } else {
        spec_split(s, '\n')
    }
}

/// Splits a text into its lines, dropping the trailing empty segment of a
/// newline-terminated text.
pub fn split_std_lines(v: &Vec<char>) -> (r: Vec<Vec<char>>)
    ensures
        lines_view(r@) == std_lines(v@),
{
    if v.len() == 0 {
        let r: Vec<Vec<char>> = Vec::new();
        proof {
            assert(lines_view(r@) =~= std_lines(v@));
        }
        return r;
    }
    let mut segs = split_on(v, '\n');
    if v[v.len() - 1] == '\n' {
        proof {
            lemma_split_len(v@, '\n');
        }
        segs.pop();
        proof {
            assert(lines_view(segs@) =~= spec_split(v@, '\n').drop_last());
        }
    }
    segs
}

/// The lines joined with newline separators, with no trailing newline.
pub open spec fn join_lines(ls: Seq<Seq<char>>) -> Seq<char>
    decreases ls.len(),
{
    if ls.len() == 0 {
        Seq::empty()
    } else if ls.len() == 1 {
        ls[0]
    } else {
        ls[0] + seq!['\n'] + join_lines(ls.drop_first())
    }
}

pub proof fn lemma_join_lines_snoc(ls: Seq<Seq<char>>, l: Seq<char>)
    requires
        ls.len() > 0,
    ensures
        join_lines(ls.push(l)) == join_lines(ls) + seq!['\n'] + l,
    decreases ls.len(),
{
    if ls.len() == 1 {
        assert(ls.push(l)[0] == ls[0]);
        assert(ls.push(l).drop_first() =~= seq![l]);
        assert(join_lines(seq![l]) == l);
        assert(join_lines(ls.push(l)) =~= join_lines(ls) + seq!['\n'] + l);
    } else {
        assert(ls.push(l)[0] == ls[0]);
        assert(ls.push(l).drop_first() =~= ls.drop_first().push(l));
        lemma_join_lines_snoc(ls.drop_first(), l);
        assert(join_lines(ls.push(l)) =~= join_lines(ls) + seq!['\n'] + l);
    }
}

/// True when `p` is a prefix of `s`.
pub open spec fn spec_starts_with(s: Seq<char>, p: Seq<char>) -> bool {
    p.len() <= s.len() && s.take(p.len() as int) == p
}

/// Whether `p` is a prefix of `s`.
pub fn starts_with_c(s: &Vec<char>, p: &Vec<char>) -> (r: bool)
    ensures
        r == spec_starts_with(s@, p@),
{
    if p.len() > s.len() {
        return false;
    }
    let r = matches_prefix_at(s, p, 0);
    proof {
        assert(s@.take(p@.len() as int) =~= s@.subrange(0, p@.len() as int));
    }
    r
}

/// Whether `pat` occurs anywhere in `s`.
pub fn contains_c(s: &Vec<char>, pat: &Vec<char>) -> (r: bool)
    requires
        pat.len() >= 1,
    ensures
        r == has_match(s@, pat@),
{
    match find_from(s, pat, 0) {
        Some(_) => true,
        None => {
            proof {
                if has_match(s@, pat@) {
                    let w = choose|i: int| matches_at(s@, pat@, i);
                    assert(w >= 0 && matches_at(s@, pat@, w));
                }
            }
            false
        },
    }
}

/// Compares two character vectors for equality.
pub fn chars_eq(a: &Vec<char>, b: &Vec<char>) -> (r: bool)
    ensures
        r == (a@ == b@),
{
    if a.len() != b.len() {
        return false;
    }
    let mut i: usize = 0;
    while i < a.len()
        invariant
            i <= a.len(),
            a@.len() == b@.len(),
            forall|j: int| 0 <= j < i ==> a@[j] == b@[j],
        decreases a.len() - i,
    {
        if a[i] != b[i] {
            return false;
        }
        i = i + 1;
    }
    proof {
        assert(a@ =~= b@);
    }
    return true;
}

} // verus!
