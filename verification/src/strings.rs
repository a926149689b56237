//! Character-level string utilities shared by the tokenizer and the
//! reference scanners: substring occurrence, first occurrence search, and
//! replacement of every occurrence of a pattern.

use vstd::prelude::*;
use vstd::string::StrSliceExecFns;
use vstd::string::StringExecFns;

verus! {

/// True when `pat` occurs in `s` starting exactly at index `i`.
pub open spec fn matches_at(s: Seq<char>, pat: Seq<char>, i: int) -> bool {
    0 <= i && i + pat.len() <= s.len() && s.subrange(i, i + pat.len()) == pat
}

/// True when `pat` occurs somewhere in `s`.
pub open spec fn contains_seq(s: Seq<char>, pat: Seq<char>) -> bool {
    exists|i: int| matches_at(s, pat, i)
}

/// Index of the first occurrence of `pat` in `s` at or after `from`,
/// or -1 when there is none there.  Patterns are always nonempty marker
/// or reference text, so the empty pattern is reported absent.
pub open spec fn first_match_from(s: Seq<char>, pat: Seq<char>, from: int) -> int
    decreases s.len() - from,
{
    if pat.len() <= 0 || from + pat.len() > s.len() {
        -1
    } else if matches_at(s, pat, from) {
        from
    } else {
        first_match_from(s, pat, from + 1)
    }
}

/// The first occurrence reported by `first_match_from` is an occurrence, is
/// the least one at or after `from`, and -1 means there is none there.
pub proof fn lemma_first_match_from(s: Seq<char>, pat: Seq<char>, from: int)
    requires
        0 <= from,
        pat.len() > 0,
    ensures
        first_match_from(s, pat, from) == -1 ==> forall|k: int|
            from <= k ==> !matches_at(s, pat, k),
        first_match_from(s, pat, from) != -1 ==> {
            &&& from <= first_match_from(s, pat, from)
            &&& matches_at(s, pat, first_match_from(s, pat, from))
            &&& forall|k: int|
                from <= k < first_match_from(s, pat, from) ==> !matches_at(s, pat, k)
        },
    decreases s.len() - from,
{
    if pat.len() <= 0 || from + pat.len() > s.len() {
        assert forall|k: int| from <= k implies !matches_at(s, pat, k) by {}
    } else if matches_at(s, pat, from) {
    } else {
        lemma_first_match_from(s, pat, from + 1);
    }
}

/// Exec check that `pat` occurs in `s` at index `i`.
pub(crate) fn match_at(s: &str, pat: &str, i: usize, m: usize, n: usize) -> (r: bool)
    requires
        m == pat@.len(),
        n == s@.len(),
        i + m <= n,
    ensures
        r == matches_at(s@, pat@, i as int),
{
    let mut j: usize = 0;
    while j < m
        invariant
            0 <= j <= m,
            m == pat@.len(),
            n == s@.len(),
            i + m <= n,
            forall|k: int| 0 <= k < j ==> s@[i + k] == pat@[k],
        decreases m - j,
    {
        if s.get_char(i + j) != pat.get_char(j) {
            assert(s@.subrange(i as int, i + m) != pat@) by {
                assert(s@.subrange(i as int, i + m)[j as int] != pat@[j as int]);
            }
            return false;
        }
        j += 1;
    }
    assert(s@.subrange(i as int, i + m) =~= pat@);
    true
}

/// Exec check of `matches_at` that also handles positions too close to
/// the end of the text.
pub(crate) fn try_match_at(s: &str, pat: &str, i: usize, m: usize, n: usize) -> (r: bool)
    requires
        m == pat@.len(),
        n == s@.len(),
        i <= n,
    ensures
        r == matches_at(s@, pat@, i as int),
{
    if m > n - i {
        return false;
    }
    match_at(s, pat, i, m, n)
}

/// Index of the first occurrence of `pat` in `s` at or after `from`,
/// or `None` when there is none.
pub fn find_from(s: &str, pat: &str, from: usize) -> (r: Option<usize>)
    requires
        pat@.len() > 0,
    ensures
        match r {
            Some(i) => i == first_match_from(s@, pat@, from as int),
            None => first_match_from(s@, pat@, from as int) == -1,
        },
{
    let n = s.unicode_len();
    let m = pat.unicode_len();
    if from > n {
        return None;
    }
    let mut i: usize = from;
    loop
        invariant
            from <= i <= n + 1,
            n == s@.len(),
            m == pat@.len(),
            m > 0,
            first_match_from(s@, pat@, from as int) == first_match_from(s@, pat@, i as int),
        ensures
            match first_match_from(s@, pat@, from as int) {
                f if f >= 0 => i == f && matches_at(s@, pat@, i as int),
                _ => i > n || m > n - i,
            },
        decreases n + 1 - i,
    {
        if i > n || m > n - i {
            assert(first_match_from(s@, pat@, i as int) == -1);
            break;
        }
        if match_at(s, pat, i, m, n) {
            assert(first_match_from(s@, pat@, i as int) == i);
            break;
        }
        assert(first_match_from(s@, pat@, i as int) == first_match_from(s@, pat@, i + 1));
        i += 1;
    }
    if i > n || m > n - i {
        None
    } else {
        Some(i)
    }
}

/// True when `pat` occurs somewhere in `s`.
pub fn contains_pat(s: &str, pat: &str) -> (r: bool)
    requires
        pat@.len() > 0,
    ensures
        r == contains_seq(s@, pat@),
{
    let r = find_from(s, pat, 0);
    proof {
        lemma_first_match_from(s@, pat@, 0);
        if contains_seq(s@, pat@) {
            let i = choose|i: int| matches_at(s@, pat@, i);
            assert(matches_at(s@, pat@, i));
            assert(first_match_from(s@, pat@, 0) != -1);
        }
    }
    r.is_some()
}

/// The end of the maximal run of characters satisfying `pred` that starts
/// at `i`.
pub open spec fn run_end(s: Seq<char>, i: int, pred: spec_fn(char) -> bool) -> int
    decreases s.len() - i,
{
    if i < 0 || i >= s.len() {
        i
    } else if pred(s[i]) {
        run_end(s, i + 1, pred)
    } else {
        i
    }
}

/// Bounds and content of a maximal run.
pub proof fn lemma_run_end(s: Seq<char>, i: int, pred: spec_fn(char) -> bool)
    requires
        0 <= i <= s.len(),
    ensures
        i <= run_end(s, i, pred) <= s.len(),
        forall|k: int| i <= k < run_end(s, i, pred) ==> pred(s[k]),
        run_end(s, i, pred) < s.len() ==> !pred(s[run_end(s, i, pred)]),
    decreases s.len() - i,
{
    if i < s.len() && pred(s[i]) {
        lemma_run_end(s, i + 1, pred);
    }
}

/// `s` with every occurrence of `pat`, found left to right without overlap,
/// replaced by `to`.
pub open spec fn replace_all_seq(s: Seq<char>, pat: Seq<char>, to: Seq<char>) -> Seq<char>
    decreases s.len(),
    when pat.len() > 0
{
    let f = first_match_from(s, pat, 0);
    if f < 0 {
        s
    } else {
        proof {
            lemma_first_match_from(s, pat, 0);
        }
        s.take(f) + to + replace_all_seq(s.skip(f + pat.len()), pat, to)
    }
}

/// Replace every occurrence of `pat` in `s` by `to`, left to right,
/// without overlap.
pub fn replace_all(s: &str, pat: &str, to: &str) -> (r: String)
    requires
        pat@.len() > 0,
    ensures
        r@ == replace_all_seq(s@, pat@, to@),
    decreases s@.len(),
{
    let n = s.unicode_len();
    let m = pat.unicode_len();
    match find_from(s, pat, 0) {
        None => String::from_str(s),
        Some(f) => {
            proof {
                lemma_first_match_from(s@, pat@, 0);
            }
            let head = s.substring_char(0, f);
            let tail = s.substring_char(f + m, n);
            let rest = replace_all(tail, pat, to);
            let mut res = String::from_str(head);
            res.append(to);
            res.append(rest.as_str());
            assert(s@.take(f as int) =~= head@);
            assert(s@.skip(f + pat@.len()) =~= tail@);
            res
        },
    }
}

} // verus!
