//! The reference resolver's computing core.  Scanning for references and
//! splicing resolved text back into the document are verified here; the
//! blocking work each reference needs — the environment lookup, the file
//! read and the formatter round-trip — is performed by the caller between
//! the scan and the splice, and its outcome is handed in as plain values.

use crate::reference::refs_spec;
use crate::reference::parse_ref_at;
use crate::reference::Reference;
use crate::reference::ReferenceV;
use crate::strings::lemma_run_end;
use crate::strings::match_at;
use crate::strings::matches_at;
use crate::strings::replace_all;
use crate::strings::replace_all_seq;
use crate::strings::run_end;
use vstd::prelude::*;
use vstd::string::StrSliceExecFns;
use vstd::string::StringExecFns;

verus! {

/// A character allowed in the name of an environment placeholder.
pub open spec fn is_env_char(c: char) -> bool {
    c == '_' || ('0' as u32 <= c as u32 && c as u32 <= '9' as u32) || ('A' as u32 <= c as u32
        && c as u32 <= 'Z' as u32)
}

/// The text that opens an environment placeholder.
pub open spec fn env_marker() -> Seq<char> {
    "env."@
}

/// The first position at or after `i` where an environment placeholder
/// starts: the marker text followed by at least one name character.
pub open spec fn env_match_from(s: Seq<char>, i: int) -> int
    decreases s.len() - i,
{
    if i < 0 || i + env_marker().len() >= s.len() {
        -1
    } else if matches_at(s, env_marker(), i) && is_env_char(s[i + env_marker().len()]) {
        i
    } else {
        env_match_from(s, i + 1)
    }
}

pub open spec fn env_run_end(s: Seq<char>, i: int) -> int {
    run_end(s, i, |c: char| is_env_char(c))
}

/// The first environment placeholder in `s`: its whole token and the
/// variable name it carries, the name being the maximal run of name
/// characters after the marker.
pub open spec fn env_placeholder_spec(s: Seq<char>) -> Option<(Seq<char>, Seq<char>)> {
    let f = env_match_from(s, 0);
    if f < 0 {
        None
    } else {
        let start = f + env_marker().len();
        let e = env_run_end(s, start);
        Some((s.subrange(f, e), s.subrange(start, e)))
    }
}

proof fn lemma_env_match_from(s: Seq<char>, i: int)
    requires
        0 <= i,
    ensures
        env_match_from(s, i) != -1 ==> {
            &&& i <= env_match_from(s, i)
            &&& env_match_from(s, i) + env_marker().len() < s.len()
            &&& matches_at(s, env_marker(), env_match_from(s, i))
            &&& is_env_char(s[env_match_from(s, i) + env_marker().len()])
        },
    decreases s.len() - i,
{
    if i < 0 || i + env_marker().len() >= s.len() {
    } else if matches_at(s, env_marker(), i) && is_env_char(s[i + env_marker().len()]) {
    } else {
        lemma_env_match_from(s, i + 1);
    }
}

fn env_char(c: char) -> (r: bool)
    ensures
        r == is_env_char(c),
{
    c == '_' || ('0' as u32 <= c as u32 && c as u32 <= '9' as u32) || ('A' as u32 <= c as u32
        && c as u32 <= 'Z' as u32)
}

fn env_run_to(s: &str, from: usize, n: usize) -> (r: usize)
    requires
        n == s@.len(),
        from <= n,
    ensures
        r == env_run_end(s@, from as int),
        from <= r <= n,
{
    let mut j = from;
    while j < n && env_char(s.get_char(j))
        invariant
            from <= j <= n,
            n == s@.len(),
            env_run_end(s@, from as int) == env_run_end(s@, j as int),
        decreases n - j,
    {
        j += 1;
    }
    proof {
        lemma_run_end(s@, j as int, |c: char| is_env_char(c));
    }
    j
}

/// The first environment placeholder of a path argument, as the pair of
/// its whole token (for replacement) and the variable name it references
/// (for lookup).  The caller resolves the name and replaces every
/// occurrence of the token with the variable's value.
pub fn env_placeholder(path: &str) -> (r: Option<(String, String)>)
    ensures
        match (r, env_placeholder_spec(path@)) {
            (Some(p), Some(q)) => p.0@ == q.0 && p.1@ == q.1 && p.0@.len() > 0,
            (None, None) => true,
            _ => false,
        },
{
    let n = path.unicode_len();
    let m = "env.".unicode_len();
    let mut i: usize = 0;
    loop
        invariant
            0 <= i,
            n == path@.len(),
            m == env_marker().len(),
            env_match_from(path@, 0) == env_match_from(path@, i as int),
        ensures
            match env_match_from(path@, 0) {
                f if f >= 0 => f == i && i + m < n,
                _ => i >= n || n - i <= m,
            },
        decreases n + 1 - i,
    {
        if i >= n || n - i <= m {
            assert(env_match_from(path@, i as int) == -1);
            break;
        }
        if match_at(path, "env.", i, m, n) && env_char(path.get_char(i + m)) {
            assert(env_match_from(path@, i as int) == i);
            break;
        }
        assert(env_match_from(path@, i as int) == env_match_from(path@, i + 1));
        i += 1;
    }
    if i >= n || n - i <= m {
        None
    } else {
        let start = i + m;
        let e = env_run_to(path, start, n);
        proof {
            lemma_env_match_from(path@, 0);
            assert(is_env_char(path@[start as int]));
            lemma_run_end(path@, start + 1, |c: char| is_env_char(c));
            assert(env_run_end(path@, start as int) == run_end(
                path@,
                start + 1,
                |c: char| is_env_char(c),
            ));
            lemma_run_end(path@, start as int, |c: char| is_env_char(c));
            assert(env_run_end(path@, start as int) > start);
        }
        let token = String::from_str(path.substring_char(i, e));
        let name = String::from_str(path.substring_char(start, e));
        Some((token, name))
    }
}

/// The document after splicing: each reference, in order, has every
/// occurrence of its exact text replaced by the output resolved for it; a
/// reference whose output is absent — its path did not exist, or its
/// environment variable was unset — is left in place.
pub open spec fn apply_refs(
    text: Seq<char>,
    refs: Seq<ReferenceV>,
    outs: Seq<Option<Seq<char>>>,
) -> Seq<char>
    decreases refs.len(),
{
    if refs.len() == 0 || outs.len() == 0 {
        text
    } else {
        let t1 = match outs[0] {
            Some(o) => if refs[0].full.len() > 0 {
                replace_all_seq(text, refs[0].full, o)
            } else {
                text
            },
            None => text,
        };
        apply_refs(t1, refs.drop_first(), outs.drop_first())
    }
}

/// Splice resolved outputs into the document: `outputs[k]` is the resolved
/// text for `refs[k]`, or absent when that reference is skipped.
pub fn resolve_references(
    text: &str,
    refs: &Vec<Reference>,
    outputs: &Vec<Option<String>>,
) -> (r: String)
    requires
        outputs.len() == refs.len(),
        forall|k: int| 0 <= k < refs.len() ==> (#[trigger] refs.deep_view()[k]).full.len() > 0,
    ensures
        r@ == apply_refs(text@, refs.deep_view(), outputs.deep_view()),
{
    let ghost rv = refs.deep_view();
    let ghost ov = outputs.deep_view();
    let mut cur = String::from_str(text);
    let mut k: usize = 0;
    proof {
        assert(rv.skip(0) =~= rv);
        assert(ov.skip(0) =~= ov);
    }
    while k < refs.len()
        invariant
            0 <= k <= refs.len(),
            refs.len() == outputs.len(),
            rv == refs.deep_view(),
            ov == outputs.deep_view(),
            rv.len() == refs.len(),
            ov.len() == outputs.len(),
            forall|j: int| 0 <= j < rv.len() ==> (#[trigger] rv[j]).full.len() > 0,
            apply_refs(text@, rv, ov) == apply_refs(cur@, rv.skip(k as int), ov.skip(k as int)),
        decreases refs.len() - k,
    {
        proof {
            assert(rv.skip(k as int).len() > 0);
            assert(rv.skip(k as int)[0] == rv[k as int]);
            assert(ov.skip(k as int)[0] == ov[k as int]);
            assert(rv.skip(k as int).drop_first() =~= rv.skip(k + 1));
            assert(ov.skip(k as int).drop_first() =~= ov.skip(k + 1));
        }
        match &outputs[k] {
            Some(o) => {
                cur = replace_all(cur.as_str(), refs[k].full.as_str(), o.as_str());
            },
            None => {},
        }
        k += 1;
    }
    proof {
        assert(rv.skip(refs.len() as int).len() == 0);
        assert(ov.skip(outputs.len() as int).len() == 0);
    }
    cur
}

/// Idempotence of resolution: a document in which no position parses as a
/// reference — in particular one whose references were already replaced by
/// literal text — is returned unchanged, whatever outputs are offered.
pub proof fn lemma_resolved_document_unchanged(text: Seq<char>, outs: Seq<Option<Seq<char>>>)
    requires
        forall|i: int| #[trigger] parse_ref_at(text, i) is None,
    ensures
        refs_spec(text).len() == 0,
        apply_refs(text, refs_spec(text), outs) == text,
{
    lemma_refs_from_none(text, 0);
}

proof fn lemma_refs_from_none(text: Seq<char>, i: int)
    requires
        forall|j: int| #[trigger] parse_ref_at(text, j) is None,
    ensures
        crate::reference::refs_from(text, i).len() == 0,
    decreases text.len() - i,
{
    if i < 0 || i >= text.len() {
    } else {
        assert(parse_ref_at(text, i) is None);
        lemma_refs_from_none(text, i + 1);
    }
}

} // verus!
