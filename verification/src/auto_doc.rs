//! The documentation-link preprocessor's computing core: an inline code
//! span is normalized into a lookup key, searched in the table of known
//! terms, and — when found — turned into a documentation link.  The caller
//! supplies the table, read from its configuration file, and performs the
//! markdown event splicing around the found links.

use crate::strings::first_match_from;
use crate::strings::lemma_first_match_from;
use crate::strings::matches_at;
use crate::strings::replace_all;
use crate::strings::replace_all_seq;
use crate::strings::try_match_at;
use vstd::prelude::*;
use vstd::string::StrSliceExecFns;
use vstd::string::StringExecFns;

verus! {

/// The documentation-link preprocessor.
pub struct AutoDoc;

impl AutoDoc {
    /// The name under which the preprocessor is configured.
    pub fn name(&self) -> (r: &'static str)
        ensures
            r@ == "auto_doc"@,
    {
        "auto_doc"
    }

    /// Every renderer is supported.
    pub fn supports_renderer(&self, renderer: &str) -> (r: bool)
        ensures
            r,
    {
        let _ = renderer;
        true
    }
}

/// One known term: a name to recognize in inline code, and where its
/// documentation lives.
pub struct Term {
    pub term: String,
    pub path: String,
    pub file: String,
    pub name: String,
    pub id: i64,
}

/// The mathematical counterpart of `Term`.
pub struct TermV {
    pub term: Seq<char>,
    pub path: Seq<char>,
    pub file: Seq<char>,
    pub name: Seq<char>,
    pub id: int,
}

impl View for Term {
    type V = TermV;

    open spec fn view(&self) -> TermV {
        TermV {
            term: self.term@,
            path: self.path@,
            file: self.file@,
            name: self.name@,
            id: self.id as int,
        }
    }
}

impl DeepView for Term {
    type V = TermV;

    open spec fn deep_view(&self) -> TermV {
        self.view()
    }
}

impl Clone for Term {
    fn clone(&self) -> (r: Term)
        ensures
            r@ == self@,
    {
        Term {
            term: self.term.clone(),
            path: self.path.clone(),
            file: self.file.clone(),
            name: self.name.clone(),
            id: self.id,
        }
    }
}

/// The largest position below `hi` where `pat` occurs in `s`, or -1.
pub open spec fn last_match_before(s: Seq<char>, pat: Seq<char>, hi: int) -> int
    decreases hi,
{
    if hi <= 0 {
        -1
    } else if matches_at(s, pat, hi - 1) {
        hi - 1
    } else {
        last_match_before(s, pat, hi - 1)
    }
}

/// The last occurrence reported by `last_match_before` is an occurrence
/// below `hi`.
pub proof fn lemma_last_match_before(s: Seq<char>, pat: Seq<char>, hi: int)
    ensures
        last_match_before(s, pat, hi) != -1 ==> {
            &&& 0 <= last_match_before(s, pat, hi) < hi
            &&& matches_at(s, pat, last_match_before(s, pat, hi))
        },
    decreases hi,
{
    if hi <= 0 {
    } else if matches_at(s, pat, hi - 1) {
    } else {
        lemma_last_match_before(s, pat, hi - 1);
    }
}

/// The lookup key of an inline code span: quotes are stripped, and the
/// parenthesized argument list — everything from the first `(` through the
/// last `)` — collapses to `()`.  Code spans carry no line breaks, so the
/// whole span is one segment.
pub open spec fn normalize_key_spec(text: Seq<char>) -> Seq<char> {
    let d = replace_all_seq(text, "\""@, ""@);
    let f = first_match_from(d, "("@, 0);
    let j = last_match_before(d, ")"@, d.len() as int);
    if f >= 0 && j > f {
        d.take(f) + "()"@ + d.skip(j + 1)
    } else {
        d
    }
}

/// The term registered under `key`, the latest registration winning, as it
/// does when the table is loaded name-over-name.
pub open spec fn lookup_term_spec(config: Seq<TermV>, key: Seq<char>) -> Option<TermV>
    decreases config.len(),
{
    if config.len() == 0 {
        None
    } else if config.last().term == key {
        Some(config.last())
    } else {
        lookup_term_spec(config.drop_last(), key)
    }
}

/// The term an inline code span refers to: its normalized key is looked
/// up, and failing that, the key with `()` appended.
pub open spec fn doc_term_spec(config: Seq<TermV>, text: Seq<char>) -> Option<TermV> {
    let key = normalize_key_spec(text);
    match lookup_term_spec(config, key) {
        Some(t) => Some(t),
        None => lookup_term_spec(config, key + "()"@),
    }
}

/// The documentation link of a term, with the documentation root left as a
/// placeholder for the path-replacement pass.
pub open spec fn doc_link_spec(t: TermV) -> Seq<char> {
    "{{docs}}"@ + t.path + ".html#"@ + t.name
}

fn rfind_before(s: &str, pat: &str, hi: usize) -> (r: Option<usize>)
    requires
        pat@.len() > 0,
        hi <= s@.len(),
    ensures
        match r {
            Some(i) => i == last_match_before(s@, pat@, hi as int),
            None => last_match_before(s@, pat@, hi as int) == -1,
        },
{
    let n = s.unicode_len();
    let m = pat.unicode_len();
    let mut j = hi;
    loop
        invariant
            0 <= j <= hi <= n,
            n == s@.len(),
            m == pat@.len(),
            last_match_before(s@, pat@, hi as int) == last_match_before(s@, pat@, j as int),
        ensures
            match last_match_before(s@, pat@, hi as int) {
                f if f >= 0 => j > 0 && f == j - 1,
                _ => j == 0,
            },
        decreases j,
    {
        if j == 0 {
            break;
        }
        if try_match_at(s, pat, j - 1, m, n) {
            break;
        }
        j -= 1;
    }
    if j == 0 {
        None
    } else {
        Some(j - 1)
    }
}

/// Normalize an inline code span into its lookup key.
pub fn normalize_key(text: &str) -> (r: String)
    ensures
        r@ == normalize_key_spec(text@),
{
    proof {
        reveal_strlit("\"");
    }
    let d = replace_all(text, "\"", "");
    let n = d.as_str().unicode_len();
    proof {
        reveal_strlit("(");
        reveal_strlit(")");
    }
    let f = crate::strings::find_from(d.as_str(), "(", 0);
    let j = rfind_before(d.as_str(), ")", n);
    match (f, j) {
        (Some(fi), Some(ji)) if ji > fi => {
            proof {
                lemma_first_match_from(d@, "("@, 0);
                assert(matches_at(d@, "("@, fi as int));
                lemma_last_match_before(d@, ")"@, n as int);
                assert(matches_at(d@, ")"@, ji as int));
            }
            let mut r = String::from_str(d.as_str().substring_char(0, fi));
            r.append("()");
            r.append(d.as_str().substring_char(ji + 1, n));
            proof {
                assert(d@.take(fi as int) =~= d@.subrange(0, fi as int));
                assert(d@.skip(ji + 1) =~= d@.subrange(ji + 1, n as int));
                reveal_strlit("()");
            }
            r
        },
        _ => d,
    }
}

/// The term registered under `key`, the latest registration winning.
fn lookup_term(config: &Vec<Term>, key: &String) -> (r: Option<Term>)
    ensures
        r.deep_view() == lookup_term_spec(config.deep_view(), key@),
{
    let ghost cv = config.deep_view();
    let mut j: usize = config.len();
    proof {
        assert(cv.take(config.len() as int) =~= cv);
    }
    while j > 0
        invariant
            0 <= j <= config.len(),
            cv == config.deep_view(),
            cv.len() == config.len(),
            lookup_term_spec(cv, key@) == lookup_term_spec(cv.take(j as int), key@),
        decreases j,
    {
        proof {
            assert(cv.take(j as int).last() == cv[j - 1]);
            assert(cv.take(j as int).drop_last() =~= cv.take(j - 1));
            assert(cv[j - 1] == config@[j - 1].deep_view());
        }
        let t = &config[j - 1];
        if t.term == *key {
            return Some(t.clone());
        }
        j -= 1;
    }
    proof {
        assert(cv.take(0).len() == 0);
    }
    None
}

/// The term an inline code span refers to, if its normalized key — or the
/// key with `()` appended — is known.
pub fn find_doc_term(config: &Vec<Term>, text: &String) -> (r: Option<Term>)
    ensures
        r.deep_view() == doc_term_spec(config.deep_view(), text@),
{
    let key = normalize_key(text.as_str());
    match lookup_term(config, &key) {
        Some(t) => Some(t),
        None => {
            proof {
                reveal_strlit("()");
            }
            let alt = key.concat("()");
            lookup_term(config, &alt)
        },
    }
}

/// The documentation link of a term.
pub fn build_doc_link(term: &Term) -> (r: String)
    ensures
        r@ == doc_link_spec(term@),
{
    let mut r = String::from_str("{{docs}}");
    r.append(term.path.as_str());
    r.append(".html#");
    r.append(term.name.as_str());
    r
}

} // verus!
