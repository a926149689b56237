//! The path-replacement preprocessor's computing core: every `{{NAME}}`
//! placeholder whose name stands in the configuration table is replaced,
//! throughout the chapter, by the configured value.  The caller supplies
//! the table, read from its configuration file, as plain string pairs.

use crate::strings::contains_seq;
use crate::strings::lemma_run_end;
use crate::strings::matches_at;
use crate::strings::replace_all;
use crate::strings::replace_all_seq;
use crate::strings::run_end;
use crate::strings::try_match_at;
use vstd::prelude::*;
use vstd::string::StrSliceExecFns;
use vstd::string::StringExecFns;

verus! {

/// The path-replacement preprocessor.
pub struct ReplacePaths;

impl ReplacePaths {
    /// The name under which the preprocessor is configured.
    pub fn name(&self) -> (r: &'static str)
        ensures
            r@ == "replace_paths"@,
    {
        "replace_paths"
    }

    /// Every renderer is supported.
    pub fn supports_renderer(&self, renderer: &str) -> (r: bool)
        ensures
            r,
    {
        let _ = renderer;
        true
    }
}

/// A character allowed in a placeholder name.
pub open spec fn is_key_char(c: char) -> bool {
    c == '_' || ('a' as u32 <= c as u32 && c as u32 <= 'z' as u32)
}

pub open spec fn key_run_end(s: Seq<char>, i: int) -> int {
    run_end(s, i, |c: char| is_key_char(c))
}

/// The placeholder name recognized at position `i`: `{{` followed by a
/// nonempty run of name characters closed by `}}`.
pub open spec fn parse_placeholder_at(s: Seq<char>, i: int) -> Option<Seq<char>> {
    if !matches_at(s, "{{"@, i) {
        None
    } else {
        let a = i + "{{"@.len();
        let ke = key_run_end(s, a);
        if ke == a {
            None
        } else if matches_at(s, "}}"@, ke) {
            Some(s.subrange(a, ke))
        } else {
            None
        }
    }
}

/// The position just past the placeholder recognized at `i`.
pub open spec fn placeholder_end(s: Seq<char>, i: int) -> int {
    i + "{{"@.len() + parse_placeholder_at(s, i)->Some_0.len() + "}}"@.len()
}

pub proof fn lemma_placeholder_bounds(s: Seq<char>, i: int)
    requires
        parse_placeholder_at(s, i) is Some,
    ensures
        i < placeholder_end(s, i) <= s.len(),
        parse_placeholder_at(s, i)->Some_0.len() > 0,
{
    assert(matches_at(s, "{{"@, i));
    let a = i + "{{"@.len();
    lemma_run_end(s, a, |c: char| is_key_char(c));
    let ke = key_run_end(s, a);
    assert(matches_at(s, "}}"@, ke));
}

/// The placeholder of a recognized name is exactly what stands at its
/// position, so that replacing the placeholder finds it.
pub proof fn lemma_placeholder_occurs(s: Seq<char>, i: int)
    requires
        parse_placeholder_at(s, i) is Some,
    ensures
        matches_at(s, placeholder_token(parse_placeholder_at(s, i)->Some_0), i),
{
    assert(matches_at(s, "{{"@, i));
    let a = i + "{{"@.len();
    lemma_run_end(s, a, |c: char| is_key_char(c));
    let ke = key_run_end(s, a);
    assert(matches_at(s, "}}"@, ke));
    let key = s.subrange(a, ke);
    let token = placeholder_token(key);
    assert(s.subrange(i, i + "{{"@.len()) == "{{"@);
    assert(s.subrange(ke, ke + "}}"@.len()) == "}}"@);
    assert forall|j: int| 0 <= j < token.len() implies s.subrange(i, i + token.len())[j]
        == token[j] by {
        if j < "{{"@.len() {
            assert(s.subrange(i, i + "{{"@.len())[j] == s[i + j]);
        } else if j < "{{"@.len() + key.len() {
            assert(key[j - "{{"@.len()] == s[i + j]);
        } else {
            let x = j - "{{"@.len() - key.len();
            assert(s.subrange(ke, ke + "}}"@.len())[x] == s[ke + x]);
        }
    }
    assert(s.subrange(i, i + token.len()) =~= token);
}

/// The placeholder names found in `s` at or after `i`, scanning left to
/// right without overlap, in order of occurrence.
pub open spec fn keys_from(s: Seq<char>, i: int) -> Seq<Seq<char>>
    decreases s.len() - i,
{
    if i < 0 || i >= s.len() {
        Seq::empty()
    } else {
        match parse_placeholder_at(s, i) {
            Some(k) => {
                proof {
                    lemma_placeholder_bounds(s, i);
                }
                seq![k] + keys_from(s, placeholder_end(s, i))
            },
            None => keys_from(s, i + 1),
        }
    }
}

/// Every name the scanner reports has its placeholder standing in the
/// chapter.
pub proof fn lemma_keys_occur(s: Seq<char>, i: int)
    ensures
        forall|k: int|
            0 <= k < keys_from(s, i).len() ==> contains_seq(
                s,
                placeholder_token(#[trigger] keys_from(s, i)[k]),
            ),
    decreases s.len() - i,
{
    if i < 0 || i >= s.len() {
    } else {
        match parse_placeholder_at(s, i) {
            Some(key) => {
                lemma_placeholder_bounds(s, i);
                lemma_placeholder_occurs(s, i);
                let end = placeholder_end(s, i);
                lemma_keys_occur(s, end);
                assert(keys_from(s, i) == seq![key] + keys_from(s, end));
                assert(contains_seq(s, placeholder_token(key)));
                assert forall|k: int| 0 <= k < keys_from(s, i).len() implies contains_seq(
                    s,
                    placeholder_token(#[trigger] keys_from(s, i)[k]),
                ) by {
                    if k == 0 {
                        assert(keys_from(s, i)[0] == key);
                    } else {
                        assert(keys_from(s, i)[k] == keys_from(s, end)[k - 1]);
                    }
                }
            },
            None => {
                lemma_keys_occur(s, i + 1);
                assert forall|k: int| 0 <= k < keys_from(s, i).len() implies contains_seq(
                    s,
                    placeholder_token(#[trigger] keys_from(s, i)[k]),
                ) by {
                    assert(keys_from(s, i)[k] == keys_from(s, i + 1)[k]);
                }
            },
        }
    }
}

/// The value configured for `key`: the first pair whose name matches.
pub open spec fn lookup_spec(config: Seq<(Seq<char>, Seq<char>)>, key: Seq<char>) -> Option<
    Seq<char>,
>
    decreases config.len(),
{
    if config.len() == 0 {
        None
    } else if config[0].0 == key {
        Some(config[0].1)
    } else {
        lookup_spec(config.drop_first(), key)
    }
}

/// The whole text of the placeholder naming `key`.
pub open spec fn placeholder_token(key: Seq<char>) -> Seq<char> {
    "{{"@ + key + "}}"@
}

/// The chapter after replacement: for each found name, in order, every
/// occurrence of its placeholder is replaced by the configured value; a
/// name the table does not hold is left in place.
pub open spec fn replace_keys(
    text: Seq<char>,
    keys: Seq<Seq<char>>,
    config: Seq<(Seq<char>, Seq<char>)>,
) -> Seq<char>
    decreases keys.len(),
{
    if keys.len() == 0 {
        text
    } else {
        let t1 = match lookup_spec(config, keys[0]) {
            Some(v) => if placeholder_token(keys[0]).len() > 0 {
                replace_all_seq(text, placeholder_token(keys[0]), v)
            } else {
                text
            },
            None => text,
        };
        replace_keys(t1, keys.drop_first(), config)
    }
}

/// The whole transformation of one chapter.
pub open spec fn replace_paths_spec(text: Seq<char>, config: Seq<(Seq<char>, Seq<char>)>) -> Seq<
    char,
> {
    replace_keys(text, keys_from(text, 0), config)
}

fn key_char(c: char) -> (r: bool)
    ensures
        r == is_key_char(c),
{
    c == '_' || ('a' as u32 <= c as u32 && c as u32 <= 'z' as u32)
}

fn key_run_to(s: &str, from: usize, n: usize) -> (r: usize)
    requires
        n == s@.len(),
        from <= n,
    ensures
        r == key_run_end(s@, from as int),
        from <= r <= n,
{
    let mut j = from;
    while j < n && key_char(s.get_char(j))
        invariant
            from <= j <= n,
            n == s@.len(),
            key_run_end(s@, from as int) == key_run_end(s@, j as int),
        decreases n - j,
    {
        j += 1;
    }
    proof {
        lemma_run_end(s@, j as int, |c: char| is_key_char(c));
    }
    j
}

/// The placeholder recognized at position `i`, with the position just past
/// it.
fn parse_placeholder(s: &str, i: usize, n: usize) -> (r: Option<(String, usize)>)
    requires
        n == s@.len(),
        i <= n,
    ensures
        match r {
            Some(p) => parse_placeholder_at(s@, i as int) == Some(p.0@) && p.1
                == placeholder_end(s@, i as int) && i < p.1 <= n,
            None => parse_placeholder_at(s@, i as int) is None,
        },
{
    let open_len = "{{".unicode_len();
    let close_len = "}}".unicode_len();
    if !try_match_at(s, "{{", i, open_len, n) {
        return None;
    }
    let a = i + open_len;
    let ke = key_run_to(s, a, n);
    if ke == a {
        return None;
    }
    if !try_match_at(s, "}}", ke, close_len, n) {
        return None;
    }
    let key = String::from_str(s.substring_char(a, ke));
    proof {
        lemma_placeholder_bounds(s@, i as int);
    }
    Some((key, ke + close_len))
}

/// The placeholder names of the chapter, in order of occurrence.
pub fn find_keys(s: &str) -> (r: Vec<String>)
    ensures
        r.deep_view() == keys_from(s@, 0),
        forall|k: int|
            0 <= k < r.len() ==> contains_seq(
                s@,
                placeholder_token((#[trigger] r.deep_view()[k])),
            ),
{
    proof {
        lemma_keys_occur(s@, 0);
    }
    let n = s.unicode_len();
    let mut keys: Vec<String> = Vec::new();
    let mut i: usize = 0;
    proof {
        assert(keys.deep_view() =~= Seq::<Seq<char>>::empty());
    }
    while i < n
        invariant
            0 <= i <= n,
            n == s@.len(),
            keys_from(s@, 0) == keys.deep_view() + keys_from(s@, i as int),
        decreases n - i,
    {
        match parse_placeholder(s, i, n) {
            Some(p) => {
                let (key, end) = p;
                proof {
                    let ghost old_keys = keys.deep_view();
                    assert(keys_from(s@, i as int) == seq![key@] + keys_from(s@, end as int));
                    assert(old_keys + (seq![key@] + keys_from(s@, end as int)) =~= (old_keys
                        + seq![key@]) + keys_from(s@, end as int));
                }
                let ghost old_keys = keys.deep_view();
                keys.push(key);
                proof {
                    assert(keys.deep_view() =~= old_keys + seq![key@]);
                }
                i = end;
            },
            None => {
                proof {
                    assert(keys_from(s@, i as int) == keys_from(s@, i + 1));
                }
                i += 1;
            },
        }
    }
    proof {
        assert(keys_from(s@, i as int) == Seq::<Seq<char>>::empty());
        assert(keys_from(s@, 0) =~= keys.deep_view());
    }
    keys
}

/// The value configured for `key`, by the first matching pair.
fn lookup(config: &Vec<(String, String)>, key: &String) -> (r: Option<String>)
    ensures
        r.deep_view() == lookup_spec(config.deep_view(), key@),
{
    let ghost cv = config.deep_view();
    let mut j: usize = 0;
    proof {
        assert(cv.skip(0) =~= cv);
    }
    while j < config.len()
        invariant
            0 <= j <= config.len(),
            cv == config.deep_view(),
            cv.len() == config.len(),
            lookup_spec(cv, key@) == lookup_spec(cv.skip(j as int), key@),
        decreases config.len() - j,
    {
        proof {
            assert(cv.skip(j as int)[0] == cv[j as int]);
            assert(cv.skip(j as int).drop_first() =~= cv.skip(j + 1));
            assert(cv[j as int].0 == config@[j as int].0@);
            assert(cv[j as int].1 == config@[j as int].1@);
        }
        let pair = &config[j];
        if pair.0 == *key {
            return Some(pair.1.clone());
        }
        j += 1;
    }
    proof {
        assert(cv.skip(config.len() as int).len() == 0);
    }
    None
}

/// Build the exec text of `placeholder_token(key)`.
fn make_token(key: &String) -> (r: String)
    ensures
        r@ == placeholder_token(key@),
        r@.len() > 0,
{
    proof {
        reveal_strlit("{{");
        reveal_strlit("}}");
    }
    let mut r = String::from_str("{{");
    r.append(key.as_str());
    r.append("}}");
    r
}

/// Replace every configured placeholder of the chapter by its value: the
/// names are found in the chapter as it came in, and each name's
/// placeholder is then replaced throughout.
pub fn find_term(chapter: String, config: &Vec<(String, String)>) -> (r: Option<String>)
    ensures
        match r {
            Some(t) => t@ == replace_paths_spec(chapter@, config.deep_view()),
            None => false,
        },
{
    let ghost cv = config.deep_view();
    let keys = find_keys(chapter.as_str());
    let ghost kv = keys.deep_view();
    let mut cur = chapter;
    let mut j: usize = 0;
    proof {
        assert(kv.skip(0) =~= kv);
    }
    while j < keys.len()
        invariant
            0 <= j <= keys.len(),
            cv == config.deep_view(),
            kv == keys.deep_view(),
            kv.len() == keys.len(),
            replace_keys(cur@, kv.skip(j as int), cv) == replace_paths_spec(chapter@, cv),
        decreases keys.len() - j,
    {
        proof {
            assert(kv.skip(j as int)[0] == kv[j as int]);
            assert(kv.skip(j as int).drop_first() =~= kv.skip(j + 1));
        }
        let key = &keys[j];
        match lookup(config, key) {
            Some(v) => {
                let token = make_token(key);
                cur = replace_all(cur.as_str(), token.as_str(), v.as_str());
            },
            None => {},
        }
        j += 1;
    }
    proof {
        assert(kv.skip(keys.len() as int).len() == 0);
    }
    Some(cur)
}

} // verus!
