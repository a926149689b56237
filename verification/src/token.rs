//! The marker tokenizer: classifies a single line of source text as a
//! begin-tag, end-tag, exclude-begin or exclude-end marker, or as plain
//! content, capturing the optional tag name.
//!
//! Marker text may appear anywhere on a line.  Exclusion markers are
//! recognized before begin/end markers, and the untagged exclusion forms
//! before the tagged ones, so that a line is always classified by its most
//! specific marker.

use crate::strings::contains_pat;
use crate::strings::contains_seq;
use crate::strings::find_from;
use crate::strings::first_match_from;
use crate::strings::lemma_first_match_from;
use crate::strings::matches_at;
use vstd::prelude::*;
use vstd::string::StrSliceExecFns;
use vstd::string::StringExecFns;

verus! {

/// A marker recognized on one line of source text.  The payload is the tag
/// name, absent for the untagged exclusion forms, which apply to every tag.
pub enum Token {
    CodeSnippetBegin(Option<String>),
    CodeSnippetEnd(Option<String>),
    CodeSnippetExcludeEnd(Option<String>),
    CodeSnippetExcludeBegin(Option<String>),
}

/// The mathematical counterpart of `Token`, over sequences of characters.
pub enum TokenV {
    Begin(Option<Seq<char>>),
    End(Option<Seq<char>>),
    ExcludeEnd(Option<Seq<char>>),
    ExcludeBegin(Option<Seq<char>>),
}

impl View for Token {
    type V = TokenV;

    open spec fn view(&self) -> TokenV {
        match self {
            Token::CodeSnippetBegin(t) => TokenV::Begin(t.deep_view()),
            Token::CodeSnippetEnd(t) => TokenV::End(t.deep_view()),
            Token::CodeSnippetExcludeEnd(t) => TokenV::ExcludeEnd(t.deep_view()),
            Token::CodeSnippetExcludeBegin(t) => TokenV::ExcludeBegin(t.deep_view()),
        }
    }
}

impl DeepView for Token {
    type V = TokenV;

    open spec fn deep_view(&self) -> TokenV {
        self.view()
    }
}

/// The text that opens a tagged marker: `#KEYWORD(`.
pub open spec fn open_pat(kw: Seq<char>) -> Seq<char> {
    "#"@ + kw + "("@
}

/// The text of an untagged marker: `#KEYWORD()`.
pub open spec fn closed_pat(kw: Seq<char>) -> Seq<char> {
    "#"@ + kw + "()"@
}

/// The tag name captured by a tagged marker: the content between the first
/// `(` of the first occurrence of the marker keyword and the first `)` that
/// follows it.  Absent when the marker keyword does not occur, no `)`
/// follows, or the content is empty.
pub open spec fn tag_capture(s: Seq<char>, pat: Seq<char>) -> Option<Seq<char>> {
    let f = first_match_from(s, pat, 0);
    if f < 0 {
        None
    } else {
        let start = f + pat.len();
        let close = first_match_from(s, ")"@, start);
        if close < 0 || close == start {
            None
        } else {
            Some(s.subrange(start, close))
        }
    }
}

/// The marker recognized on the line `s`, or `None` for plain content.
pub open spec fn token_of(s: Seq<char>) -> Option<TokenV> {
    if contains_seq(s, closed_pat("code_snippet_exclude_begin"@)) {
        Some(TokenV::ExcludeBegin(None))
    } else if contains_seq(s, closed_pat("code_snippet_exclude_end"@)) {
        Some(TokenV::ExcludeEnd(None))
    } else if contains_seq(s, open_pat("code_snippet_exclude_begin"@)) {
        Some(TokenV::ExcludeBegin(tag_capture(s, open_pat("code_snippet_exclude_begin"@))))
    } else if contains_seq(s, open_pat("code_snippet_exclude_end"@)) {
        Some(TokenV::ExcludeEnd(tag_capture(s, open_pat("code_snippet_exclude_end"@))))
    } else if contains_seq(s, open_pat("code_snippet_begin"@)) {
        Some(TokenV::Begin(tag_capture(s, open_pat("code_snippet_begin"@))))
    } else if contains_seq(s, open_pat("code_snippet_end"@)) {
        Some(TokenV::End(tag_capture(s, open_pat("code_snippet_end"@))))
    } else {
        None
    }
}

/// Build the exec text of `open_pat(kw)`.
fn make_open_pat(kw: &str) -> (r: String)
    ensures
        r@ == open_pat(kw@),
        r@.len() > 0,
{
    proof {
        reveal_strlit("#");
        reveal_strlit("(");
    }
    let mut r = String::from_str("#");
    r.append(kw);
    r.append("(");
    r
}

/// Build the exec text of `closed_pat(kw)`.
fn make_closed_pat(kw: &str) -> (r: String)
    ensures
        r@ == closed_pat(kw@),
        r@.len() > 0,
{
    proof {
        reveal_strlit("#");
        reveal_strlit("()");
    }
    let mut r = String::from_str("#");
    r.append(kw);
    r.append("()");
    r
}

/// The tag name of the first `#TOKEN(NAME)` marker on the line, by the
/// first-parenthesized-argument rule of `tag_capture`.
pub fn get_tag(source: &String, token: &str) -> (r: Option<String>)
    ensures
        r.deep_view() == tag_capture(source@, open_pat(token@)),
{
    let pat = make_open_pat(token);
    let pat_len = pat.as_str().unicode_len();
    let n = source.as_str().unicode_len();
    match find_from(source.as_str(), pat.as_str(), 0) {
        None => None,
        Some(f) => {
            proof {
                lemma_first_match_from(source@, pat@, 0);
                assert(matches_at(source@, pat@, f as int));
                reveal_strlit(")");
            }
            let start = f + pat_len;
            match find_from(source.as_str(), ")", start) {
                None => None,
                Some(close) => {
                    proof {
                        lemma_first_match_from(source@, ")"@, start as int);
                        assert(matches_at(source@, ")"@, close as int));
                    }
                    if close == start {
                        None
                    } else {
                        Some(String::from_str(source.as_str().substring_char(start, close)))
                    }
                },
            }
        },
    }
}

/// Classify one line of source text, preferring the most specific marker:
/// untagged exclusion, tagged exclusion, then begin/end markers.
pub fn extract_token(source: &String) -> (r: Option<Token>)
    ensures
        r.deep_view() == token_of(source@),
{
    let exb_closed = make_closed_pat("code_snippet_exclude_begin");
    let exe_closed = make_closed_pat("code_snippet_exclude_end");
    let exb_open = make_open_pat("code_snippet_exclude_begin");
    let exe_open = make_open_pat("code_snippet_exclude_end");
    let beg_open = make_open_pat("code_snippet_begin");
    let end_open = make_open_pat("code_snippet_end");
    if contains_pat(source.as_str(), exb_closed.as_str()) {
        Some(Token::CodeSnippetExcludeBegin(None))
    } else if contains_pat(source.as_str(), exe_closed.as_str()) {
        Some(Token::CodeSnippetExcludeEnd(None))
    } else if contains_pat(source.as_str(), exb_open.as_str()) {
        let tag = get_tag(source, "code_snippet_exclude_begin");
        Some(Token::CodeSnippetExcludeBegin(tag))
    } else if contains_pat(source.as_str(), exe_open.as_str()) {
        let tag = get_tag(source, "code_snippet_exclude_end");
        Some(Token::CodeSnippetExcludeEnd(tag))
    } else if contains_pat(source.as_str(), beg_open.as_str()) {
        let tag = get_tag(source, "code_snippet_begin");
        Some(Token::CodeSnippetBegin(tag))
    } else if contains_pat(source.as_str(), end_open.as_str()) {
        let tag = get_tag(source, "code_snippet_end");
        Some(Token::CodeSnippetEnd(tag))
    } else {
        None
    }
}

} // verus!
