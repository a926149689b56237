//! The region extractor: one pass over a file's lines with a small state
//! machine that tracks whether the requested tag is currently open and
//! whether an exclusion overlay is active, accumulating the content lines
//! that belong to the tag.
//!
//! The state is keyed to the single requested tag, so the currently-open
//! tag of the pass collapses to a flag: markers of other tags are
//! recognized, never emitted, and never change the state.

use crate::token::extract_token;
use crate::token::token_of;
use crate::token::Token;
use crate::token::TokenV;
use vstd::prelude::*;

verus! {

/// The transient state of one extraction pass.
pub struct ExtractionState {
    /// Whether the requested tag is currently open.
    pub open: bool,
    /// Whether an exclusion overlay is currently active.
    pub excl: bool,
    /// The content lines accumulated so far, in order.
    pub out: Seq<Seq<char>>,
}

/// The state before any line has been read.
pub open spec fn ext_init() -> ExtractionState {
    ExtractionState { open: false, excl: false, out: Seq::empty() }
}

/// One step of the extractor on a single line.
pub open spec fn ext_step(
    st: ExtractionState,
    line: Seq<char>,
    tag: Seq<char>,
    ignore: bool,
) -> ExtractionState {
    match token_of(line) {
        Some(TokenV::Begin(t)) => if t == Some(tag) {
            ExtractionState { open: true, excl: false, out: st.out }
        } else {
            st
        },
        Some(TokenV::End(t)) => if t == Some(tag) {
            ExtractionState { open: false, excl: st.excl, out: st.out }
        } else {
            st
        },
        Some(TokenV::ExcludeBegin(t)) => {
            let e = if t is None || t == Some(tag) {
                true
            } else {
                st.excl
            };
            let e = if e && ignore {
                false
            } else {
                e
            };
            ExtractionState { open: st.open, excl: e, out: st.out }
        },
        Some(TokenV::ExcludeEnd(t)) => {
            let e = if t is None || t == Some(tag) {
                false
            } else {
                st.excl
            };
            ExtractionState { open: st.open, excl: e, out: st.out }
        },
        None => if st.open && !st.excl {
            ExtractionState { open: st.open, excl: st.excl, out: st.out.push(line) }
        } else {
            st
        },
    }
}

/// The state after reading all of `lines` in order.
pub open spec fn ext_run(lines: Seq<Seq<char>>, tag: Seq<char>, ignore: bool) -> ExtractionState
    decreases lines.len(),
{
    if lines.len() == 0 {
        ext_init()
    } else {
        ext_step(ext_run(lines.drop_last(), tag, ignore), lines.last(), tag, ignore)
    }
}

/// The ordered content lines belonging to `tag` in `lines`, honoring
/// exclusion overlays unless `ignore` is set.
pub open spec fn extract_spec(lines: Seq<Seq<char>>, tag: Seq<char>, ignore: bool) -> Seq<
    Seq<char>,
> {
    ext_run(lines, tag, ignore).out
}

/// Extract the content lines of region `requested_tag` from the lines of a
/// source file.  Begin and end markers of the tag open and close the
/// region; exclusion markers suppress content unless `ignore_exclude` is
/// set; marker lines themselves are never emitted.
pub fn process_term(source: &Vec<String>, requested_tag: &String, ignore_exclude: bool) -> (r: Vec<
    String,
>)
    ensures
        r.deep_view() == extract_spec(source.deep_view(), requested_tag@, ignore_exclude),
{
    let ghost all = source.deep_view();
    let mut tag_content: Vec<String> = Vec::new();
    let mut tag_exclude = false;
    let mut current_tag: Option<String> = None;
    let mut i: usize = 0;
    proof {
        assert(all.take(0) =~= Seq::<Seq<char>>::empty());
        assert(tag_content.deep_view() =~= Seq::<Seq<char>>::empty());
    }
    while i < source.len()
        invariant
            0 <= i <= source.len(),
            all == source.deep_view(),
            ext_run(all.take(i as int), requested_tag@, ignore_exclude).open == (
            current_tag is Some),
            ext_run(all.take(i as int), requested_tag@, ignore_exclude).excl == tag_exclude,
            ext_run(all.take(i as int), requested_tag@, ignore_exclude).out
                == tag_content.deep_view(),
            match current_tag {
                Some(t) => t@ == requested_tag@,
                None => true,
            },
        decreases source.len() - i,
    {
        let line = &source[i];
        proof {
            assert(all.take(i + 1).drop_last() =~= all.take(i as int));
            assert(all.take(i + 1).last() == line@);
        }
        let token = extract_token(line);
        let ghost prev = ext_run(all.take(i as int), requested_tag@, ignore_exclude);
        let ghost next = ext_step(prev, line@, requested_tag@, ignore_exclude);
        proof {
            assert(ext_run(all.take(i + 1), requested_tag@, ignore_exclude) == next);
        }
        match token {
            Some(Token::CodeSnippetBegin(tag)) => {
                match tag {
                    Some(t) => {
                        if *requested_tag == t {
                            current_tag = Some(t);
                            tag_exclude = false;
                        }
                    },
                    None => {},
                }
            },
            Some(Token::CodeSnippetEnd(tag)) => {
                match tag {
                    Some(t) => {
                        if *requested_tag == t {
                            current_tag = None;
                        }
                    },
                    None => {},
                }
            },
            Some(Token::CodeSnippetExcludeBegin(tag)) => {
                tag_exclude = match tag {
                    None => true,
                    Some(t) => if *requested_tag == t {
                        true
                    } else {
                        tag_exclude
                    },
                };
                if tag_exclude && ignore_exclude {
                    tag_exclude = false;
                }
            },
            Some(Token::CodeSnippetExcludeEnd(tag)) => {
                tag_exclude = match tag {
                    None => false,
                    Some(t) => if *requested_tag == t {
                        false
                    } else {
                        tag_exclude
                    },
                };
            },
            None => {
                match &current_tag {
                    Some(_) => {
                        if !tag_exclude {
                            tag_content.push(line.clone());
                            proof {
                                assert(tag_content.deep_view() =~= prev.out.push(line@));
                            }
                        }
                    },
                    None => {},
                }
            },
        }
        i += 1;
    }
    proof {
        assert(all.take(source.len() as int) =~= all);
    }
    tag_content
}

/// True when the token opens an exclusion overlay that applies to an
/// extraction of `tag`: an untagged exclude-begin, or one tagged `tag`.
pub open spec fn starts_exclusion(tok: Option<TokenV>, tag: Seq<char>) -> bool {
    match tok {
        Some(TokenV::ExcludeBegin(t)) => t is None || t == Some(tag),
        _ => false,
    }
}

/// True when the token closes an exclusion overlay that applies to an
/// extraction of `tag`.
pub open spec fn ends_exclusion(tok: Option<TokenV>, tag: Seq<char>) -> bool {
    match tok {
        Some(TokenV::ExcludeEnd(t)) => t is None || t == Some(tag),
        _ => false,
    }
}

/// True when the token opens the region named `tag`.
pub open spec fn opens_tag(tok: Option<TokenV>, tag: Seq<char>) -> bool {
    tok == Some(TokenV::Begin(Some(tag)))
}

proof fn lemma_never_opened_state(lines: Seq<Seq<char>>, tag: Seq<char>, ignore: bool)
    requires
        forall|k: int| 0 <= k < lines.len() ==> !opens_tag(#[trigger] token_of(lines[k]), tag),
    ensures
        !ext_run(lines, tag, ignore).open,
        ext_run(lines, tag, ignore).out == Seq::<Seq<char>>::empty(),
    decreases lines.len(),
{
    if lines.len() == 0 {
    } else {
        assert forall|k: int| 0 <= k < lines.drop_last().len() implies !opens_tag(
            #[trigger] token_of(lines.drop_last()[k]),
            tag,
        ) by {
            assert(lines.drop_last()[k] == lines[k]);
        }
        lemma_never_opened_state(lines.drop_last(), tag, ignore);
        assert(!opens_tag(token_of(lines[lines.len() - 1]), tag));
    }
}

/// A tag that never opens extracts to the empty sequence: for all files and
/// tags, if no line of the file carries a begin marker for the requested
/// tag, the extraction is empty, whatever the exclusion flag.
pub proof fn lemma_unopened_tag_extracts_nothing(
    lines: Seq<Seq<char>>,
    tag: Seq<char>,
    ignore: bool,
)
    requires
        forall|k: int| 0 <= k < lines.len() ==> !opens_tag(#[trigger] token_of(lines[k]), tag),
    ensures
        extract_spec(lines, tag, ignore) == Seq::<Seq<char>>::empty(),
{
    lemma_never_opened_state(lines, tag, ignore);
}

/// Marker lines are never present in extracted output: every line of an
/// extraction is plain content, whatever the tag and the exclusion flag.
pub proof fn lemma_no_markers_in_extraction(lines: Seq<Seq<char>>, tag: Seq<char>, ignore: bool)
    ensures
        forall|k: int|
            0 <= k < extract_spec(lines, tag, ignore).len() ==> token_of(
                #[trigger] extract_spec(lines, tag, ignore)[k],
            ) is None,
    decreases lines.len(),
{
    if lines.len() == 0 {
    } else {
        lemma_no_markers_in_extraction(lines.drop_last(), tag, ignore);
    }
}

proof fn lemma_exclusion_active(lines: Seq<Seq<char>>, tag: Seq<char>, i: int, m: int)
    requires
        0 <= i,
        i < m <= lines.len(),
        starts_exclusion(token_of(lines[i]), tag),
        forall|k: int|
            i < k < m ==> !ends_exclusion(#[trigger] token_of(lines[k]), tag) && !opens_tag(
                token_of(lines[k]),
                tag,
            ),
    ensures
        ext_run(lines.take(m), tag, false).excl,
    decreases m - i,
{
    assert(lines.take(m).drop_last() =~= lines.take(m - 1));
    assert(lines.take(m).last() == lines[m - 1]);
    if m == i + 1 {
    } else {
        lemma_exclusion_active(lines, tag, i, m - 1);
        assert(!ends_exclusion(token_of(lines[m - 1]), tag));
        assert(!opens_tag(token_of(lines[m - 1]), tag));
    }
}

/// With the exclusion flag honored, a content line standing between an
/// exclude-begin marker that applies to the requested tag and its matching
/// exclude-end (with no applicable exclude-end or begin-tag marker in
/// between) is never appended to the extraction.
pub proof fn lemma_excluded_line_not_emitted(
    lines: Seq<Seq<char>>,
    tag: Seq<char>,
    i: int,
    j: int,
)
    requires
        0 <= i < j < lines.len(),
        starts_exclusion(token_of(lines[i]), tag),
        token_of(lines[j]) is None,
        forall|k: int|
            i < k < j ==> !ends_exclusion(#[trigger] token_of(lines[k]), tag) && !opens_tag(
                token_of(lines[k]),
                tag,
            ),
    ensures
        ext_run(lines.take(j + 1), tag, false).out == ext_run(lines.take(j), tag, false).out,
{
    lemma_exclusion_active(lines, tag, i, j);
    assert(lines.take(j + 1).drop_last() =~= lines.take(j));
    assert(lines.take(j + 1).last() == lines[j]);
}

/// With the exclusion flag ignored, no exclusion overlay is ever active.
pub proof fn lemma_ignore_exclusion_never_active(lines: Seq<Seq<char>>, tag: Seq<char>)
    ensures
        !ext_run(lines, tag, true).excl,
    decreases lines.len(),
{
    if lines.len() == 0 {
    } else {
        lemma_ignore_exclusion_never_active(lines.drop_last(), tag);
    }
}

/// With the exclusion flag ignored, every content line inside the open
/// requested tag is appended to the extraction, exclusion markers
/// notwithstanding.
pub proof fn lemma_ignored_exclusion_emits(lines: Seq<Seq<char>>, tag: Seq<char>, j: int)
    requires
        0 <= j < lines.len(),
        token_of(lines[j]) is None,
        ext_run(lines.take(j), tag, true).open,
    ensures
        ext_run(lines.take(j + 1), tag, true).out == ext_run(lines.take(j), tag, true).out.push(
            lines[j],
        ),
{
    lemma_ignore_exclusion_never_active(lines.take(j), tag);
    assert(lines.take(j + 1).drop_last() =~= lines.take(j));
    assert(lines.take(j + 1).last() == lines[j]);
}

/// The lines of a file that are not marker lines, in order: the bare,
/// no-tag extraction mode.
pub open spec fn strip_spec(lines: Seq<Seq<char>>) -> Seq<Seq<char>>
    decreases lines.len(),
{
    if lines.len() == 0 {
        Seq::empty()
    } else if token_of(lines.last()) is None {
        strip_spec(lines.drop_last()).push(lines.last())
    } else {
        strip_spec(lines.drop_last())
    }
}

/// Marker lines are never present in the bare extraction either.
pub proof fn lemma_no_markers_in_strip(lines: Seq<Seq<char>>)
    ensures
        forall|k: int|
            0 <= k < strip_spec(lines).len() ==> token_of(#[trigger] strip_spec(lines)[k]) is None,
    decreases lines.len(),
{
    if lines.len() == 0 {
    } else {
        lemma_no_markers_in_strip(lines.drop_last());
    }
}

/// Strip every marker line, whatever its tag, and keep all remaining lines
/// unfiltered.
pub fn strip_markers(source: &Vec<String>) -> (r: Vec<String>)
    ensures
        r.deep_view() == strip_spec(source.deep_view()),
{
    let ghost all = source.deep_view();
    let mut tag_content: Vec<String> = Vec::new();
    let mut i: usize = 0;
    while i < source.len()
        invariant
            0 <= i <= source.len(),
            all == source.deep_view(),
            tag_content.deep_view() == strip_spec(all.take(i as int)),
        decreases source.len() - i,
    {
        let line = &source[i];
        proof {
            assert(all.take(i + 1).drop_last() =~= all.take(i as int));
            assert(all.take(i + 1).last() == line@);
        }
        let token = extract_token(line);
        if token.is_none() {
            let ghost prev = tag_content.deep_view();
            tag_content.push(line.clone());
            proof {
                assert(tag_content.deep_view() =~= prev.push(line@));
            }
        }
        i += 1;
    }
    proof {
        assert(all.take(source.len() as int) =~= all);
    }
    tag_content
}

} // verus!
