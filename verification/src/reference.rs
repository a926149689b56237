//! The inclusion-reference grammar: recognizes the three reference shapes
//! `{{insert_code(PATH,TAG)}}`, `{{insert_code(PATH,TAG,FLAG)}}` and
//! `{{insert_code(PATH)}}` in document text, scanning left to right without
//! overlap and attempting the longest form first at each position.

use crate::strings::lemma_run_end;
use crate::strings::matches_at;
use crate::strings::run_end;
use crate::strings::try_match_at;
use vstd::prelude::*;
use vstd::string::StrSliceExecFns;
use vstd::string::StringExecFns;

verus! {

/// One inclusion reference found in a document.
pub struct Reference {
    /// The exact matched text, braces included.
    pub full: String,
    /// The raw path argument; it may still hold an environment placeholder.
    pub path: String,
    /// The requested tag, absent for the bare one-argument form.
    pub tag: Option<String>,
    /// Whether a third argument was present, which makes the extraction
    /// ignore exclusion markers.
    pub ignore_exclude: bool,
}

/// The mathematical counterpart of `Reference`.
pub struct ReferenceV {
    pub full: Seq<char>,
    pub path: Seq<char>,
    pub tag: Option<Seq<char>>,
    pub ignore_exclude: bool,
}

impl View for Reference {
    type V = ReferenceV;

    open spec fn view(&self) -> ReferenceV {
        ReferenceV {
            full: self.full@,
            path: self.path@,
            tag: self.tag.deep_view(),
            ignore_exclude: self.ignore_exclude,
        }
    }
}

impl DeepView for Reference {
    type V = ReferenceV;

    open spec fn deep_view(&self) -> ReferenceV {
        self.view()
    }
}

/// A character allowed in the path argument of a reference.
pub open spec fn is_path_char(c: char) -> bool {
    c == '/' || c == '.' || ('0' as u32 <= c as u32 && c as u32 <= '9' as u32) || (
    'A' as u32 <= c as u32 && c as u32 <= 'z' as u32)
}

/// A character allowed in the tag argument of a reference.
pub open spec fn is_tag_char(c: char) -> bool {
    c == '/' || ('0' as u32 <= c as u32 && c as u32 <= '9' as u32) || ('A' as u32 <= c as u32
        && c as u32 <= 'z' as u32)
}

/// A character allowed in the flag argument of a reference.
pub open spec fn is_flag_char(c: char) -> bool {
    ('0' as u32 <= c as u32 && c as u32 <= '9' as u32) || ('A' as u32 <= c as u32 && c as u32
        <= 'z' as u32)
}

pub open spec fn path_run_end(s: Seq<char>, i: int) -> int {
    run_end(s, i, |c: char| is_path_char(c))
}

pub open spec fn tag_run_end(s: Seq<char>, i: int) -> int {
    run_end(s, i, |c: char| is_tag_char(c))
}

pub open spec fn flag_run_end(s: Seq<char>, i: int) -> int {
    run_end(s, i, |c: char| is_flag_char(c))
}

/// The text that opens every reference shape.
pub open spec fn ref_open() -> Seq<char> {
    "{{insert_code("@
}

/// The text that closes every reference shape.
pub open spec fn ref_close() -> Seq<char> {
    ")}}"@
}

/// The reference recognized at position `i` of `s`, if any.  The longest
/// shape wins: after the path argument, a comma continues into the tag
/// argument, and after the tag a comma continues into the flag argument;
/// only then is the closing text required.
pub open spec fn parse_ref_at(s: Seq<char>, i: int) -> Option<ReferenceV> {
    if !matches_at(s, ref_open(), i) {
        None
    } else {
        let a = i + ref_open().len();
        let pe = path_run_end(s, a);
        if pe == a {
            None
        } else {
            let path = s.subrange(a, pe);
            if matches_at(s, ref_close(), pe) {
                Some(
                    ReferenceV {
                        full: s.subrange(i, pe + 3),
                        path,
                        tag: None,
                        ignore_exclude: false,
                    },
                )
            } else if pe < s.len() && s[pe] == ',' {
                let te = tag_run_end(s, pe + 1);
                if te == pe + 1 {
                    None
                } else {
                    let tag = s.subrange(pe + 1, te);
                    if matches_at(s, ref_close(), te) {
                        Some(
                            ReferenceV {
                                full: s.subrange(i, te + 3),
                                path,
                                tag: Some(tag),
                                ignore_exclude: false,
                            },
                        )
                    } else if te < s.len() && s[te] == ',' {
                        let fe = flag_run_end(s, te + 1);
                        if fe == te + 1 {
                            None
                        } else if matches_at(s, ref_close(), fe) {
                            Some(
                                ReferenceV {
                                    full: s.subrange(i, fe + 3),
                                    path,
                                    tag: Some(tag),
                                    ignore_exclude: true,
                                },
                            )
                        } else {
                            None
                        }
                    } else {
                        None
                    }
                }
            } else {
                None
            }
        }
    }
}

/// A recognized reference covers at least one character and ends within the
/// document, and its text is exactly what stands at its position.
pub proof fn lemma_parse_ref_bounds(s: Seq<char>, i: int)
    requires
        parse_ref_at(s, i) is Some,
    ensures
        0 < parse_ref_at(s, i)->Some_0.full.len(),
        i + parse_ref_at(s, i)->Some_0.full.len() <= s.len(),
        0 <= i,
{
    let r = parse_ref_at(s, i)->Some_0;
    assert(matches_at(s, ref_open(), i));
    let a = i + ref_open().len();
    lemma_run_end(s, a, |c: char| is_path_char(c));
    let pe = path_run_end(s, a);
    if matches_at(s, ref_close(), pe) {
        proof_ref_close_len();
    } else if pe < s.len() && s[pe] == ',' {
        lemma_run_end(s, pe + 1, |c: char| is_tag_char(c));
        let te = tag_run_end(s, pe + 1);
        if matches_at(s, ref_close(), te) {
            proof_ref_close_len();
        } else if te < s.len() && s[te] == ',' {
            lemma_run_end(s, te + 1, |c: char| is_flag_char(c));
            let fe = flag_run_end(s, te + 1);
            proof_ref_close_len();
        }
    }
}

proof fn proof_ref_close_len()
    ensures
        ref_close().len() == 3,
{
    reveal_strlit(")}}");
}

/// All references in `s` at or after position `i`, scanning left to right
/// without overlap.
pub open spec fn refs_from(s: Seq<char>, i: int) -> Seq<ReferenceV>
    decreases s.len() - i,
{
    if i < 0 || i >= s.len() {
        Seq::empty()
    } else {
        match parse_ref_at(s, i) {
            Some(r) => {
                proof {
                    lemma_parse_ref_bounds(s, i);
                }
                seq![r] + refs_from(s, i + r.full.len())
            },
            None => refs_from(s, i + 1),
        }
    }
}

/// All references in the document `s`, in order of occurrence.
pub open spec fn refs_spec(s: Seq<char>) -> Seq<ReferenceV> {
    refs_from(s, 0)
}

/// Every reference the scanner reports covers at least one character, and
/// its text stands in the document, so that replacing the text finds it.
pub proof fn lemma_refs_nonempty(s: Seq<char>, i: int)
    ensures
        forall|k: int|
            0 <= k < refs_from(s, i).len() ==> #[trigger] refs_from(s, i)[k].full.len() > 0,
        forall|k: int|
            0 <= k < refs_from(s, i).len() ==> crate::strings::contains_seq(
                s,
                #[trigger] refs_from(s, i)[k].full,
            ),
    decreases s.len() - i,
{
    if i < 0 || i >= s.len() {
    } else {
        match parse_ref_at(s, i) {
            Some(r) => {
                lemma_parse_ref_bounds(s, i);
                lemma_parse_ref_occurs(s, i);
                lemma_refs_nonempty(s, i + r.full.len());
            },
            None => {
                lemma_refs_nonempty(s, i + 1);
            },
        }
    }
}

/// The text of a recognized reference is exactly what stands at its
/// position.
pub proof fn lemma_parse_ref_occurs(s: Seq<char>, i: int)
    requires
        parse_ref_at(s, i) is Some,
    ensures
        matches_at(s, parse_ref_at(s, i)->Some_0.full, i),
{
    lemma_parse_ref_bounds(s, i);
    proof_ref_close_len();
    let full = parse_ref_at(s, i)->Some_0.full;
    let a = i + ref_open().len();
    lemma_run_end(s, a, |c: char| is_path_char(c));
    let pe = path_run_end(s, a);
    if matches_at(s, ref_close(), pe) {
        assert(full.len() == pe + 3 - i);
    } else if pe < s.len() && s[pe] == ',' {
        lemma_run_end(s, pe + 1, |c: char| is_tag_char(c));
        let te = tag_run_end(s, pe + 1);
        if matches_at(s, ref_close(), te) {
            assert(full.len() == te + 3 - i);
        } else if te < s.len() && s[te] == ',' {
            lemma_run_end(s, te + 1, |c: char| is_flag_char(c));
            let fe = flag_run_end(s, te + 1);
            assert(full.len() == fe + 3 - i);
        }
    }
    assert(s.subrange(i, i + full.len()) =~= full);
}

/// The text at position `i` has the full three-argument shape:
/// `{{insert_code(PATH,TAG,FLAG)}}` with nonempty arguments.
pub open spec fn is_three_arg_at(s: Seq<char>, i: int) -> bool {
    let a = i + ref_open().len();
    let pe = path_run_end(s, a);
    let te = tag_run_end(s, pe + 1);
    let fe = flag_run_end(s, te + 1);
    &&& matches_at(s, ref_open(), i)
    &&& pe > a
    &&& pe < s.len() && s[pe] == ','
    &&& te > pe + 1
    &&& te < s.len() && s[te] == ','
    &&& fe > te + 1
    &&& matches_at(s, ref_close(), fe)
}

/// Longest-form precedence: a reference written with three arguments is
/// never mis-parsed as a two-argument reference; its flag is recognized
/// and the extraction it requests ignores exclusion markers.
pub proof fn lemma_three_arg_precedence(s: Seq<char>, i: int)
    requires
        is_three_arg_at(s, i),
    ensures
        parse_ref_at(s, i) is Some,
        parse_ref_at(s, i)->Some_0.ignore_exclude,
        parse_ref_at(s, i)->Some_0.tag is Some,
{
    reveal_strlit(")}}");
    let a = i + ref_open().len();
    let pe = path_run_end(s, a);
    let te = tag_run_end(s, pe + 1);
    assert(!matches_at(s, ref_close(), pe)) by {
        if matches_at(s, ref_close(), pe) {
            assert(s.subrange(pe, pe + 3)[0] == s[pe]);
        }
    }
    assert(!matches_at(s, ref_close(), te)) by {
        if matches_at(s, ref_close(), te) {
            assert(s.subrange(te, te + 3)[0] == s[te]);
        }
    }
}

fn path_char(c: char) -> (r: bool)
    ensures
        r == is_path_char(c),
{
    c == '/' || c == '.' || ('0' as u32 <= c as u32 && c as u32 <= '9' as u32) || ('A' as u32
        <= c as u32 && c as u32 <= 'z' as u32)
}

fn tag_char(c: char) -> (r: bool)
    ensures
        r == is_tag_char(c),
{
    c == '/' || ('0' as u32 <= c as u32 && c as u32 <= '9' as u32) || ('A' as u32 <= c as u32
        && c as u32 <= 'z' as u32)
}

fn flag_char(c: char) -> (r: bool)
    ensures
        r == is_flag_char(c),
{
    ('0' as u32 <= c as u32 && c as u32 <= '9' as u32) || ('A' as u32 <= c as u32 && c as u32
        <= 'z' as u32)
}

fn path_run_to(s: &str, from: usize, n: usize) -> (r: usize)
    requires
        n == s@.len(),
        from <= n,
    ensures
        r == path_run_end(s@, from as int),
        from <= r <= n,
{
    let mut j = from;
    while j < n && path_char(s.get_char(j))
        invariant
            from <= j <= n,
            n == s@.len(),
            path_run_end(s@, from as int) == path_run_end(s@, j as int),
            forall|k: int| from <= k < j ==> is_path_char(s@[k]),
        decreases n - j,
    {
        j += 1;
    }
    proof {
        lemma_run_end(s@, j as int, |c: char| is_path_char(c));
    }
    j
}

fn tag_run_to(s: &str, from: usize, n: usize) -> (r: usize)
    requires
        n == s@.len(),
        from <= n,
    ensures
        r == tag_run_end(s@, from as int),
        from <= r <= n,
{
    let mut j = from;
    while j < n && tag_char(s.get_char(j))
        invariant
            from <= j <= n,
            n == s@.len(),
            tag_run_end(s@, from as int) == tag_run_end(s@, j as int),
        decreases n - j,
    {
        j += 1;
    }
    proof {
        lemma_run_end(s@, j as int, |c: char| is_tag_char(c));
    }
    j
}

fn flag_run_to(s: &str, from: usize, n: usize) -> (r: usize)
    requires
        n == s@.len(),
        from <= n,
    ensures
        r == flag_run_end(s@, from as int),
        from <= r <= n,
{
    let mut j = from;
    while j < n && flag_char(s.get_char(j))
        invariant
            from <= j <= n,
            n == s@.len(),
            flag_run_end(s@, from as int) == flag_run_end(s@, j as int),
        decreases n - j,
    {
        j += 1;
    }
    proof {
        lemma_run_end(s@, j as int, |c: char| is_flag_char(c));
    }
    j
}

/// The reference recognized at position `i`, together with the position
/// just past it.
pub fn parse_reference_at(s: &str, i: usize, n: usize) -> (r: Option<(Reference, usize)>)
    requires
        n == s@.len(),
        i <= n,
    ensures
        match r {
            Some(p) => parse_ref_at(s@, i as int) == Some(p.0@) && p.1 == i + p.0@.full.len()
                && i < p.1 <= n,
            None => parse_ref_at(s@, i as int) is None,
        },
{
    let open_len = "{{insert_code(".unicode_len();
    let close_len = ")}}".unicode_len();
    if !try_match_at(s, "{{insert_code(", i, open_len, n) {
        return None;
    }
    proof {
        lemma_parse_open(s@, i as int);
    }
    let a = i + open_len;
    let pe = path_run_to(s, a, n);
    if pe == a {
        return None;
    }
    let path = String::from_str(s.substring_char(a, pe));
    if try_match_at(s, ")}}", pe, close_len, n) {
        proof {
            proof_ref_close_len();
        }
        let end = pe + 3;
        let full = String::from_str(s.substring_char(i, end));
        return Some((Reference { full, path, tag: None, ignore_exclude: false }, end));
    }
    if pe < n && s.get_char(pe) == ',' {
        let te = tag_run_to(s, pe + 1, n);
        if te == pe + 1 {
            return None;
        }
        let tag = String::from_str(s.substring_char(pe + 1, te));
        if try_match_at(s, ")}}", te, close_len, n) {
            proof {
                proof_ref_close_len();
            }
            let end = te + 3;
            let full = String::from_str(s.substring_char(i, end));
            return Some((Reference { full, path, tag: Some(tag), ignore_exclude: false }, end));
        }
        if te < n && s.get_char(te) == ',' {
            let fe = flag_run_to(s, te + 1, n);
            if fe == te + 1 {
                return None;
            }
            if try_match_at(s, ")}}", fe, close_len, n) {
                proof {
                    proof_ref_close_len();
                }
                let end = fe + 3;
                let full = String::from_str(s.substring_char(i, end));
                return Some((Reference { full, path, tag: Some(tag), ignore_exclude: true }, end));
            }
        }
        return None;
    }
    None
}

proof fn lemma_parse_open(s: Seq<char>, i: int)
    requires
        matches_at(s, ref_open(), i),
    ensures
        i + ref_open().len() <= s.len(),
        0 <= i,
{
}

/// Find every inclusion reference in the document, in order of occurrence,
/// scanning left to right without overlap and preferring the longest shape
/// at each position.
pub fn find_references(s: &str) -> (r: Vec<Reference>)
    ensures
        r.deep_view() == refs_spec(s@),
        forall|k: int| 0 <= k < r.len() ==> (#[trigger] r.deep_view()[k]).full.len() > 0,
        forall|k: int|
            0 <= k < r.len() ==> crate::strings::contains_seq(
                s@,
                (#[trigger] r.deep_view()[k]).full,
            ),
{
    proof {
        lemma_refs_nonempty(s@, 0);
    }
    let n = s.unicode_len();
    let mut refs: Vec<Reference> = Vec::new();
    let mut i: usize = 0;
    proof {
        assert(refs.deep_view() =~= Seq::<ReferenceV>::empty());
    }
    while i < n
        invariant
            0 <= i <= n,
            n == s@.len(),
            refs_spec(s@) == refs.deep_view() + refs_from(s@, i as int),
        decreases n - i,
    {
        match parse_reference_at(s, i, n) {
            Some(p) => {
                let (rf, end) = p;
                proof {
                    let ghost old_refs = refs.deep_view();
                    assert(refs_from(s@, i as int) == seq![rf@] + refs_from(s@, end as int));
                    assert(old_refs + (seq![rf@] + refs_from(s@, end as int)) =~= (old_refs
                        + seq![rf@]) + refs_from(s@, end as int));
                }
                let ghost old_refs = refs.deep_view();
                refs.push(rf);
                proof {
                    assert(refs.deep_view() =~= old_refs + seq![rf@]);
                }
                i = end;
            },
            None => {
                proof {
                    assert(refs_from(s@, i as int) == refs_from(s@, i + 1));
                }
                i += 1;
            },
        }
    }
    proof {
        assert(refs_from(s@, i as int) == Seq::<ReferenceV>::empty());
        assert(refs_spec(s@) =~= refs.deep_view());
    }
    refs
}

} // verus!
