//! The chapter walk of the inclusion preprocessor: references are resolved
//! only inside fenced code blocks of the parsed document structure, so the
//! chapter is parsed into markdown events, the text nodes standing inside a
//! code block are singled out, and after the caller has resolved each of
//! those texts the chapter is rebuilt with the resolved texts spliced in.
//!
//! Parsing and rendering are the markdown library's work and stand behind
//! trusted wrappers.  Both depend on their arguments alone, so their
//! results carry names — `chapter_events` for the shapes of a chapter's
//! parsed events, `render_of` for the rendered text of an event stream,
//! `class_of` for the shape of one event — and the verified walk is exact
//! over those names: which text nodes are inside a code block, and that
//! the rebuilt chapter renders the spliced event stream.

use pulldown_cmark::CowStr;
use pulldown_cmark::Event;
use pulldown_cmark::Options;
use pulldown_cmark::Parser;
use pulldown_cmark::Tag;
use pulldown_cmark_to_cmark::cmark;
use vstd::prelude::*;

verus! {

#[verifier::external_type_specification]
#[verifier::external_body]
pub struct ExEvent<'a>(Event<'a>);

/// The inclusion preprocessor: replaces references inside fenced code
/// blocks of every chapter with extracted, formatted source text.
pub struct AutoInclude;

impl AutoInclude {
    /// The name under which the preprocessor is configured.
    pub fn name(&self) -> (r: &'static str)
        ensures
            r@ == "auto_include"@,
    {
        "auto_include"
    }

    /// Every renderer is supported.
    pub fn supports_renderer(&self, renderer: &str) -> (r: bool)
        ensures
            r,
    {
        let _ = renderer;
        true
    }
}

/// The shape of one markdown event, as far as the chapter walk reads it:
/// a code block opening or closing, a text node carrying its text, or
/// anything else.
pub enum EventClass {
    CodeStart,
    CodeEnd,
    Text(String),
    Other,
}

/// The mathematical counterpart of `EventClass`.
pub enum EventClassV {
    CodeStart,
    CodeEnd,
    Text(Seq<char>),
    Other,
}

impl View for EventClass {
    type V = EventClassV;

    open spec fn view(&self) -> EventClassV {
        match self {
            EventClass::CodeStart => EventClassV::CodeStart,
            EventClass::CodeEnd => EventClassV::CodeEnd,
            EventClass::Text(t) => EventClassV::Text(t@),
            EventClass::Other => EventClassV::Other,
        }
    }
}

impl DeepView for EventClass {
    type V = EventClassV;

    open spec fn deep_view(&self) -> EventClassV {
        self.view()
    }
}

/// The shape of one markdown event: a function of the event alone, which
/// `classify_event` computes.
pub uninterp spec fn class_of(e: Event) -> EventClassV;

/// The shapes of the events that parsing a chapter yields.  Parsing is
/// deterministic, so the stream is a function of the text alone.
pub uninterp spec fn chapter_events(text: Seq<char>) -> Seq<EventClassV>;

/// The markdown text that rendering an event stream yields.  Rendering is
/// deterministic, so the text is a function of the events alone.
pub uninterp spec fn render_of(events: Seq<Event>) -> Seq<char>;

/// Whether a code block is open after the given event shapes have been
/// walked: a code block start opens one, its end closes it.
pub open spec fn in_block_after(cs: Seq<EventClassV>) -> bool
    decreases cs.len(),
{
    if cs.len() == 0 {
        false
    } else {
        match cs.last() {
            EventClassV::CodeStart => true,
            EventClassV::CodeEnd => false,
            _ => in_block_after(cs.drop_last()),
        }
    }
}

/// The positions of the text nodes that stand inside an open code block.
pub open spec fn code_text_indices(cs: Seq<EventClassV>) -> Seq<int>
    decreases cs.len(),
{
    if cs.len() == 0 {
        Seq::empty()
    } else {
        let prev = code_text_indices(cs.drop_last());
        match cs.last() {
            EventClassV::Text(_) => if in_block_after(cs.drop_last()) {
                prev.push(cs.len() - 1)
            } else {
                prev
            },
            _ => prev,
        }
    }
}

/// The texts of the text nodes that stand inside an open code block, in
/// order.
pub open spec fn code_texts(cs: Seq<EventClassV>) -> Seq<Seq<char>>
    decreases cs.len(),
{
    if cs.len() == 0 {
        Seq::empty()
    } else {
        let prev = code_texts(cs.drop_last());
        match cs.last() {
            EventClassV::Text(t) => if in_block_after(cs.drop_last()) {
                prev.push(t)
            } else {
                prev
            },
            _ => prev,
        }
    }
}

/// Relies on pulldown_cmark's Parser: parses the chapter into its markdown
/// event stream, with tables, footnotes, strikethrough and task lists
/// enabled.  Parsing depends on the text alone; the shapes of the parsed
/// events are named `chapter_events`.
#[verifier::external_body]
fn parse_events<'a>(text: &'a str) -> (r: Vec<Event<'a>>)
    ensures
        r@.len() == chapter_events(text@).len(),
        forall|k: int|
            0 <= k < r@.len() ==> class_of(#[trigger] r@[k]) == chapter_events(text@)[k],
{
    let mut opts = Options::empty();
    opts.insert(Options::ENABLE_TABLES);
    opts.insert(Options::ENABLE_FOOTNOTES);
    opts.insert(Options::ENABLE_STRIKETHROUGH);
    opts.insert(Options::ENABLE_TASKLISTS);
    Parser::new_ext(text, opts).collect()
}

/// Relies on pulldown_cmark's Event: tells the event shapes the chapter
/// walk reads apart, copying out the text of a text node.  The result
/// depends on the event alone and defines `class_of`.
#[verifier::external_body]
fn classify_event(e: &Event) -> (r: EventClass)
    ensures
        r@ == class_of(*e),
{
    match e {
        Event::Start(Tag::CodeBlock(_)) => EventClass::CodeStart,
        Event::End(Tag::CodeBlock(_)) => EventClass::CodeEnd,
        Event::Text(t) => EventClass::Text(t.to_string()),
        _ => EventClass::Other,
    }
}

/// Relies on pulldown_cmark's Event: builds a text node that carries the
/// given text, so its shape under `class_of` is that text's.
#[verifier::external_body]
fn text_event<'a>(s: String) -> (r: Event<'a>)
    ensures
        class_of(r) == EventClassV::Text(s@),
{
    Event::Text(CowStr::Boxed(s.into_boxed_str()))
}

/// Relies on pulldown_cmark_to_cmark's cmark: renders the event stream
/// back to markdown text.  Rendering depends on the events alone and is
/// named `render_of`; its only failure path is the text sink, and a
/// `String` sink never fails to write, so the result is always present.
#[verifier::external_body]
fn serialize_events<'a>(events: &Vec<Event<'a>>) -> (r: Option<String>)
    ensures
        r is Some,
        r->Some_0@ == render_of(events@),
{
    let mut buf = String::new();
    match cmark(events.iter(), &mut buf) {
        Ok(_) => Some(buf),
        Err(_) => None,
    }
}

/// Parse a chapter into its event stream together with one event shape per
/// event: the shapes are exactly the chapter's classified event stream.
pub fn scan_chapter<'a>(text: &'a str) -> (r: (Vec<Event<'a>>, Vec<EventClass>))
    ensures
        r.1.len() == r.0.len(),
        forall|k: int| 0 <= k < r.0.len() ==> (#[trigger] r.1@[k])@ == class_of(r.0@[k]),
        r.1.deep_view() == chapter_events(text@),
{
    let events = parse_events(text);
    let ghost ev = events@;
    let mut classes: Vec<EventClass> = Vec::new();
    let mut i: usize = 0;
    while i < events.len()
        invariant
            0 <= i <= events.len(),
            ev == events@,
            classes.len() == i,
            ev.len() == chapter_events(text@).len(),
            forall|k: int|
                0 <= k < ev.len() ==> class_of(#[trigger] ev[k]) == chapter_events(text@)[k],
            forall|k: int| 0 <= k < i ==> (#[trigger] classes@[k])@ == class_of(ev[k]),
        decreases events.len() - i,
    {
        classes.push(classify_event(&events[i]));
        i += 1;
    }
    proof {
        assert(classes.deep_view() =~= chapter_events(text@));
    }
    (events, classes)
}

/// The positions and texts of the text nodes that stand inside a fenced
/// code block, in order: exactly the texts in which references are
/// resolved.
pub fn code_block_texts(classes: &Vec<EventClass>) -> (r: (Vec<usize>, Vec<String>))
    ensures
        r.0.len() == r.1.len(),
        r.0@.map_values(|u: usize| u as int) == code_text_indices(classes.deep_view()),
        r.1.deep_view() == code_texts(classes.deep_view()),
        forall|k: int| 0 <= k < r.0.len() ==> #[trigger] r.0@[k] < classes.len(),
{
    let ghost cv = classes.deep_view();
    let mut indices: Vec<usize> = Vec::new();
    let mut texts: Vec<String> = Vec::new();
    let mut in_block = false;
    let mut i: usize = 0;
    proof {
        assert(cv.take(0) =~= Seq::<EventClassV>::empty());
        assert(indices@.map_values(|u: usize| u as int) =~= Seq::<int>::empty());
        assert(texts.deep_view() =~= Seq::<Seq<char>>::empty());
    }
    while i < classes.len()
        invariant
            0 <= i <= classes.len(),
            cv == classes.deep_view(),
            cv.len() == classes.len(),
            in_block == in_block_after(cv.take(i as int)),
            indices@.map_values(|u: usize| u as int) == code_text_indices(cv.take(i as int)),
            texts.deep_view() == code_texts(cv.take(i as int)),
            indices.len() == texts.len(),
            forall|k: int| 0 <= k < indices.len() ==> #[trigger] indices@[k] < i,
        decreases classes.len() - i,
    {
        proof {
            assert(cv.take(i + 1).drop_last() =~= cv.take(i as int));
            assert(cv.take(i + 1).last() == cv[i as int]);
        }
        let ghost old_ind = indices@;
        let ghost old_texts = texts.deep_view();
        match &classes[i] {
            EventClass::CodeStart => {
                in_block = true;
            },
            EventClass::CodeEnd => {
                in_block = false;
            },
            EventClass::Text(t) => {
                if in_block {
                    indices.push(i);
                    texts.push(t.clone());
                    proof {
                        assert(indices@.map_values(|u: usize| u as int) =~= old_ind.map_values(
                            |u: usize| u as int,
                        ).push(i as int));
                        assert(texts.deep_view() =~= old_texts.push(t@));
                    }
                }
            },
            EventClass::Other => {},
        }
        i += 1;
    }
    proof {
        assert(cv.take(classes.len() as int) =~= cv);
    }
    (indices, texts)
}

/// The first position in `indices` that holds `k`, or -1.
pub open spec fn first_index_of(indices: Seq<usize>, k: int) -> int
    decreases indices.len(),
{
    if indices.len() == 0 {
        -1
    } else if indices[0] as int == k {
        0
    } else {
        let r = first_index_of(indices.drop_first(), k);
        if r < 0 {
            -1
        } else {
            r + 1
        }
    }
}

/// `first_index_of` finds the first matching position, and -1 means none
/// matches.
pub proof fn lemma_first_index_of(indices: Seq<usize>, k: int)
    ensures
        first_index_of(indices, k) == -1 ==> forall|j: int|
            0 <= j < indices.len() ==> (#[trigger] indices[j]) as int != k,
        first_index_of(indices, k) != -1 ==> {
            &&& 0 <= first_index_of(indices, k) < indices.len()
            &&& indices[first_index_of(indices, k)] as int == k
            &&& forall|j: int|
                0 <= j < first_index_of(indices, k) ==> (#[trigger] indices[j]) as int != k
        },
    decreases indices.len(),
{
    if indices.len() == 0 {
    } else if indices[0] as int == k {
    } else {
        lemma_first_index_of(indices.drop_first(), k);
        let r = first_index_of(indices.drop_first(), k);
        if r < 0 {
            assert forall|j: int| 0 <= j < indices.len() implies (#[trigger] indices[j]) as int
                != k by {
                if j > 0 {
                    assert(indices[j] == indices.drop_first()[j - 1]);
                }
            }
        } else {
            assert(indices[r + 1] == indices.drop_first()[r]);
            assert forall|j: int| 0 <= j < r + 1 implies (#[trigger] indices[j]) as int != k by {
                if j > 0 {
                    assert(indices[j] == indices.drop_first()[j - 1]);
                }
            }
        }
    }
}

/// Position `k` of the spliced event stream `ev`: the event at a listed
/// position is a text node carrying the corresponding resolved text, the
/// event at every other position is kept.
pub open spec fn spliced_at(
    events: Seq<Event>,
    indices: Seq<usize>,
    texts: Seq<Seq<char>>,
    ev: Seq<Event>,
    k: int,
) -> bool {
    if first_index_of(indices, k) < 0 {
        ev[k] == events[k]
    } else {
        class_of(ev[k]) == EventClassV::Text(texts[first_index_of(indices, k)])
    }
}

/// The event stream `ev` is `events` with the event at each listed
/// position replaced by a text node carrying the corresponding resolved
/// text, every other event kept.
pub open spec fn spliced(
    events: Seq<Event>,
    indices: Seq<usize>,
    texts: Seq<Seq<char>>,
    ev: Seq<Event>,
) -> bool {
    &&& ev.len() == events.len()
    &&& forall|k: int| 0 <= k < ev.len() ==> #[trigger] spliced_at(events, indices, texts, ev, k)
}

/// Rebuild the chapter: the event at each listed position is replaced by a
/// text node carrying the corresponding resolved text, every other event
/// is kept, and the result — always present — renders that spliced event
/// stream back to markdown.
pub fn rebuild_chapter<'a>(
    events: Vec<Event<'a>>,
    indices: &Vec<usize>,
    texts: &Vec<String>,
) -> (r: Option<String>)
    requires
        indices.len() == texts.len(),
    ensures
        r is Some,
        exists|ev: Seq<Event<'a>>|
            #![trigger render_of(ev)]
            spliced(events@, indices@, texts.deep_view(), ev) && r->Some_0@ == render_of(ev),
{
    let ghost evs = events@;
    let ghost iv = indices@;
    let ghost tv = texts.deep_view();
    let n = events.len();
    let mut rest = events;
    let mut out: Vec<Event<'a>> = Vec::new();
    let mut i: usize = 0;
    proof {
        assert(evs.skip(0) =~= evs);
    }
    while i < n
        invariant
            0 <= i <= n,
            evs.len() == n,
            iv == indices@,
            tv == texts.deep_view(),
            indices.len() == texts.len(),
            iv.len() == tv.len(),
            rest@ == evs.skip(i as int),
            out.len() == i,
            forall|k: int| 0 <= k < i ==> #[trigger] spliced_at(evs, iv, tv, out@, k),
        decreases n - i,
    {
        proof {
            assert(rest@[0] == evs[i as int]);
            assert(evs.skip(i as int).remove(0) =~= evs.skip(i + 1));
        }
        let e = rest.remove(0);
        let mut found: Option<usize> = None;
        let mut j: usize = 0;
        while j < indices.len()
            invariant
                0 <= j <= indices.len(),
                iv == indices@,
                indices.len() == texts.len(),
                match found {
                    Some(f) => f < j && iv[f as int] as int == i && forall|x: int|
                        0 <= x < f ==> (#[trigger] iv[x]) as int != i,
                    None => forall|x: int| 0 <= x < j ==> (#[trigger] iv[x]) as int != i,
                },
            decreases indices.len() - j,
        {
            if found.is_none() && indices[j] == i {
                found = Some(j);
            }
            j += 1;
        }
        proof {
            lemma_first_index_of(iv, i as int);
        }
        let ghost old_out = out@;
        match found {
            Some(f) => {
                proof {
                    assert(first_index_of(iv, i as int) == f);
                    assert(tv[f as int] == texts@[f as int]@);
                }
                out.push(text_event(texts[f].clone()));
                proof {
                    assert(class_of(out@[i as int]) == EventClassV::Text(tv[f as int]));
                }
            },
            None => {
                proof {
                    assert(first_index_of(iv, i as int) == -1);
                }
                out.push(e);
            },
        }
        proof {
            assert forall|k: int| 0 <= k < i + 1 implies #[trigger] spliced_at(
                evs,
                iv,
                tv,
                out@,
                k,
            ) by {
                if k < i {
                    assert(out@[k] == old_out[k]);
                    assert(spliced_at(evs, iv, tv, old_out, k));
                }
            }
        }
        i += 1;
    }
    proof {
        assert(spliced(evs, iv, tv, out@));
    }
    let res = serialize_events(&out);
    proof {
        assert(spliced(evs, iv, tv, out@) && res->Some_0@ == render_of(out@));
    }
    res
}

} // verus!
