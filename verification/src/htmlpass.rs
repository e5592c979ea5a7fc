//! The HTML passes: the HTML rewriter reads a document, its reports are folded through the
//! state machines of [`crate::html`], and the rewriter writes the document back as they decide.
use vstd::prelude::*;
use crate::html::{
    markup_close_spec, markup_open_spec, markup_output_spec, stripped_close_spec,
    stripped_open_spec, tagged_close_spec, tagged_finish_spec, tagged_open_spec,
    tagged_output_text_spec, tagged_text_spec, MarkupHtmlState, MarkupHtmlView,
    StrippedHtmlState, StrippedHtmlView, TaggedHtmlState, TaggedHtmlView,
};
use crate::settings::TransError;
use crate::strutil::{is_blank_spec, strings_view};
use crate::tagged::utf8_lossy;
use lol_html::html_content::{ContentType, Element, EndTag, TextChunk};
use lol_html::{ElementContentHandlers as Handlers, HtmlRewriter, Settings};
use std::borrow::Cow;
use std::sync::mpsc::channel;

verus! {

/// What the HTML rewriter reports, in order, while it walks a document.
#[derive(Clone, Debug)]
pub enum HtmlEvent {
    /// A selected element starts; `self_closing` when its start tag closes it.
    Open { self_closing: bool },
    /// A selected element that is not self-closing ends, with its name.
    Close(String),
    /// A text chunk.
    Text(String),
    /// Bytes that the rewriter writes out.
    Output(Vec<u8>),
}

/// The value of an [`HtmlEvent`].
pub enum HtmlEventView {
    Open { self_closing: bool },
    Close(Seq<char>),
    Text(Seq<char>),
    Output(Seq<u8>),
}

impl View for HtmlEvent {
    type V = HtmlEventView;

    open spec fn view(&self) -> HtmlEventView {
        match self {
            HtmlEvent::Open { self_closing } => HtmlEventView::Open { self_closing: *self_closing },
            HtmlEvent::Close(n) => HtmlEventView::Close(n@),
            HtmlEvent::Text(t) => HtmlEventView::Text(t@),
            HtmlEvent::Output(b) => HtmlEventView::Output(b@),
        }
    }
}

/// The values of a list of reports.
pub open spec fn html_events_view(v: Seq<HtmlEvent>) -> Seq<HtmlEventView> {
    v.map_values(|e: HtmlEvent| e@)
}

/// The state after the reports `ev`, each taken by `step`.
pub open spec fn fold_events<S>(s: S, ev: Seq<HtmlEventView>, step: spec_fn(S, HtmlEventView) -> S) -> S
    decreases ev.len(),
{
    if ev.len() == 0 {
        s
    } else {
        step(fold_events(s, ev.drop_last(), step), ev.last())
    }
}

/// Whether every report of `ev` finds a state in which `fits` holds for it.
pub open spec fn events_fit<S>(
    s: S,
    ev: Seq<HtmlEventView>,
    step: spec_fn(S, HtmlEventView) -> S,
    fits: spec_fn(S, HtmlEventView) -> bool,
) -> bool
    decreases ev.len(),
{
    ev.len() == 0 || (events_fit(s, ev.drop_last(), step, fits) && fits(
        fold_events(s, ev.drop_last(), step),
        ev.last(),
    ))
}

proof fn lemma_events_fit_prefix<S>(
    s: S,
    ev: Seq<HtmlEventView>,
    step: spec_fn(S, HtmlEventView) -> S,
    fits: spec_fn(S, HtmlEventView) -> bool,
    k: int,
)
    requires
        0 <= k <= ev.len(),
        events_fit(s, ev, step, fits),
    ensures
        events_fit(s, ev.take(k), step, fits),
    decreases ev.len(),
{
    if k == ev.len() {
        assert(ev.take(k) =~= ev);
    } else {
        lemma_events_fit_prefix(s, ev.drop_last(), step, fits, k);
        assert(ev.drop_last().take(k) =~= ev.take(k));
    }
}

proof fn lemma_fold_step<S>(s: S, ev: Seq<HtmlEventView>, step: spec_fn(S, HtmlEventView) -> S, i: int)
    requires
        0 <= i < ev.len(),
    ensures
        fold_events(s, ev.take(i + 1), step) == step(fold_events(s, ev.take(i), step), ev[i]),
{
    assert(ev.take(i + 1).drop_last() =~= ev.take(i));
}

// ---------------------------------------------------------------------------------------
// Numbered pieces.
// ---------------------------------------------------------------------------------------

/// One report while collecting numbered pieces: self-closing elements and output are left
/// alone.
pub open spec fn tagged_step(chunk_size: nat, tag: Seq<char>) -> spec_fn(TaggedHtmlView, HtmlEventView) -> TaggedHtmlView {
    |s: TaggedHtmlView, e: HtmlEventView|
        match e {
            HtmlEventView::Open { self_closing } => if self_closing {
                s
            } else {
                tagged_open_spec(s)
            },
            HtmlEventView::Close(_) => tagged_close_spec(s, chunk_size),
            HtmlEventView::Text(t) => tagged_text_spec(s, t, tag),
            HtmlEventView::Output(_) => s,
        }
}

/// Whether a report finds the counters below their machine limits.
pub open spec fn tagged_fits() -> spec_fn(TaggedHtmlView, HtmlEventView) -> bool {
    |s: TaggedHtmlView, e: HtmlEventView|
        match e {
            HtmlEventView::Open { self_closing } => self_closing || s.depth < u32::MAX,
            HtmlEventView::Text(_) => s.parse_index < usize::MAX,
            _ => true,
        }
}

/// The state before anything is collected.
pub open spec fn tagged_empty() -> TaggedHtmlView {
    TaggedHtmlView {
        new_tag: false,
        depth: 0,
        parse_index: 0,
        trans_index: 0,
        buf: Seq::<char>::empty(),
        groups: Seq::<Seq<char>>::empty(),
        chunks: Seq::<Seq<char>>::empty(),
    }
}

/// Collects the numbered pieces of an HTML document from the rewriter's reports, then closes the
/// last group; refused where a counter would leave its machine type.
pub fn tagged_html_pass1(events: &Vec<HtmlEvent>, chunk_size: usize, syntax_tag: &str) -> (r: Result<
    TaggedHtmlState,
    TransError,
>)
    ensures
        r is Ok <==> events_fit(
            tagged_empty(),
            html_events_view(events@),
            tagged_step(chunk_size as nat, syntax_tag@),
            tagged_fits(),
        ),
        r matches Ok(s) ==> s@ == tagged_finish_spec(
            fold_events(tagged_empty(), html_events_view(events@), tagged_step(chunk_size as nat, syntax_tag@)),
        ),
        r matches Err(e) ==> e is DocumentTooLarge,
{
    let ghost ev = html_events_view(events@);
    let ghost step = tagged_step(chunk_size as nat, syntax_tag@);
    let mut st = TaggedHtmlState::new();
    let mut i: usize = 0;
    assert(ev.take(0) =~= Seq::<HtmlEventView>::empty());
    while i < events.len()
        invariant
            ev == html_events_view(events@),
            step == tagged_step(chunk_size as nat, syntax_tag@),
            i <= events@.len(),
            st@ == fold_events(tagged_empty(), ev.take(i as int), step),
            events_fit(tagged_empty(), ev.take(i as int), step, tagged_fits()),
        decreases events@.len() - i,
    {
        proof {
            lemma_fold_step(tagged_empty(), ev, step, i as int);
        }
        assert(ev.take(i + 1).drop_last() =~= ev.take(i as int));
        assert(ev.take(i + 1).last() == events@[i as int]@);
        let fits = match &events[i] {
            HtmlEvent::Open { self_closing } => *self_closing || st.depth < u32::MAX,
            HtmlEvent::Text(_) => st.parse_index < usize::MAX,
            _ => true,
        };
        if !fits {
            proof {
                if events_fit(tagged_empty(), ev, step, tagged_fits()) {
                    lemma_events_fit_prefix(tagged_empty(), ev, step, tagged_fits(), i + 1);
                }
            }
            return Err(TransError::DocumentTooLarge);
        }
        match &events[i] {
            HtmlEvent::Open { self_closing } => {
                if !*self_closing {
                    st.open_element();
                }
            },
            HtmlEvent::Close(_) => st.close_element(chunk_size),
            HtmlEvent::Text(t) => st.collect_text(t.as_str(), syntax_tag),
            HtmlEvent::Output(_) => {},
        }
        i = i + 1;
    }
    assert(ev.take(i as int) =~= ev);
    st.finish_collecting();
    Ok(st)
}

/// One report while writing the output with numbered pieces put back: the state and, for a text
/// chunk, its replacement, if any.
pub open spec fn tagged_out_step() -> spec_fn(
    (TaggedHtmlView, Seq<Option<Seq<char>>>),
    HtmlEventView,
) -> (TaggedHtmlView, Seq<Option<Seq<char>>>) {
    |p: (TaggedHtmlView, Seq<Option<Seq<char>>>), e: HtmlEventView|
        match e {
            HtmlEventView::Open { self_closing } => if self_closing {
                p
            } else {
                (TaggedHtmlView { depth: p.0.depth + 1, ..p.0 }, p.1)
            },
            HtmlEventView::Close(_) => (
                TaggedHtmlView {
                    depth: if p.0.depth > 0 {
                        (p.0.depth - 1) as nat
                    } else {
                        0
                    },
                    ..p.0
                },
                p.1,
            ),
            HtmlEventView::Text(t) => (
                tagged_output_text_spec(p.0, t).0,
                p.1.push(tagged_output_text_spec(p.0, t).1),
            ),
            HtmlEventView::Output(_) => p,
        }
}

/// Whether a report finds the counters below their machine limits while writing.
pub open spec fn tagged_out_fits() -> spec_fn((TaggedHtmlView, Seq<Option<Seq<char>>>), HtmlEventView) -> bool {
    |p: (TaggedHtmlView, Seq<Option<Seq<char>>>), e: HtmlEventView|
        match e {
            HtmlEventView::Open { self_closing } => self_closing || p.0.depth < u32::MAX,
            HtmlEventView::Text(_) => p.0.parse_index < usize::MAX,
            _ => true,
        }
}

/// The values of a list of optional strings.
pub open spec fn opts_view(v: Seq<Option<String>>) -> Seq<Option<Seq<char>>> {
    v.map_values(|o: Option<String>| crate::config::opt_view(o))
}

/// The replacement of each text chunk that the rewriter reports, in order, while writing the
/// output of the numbered-piece passes from `state` (no element open, no piece met); refused
/// where a counter would leave its machine type.
pub fn tagged_html_replacements(state: &mut TaggedHtmlState, events: &Vec<HtmlEvent>) -> (r: Result<
    Vec<Option<String>>,
    TransError,
>)
    ensures
        ({
            let start = (TaggedHtmlView { depth: 0, parse_index: 0, ..old(state)@ }, Seq::<Option<Seq<char>>>::empty());
            &&& r is Ok <==> events_fit(start, html_events_view(events@), tagged_out_step(), tagged_out_fits())
            &&& r matches Ok(v) ==> (final(state)@, opts_view(v@)) == fold_events(
                start,
                html_events_view(events@),
                tagged_out_step(),
            )
            &&& r matches Err(e) ==> e is DocumentTooLarge
        }),
{
    state.begin_output();
    let ghost start = (state@, Seq::<Option<Seq<char>>>::empty());
    let ghost ev = html_events_view(events@);
    let ghost step = tagged_out_step();
    let mut outs: Vec<Option<String>> = Vec::new();
    let mut i: usize = 0;
    assert(ev.take(0) =~= Seq::<HtmlEventView>::empty());
    assert(opts_view(outs@) =~= Seq::<Option<Seq<char>>>::empty());
    while i < events.len()
        invariant
            ev == html_events_view(events@),
            step == tagged_out_step(),
            start == (TaggedHtmlView { depth: 0, parse_index: 0, ..old(state)@ }, Seq::<Option<Seq<char>>>::empty()),
            i <= events@.len(),
            (state@, opts_view(outs@)) == fold_events(start, ev.take(i as int), step),
            events_fit(start, ev.take(i as int), step, tagged_out_fits()),
        decreases events@.len() - i,
    {
        proof {
            lemma_fold_step(start, ev, step, i as int);
        }
        assert(ev.take(i + 1).drop_last() =~= ev.take(i as int));
        assert(ev.take(i + 1).last() == events@[i as int]@);
        let fits = match &events[i] {
            HtmlEvent::Open { self_closing } => *self_closing || state.depth < u32::MAX,
            HtmlEvent::Text(_) => state.parse_index < usize::MAX,
            _ => true,
        };
        if !fits {
            proof {
                if events_fit(start, ev, step, tagged_out_fits()) {
                    lemma_events_fit_prefix(start, ev, step, tagged_out_fits(), i + 1);
                }
            }
            return Err(TransError::DocumentTooLarge);
        }
        match &events[i] {
            HtmlEvent::Open { self_closing } => {
                if !*self_closing {
                    state.output_open_element();
                }
            },
            HtmlEvent::Close(_) => state.output_close_element(),
            HtmlEvent::Text(t) => {
                let o = state.output_text(t.as_str());
                outs.push(o);
                assert(opts_view(outs@) =~= fold_events(start, ev.take(i as int), step).1.push(
                    crate::config::opt_view(o),
                ));
            },
            HtmlEvent::Output(_) => {},
        }
        i = i + 1;
    }
    assert(ev.take(i as int) =~= ev);
    Ok(outs)
}

/// The numbered-piece state after collecting from the reports `ev`.
pub open spec fn tagged_collected(ev: Seq<HtmlEventView>, chunk_size: nat, tag: Seq<char>) -> TaggedHtmlView {
    fold_events(tagged_empty(), ev, tagged_step(chunk_size, tag))
}

/// The state and the replacements after writing from the reports `ev`, starting from `s` with
/// no element open and no piece met.
pub open spec fn tagged_written(s: TaggedHtmlView, ev: Seq<HtmlEventView>) -> (
    TaggedHtmlView,
    Seq<Option<Seq<char>>>,
) {
    fold_events(
        (TaggedHtmlView { depth: 0, parse_index: 0, ..s }, Seq::<Option<Seq<char>>>::empty()),
        ev,
        tagged_out_step(),
    )
}

proof fn lemma_tagged_walk(ev: Seq<HtmlEventView>, chunk_size: nat, tag: Seq<char>, s: TaggedHtmlView)
    ensures
        ({
            let c = tagged_collected(ev, chunk_size, tag);
            let o = tagged_written(s, ev).0;
            &&& o.depth == c.depth
            &&& o.parse_index == c.parse_index
            &&& c.parse_index == c.chunks.len()
            &&& o.chunks.len() == s.chunks.len()
            &&& forall|j: int| o.parse_index <= j < s.chunks.len() ==> o.chunks[j] == s.chunks[j]
        }),
    decreases ev.len(),
{
    if ev.len() > 0 {
        lemma_tagged_walk(ev.drop_last(), chunk_size, tag, s);
    }
}

/// Writing walks the reports in step with collecting: after any reports, both are as deep in
/// selected elements (self-closing ones open nothing in either) and have met as many pieces;
/// and a text chunk that collecting makes piece `k` is, while writing, given piece `k` of the
/// pieces written back, while any other text chunk is given nothing; other reports are given
/// no replacement at all. So, with the pieces written back untranslated, such a chunk is given
/// its own text.
pub proof fn law_tagged_write_follows_collect(
    ev: Seq<HtmlEventView>,
    chunk_size: nat,
    tag: Seq<char>,
    s: TaggedHtmlView,
)
    ensures
        tagged_written(s, ev).0.depth == tagged_collected(ev, chunk_size, tag).depth,
        tagged_written(s, ev).0.parse_index == tagged_collected(ev, chunk_size, tag).chunks.len(),
        ev.len() > 0 ==> (ev.last() matches HtmlEventView::Text(t) ==> {
            let before = tagged_collected(ev.drop_last(), chunk_size, tag);
            let k = before.chunks.len();
            if before.depth > 0 && !is_blank_spec(t) {
                &&& tagged_collected(ev, chunk_size, tag).chunks == before.chunks.push(t)
                &&& tagged_written(s, ev).1 == tagged_written(s, ev.drop_last()).1.push(
                    if k < s.chunks.len() {
                        Some(s.chunks[k as int])
                    } else {
                        None
                    },
                )
            } else {
                &&& tagged_collected(ev, chunk_size, tag).chunks == before.chunks
                &&& tagged_written(s, ev).1 == tagged_written(s, ev.drop_last()).1.push(None)
            }
        }),
        ev.len() > 0 && !(ev.last() is Text) ==> tagged_written(s, ev).1 == tagged_written(
            s,
            ev.drop_last(),
        ).1,
        ev.len() > 0 ==> (ev.last() matches HtmlEventView::Text(t) ==> {
            let before = tagged_collected(ev.drop_last(), chunk_size, tag);
            let c = tagged_collected(ev, chunk_size, tag);
            before.depth > 0 && !is_blank_spec(t) && s.chunks.len() >= c.chunks.len()
                && s.chunks.take(c.chunks.len() as int) == c.chunks ==> tagged_written(s, ev).1.last()
                == Some(t)
        }),
{
    lemma_tagged_walk(ev, chunk_size, tag, s);
    if ev.len() > 0 {
        lemma_tagged_walk(ev.drop_last(), chunk_size, tag, s);
        let c = tagged_collected(ev, chunk_size, tag);
        let k = tagged_collected(ev.drop_last(), chunk_size, tag).chunks.len() as int;
        if s.chunks.len() >= c.chunks.len() && s.chunks.take(c.chunks.len() as int) == c.chunks
            && 0 <= k < c.chunks.len() {
            assert(s.chunks[k] == s.chunks.take(c.chunks.len() as int)[k]);
        }
    }
}

/// A self-closing selected element opens nothing: collecting and writing leave their state
/// as it was.
pub proof fn law_tagged_self_closing_ignored(
    c: TaggedHtmlView,
    o: (TaggedHtmlView, Seq<Option<Seq<char>>>),
    chunk_size: nat,
    tag: Seq<char>,
)
    ensures
        (tagged_step(chunk_size, tag))(c, HtmlEventView::Open { self_closing: true }) == c,
        (tagged_out_step())(o, HtmlEventView::Open { self_closing: true }) == o,
{
}

// ---------------------------------------------------------------------------------------
// Whole elements with their markup.
// ---------------------------------------------------------------------------------------

/// One report while collecting whole elements: output bytes are decoded as
/// `String::from_utf8_lossy` does; text chunks and self-closing elements are left alone.
pub open spec fn markup_step() -> spec_fn(MarkupHtmlView, HtmlEventView) -> MarkupHtmlView {
    |s: MarkupHtmlView, e: HtmlEventView|
        match e {
            HtmlEventView::Open { self_closing } => if self_closing {
                s
            } else {
                markup_open_spec(s)
            },
            HtmlEventView::Close(name) => markup_close_spec(s, name),
            HtmlEventView::Text(_) => s,
            HtmlEventView::Output(b) => markup_output_spec(s, utf8_lossy(b)),
        }
}

/// Whether a report finds the depth below its machine limit.
pub open spec fn markup_fits() -> spec_fn(MarkupHtmlView, HtmlEventView) -> bool {
    |s: MarkupHtmlView, e: HtmlEventView|
        match e {
            HtmlEventView::Open { self_closing } => self_closing || s.depth < u32::MAX,
            _ => true,
        }
}

/// The state before anything is collected.
pub open spec fn markup_empty() -> MarkupHtmlView {
    MarkupHtmlView {
        depth: 0,
        parse_index: 0,
        trans_index: 0,
        buf: Seq::<char>::empty(),
        chunks: Seq::<Seq<char>>::empty(),
    }
}

/// Collects the markup of every top selected element from the rewriter's reports; refused where
/// the depth would leave its machine type.
pub fn markup_html_pass1(events: &Vec<HtmlEvent>) -> (r: Result<MarkupHtmlState, TransError>)
    ensures
        r is Ok <==> events_fit(markup_empty(), html_events_view(events@), markup_step(), markup_fits()),
        r matches Ok(s) ==> s@ == fold_events(markup_empty(), html_events_view(events@), markup_step()),
        r matches Err(e) ==> e is DocumentTooLarge,
{
    let ghost ev = html_events_view(events@);
    let ghost step = markup_step();
    let mut st = MarkupHtmlState::new();
    let mut i: usize = 0;
    assert(ev.take(0) =~= Seq::<HtmlEventView>::empty());
    while i < events.len()
        invariant
            ev == html_events_view(events@),
            step == markup_step(),
            i <= events@.len(),
            st@ == fold_events(markup_empty(), ev.take(i as int), step),
            events_fit(markup_empty(), ev.take(i as int), step, markup_fits()),
        decreases events@.len() - i,
    {
        proof {
            lemma_fold_step(markup_empty(), ev, step, i as int);
        }
        assert(ev.take(i + 1).drop_last() =~= ev.take(i as int));
        assert(ev.take(i + 1).last() == events@[i as int]@);
        let fits = match &events[i] {
            HtmlEvent::Open { self_closing } => *self_closing || st.depth < u32::MAX,
            _ => true,
        };
        if !fits {
            proof {
                if events_fit(markup_empty(), ev, step, markup_fits()) {
                    lemma_events_fit_prefix(markup_empty(), ev, step, markup_fits(), i + 1);
                }
            }
            return Err(TransError::DocumentTooLarge);
        }
        match &events[i] {
            HtmlEvent::Open { self_closing } => {
                if !*self_closing {
                    st.open_element();
                }
            },
            HtmlEvent::Close(name) => st.close_element(name.as_str()),
            HtmlEvent::Text(_) => {},
            HtmlEvent::Output(b) => st.collect_output(b.as_slice()),
        }
        i = i + 1;
    }
    assert(ev.take(i as int) =~= ev);
    Ok(st)
}

// ---------------------------------------------------------------------------------------
// Bare text of whole elements.
// ---------------------------------------------------------------------------------------

/// One report while collecting bare text: output and self-closing elements are left alone.
pub open spec fn stripped_step() -> spec_fn(StrippedHtmlView, HtmlEventView) -> StrippedHtmlView {
    |s: StrippedHtmlView, e: HtmlEventView|
        match e {
            HtmlEventView::Open { self_closing } => if self_closing {
                s
            } else {
                stripped_open_spec(s)
            },
            HtmlEventView::Close(_) => stripped_close_spec(s),
            HtmlEventView::Text(t) => if s.depth > 0 {
                StrippedHtmlView { buf: s.buf + t, ..s }
            } else {
                s
            },
            HtmlEventView::Output(_) => s,
        }
}

/// Whether a report finds the counters below their machine limits.
pub open spec fn stripped_fits() -> spec_fn(StrippedHtmlView, HtmlEventView) -> bool {
    |s: StrippedHtmlView, e: HtmlEventView|
        match e {
            HtmlEventView::Open { self_closing } => self_closing || s.depth < u32::MAX,
            HtmlEventView::Close(_) => s.index < u32::MAX,
            _ => true,
        }
}

/// The state before anything is collected.
pub open spec fn stripped_empty() -> StrippedHtmlView {
    StrippedHtmlView {
        start_tag_ended: false,
        depth: 0,
        index: 0,
        buf: Seq::<char>::empty(),
        pieces: Seq::<Seq<char>>::empty(),
    }
}

/// Collects the bare text of every top selected element from the rewriter's reports; refused
/// where a counter would leave its machine type.
pub fn stripped_html_pass1(events: &Vec<HtmlEvent>) -> (r: Result<StrippedHtmlState, TransError>)
    ensures
        r is Ok <==> events_fit(stripped_empty(), html_events_view(events@), stripped_step(), stripped_fits()),
        r matches Ok(s) ==> s@ == fold_events(stripped_empty(), html_events_view(events@), stripped_step()),
        r matches Err(e) ==> e is DocumentTooLarge,
{
    let ghost ev = html_events_view(events@);
    let ghost step = stripped_step();
    let mut st = StrippedHtmlState::new();
    let mut i: usize = 0;
    assert(ev.take(0) =~= Seq::<HtmlEventView>::empty());
    while i < events.len()
        invariant
            ev == html_events_view(events@),
            step == stripped_step(),
            i <= events@.len(),
            st@ == fold_events(stripped_empty(), ev.take(i as int), step),
            events_fit(stripped_empty(), ev.take(i as int), step, stripped_fits()),
        decreases events@.len() - i,
    {
        proof {
            lemma_fold_step(stripped_empty(), ev, step, i as int);
        }
        assert(ev.take(i + 1).drop_last() =~= ev.take(i as int));
        assert(ev.take(i + 1).last() == events@[i as int]@);
        let fits = match &events[i] {
            HtmlEvent::Open { self_closing } => *self_closing || st.depth < u32::MAX,
            HtmlEvent::Close(_) => st.index < u32::MAX,
            _ => true,
        };
        if !fits {
            proof {
                if events_fit(stripped_empty(), ev, step, stripped_fits()) {
                    lemma_events_fit_prefix(stripped_empty(), ev, step, stripped_fits(), i + 1);
                }
            }
            return Err(TransError::DocumentTooLarge);
        }
        match &events[i] {
            HtmlEvent::Open { self_closing } => {
                if !*self_closing {
                    st.open_element();
                }
            },
            HtmlEvent::Close(_) => st.close_element(),
            HtmlEvent::Text(t) => st.collect_text(t.as_str()),
            HtmlEvent::Output(_) => {},
        }
        i = i + 1;
    }
    assert(ev.take(i as int) =~= ev);
    Ok(st)
}

// ---------------------------------------------------------------------------------------
// Reading a document with the HTML rewriter.
// ---------------------------------------------------------------------------------------

/// The values of recorded element starts.
pub open spec fn starts_view(v: Seq<(bool, usize)>) -> Seq<(bool, nat)> {
    v.map_values(|x: (bool, usize)| (x.0, x.1 as nat))
}

/// The values of recorded end tags.
pub open spec fn ends_view(v: Seq<(String, usize)>) -> Seq<(Seq<char>, nat)> {
    v.map_values(|x: (String, usize)| (x.0@, x.1 as nat))
}

/// The values of recorded text chunks.
pub open spec fn texts_view(v: Seq<(usize, String)>) -> Seq<(nat, Seq<char>)> {
    v.map_values(|x: (usize, String)| (x.0 as nat, x.1@))
}

/// What a `lol_html::HtmlRewriter` with an element handler on `selector` reports while it
/// rewrites `html` (written in one call, then ended where `end` holds): for each selected
/// element, in order, whether its start tag closes it and the byte position of its start tag
/// (`source_location`); `None` where the selector does not parse or rewriting fails.
pub uninterp spec fn element_starts(selector: Seq<char>, html: Seq<u8>, end: bool) -> Option<Seq<(bool, nat)>>;

/// Runs a `lol_html::HtmlRewriter` over `html` with an element handler on `selector` that
/// records each element; named by `element_starts`.
#[verifier::external_body]
fn record_element_starts(selector: &str, html: &[u8], end: bool) -> (r: Option<Vec<(bool, usize)>>)
    ensures
        match element_starts(selector@, html@, end) {
            Some(m) => r matches Some(v) && starts_view(v@) == m,
            None => r is None,
        },
{
    let (tx, rx) = channel();
    let on_element = move |e: &mut Element| Ok(tx.send((e.is_self_closing(), e.source_location().bytes().start)).unwrap_or(()));
    let handlers = (Cow::Owned(selector.parse().ok()?), Handlers::default().element(on_element));
    let mut rewriter = HtmlRewriter::new(Settings::new().append_element_content_handler(handlers), |_: &[u8]| {});
    rewriter.write(html).ok()?;
    if end { rewriter.end().ok()?; }
    Some(rx.try_iter().collect())
}

/// What a `lol_html::HtmlRewriter` with an element handler on `selector`, which puts an end-tag
/// handler on each selected element that is not self-closing, reports while it rewrites `html`
/// (written in one call, then ended where `end` holds): for each such end tag, in order, the
/// element's name and the byte position of the end tag (`source_location`); `None` where the
/// selector does not parse or rewriting fails.
pub uninterp spec fn element_ends(selector: Seq<char>, html: Seq<u8>, end: bool) -> Option<Seq<(Seq<char>, nat)>>;

/// Runs a `lol_html::HtmlRewriter` over `html` with an element handler on `selector` that puts
/// an end-tag handler on each element that is not self-closing, which records the end tag;
/// named by `element_ends`.
#[verifier::external_body]
fn record_element_ends(selector: &str, html: &[u8], end: bool) -> (r: Option<Vec<(String, usize)>>)
    ensures
        match element_ends(selector@, html@, end) {
            Some(m) => r matches Some(v) && ends_view(v@) == m,
            None => r is None,
        },
{
    let (tx, rx) = channel();
    let handlers = (Cow::Owned(selector.parse().ok()?), Handlers::default().element(move |e: &mut Element| {
        let t = tx.clone();
        if e.is_self_closing() { return Ok(()); }
        e.on_end_tag(Box::new(move |c: &mut EndTag| Ok(t.send((c.name(), c.source_location().bytes().start)).unwrap_or(()))))
    }));
    let mut rewriter = HtmlRewriter::new(Settings::new().append_element_content_handler(handlers), |_: &[u8]| {});
    rewriter.write(html).ok()?;
    if end { rewriter.end().ok()?; }
    Some(rx.try_iter().collect())
}

/// What a `lol_html::HtmlRewriter` with a text handler on `selector` reports while it rewrites
/// `html` (written in one call, then ended where `end` holds): each text chunk, in order, with
/// the byte position where it starts (`source_location`); `None` where the selector does not
/// parse or rewriting fails.
pub uninterp spec fn html_text_chunks(selector: Seq<char>, html: Seq<u8>, end: bool) -> Option<Seq<(nat, Seq<char>)>>;

/// Runs a `lol_html::HtmlRewriter` over `html` with a text handler on `selector` that records
/// each text chunk; named by `html_text_chunks`.
#[verifier::external_body]
fn record_text_chunks(selector: &str, html: &[u8], end: bool) -> (r: Option<Vec<(usize, String)>>)
    ensures
        match html_text_chunks(selector@, html@, end) {
            Some(c) => r matches Some(v) && texts_view(v@) == c,
            None => r is None,
        },
{
    let (tx, rx) = channel();
    let on_text = move |c: &mut TextChunk| Ok(tx.send((c.source_location().bytes().start, c.as_str().into())).unwrap_or(()));
    let handlers = (Cow::Owned(selector.parse().ok()?), Handlers::default().text(on_text));
    let mut rewriter = HtmlRewriter::new(Settings::new().append_element_content_handler(handlers), |_: &[u8]| {});
    rewriter.write(html).ok()?;
    if end { rewriter.end().ok()?; }
    Some(rx.try_iter().collect())
}

/// The values of positioned reports.
pub open spec fn positioned_view(v: Seq<(usize, HtmlEvent)>) -> Seq<(nat, HtmlEventView)> {
    v.map_values(|x: (usize, HtmlEvent)| (x.0 as nat, x.1@))
}

/// Two lists of positioned reports, each in its own order, merged by position: on equal
/// positions the first list comes first.
pub open spec fn merged(a: Seq<(nat, HtmlEventView)>, b: Seq<(nat, HtmlEventView)>) -> Seq<(nat, HtmlEventView)>
    decreases a.len() + b.len(),
{
    if a.len() == 0 {
        b
    } else if b.len() == 0 {
        a
    } else if a[0].0 <= b[0].0 {
        seq![a[0]] + merged(a.drop_first(), b)
    } else {
        seq![b[0]] + merged(a, b.drop_first())
    }
}

fn copy_event(e: &HtmlEvent) -> (r: HtmlEvent)
    ensures
        r@ == e@,
{
    match e {
        HtmlEvent::Open { self_closing } => HtmlEvent::Open { self_closing: *self_closing },
        HtmlEvent::Close(n) => HtmlEvent::Close(n.clone()),
        HtmlEvent::Text(t) => HtmlEvent::Text(t.clone()),
        HtmlEvent::Output(b) => HtmlEvent::Output(vstd::slice::slice_to_vec(b.as_slice())),
    }
}

/// Merges two lists of positioned reports, as [`merged`] states.
fn merge_positioned(a: &Vec<(usize, HtmlEvent)>, b: &Vec<(usize, HtmlEvent)>) -> (r: Vec<(usize, HtmlEvent)>)
    ensures
        positioned_view(r@) == merged(positioned_view(a@), positioned_view(b@)),
{
    let ghost av = positioned_view(a@);
    let ghost bv = positioned_view(b@);
    let mut out: Vec<(usize, HtmlEvent)> = Vec::new();
    let mut i: usize = 0;
    let mut j: usize = 0;
    assert(av.skip(0) =~= av);
    assert(bv.skip(0) =~= bv);
    assert(positioned_view(out@) =~= Seq::<(nat, HtmlEventView)>::empty());
    while i < a.len() || j < b.len()
        invariant
            av == positioned_view(a@),
            bv == positioned_view(b@),
            i <= a@.len(),
            j <= b@.len(),
            merged(av, bv) == positioned_view(out@) + merged(av.skip(i as int), bv.skip(j as int)),
        decreases a@.len() + b@.len() - i - j,
    {
        let ghost before = positioned_view(out@);
        let from_a = i < a.len() && (j >= b.len() || a[i].0 <= b[j].0);
        if from_a {
            assert(av.skip(i as int)[0] == av[i as int]);
            assert(av.skip(i as int).drop_first() =~= av.skip(i + 1));
            let e = copy_event(&a[i].1);
            out.push((a[i].0, e));
            assert(positioned_view(out@) =~= before.push(av[i as int]));
            if j < b.len() {
                assert(bv.skip(j as int)[0] == bv[j as int]);
            } else {
                assert(bv.skip(j as int) =~= Seq::<(nat, HtmlEventView)>::empty());
            }
            assert(merged(av.skip(i as int), bv.skip(j as int)) =~= seq![av[i as int]] + merged(
                av.skip(i + 1),
                bv.skip(j as int),
            ));
            i = i + 1;
        } else {
            assert(bv.skip(j as int)[0] == bv[j as int]);
            assert(bv.skip(j as int).drop_first() =~= bv.skip(j + 1));
            let e = copy_event(&b[j].1);
            out.push((b[j].0, e));
            assert(positioned_view(out@) =~= before.push(bv[j as int]));
            if i < a.len() {
                assert(av.skip(i as int)[0] == av[i as int]);
            } else {
                assert(av.skip(i as int) =~= Seq::<(nat, HtmlEventView)>::empty());
            }
            assert(merged(av.skip(i as int), bv.skip(j as int)) =~= seq![bv[j as int]] + merged(
                av.skip(i as int),
                bv.skip(j + 1),
            ));
            j = j + 1;
        }
    }
    assert(av.skip(i as int) =~= Seq::<(nat, HtmlEventView)>::empty());
    assert(bv.skip(j as int) =~= Seq::<(nat, HtmlEventView)>::empty());
    out
}

/// The reports of starts of selected elements, placed at their positions.
pub open spec fn starts_positioned(m: Seq<(bool, nat)>) -> Seq<(nat, HtmlEventView)> {
    m.map_values(|x: (bool, nat)| (x.1, HtmlEventView::Open { self_closing: x.0 }))
}

/// The reports of end tags of selected elements, placed at their positions.
pub open spec fn ends_positioned(m: Seq<(Seq<char>, nat)>) -> Seq<(nat, HtmlEventView)> {
    m.map_values(|x: (Seq<char>, nat)| (x.1, HtmlEventView::Close(x.0)))
}

/// The reports of text chunks, placed at their positions.
pub open spec fn texts_positioned(m: Seq<(nat, Seq<char>)>) -> Seq<(nat, HtmlEventView)> {
    m.map_values(|x: (nat, Seq<char>)| (x.0, HtmlEventView::Text(x.1)))
}

/// The reports without their positions.
pub open spec fn unpositioned(m: Seq<(nat, HtmlEventView)>) -> Seq<HtmlEventView> {
    m.map_values(|x: (nat, HtmlEventView)| x.1)
}

/// The selected elements of a document, starts and ends, in document order.
pub open spec fn element_marks(selector: Seq<char>, html: Seq<u8>, end: bool) -> Option<Seq<(nat, HtmlEventView)>> {
    match (element_starts(selector, html, end), element_ends(selector, html, end)) {
        (Some(s), Some(e)) => Some(merged(starts_positioned(s), ends_positioned(e))),
        _ => None,
    }
}

/// The reports of a document read with an element handler on `selector` and a text handler on
/// every element ('*'), in document order (a text chunk before an element tag at the same
/// position); `None` where reading fails.
pub open spec fn document_events(selector: Seq<char>, html: Seq<u8>, end: bool) -> Option<Seq<HtmlEventView>> {
    match (element_marks(selector, html, end), html_text_chunks("*"@, html, end)) {
        (Some(m), Some(t)) => Some(unpositioned(merged(texts_positioned(t), m))),
        _ => None,
    }
}

/// Reads the selected elements of a document, starts and ends, in document order.
pub fn read_element_marks(selector: &str, html: &[u8], end: bool) -> (r: Option<Vec<(usize, HtmlEvent)>>)
    ensures
        match element_marks(selector@, html@, end) {
            Some(m) => r matches Some(v) && positioned_view(v@) == m,
            None => r is None,
        },
{
    let starts = match record_element_starts(selector, html, end) {
        Some(m) => m,
        None => return None,
    };
    let ends = match record_element_ends(selector, html, end) {
        Some(m) => m,
        None => return None,
    };
    let mut a: Vec<(usize, HtmlEvent)> = Vec::new();
    let mut k: usize = 0;
    while k < starts.len()
        invariant
            k <= starts@.len(),
            a@.len() == k,
            positioned_view(a@) == starts_positioned(starts_view(starts@)).take(k as int),
        decreases starts@.len() - k,
    {
        a.push((starts[k].1, HtmlEvent::Open { self_closing: starts[k].0 }));
        assert(positioned_view(a@)[k as int] == starts_positioned(starts_view(starts@))[k as int]);
        assert(positioned_view(a@) =~= starts_positioned(starts_view(starts@)).take(k + 1));
        k = k + 1;
    }
    assert(positioned_view(a@) =~= starts_positioned(starts_view(starts@)));
    let mut b: Vec<(usize, HtmlEvent)> = Vec::new();
    let mut k: usize = 0;
    while k < ends.len()
        invariant
            k <= ends@.len(),
            b@.len() == k,
            positioned_view(b@) == ends_positioned(ends_view(ends@)).take(k as int),
        decreases ends@.len() - k,
    {
        b.push((ends[k].1, HtmlEvent::Close(ends[k].0.clone())));
        assert(positioned_view(b@)[k as int] == ends_positioned(ends_view(ends@))[k as int]);
        assert(positioned_view(b@) =~= ends_positioned(ends_view(ends@)).take(k + 1));
        k = k + 1;
    }
    assert(positioned_view(b@) =~= ends_positioned(ends_view(ends@)));
    Some(merge_positioned(&a, &b))
}

/// Reads the reports of a document: its selected elements and its text chunks, in document
/// order.
pub fn read_document_events(selector: &str, html: &[u8], end: bool) -> (r: Option<Vec<HtmlEvent>>)
    ensures
        match document_events(selector@, html@, end) {
            Some(ev) => r matches Some(v) && html_events_view(v@) == ev,
            None => r is None,
        },
{
    let marks = match read_element_marks(selector, html, end) {
        Some(m) => m,
        None => return None,
    };
    let texts = match record_text_chunks("*", html, end) {
        Some(t) => t,
        None => return None,
    };
    let mut a: Vec<(usize, HtmlEvent)> = Vec::new();
    let mut k: usize = 0;
    while k < texts.len()
        invariant
            k <= texts@.len(),
            a@.len() == k,
            positioned_view(a@) == texts_positioned(texts_view(texts@)).take(k as int),
        decreases texts@.len() - k,
    {
        a.push((texts[k].0, HtmlEvent::Text(texts[k].1.clone())));
        assert(positioned_view(a@)[k as int] == texts_positioned(texts_view(texts@))[k as int]);
        assert(positioned_view(a@) =~= texts_positioned(texts_view(texts@)).take(k + 1));
        k = k + 1;
    }
    assert(positioned_view(a@) =~= texts_positioned(texts_view(texts@)));
    let all = merge_positioned(&a, &marks);
    let mut out: Vec<HtmlEvent> = Vec::new();
    let mut k: usize = 0;
    while k < all.len()
        invariant
            k <= all@.len(),
            out@.len() == k,
            html_events_view(out@) == unpositioned(positioned_view(all@)).take(k as int),
        decreases all@.len() - k,
    {
        let e = copy_event(&all[k].1);
        out.push(e);
        assert(html_events_view(out@)[k as int] == unpositioned(positioned_view(all@))[k as int]);
        assert(html_events_view(out@) =~= unpositioned(positioned_view(all@)).take(k + 1));
        k = k + 1;
    }
    assert(html_events_view(out@) =~= unpositioned(positioned_view(all@)));
    Some(out)
}

/// Collects the numbered pieces of an HTML document: its reports (the rewriter told that the
/// document ended) folded as [`tagged_html_pass1`] does.
pub fn tagged_html_collect(html: &[u8], selector: &str, chunk_size: usize, syntax_tag: &str) -> (r: Result<
    TaggedHtmlState,
    TransError,
>)
    ensures
        match document_events(selector@, html@, true) {
            None => r matches Err(e) && e is RewriteFailed,
            Some(ev) => {
                &&& r is Ok <==> events_fit(tagged_empty(), ev, tagged_step(chunk_size as nat, syntax_tag@), tagged_fits())
                &&& r matches Ok(s) ==> s@ == tagged_finish_spec(
                    fold_events(tagged_empty(), ev, tagged_step(chunk_size as nat, syntax_tag@)),
                )
                &&& r matches Err(e) ==> e is DocumentTooLarge
            },
        },
{
    match read_document_events(selector, html, true) {
        None => Err(TransError::RewriteFailed),
        Some(events) => tagged_html_pass1(&events, chunk_size, syntax_tag),
    }
}

/// Collects the bare text of the top selected elements of an HTML document: its reports (the
/// rewriter not told that the document ended) folded as [`stripped_html_pass1`] does.
pub fn stripped_html_collect(html: &[u8], selector: &str) -> (r: Result<StrippedHtmlState, TransError>)
    ensures
        match document_events(selector@, html@, false) {
            None => r matches Err(e) && e is RewriteFailed,
            Some(ev) => {
                &&& r is Ok <==> events_fit(stripped_empty(), ev, stripped_step(), stripped_fits())
                &&& r matches Ok(s) ==> s@ == fold_events(stripped_empty(), ev, stripped_step())
                &&& r matches Err(e) ==> e is DocumentTooLarge
            },
        },
{
    match read_document_events(selector, html, false) {
        None => Err(TransError::RewriteFailed),
        Some(events) => stripped_html_pass1(&events),
    }
}

/// Where the output that follows element mark `k` ends: at the next mark, or at the end of the
/// document.
pub open spec fn segment_end(m: Seq<(nat, HtmlEventView)>, k: int, len: nat) -> nat {
    if k + 1 < m.len() {
        m[k + 1].0
    } else {
        len
    }
}

/// Where the output before the first element mark ends.
pub open spec fn first_at(m: Seq<(nat, HtmlEventView)>, len: nat) -> nat {
    if m.len() > 0 {
        m[0].0
    } else {
        len
    }
}

/// Whether the positions of the element marks do not decrease and lie within the document.
pub open spec fn marks_in_order(m: Seq<(nat, HtmlEventView)>, len: nat) -> bool {
    &&& first_at(m, len) <= len
    &&& forall|k: int| 0 <= k < m.len() ==> #[trigger] m[k].0 <= segment_end(m, k, len) <= len
}

/// The element marks from `k` on, each followed by the bytes of the document up to the next mark
/// as output.
pub open spec fn with_output_from(html: Seq<u8>, m: Seq<(nat, HtmlEventView)>, k: int) -> Seq<HtmlEventView>
    decreases m.len() - k,
{
    if k < 0 || k >= m.len() {
        Seq::empty()
    } else {
        seq![m[k].1, HtmlEventView::Output(html.subrange(m[k].0 as int, segment_end(m, k, html.len()) as int))]
            + with_output_from(html, m, k + 1)
    }
}

/// The reports of a document whose rewriter changes nothing, so that its output is the
/// document itself: the bytes before the first element mark, then each mark followed by the
/// bytes up to the next one.
pub open spec fn with_output(html: Seq<u8>, m: Seq<(nat, HtmlEventView)>) -> Seq<HtmlEventView> {
    seq![HtmlEventView::Output(html.subrange(0, first_at(m, html.len()) as int))] + with_output_from(html, m, 0)
}

/// Puts the output between the element marks of a document, as [`with_output`] states; `None`
/// where the marks are out of order.
fn add_output(html: &[u8], marks: &Vec<(usize, HtmlEvent)>) -> (r: Option<Vec<HtmlEvent>>)
    ensures
        marks_in_order(positioned_view(marks@), html@.len()) ==> (r matches Some(v) && html_events_view(v@)
            == with_output(html@, positioned_view(marks@))),
        !marks_in_order(positioned_view(marks@), html@.len()) ==> r is None,
{
    let ghost m = positioned_view(marks@);
    let len = html.len();
    let first = if marks.len() > 0 { marks[0].0 } else { len };
    if first > len {
        return None;
    }
    let mut out: Vec<HtmlEvent> = Vec::new();
    out.push(HtmlEvent::Output(vstd::slice::slice_to_vec(vstd::slice::slice_subrange(html, 0, first))));
    let mut k: usize = 0;
    while k < marks.len()
        invariant
            m == positioned_view(marks@),
            len == html@.len(),
            k <= marks@.len(),
            first_at(m, len as nat) <= len,
            forall|j: int| 0 <= j < k ==> #[trigger] m[j].0 <= segment_end(m, j, len as nat) <= len,
            with_output(html@, m) == html_events_view(out@) + with_output_from(html@, m, k as int),
        decreases marks@.len() - k,
    {
        let at = marks[k].0;
        let next = if k + 1 < marks.len() { marks[k + 1].0 } else { len };
        if at > next || next > len {
            proof {
                assert(!(m[k as int].0 <= segment_end(m, k as int, len as nat) <= len));
            }
            return None;
        }
        let ghost before = html_events_view(out@);
        let e = copy_event(&marks[k].1);
        out.push(e);
        out.push(HtmlEvent::Output(vstd::slice::slice_to_vec(vstd::slice::slice_subrange(html, at, next))));
        assert(html_events_view(out@) =~= before + seq![m[k as int].1, HtmlEventView::Output(
            html@.subrange(at as int, next as int),
        )]);
        assert(with_output_from(html@, m, k as int) =~= seq![m[k as int].1, HtmlEventView::Output(
            html@.subrange(at as int, next as int),
        )] + with_output_from(html@, m, k + 1));
        k = k + 1;
    }
    assert(with_output_from(html@, m, k as int) =~= Seq::<HtmlEventView>::empty());
    Some(out)
}

/// Collects the markup of the top selected elements of an HTML document: its element reports
/// (the rewriter not told that the document ended), with the document's bytes between them as
/// the rewriter's output, folded as [`markup_html_pass1`] does.
pub fn markup_html_collect(html: &[u8], selector: &str) -> (r: Result<MarkupHtmlState, TransError>)
    ensures
        match element_marks(selector@, html@, false) {
            None => r matches Err(e) && e is RewriteFailed,
            Some(m) => if !marks_in_order(m, html@.len()) {
                r matches Err(e) && e is RewriteFailed
            } else {
                let ev = with_output(html@, m);
                &&& r is Ok <==> events_fit(markup_empty(), ev, markup_step(), markup_fits())
                &&& r matches Ok(s) ==> s@ == fold_events(markup_empty(), ev, markup_step())
                &&& r matches Err(e) ==> e is DocumentTooLarge
            },
        },
{
    let marks = match read_element_marks(selector, html, false) {
        Some(m) => m,
        None => return Err(TransError::RewriteFailed),
    };
    match add_output(html, &marks) {
        Some(events) => markup_html_pass1(&events),
        None => Err(TransError::RewriteFailed),
    }
}

// ---------------------------------------------------------------------------------------
// Writing the output with the HTML rewriter.
// ---------------------------------------------------------------------------------------

/// What a `lol_html::HtmlRewriter` with a text handler on `selector` writes for `html`
/// (written in one call, then ended) where the handler replaces, as text, the text chunk it is
/// called with for the `k`-th time by `replacements[k]` where that is a text and leaves it
/// otherwise; `None` where the selector does not parse or rewriting fails.
pub uninterp spec fn rewritten_text_chunks(
    selector: Seq<char>,
    html: Seq<u8>,
    replacements: Seq<Option<Seq<char>>>,
) -> Option<Seq<u8>>;

/// Rewrites `html` with a text handler on `selector` that replaces each text chunk by the next
/// replacement, where there is one; named by `rewritten_text_chunks`.
#[verifier::external_body]
fn rewrite_text_chunks(selector: &str, html: &[u8], replacements: Vec<Option<String>>) -> (r: Option<Vec<u8>>)
    ensures
        match rewritten_text_chunks(selector@, html@, opts_view(replacements@)) {
            Some(b) => r matches Some(v) && v@ == b,
            None => r is None,
        },
{
    let mut next = replacements.into_iter();
    let on_text = move |c: &mut TextChunk| {
        if let Some(Some(t)) = next.next() { c.replace(&t, ContentType::Text); }
        Ok(())
    };
    let handlers = (Cow::Owned(selector.parse().ok()?), Handlers::default().text(on_text));
    let mut out = Vec::new();
    let mut rewriter = HtmlRewriter::new(Settings::new().append_element_content_handler(handlers), |c: &[u8]| out.extend_from_slice(c));
    rewriter.write(html).ok()?;
    rewriter.end().ok()?;
    Some(out)
}

/// What a `lol_html::HtmlRewriter` with an element handler on `selector` writes for `html`
/// (written in one call, then ended) where the handler replaces, as HTML, the whole element it
/// is called with for the `k`-th time (`Element::replace`) by `replacements[k]` where that is
/// a text and leaves it otherwise; `None` where the selector does not parse or rewriting
/// fails.
pub uninterp spec fn rewritten_elements(
    selector: Seq<char>,
    html: Seq<u8>,
    replacements: Seq<Option<Seq<char>>>,
) -> Option<Seq<u8>>;

/// Rewrites `html` with an element handler on `selector` that replaces each element by the next
/// replacement, where there is one; named by `rewritten_elements`.
#[verifier::external_body]
fn replace_elements(selector: &str, html: &[u8], replacements: Vec<Option<String>>) -> (r: Option<Vec<u8>>)
    ensures
        match rewritten_elements(selector@, html@, opts_view(replacements@)) {
            Some(b) => r matches Some(v) && v@ == b,
            None => r is None,
        },
{
    let mut next = replacements.into_iter();
    let on_element = move |e: &mut Element| {
        if let Some(Some(t)) = next.next() { e.replace(&t, ContentType::Html); }
        Ok(())
    };
    let handlers = (Cow::Owned(selector.parse().ok()?), Handlers::default().element(on_element));
    let mut out = Vec::new();
    let mut rewriter = HtmlRewriter::new(Settings::new().append_element_content_handler(handlers), |c: &[u8]| out.extend_from_slice(c));
    rewriter.write(html).ok()?;
    rewriter.end().ok()?;
    Some(out)
}

/// What a `lol_html::HtmlRewriter` with an element handler on `selector` writes for `html`
/// (written in one call, then ended) where the handler replaces, as HTML, the content of the
/// element it is called with for the `k`-th time (`Element::set_inner_content`) by
/// `replacements[k]` where that is a text and leaves it otherwise; `None` where the selector
/// does not parse or rewriting fails.
pub uninterp spec fn rewritten_element_contents(
    selector: Seq<char>,
    html: Seq<u8>,
    replacements: Seq<Option<Seq<char>>>,
) -> Option<Seq<u8>>;

/// Rewrites `html` with an element handler on `selector` that replaces the content of each
/// element by the next replacement, where there is one; named by `rewritten_element_contents`.
#[verifier::external_body]
fn replace_element_contents(selector: &str, html: &[u8], replacements: Vec<Option<String>>) -> (r: Option<Vec<u8>>)
    ensures
        match rewritten_element_contents(selector@, html@, opts_view(replacements@)) {
            Some(b) => r matches Some(v) && v@ == b,
            None => r is None,
        },
{
    let mut next = replacements.into_iter();
    let on_element = move |e: &mut Element| {
        if let Some(Some(t)) = next.next() { e.set_inner_content(&t, ContentType::Html); }
        Ok(())
    };
    let handlers = (Cow::Owned(selector.parse().ok()?), Handlers::default().element(on_element));
    let mut out = Vec::new();
    let mut rewriter = HtmlRewriter::new(Settings::new().append_element_content_handler(handlers), |c: &[u8]| out.extend_from_slice(c));
    rewriter.write(html).ok()?;
    rewriter.end().ok()?;
    Some(out)
}

/// The state of choosing what replaces each selected element: how many are open, how many top
/// elements were met, and the choices so far, one for each element start.
pub type ChoiceState = (nat, nat, Seq<Option<Seq<char>>>);

/// One report while choosing: a top element that is not self-closing takes the next text (or
/// nothing, where none is left), any other element start takes no replacement, and an end
/// closes one level.
pub open spec fn choice_step(texts: Seq<Seq<char>>) -> spec_fn(ChoiceState, HtmlEventView) -> ChoiceState {
    |p: ChoiceState, e: HtmlEventView|
        match e {
            HtmlEventView::Open { self_closing } => if self_closing {
                (p.0, p.1, p.2.push(None))
            } else if p.0 == 0 {
                (
                    1,
                    p.1 + 1,
                    p.2.push(Some(if p.1 < texts.len() { texts[p.1 as int] } else { Seq::<char>::empty() })),
                )
            } else {
                (p.0 + 1, p.1, p.2.push(None))
            },
            HtmlEventView::Close(_) => (if p.0 >= 1 { (p.0 - 1) as nat } else { 0 }, p.1, p.2),
            _ => p,
        }
}

/// The replacement of each selected element start, in order, for the element reports `ev`:
/// the `k`-th top element that is not self-closing takes `texts[k]`.
pub open spec fn element_choices(ev: Seq<HtmlEventView>, texts: Seq<Seq<char>>) -> Seq<Option<Seq<char>>> {
    fold_events((0nat, 0nat, Seq::<Option<Seq<char>>>::empty()), ev, choice_step(texts)).2
}

/// Chooses the replacement of each selected element start, as [`element_choices`] states.
fn choose_replacements(marks: &Vec<(usize, HtmlEvent)>, texts: &Vec<String>) -> (r: Vec<Option<String>>)
    ensures
        opts_view(r@) == element_choices(unpositioned(positioned_view(marks@)), strings_view(texts@)),
{
    let ghost ev = unpositioned(positioned_view(marks@));
    let ghost step = choice_step(strings_view(texts@));
    let ghost init = (0nat, 0nat, Seq::<Option<Seq<char>>>::empty());
    let mut depth: usize = 0;
    let mut count: usize = 0;
    let mut out: Vec<Option<String>> = Vec::new();
    let mut i: usize = 0;
    assert(ev.take(0) =~= Seq::<HtmlEventView>::empty());
    assert(opts_view(out@) =~= Seq::<Option<Seq<char>>>::empty());
    while i < marks.len()
        invariant
            ev == unpositioned(positioned_view(marks@)),
            step == choice_step(strings_view(texts@)),
            init == (0nat, 0nat, Seq::<Option<Seq<char>>>::empty()),
            i <= marks@.len(),
            depth <= i,
            count <= i,
            fold_events(init, ev.take(i as int), step) == (depth as nat, count as nat, opts_view(out@)),
        decreases marks@.len() - i,
    {
        proof {
            lemma_fold_step(init, ev, step, i as int);
        }
        assert(ev[i as int] == marks@[i as int].1@);
        let ghost before = opts_view(out@);
        match &marks[i].1 {
            HtmlEvent::Open { self_closing } => {
                if *self_closing {
                    out.push(None);
                } else if depth == 0 {
                    let t = if count < texts.len() {
                        texts[count].clone()
                    } else {
                        String::new()
                    };
                    out.push(Some(t));
                    depth = 1;
                    count = count + 1;
                } else {
                    out.push(None);
                    depth = depth + 1;
                }
                assert(opts_view(out@) =~= before.push(opts_view(out@).last()));
            },
            HtmlEvent::Close(_) => {
                if depth >= 1 {
                    depth = depth - 1;
                }
            },
            _ => {},
        }
        i = i + 1;
    }
    assert(ev.take(i as int) =~= ev);
    out
}

/// `n` sibling selected elements, none of them self-closing: each opens and closes.
pub open spec fn sibling_elements(n: nat, name: Seq<char>) -> Seq<HtmlEventView>
    decreases n,
{
    if n == 0 {
        Seq::<HtmlEventView>::empty()
    } else {
        sibling_elements((n - 1) as nat, name).push(HtmlEventView::Open { self_closing: false }).push(
            HtmlEventView::Close(name),
        )
    }
}

/// The piece that the `k`-th top element takes: `texts[k]`, or nothing where none is left.
pub open spec fn piece_for(texts: Seq<Seq<char>>, k: int) -> Option<Seq<char>> {
    Some(
        if k < texts.len() {
            texts[k]
        } else {
            Seq::<char>::empty()
        },
    )
}

proof fn lemma_sibling_choices(n: nat, name: Seq<char>, texts: Seq<Seq<char>>)
    ensures
        fold_events((0nat, 0nat, Seq::<Option<Seq<char>>>::empty()), sibling_elements(n, name), choice_step(texts))
            == (0nat, n, Seq::new(n, |k: int| piece_for(texts, k))),
    decreases n,
{
    if n > 0 {
        let prev = sibling_elements((n - 1) as nat, name);
        let opened = prev.push(HtmlEventView::Open { self_closing: false });
        let init = (0nat, 0nat, Seq::<Option<Seq<char>>>::empty());
        let step = choice_step(texts);
        let ev = sibling_elements(n, name);
        lemma_sibling_choices((n - 1) as nat, name, texts);
        assert(ev =~= opened.push(HtmlEventView::Close(name)));
        assert(ev.drop_last() =~= opened);
        assert(opened.drop_last() =~= prev);
        let f1 = fold_events(init, prev, step);
        let f2 = fold_events(init, opened, step);
        assert(f2 == step(f1, HtmlEventView::Open { self_closing: false }));
        assert(f2 == (1nat, n, f1.2.push(piece_for(texts, n - 1))));
        assert(fold_events(init, ev, step) == step(f2, HtmlEventView::Close(name)));
        assert(Seq::new((n - 1) as nat, |k: int| piece_for(texts, k)).push(piece_for(texts, n - 1))
            =~= Seq::new(n, |k: int| piece_for(texts, k)));
    } else {
        assert(Seq::new(0nat, |k: int| piece_for(texts, k)) =~= Seq::<Option<Seq<char>>>::empty());
    }
}

/// Sibling top elements take the pieces in order: of `n` selected elements side by side, the
/// `k`-th is replaced by `texts[k]` (by nothing where no piece is left).
pub proof fn law_siblings_take_pieces_in_order(n: nat, name: Seq<char>, texts: Seq<Seq<char>>)
    ensures
        element_choices(sibling_elements(n, name), texts).len() == n,
        forall|k: int|
            0 <= k < n ==> #[trigger] element_choices(sibling_elements(n, name), texts)[k] == Some(
                if k < texts.len() {
                    texts[k]
                } else {
                    Seq::<char>::empty()
                },
            ),
{
    lemma_sibling_choices(n, name, texts);
}

/// Choosing and collecting number the top elements alike: after any reports, choosing is as
/// deep in selected elements as collecting whole elements or their bare text, and has met one
/// top element more than collecting has made pieces while such an element is open, as many
/// otherwise; so a top element that is not self-closing takes the piece that collecting makes
/// of it, every other element start (self-closing or nested) takes no replacement, and the
/// other reports add no choice.
pub proof fn law_choices_follow_collect(ev: Seq<HtmlEventView>, texts: Seq<Seq<char>>)
    ensures
        ({
            let ch = fold_events((0nat, 0nat, Seq::<Option<Seq<char>>>::empty()), ev, choice_step(texts));
            let m = fold_events(markup_empty(), ev, markup_step());
            let b = fold_events(stripped_empty(), ev, stripped_step());
            &&& ch.0 == m.depth
            &&& ch.1 == m.chunks.len() + (if m.depth > 0 { 1int } else { 0int })
            &&& ch.0 == b.depth
            &&& ch.1 == b.pieces.len() + (if b.depth > 0 { 1int } else { 0int })
        }),
        ev.len() > 0 && ev.last() == (HtmlEventView::Open { self_closing: false }) && fold_events(
            markup_empty(),
            ev.drop_last(),
            markup_step(),
        ).depth == 0 ==> element_choices(ev, texts).last() == piece_for(
            texts,
            fold_events(markup_empty(), ev.drop_last(), markup_step()).chunks.len() as int,
        ),
        ev.len() > 0 && ev.last() is Open && !(ev.last() == (HtmlEventView::Open {
            self_closing: false,
        }) && fold_events(markup_empty(), ev.drop_last(), markup_step()).depth == 0)
            ==> element_choices(ev, texts) == element_choices(ev.drop_last(), texts).push(None),
        ev.len() > 0 && !(ev.last() is Open) ==> element_choices(ev, texts) == element_choices(
            ev.drop_last(),
            texts,
        ),
    decreases ev.len(),
{
    if ev.len() > 0 {
        law_choices_follow_collect(ev.drop_last(), texts);
    }
}

/// Writes an HTML document with its numbered pieces put back: its reports (the rewriter told
/// that the document ended) give the replacement of each text chunk, as
/// [`tagged_html_replacements`] chooses them from `state`, and the rewriter puts them in.
pub fn tagged_html_write(state: &mut TaggedHtmlState, html: &[u8], selector: &str) -> (r: Result<Vec<u8>, TransError>)
    ensures
        match document_events(selector@, html@, true) {
            None => r matches Err(e) && e is RewriteFailed,
            Some(ev) => {
                let start = (TaggedHtmlView { depth: 0, parse_index: 0, ..old(state)@ }, Seq::<Option<Seq<char>>>::empty());
                &&& !events_fit(start, ev, tagged_out_step(), tagged_out_fits()) ==> (r matches Err(e) && e is DocumentTooLarge)
                &&& events_fit(start, ev, tagged_out_step(), tagged_out_fits()) ==> match rewritten_text_chunks(
                    "*"@,
                    html@,
                    fold_events(start, ev, tagged_out_step()).1,
                ) {
                    Some(b) => r matches Ok(v) && v@ == b,
                    None => r matches Err(e) && e is RewriteFailed,
                }
            },
        },
{
    let events = match read_document_events(selector, html, true) {
        Some(v) => v,
        None => return Err(TransError::RewriteFailed),
    };
    let replacements = tagged_html_replacements(state, &events)?;
    match rewrite_text_chunks("*", html, replacements) {
        Some(b) => Ok(b),
        None => Err(TransError::RewriteFailed),
    }
}

/// Writes an HTML document with each top selected element replaced by its translated markup:
/// the element reports (the rewriter told that the document ended) choose, as
/// [`element_choices`] states, the piece of each top element, and the rewriter replaces it.
pub fn markup_html_write(state: &MarkupHtmlState, html: &[u8], selector: &str) -> (r: Result<Vec<u8>, TransError>)
    ensures
        match element_marks(selector@, html@, true) {
            None => r matches Err(e) && e is RewriteFailed,
            Some(m) => match rewritten_elements(selector@, html@, element_choices(unpositioned(m), state@.chunks)) {
                Some(b) => r matches Ok(v) && v@ == b,
                None => r matches Err(e) && e is RewriteFailed,
            },
        },
{
    let marks = match read_element_marks(selector, html, true) {
        Some(m) => m,
        None => return Err(TransError::RewriteFailed),
    };
    let choices = choose_replacements(&marks, &state.chunk_vec);
    match replace_elements(selector, html, choices) {
        Some(b) => Ok(b),
        None => Err(TransError::RewriteFailed),
    }
}

/// Writes an HTML document with the content of each top selected element replaced by its
/// translated text: the element reports (the rewriter told that the document ended) choose, as
/// [`element_choices`] states, the piece of each top element, and the rewriter puts it in.
pub fn stripped_html_write(state: &StrippedHtmlState, html: &[u8], selector: &str) -> (r: Result<Vec<u8>, TransError>)
    ensures
        match element_marks(selector@, html@, true) {
            None => r matches Err(e) && e is RewriteFailed,
            Some(m) => match rewritten_element_contents(selector@, html@, element_choices(unpositioned(m), state@.pieces)) {
                Some(b) => r matches Ok(v) && v@ == b,
                None => r matches Err(e) && e is RewriteFailed,
            },
        },
{
    let marks = match read_element_marks(selector, html, true) {
        Some(m) => m,
        None => return Err(TransError::RewriteFailed),
    };
    let choices = choose_replacements(&marks, &state.pieces);
    match replace_element_contents(selector, html, choices) {
        Some(b) => Ok(b),
        None => Err(TransError::RewriteFailed),
    }
}

} // verus!
