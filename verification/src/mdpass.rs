//! The passes of MarkDown whose text pieces are numbered by tags: the parser's events, read
//! from the document, are folded through the state machine of [`crate::markdown`], and the
//! writer puts out the events as the state machine decides.
use vstd::prelude::*;
use pulldown_cmark::{Event as CmEvent, Options as CmOptions, Parser as CmParser, TagEnd as CmTag};
use crate::markdown::{
    events_view, md_collect_spec, md_output_spec, md_output_value, outputs_view, MdEvent,
    md_event_text,
    MdEventView, MdOutput, MdOutputView, MdTag, TaggedMdState, TaggedMdView,
};
use crate::markdown::MdTag::{
    FootnoteDefinition, Heading, HtmlBlock, List, MetadataBlock, Paragraph, Table,
};
use crate::settings::TransError;
use crate::strutil::is_blank_spec;

verus! {

/// The events that a `pulldown_cmark::Parser` built with every option reads from `text`, each
/// as an [`MdEvent`].
pub uninterp spec fn markdown_events(text: Seq<char>) -> Seq<MdEventView>;

/// Reads the events of `text` with `pulldown_cmark::Parser::new_ext` and every option; named by
/// `markdown_events`.
#[verifier::external_body]
fn read_markdown_events(text: &str) -> (r: Vec<MdEvent>)
    ensures
        events_view(r@) == markdown_events(text@),
{
    let tag = |t| match t {
        CmTag::Paragraph => Paragraph, CmTag::Heading(_) => Heading, CmTag::List(_) => List,
        CmTag::MetadataBlock(_) => MetadataBlock, CmTag::Table => Table,
        CmTag::FootnoteDefinition => FootnoteDefinition, CmTag::HtmlBlock => HtmlBlock,
        _ => MdTag::Other,
    };
    CmParser::new_ext(text, CmOptions::all()).map(|e| match e {
        CmEvent::Start(t) => MdEvent::Start(tag(t.to_end())), CmEvent::End(t) => MdEvent::End(tag(t)),
        CmEvent::Text(s) => MdEvent::Text(s.to_string()), CmEvent::Code(s) => MdEvent::Code(s.to_string()),
        CmEvent::Html(s) => MdEvent::Html(s.to_string()), _ => MdEvent::Other,
    }).collect()
}

/// What `pulldown_cmark_to_cmark::cmark_with_options` writes for the events of `text` (read as
/// [`markdown_events`] reads them) with `outputs` applied, one for each event in order: kept,
/// dropped, or with its text replaced; `None` where writing fails.
pub uninterp spec fn cmark_rendered(
    text: Seq<char>,
    outputs: Seq<MdOutputView>,
    increment_bullets: bool,
    list_token: char,
) -> Option<Seq<char>>;

/// Reads the events of `text` again, applies `outputs` to them one by one, and writes them with
/// `cmark_with_options`, ordered-list numbers increased where `increment_bullets` holds and
/// `list_token` for bullets; named by `cmark_rendered`.
#[verifier::external_body]
fn render_markdown(text: &str, outputs: Vec<MdOutput>, increment_bullets: bool, list_token: char) -> (r:
    Option<String>)
    ensures
        crate::config::opt_view(r) == cmark_rendered(text@, outputs_view(outputs@), increment_bullets, list_token),
{
    let options = pulldown_cmark_to_cmark::Options {
        increment_ordered_list_bullets: increment_bullets, list_token, ..Default::default()
    };
    let events = CmParser::new_ext(text, CmOptions::all()).zip(outputs).filter_map(|(e, o)| match o {
        MdOutput::Keep => Some(e), MdOutput::Drop => None,
        MdOutput::Replace(t) => Some(match e {
            CmEvent::Text(_) => CmEvent::Text(t.into()), CmEvent::Code(_) => CmEvent::Code(t.into()),
            _ => CmEvent::Html(t.into()),
        }),
    });
    let mut out = String::new();
    let written = pulldown_cmark_to_cmark::cmark_with_options(events, &mut out, CmOptions::all(), options);
    written.ok().map(|_| out)
}

/// The state before anything is collected.
pub open spec fn md_empty() -> TaggedMdView {
    TaggedMdView {
        new_tag: false,
        output_html: false,
        depth: 0,
        chunk_index: 0,
        chunk_trans_index: 0,
        group_buf: Seq::<char>::empty(),
        groups: Seq::<Seq<char>>::empty(),
        chunks: Seq::<Seq<char>>::empty(),
        html_index: 0,
        html_trans_index: 0,
        html_buf: Seq::<char>::empty(),
        htmls: Seq::<Seq<char>>::empty(),
    }
}

/// The state after collecting the events `ev` from `s`.
pub open spec fn md_collect_all(s: TaggedMdView, ev: Seq<MdEventView>, chunk_size: nat, tag: Seq<char>) -> TaggedMdView
    decreases ev.len(),
{
    if ev.len() == 0 {
        s
    } else {
        md_collect_spec(md_collect_all(s, ev.drop_last(), chunk_size, tag), ev.last(), chunk_size, tag)
    }
}

/// Whether the counters stay within their machine types while collecting `ev` from `s`: before
/// each event, fewer than `usize::MAX` pieces and fewer than `u32::MAX` open blocks.
pub open spec fn md_collect_fits(s: TaggedMdView, ev: Seq<MdEventView>, chunk_size: nat, tag: Seq<char>) -> bool
    decreases ev.len(),
{
    ev.len() == 0 || (md_collect_fits(s, ev.drop_last(), chunk_size, tag) && {
        let p = md_collect_all(s, ev.drop_last(), chunk_size, tag);
        p.chunk_index < usize::MAX && p.depth < u32::MAX
    })
}

/// The end of collecting: a group left unfinished is closed.
pub open spec fn md_finish(s: TaggedMdView) -> TaggedMdView {
    if s.group_buf.len() > 0 {
        TaggedMdView { group_buf: Seq::<char>::empty(), groups: s.groups.push(s.group_buf), ..s }
    } else {
        s
    }
}

proof fn lemma_collect_fits_prefix(s: TaggedMdView, ev: Seq<MdEventView>, chunk_size: nat, tag: Seq<char>, k: int)
    requires
        0 <= k <= ev.len(),
        md_collect_fits(s, ev, chunk_size, tag),
    ensures
        md_collect_fits(s, ev.take(k), chunk_size, tag),
    decreases ev.len(),
{
    if k == ev.len() {
        assert(ev.take(k) =~= ev);
    } else {
        lemma_collect_fits_prefix(s, ev.drop_last(), chunk_size, tag, k);
        assert(ev.drop_last().take(k) =~= ev.take(k));
    }
}

/// Collects the numbered pieces of a MarkDown document: every event that the parser reads goes
/// through [`TaggedMdState::collect`], and the last group is closed. The document is refused
/// where the counters would leave their machine types.
pub fn tagged_md_pass1(text: &str, chunk_size: usize, syntax_tag: &str) -> (r: Result<TaggedMdState, TransError>)
    ensures
        r is Ok <==> md_collect_fits(md_empty(), markdown_events(text@), chunk_size as nat, syntax_tag@),
        r matches Ok(s) ==> s@ == md_finish(
            md_collect_all(md_empty(), markdown_events(text@), chunk_size as nat, syntax_tag@),
        ),
        r matches Err(e) ==> e is DocumentTooLarge,
{
    let events = read_markdown_events(text);
    let ghost ev = events_view(events@);
    let mut st = TaggedMdState::new();
    let mut i: usize = 0;
    assert(ev.take(0) =~= Seq::<MdEventView>::empty());
    while i < events.len()
        invariant
            ev == events_view(events@),
            ev == markdown_events(text@),
            i <= events@.len(),
            st@ == md_collect_all(md_empty(), ev.take(i as int), chunk_size as nat, syntax_tag@),
            md_collect_fits(md_empty(), ev.take(i as int), chunk_size as nat, syntax_tag@),
        decreases events@.len() - i,
    {
        assert(ev.take(i + 1).drop_last() =~= ev.take(i as int));
        assert(ev.take(i + 1).last() == events@[i as int]@);
        if st.chunk_index == usize::MAX || st.depth == u32::MAX {
            proof {
                if md_collect_fits(md_empty(), ev, chunk_size as nat, syntax_tag@) {
                    lemma_collect_fits_prefix(md_empty(), ev, chunk_size as nat, syntax_tag@, i + 1);
                }
            }
            return Err(TransError::DocumentTooLarge);
        }
        st.collect(&events[i], chunk_size, syntax_tag);
        i = i + 1;
    }
    assert(ev.take(i as int) =~= ev);
    st.finish_collecting();
    Ok(st)
}

/// The state and the outputs after writing the events `ev` from `s`.
pub open spec fn md_outputs_all(s: TaggedMdView, ev: Seq<MdEventView>, trans_code: bool) -> (TaggedMdView, Seq<MdOutputView>)
    decreases ev.len(),
{
    if ev.len() == 0 {
        (s, Seq::empty())
    } else {
        let p = md_outputs_all(s, ev.drop_last(), trans_code);
        (md_output_spec(p.0, ev.last(), trans_code).0, p.1.push(md_output_value(p.0, ev.last(), trans_code)))
    }
}

/// Whether the counters stay within their machine types while writing `ev` from `s`.
pub open spec fn md_outputs_fit(s: TaggedMdView, ev: Seq<MdEventView>, trans_code: bool) -> bool
    decreases ev.len(),
{
    ev.len() == 0 || (md_outputs_fit(s, ev.drop_last(), trans_code) && {
        let p = md_outputs_all(s, ev.drop_last(), trans_code).0;
        p.chunk_index < usize::MAX && p.depth < u32::MAX && p.html_index < usize::MAX
    })
}

proof fn lemma_outputs_fit_prefix(s: TaggedMdView, ev: Seq<MdEventView>, trans_code: bool, k: int)
    requires
        0 <= k <= ev.len(),
        md_outputs_fit(s, ev, trans_code),
    ensures
        md_outputs_fit(s, ev.take(k), trans_code),
    decreases ev.len(),
{
    if k == ev.len() {
        assert(ev.take(k) =~= ev);
    } else {
        lemma_outputs_fit_prefix(s, ev.drop_last(), trans_code, k);
        assert(ev.drop_last().take(k) =~= ev.take(k));
    }
}

/// The state at the start of writing: no block open, no piece and no HTML block met.
pub open spec fn md_output_start(s: TaggedMdView) -> TaggedMdView {
    TaggedMdView { depth: 0, chunk_index: 0, html_index: 0, ..s }
}

/// What each event of a MarkDown document becomes while writing it from `state`: every event
/// that the parser reads goes through [`TaggedMdState::output`]. The document is refused where
/// the counters would leave their machine types.
pub fn tagged_md_outputs(state: &mut TaggedMdState, text: &str, trans_code: bool) -> (r: Result<Vec<MdOutput>, TransError>)
    ensures
        r is Ok <==> md_outputs_fit(md_output_start(old(state)@), markdown_events(text@), trans_code),
        r matches Ok(v) ==> outputs_view(v@) == md_outputs_all(
            md_output_start(old(state)@),
            markdown_events(text@),
            trans_code,
        ).1 && final(state)@ == md_outputs_all(md_output_start(old(state)@), markdown_events(text@), trans_code).0,
        r matches Err(e) ==> e is DocumentTooLarge,
{
    state.begin_output();
    let ghost start = state@;
    let events = read_markdown_events(text);
    let ghost ev = events_view(events@);
    let mut outs: Vec<MdOutput> = Vec::new();
    let mut i: usize = 0;
    assert(ev.take(0) =~= Seq::<MdEventView>::empty());
    assert(outputs_view(outs@) =~= Seq::<MdOutputView>::empty());
    while i < events.len()
        invariant
            ev == events_view(events@),
            ev == markdown_events(text@),
            start == md_output_start(old(state)@),
            i <= events@.len(),
            state@ == md_outputs_all(start, ev.take(i as int), trans_code).0,
            outputs_view(outs@) == md_outputs_all(start, ev.take(i as int), trans_code).1,
            md_outputs_fit(start, ev.take(i as int), trans_code),
        decreases events@.len() - i,
    {
        assert(ev.take(i + 1).drop_last() =~= ev.take(i as int));
        assert(ev.take(i + 1).last() == events@[i as int]@);
        if state.chunk_index == usize::MAX || state.depth == u32::MAX || state.html_index == usize::MAX {
            proof {
                if md_outputs_fit(start, ev, trans_code) {
                    lemma_outputs_fit_prefix(start, ev, trans_code, i + 1);
                }
            }
            return Err(TransError::DocumentTooLarge);
        }
        let o = state.output(&events[i], trans_code);
        outs.push(o);
        assert(outputs_view(outs@) =~= md_outputs_all(start, ev.take(i as int), trans_code).1.push(o@));
        i = i + 1;
    }
    assert(ev.take(i as int) =~= ev);
    Ok(outs)
}

proof fn lemma_md_walk(ev: Seq<MdEventView>, chunk_size: nat, tag: Seq<char>, s: TaggedMdView, trans_code: bool)
    ensures
        ({
            let c = md_collect_all(md_empty(), ev, chunk_size, tag);
            let o = md_outputs_all(md_output_start(s), ev, trans_code).0;
            &&& o.depth == c.depth
            &&& o.chunk_index == c.chunk_index
            &&& c.chunk_index == c.chunks.len()
            &&& o.chunks.len() == s.chunks.len()
            &&& forall|j: int| o.chunk_index <= j < s.chunks.len() ==> o.chunks[j] == s.chunks[j]
        }),
    decreases ev.len(),
{
    if ev.len() > 0 {
        lemma_md_walk(ev.drop_last(), chunk_size, tag, s, trans_code);
    }
}

/// Writing walks a document's events in step with collecting: after any events, both are as
/// deep in text blocks and have met as many pieces; text or inline code that collecting makes
/// piece `k` is, while writing, replaced by piece `k` of the pieces written back (text always,
/// inline code when it is translated), and text that collecting leaves alone is kept. So, with
/// the pieces written back untranslated, such text is replaced by itself.
pub proof fn law_md_write_follows_collect(
    ev: Seq<MdEventView>,
    chunk_size: nat,
    tag: Seq<char>,
    s: TaggedMdView,
    trans_code: bool,
)
    ensures
        md_outputs_all(md_output_start(s), ev, trans_code).0.depth == md_collect_all(
            md_empty(),
            ev,
            chunk_size,
            tag,
        ).depth,
        md_outputs_all(md_output_start(s), ev, trans_code).0.chunk_index == md_collect_all(
            md_empty(),
            ev,
            chunk_size,
            tag,
        ).chunks.len(),
        ev.len() > 0 && (ev.last() is Text || ev.last() is Code) ==> {
            let before = md_collect_all(md_empty(), ev.drop_last(), chunk_size, tag);
            let k = before.chunks.len();
            let t = md_event_text(ev.last());
            let out = md_outputs_all(md_output_start(s), ev, trans_code).1.last();
            if ev.last() is Code || (before.depth > 0 && !is_blank_spec(t)) {
                &&& md_collect_all(md_empty(), ev, chunk_size, tag).chunks == before.chunks.push(t)
                &&& (ev.last() is Text || trans_code) && k < s.chunks.len() ==> out == MdOutputView::Replace(
                    s.chunks[k as int],
                )
                &&& !((ev.last() is Text || trans_code) && k < s.chunks.len()) ==> out is Keep
            } else {
                &&& md_collect_all(md_empty(), ev, chunk_size, tag).chunks == before.chunks
                &&& out is Keep
            }
        },
        ev.len() > 0 && (ev.last() is Text || (ev.last() is Code && trans_code)) ==> {
            let before = md_collect_all(md_empty(), ev.drop_last(), chunk_size, tag);
            let c = md_collect_all(md_empty(), ev, chunk_size, tag);
            let t = md_event_text(ev.last());
            (ev.last() is Code || (before.depth > 0 && !is_blank_spec(t))) && s.chunks.len()
                >= c.chunks.len() && s.chunks.take(c.chunks.len() as int) == c.chunks
                ==> md_outputs_all(md_output_start(s), ev, trans_code).1.last() == MdOutputView::Replace(t)
        },
{
    lemma_md_walk(ev, chunk_size, tag, s, trans_code);
    if ev.len() > 0 {
        lemma_md_walk(ev.drop_last(), chunk_size, tag, s, trans_code);
        let c = md_collect_all(md_empty(), ev, chunk_size, tag);
        let k = md_collect_all(md_empty(), ev.drop_last(), chunk_size, tag).chunks.len() as int;
        if s.chunks.len() >= c.chunks.len() && s.chunks.take(c.chunks.len() as int) == c.chunks
            && 0 <= k < c.chunks.len() {
            assert(s.chunks[k] == s.chunks.take(c.chunks.len() as int)[k]);
        }
    }
}

/// Writes a MarkDown document with its numbered pieces put back: the outputs of
/// [`tagged_md_outputs`] go to the writer, with ordered-list numbers increased and '-' for
/// bullets.
pub fn tagged_md_pass2(state: &mut TaggedMdState, text: &str, trans_code: bool) -> (r: Result<String, TransError>)
    ensures
        !md_outputs_fit(md_output_start(old(state)@), markdown_events(text@), trans_code) ==> (r matches Err(e)
            && e is DocumentTooLarge),
        md_outputs_fit(md_output_start(old(state)@), markdown_events(text@), trans_code) ==> {
            let outs = md_outputs_all(md_output_start(old(state)@), markdown_events(text@), trans_code).1;
            match cmark_rendered(text@, outs, true, '-') {
                Some(t) => r matches Ok(v) && v@ == t,
                None => r matches Err(e) && e is RewriteFailed,
            }
        },
{
    let outs = tagged_md_outputs(state, text, trans_code)?;
    match render_markdown(text, outs, true, '-') {
        Some(t) => Ok(t),
        None => Err(TransError::RewriteFailed),
    }
}

} // verus!
