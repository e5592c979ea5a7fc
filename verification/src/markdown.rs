//! The decisions of the MarkDown passes. A MarkDown parser reports events in order; these
//! state machines decide what is collected for the LLM and what the events become.
use vstd::prelude::*;
use crate::config::opt_view;
use crate::strutil::{
    is_blank, is_blank_spec, push_string, strings_view, take_at, take_string, set_string,
    restore_triming_newlines,
};
use crate::tagged::{tag_piece, tagged_piece};
use crate::html::with_piece_newlines;

verus! {

/// The kind of a MarkDown container that opens or closes.
#[derive(Clone, Debug)]
pub enum MdTag {
    Paragraph,
    Heading,
    List,
    MetadataBlock,
    Table,
    FootnoteDefinition,
    HtmlBlock,
    /// A code block, with the info string of a fenced one.
    CodeBlock(Option<String>),
    /// Any other container.
    Other,
}

/// A MarkDown parser event, as far as the passes look at it.
#[derive(Clone, Debug)]
pub enum MdEvent {
    Start(MdTag),
    End(MdTag),
    Text(String),
    Code(String),
    Html(String),
    /// Any other event.
    Other,
}

/// The value of an [`MdTag`].
pub enum MdTagView {
    Paragraph,
    Heading,
    List,
    MetadataBlock,
    Table,
    FootnoteDefinition,
    HtmlBlock,
    CodeBlock(Option<Seq<char>>),
    Other,
}

/// The value of an [`MdEvent`].
pub enum MdEventView {
    Start(MdTagView),
    End(MdTagView),
    Text(Seq<char>),
    Code(Seq<char>),
    Html(Seq<char>),
    Other,
}

impl View for MdTag {
    type V = MdTagView;

    open spec fn view(&self) -> MdTagView {
        match self {
            MdTag::Paragraph => MdTagView::Paragraph,
            MdTag::Heading => MdTagView::Heading,
            MdTag::List => MdTagView::List,
            MdTag::MetadataBlock => MdTagView::MetadataBlock,
            MdTag::Table => MdTagView::Table,
            MdTag::FootnoteDefinition => MdTagView::FootnoteDefinition,
            MdTag::HtmlBlock => MdTagView::HtmlBlock,
            MdTag::CodeBlock(info) => MdTagView::CodeBlock(opt_view(*info)),
            MdTag::Other => MdTagView::Other,
        }
    }
}

impl View for MdEvent {
    type V = MdEventView;

    open spec fn view(&self) -> MdEventView {
        match self {
            MdEvent::Start(t) => MdEventView::Start(t@),
            MdEvent::End(t) => MdEventView::End(t@),
            MdEvent::Text(t) => MdEventView::Text(t@),
            MdEvent::Code(t) => MdEventView::Code(t@),
            MdEvent::Html(t) => MdEventView::Html(t@),
            MdEvent::Other => MdEventView::Other,
        }
    }
}

/// The values of a list of events.
pub open spec fn events_view(v: Seq<MdEvent>) -> Seq<MdEventView> {
    v.map_values(|e: MdEvent| e@)
}

/// Whether a container holds text that is translated: paragraphs, headings, lists, metadata
/// blocks, tables and footnote definitions.
pub open spec fn is_text_block(t: MdTagView) -> bool {
    ||| t is Paragraph
    ||| t is Heading
    ||| t is List
    ||| t is MetadataBlock
    ||| t is Table
    ||| t is FootnoteDefinition
}

fn text_block(t: &MdTag) -> (r: bool)
    ensures
        r == is_text_block(t@),
{
    match t {
        MdTag::Paragraph | MdTag::Heading | MdTag::List | MdTag::MetadataBlock | MdTag::Table
        | MdTag::FootnoteDefinition => true,
        _ => false,
    }
}

/// What an event becomes in the output.
#[derive(Clone, Debug)]
pub enum MdOutput {
    /// The event is kept.
    Keep,
    /// The event is kept with this text in place of its own.
    Replace(String),
    /// The event is dropped.
    Drop,
}

/// The value of an [`MdOutput`].
pub enum MdOutputView {
    Keep,
    Replace(Seq<char>),
    Drop,
}

impl View for MdOutput {
    type V = MdOutputView;

    open spec fn view(&self) -> MdOutputView {
        match self {
            MdOutput::Keep => MdOutputView::Keep,
            MdOutput::Replace(t) => MdOutputView::Replace(t@),
            MdOutput::Drop => MdOutputView::Drop,
        }
    }
}

/// The values of a list of outputs.
pub open spec fn outputs_view(v: Seq<MdOutput>) -> Seq<MdOutputView> {
    v.map_values(|o: MdOutput| o@)
}

// ---------------------------------------------------------------------------------------
// Text pieces numbered by tags (strategy 'bytransbot').
// ---------------------------------------------------------------------------------------

/// The state of the numbered-piece passes over MarkDown.
#[derive(Debug)]
pub struct TaggedMdState {
    pub new_tag: bool,
    pub output_html: bool,
    pub depth: u32,
    pub chunk_index: usize,
    pub chunk_trans_index: usize,
    pub chunk_group_buf: String,
    pub chunk_group_vec: Vec<String>,
    pub chunk_vec: Vec<String>,
    pub html_index: usize,
    pub html_trans_index: usize,
    pub html_buf: String,
    pub html_vec: Vec<String>,
}

/// The value of a [`TaggedMdState`].
pub struct TaggedMdView {
    pub new_tag: bool,
    pub output_html: bool,
    pub depth: nat,
    pub chunk_index: nat,
    pub chunk_trans_index: nat,
    pub group_buf: Seq<char>,
    pub groups: Seq<Seq<char>>,
    pub chunks: Seq<Seq<char>>,
    pub html_index: nat,
    pub html_trans_index: nat,
    pub html_buf: Seq<char>,
    pub htmls: Seq<Seq<char>>,
}

impl View for TaggedMdState {
    type V = TaggedMdView;

    open spec fn view(&self) -> TaggedMdView {
        TaggedMdView {
            new_tag: self.new_tag,
            output_html: self.output_html,
            depth: self.depth as nat,
            chunk_index: self.chunk_index as nat,
            chunk_trans_index: self.chunk_trans_index as nat,
            group_buf: self.chunk_group_buf@,
            groups: strings_view(self.chunk_group_vec@),
            chunks: strings_view(self.chunk_vec@),
            html_index: self.html_index as nat,
            html_trans_index: self.html_trans_index as nat,
            html_buf: self.html_buf@,
            htmls: strings_view(self.html_vec@),
        }
    }
}

/// A text becomes the next numbered piece and joins the group in its numbered tag.
pub open spec fn md_add_piece(s: TaggedMdView, text: Seq<char>, tag: Seq<char>) -> TaggedMdView {
    TaggedMdView {
        chunk_index: s.chunk_index + 1,
        chunks: s.chunks.push(text),
        new_tag: false,
        group_buf: s.group_buf + tagged_piece(s.new_tag, tag, s.chunk_index, text),
        ..s
    }
}

/// One event while collecting: text inside a text block and inline code become numbered
/// pieces, raw HTML is gathered block by block, and back at the top a group longer than
/// `chunk_size` characters is closed.
pub open spec fn md_collect_spec(s: TaggedMdView, e: MdEventView, chunk_size: nat, tag: Seq<char>) -> TaggedMdView {
    match e {
        MdEventView::Text(t) => if s.depth > 0 && !is_blank_spec(t) {
            md_add_piece(s, t, tag)
        } else {
            s
        },
        MdEventView::Start(t) => if is_text_block(t) {
            TaggedMdView { depth: s.depth + 1, ..s }
        } else {
            s
        },
        MdEventView::End(t) => if is_text_block(t) {
            let depth = if s.depth > 0 {
                (s.depth - 1) as nat
            } else {
                0
            };
            if depth == 0 && s.group_buf.len() > chunk_size {
                TaggedMdView {
                    depth,
                    group_buf: Seq::<char>::empty(),
                    groups: s.groups.push(s.group_buf),
                    ..s
                }
            } else {
                TaggedMdView { depth, ..s }
            }
        } else if t is HtmlBlock {
            TaggedMdView { html_buf: Seq::<char>::empty(), htmls: s.htmls.push(s.html_buf), ..s }
        } else {
            s
        },
        MdEventView::Code(t) => md_add_piece(s, t, tag),
        MdEventView::Html(t) => TaggedMdView { html_buf: s.html_buf + t, ..s },
        MdEventView::Other => s,
    }
}

/// One event while writing the output: numbered pieces replace text and, when `trans_code`,
/// inline code; the first raw HTML of a block is replaced by the block's translation and the
/// rest of it is dropped.
pub open spec fn md_output_spec(s: TaggedMdView, e: MdEventView, trans_code: bool) -> (
    TaggedMdView,
    MdOutput,
) {
    match e {
        MdEventView::Text(t) => if s.depth > 0 && !is_blank_spec(t) {
            let i = s.chunk_index;
            let next = TaggedMdView { chunk_index: i + 1, ..s };
            if i < s.chunks.len() {
                (
                    TaggedMdView { chunks: s.chunks.update(i as int, Seq::<char>::empty()), ..next },
                    MdOutput::Replace(arbitrary()),
                )
            } else {
                (next, MdOutput::Keep)
            }
        } else {
            (s, MdOutput::Keep)
        },
        MdEventView::Start(t) => if is_text_block(t) {
            (TaggedMdView { depth: s.depth + 1, ..s }, MdOutput::Keep)
        } else if t is HtmlBlock {
            (TaggedMdView { output_html: true, ..s }, MdOutput::Keep)
        } else {
            (s, MdOutput::Keep)
        },
        MdEventView::End(t) => if is_text_block(t) && s.depth > 0 {
            (TaggedMdView { depth: (s.depth - 1) as nat, ..s }, MdOutput::Keep)
        } else {
            (s, MdOutput::Keep)
        },
        MdEventView::Code(_) => {
            let i = s.chunk_index;
            let next = TaggedMdView { chunk_index: i + 1, ..s };
            if trans_code && i < s.chunks.len() {
                (
                    TaggedMdView { chunks: s.chunks.update(i as int, Seq::<char>::empty()), ..next },
                    MdOutput::Replace(arbitrary()),
                )
            } else {
                (next, MdOutput::Keep)
            }
        },
        MdEventView::Html(_) => if s.output_html && s.html_index < s.htmls.len() {
            (
                TaggedMdView {
                    output_html: false,
                    html_index: s.html_index + 1,
                    htmls: s.htmls.update(s.html_index as int, Seq::<char>::empty()),
                    ..s
                },
                MdOutput::Replace(arbitrary()),
            )
        } else {
            (s, MdOutput::Drop)
        },
        MdEventView::Other => (s, MdOutput::Keep),
    }
}

/// The text that [`md_output_spec`] puts in place of an event's own.
pub open spec fn md_output_text(s: TaggedMdView, e: MdEventView) -> Seq<char> {
    match e {
        MdEventView::Text(_) => s.chunks[s.chunk_index as int],
        MdEventView::Code(_) => s.chunks[s.chunk_index as int],
        _ => s.htmls[s.html_index as int],
    }
}

/// What one event becomes while writing the output, replacement text included.
pub open spec fn md_output_value(s: TaggedMdView, e: MdEventView, trans_code: bool) -> MdOutputView {
    match md_output_spec(s, e, trans_code).1 {
        MdOutput::Keep => MdOutputView::Keep,
        MdOutput::Drop => MdOutputView::Drop,
        MdOutput::Replace(_) => MdOutputView::Replace(md_output_text(s, e)),
    }
}

/// Whether two outputs agree, replacement texts compared by their characters.
pub open spec fn output_is(o: MdOutput, spec: MdOutput, text: Seq<char>) -> bool {
    match spec {
        MdOutput::Keep => o is Keep,
        MdOutput::Drop => o is Drop,
        MdOutput::Replace(_) => o matches MdOutput::Replace(r) && r@ == text,
    }
}

impl TaggedMdState {
    /// A state with nothing collected.
    pub fn new() -> (r: Self)
        ensures
            r@ == (TaggedMdView {
                new_tag: false,
                output_html: false,
                depth: 0,
                chunk_index: 0,
                chunk_trans_index: 0,
                group_buf: Seq::<char>::empty(),
                groups: Seq::<Seq<char>>::empty(),
                chunks: Seq::<Seq<char>>::empty(),
                html_index: 0,
                html_trans_index: 0,
                html_buf: Seq::<char>::empty(),
                htmls: Seq::<Seq<char>>::empty(),
            }),
    {
        let r = TaggedMdState {
            new_tag: false,
            output_html: false,
            depth: 0,
            chunk_index: 0,
            chunk_trans_index: 0,
            chunk_group_buf: String::new(),
            chunk_group_vec: Vec::new(),
            chunk_vec: Vec::new(),
            html_index: 0,
            html_trans_index: 0,
            html_buf: String::new(),
            html_vec: Vec::new(),
        };
        assert(strings_view(r.chunk_vec@) =~= Seq::<Seq<char>>::empty());
        assert(strings_view(r.chunk_group_vec@) =~= Seq::<Seq<char>>::empty());
        assert(strings_view(r.html_vec@) =~= Seq::<Seq<char>>::empty());
        r
    }

    /// Adds `text` as the next numbered piece and writes it, in its numbered tag, into the
    /// group being gathered.
    pub fn add_text_chunk(&mut self, text: &str, syntax_tag: &str)
        requires
            old(self).chunk_index < usize::MAX,
        ensures
            final(self)@ == md_add_piece(old(self)@, text@, syntax_tag@),
    {
        let index = self.chunk_index;
        self.chunk_index = self.chunk_index + 1;
        push_string(&mut self.chunk_vec, String::from_str(text));
        let new_line = self.new_tag;
        self.new_tag = false;
        let piece = tag_piece(new_line, syntax_tag, index, text);
        self.chunk_group_buf.append(piece.as_str());
    }

    /// One parser event while collecting.
    pub fn collect(&mut self, e: &MdEvent, chunk_size: usize, syntax_tag: &str)
        requires
            old(self).chunk_index < usize::MAX,
            old(self).depth < u32::MAX,
        ensures
            final(self)@ == md_collect_spec(old(self)@, e@, chunk_size as nat, syntax_tag@),
    {
        match e {
            MdEvent::Text(t) => {
                if self.depth > 0 && !is_blank(t.as_str()) {
                    self.add_text_chunk(t.as_str(), syntax_tag);
                }
            },
            MdEvent::Start(t) => {
                if text_block(t) {
                    self.depth = self.depth + 1;
                }
            },
            MdEvent::End(t) => {
                if text_block(t) {
                    if self.depth > 0 {
                        self.depth = self.depth - 1;
                    }
                    if self.depth == 0 && self.chunk_group_buf.as_str().unicode_len() > chunk_size {
                        let text = take_string(&mut self.chunk_group_buf);
                        push_string(&mut self.chunk_group_vec, text);
                    }
                } else if let MdTag::HtmlBlock = t {
                    let html = take_string(&mut self.html_buf);
                    push_string(&mut self.html_vec, html);
                }
            },
            MdEvent::Code(t) => {
                self.add_text_chunk(t.as_str(), syntax_tag);
            },
            MdEvent::Html(t) => {
                self.html_buf.append(t.as_str());
            },
            MdEvent::Other => {},
        }
    }

    /// The end of collecting: a group left unfinished is closed.
    pub fn finish_collecting(&mut self)
        ensures
            final(self)@ == (if old(self)@.group_buf.len() > 0 {
                TaggedMdView {
                    group_buf: Seq::<char>::empty(),
                    groups: old(self)@.groups.push(old(self)@.group_buf),
                    ..old(self)@
                }
            } else {
                old(self)@
            }),
    {
        if !self.chunk_group_buf.as_str().is_empty() {
            let text = take_string(&mut self.chunk_group_buf);
            push_string(&mut self.chunk_group_vec, text);
        }
    }

    /// Stores the translation of raw HTML block `index`.
    pub fn store_html(&mut self, index: usize, translated: String)
        requires
            index < old(self).html_vec@.len(),
        ensures
            final(self)@ == (TaggedMdView {
                htmls: old(self)@.htmls.update(index as int, translated@),
                ..old(self)@
            }),
    {
        set_string(&mut self.html_vec, index, translated);
    }

    /// Gets ready to write the output: no container open, no piece and no HTML block met.
    pub fn begin_output(&mut self)
        ensures
            final(self)@ == (TaggedMdView {
                depth: 0,
                chunk_index: 0,
                html_index: 0,
                ..old(self)@
            }),
    {
        self.depth = 0;
        self.chunk_index = 0;
        self.html_index = 0;
    }

    /// What one parser event becomes while writing the output.
    pub fn output(&mut self, e: &MdEvent, trans_code: bool) -> (r: MdOutput)
        requires
            old(self).chunk_index < usize::MAX,
            old(self).depth < u32::MAX,
            old(self).html_index < usize::MAX,
        ensures
            final(self)@ == md_output_spec(old(self)@, e@, trans_code).0,
            output_is(r, md_output_spec(old(self)@, e@, trans_code).1, md_output_text(old(self)@, e@)),
            r@ == md_output_value(old(self)@, e@, trans_code),
    {
        match e {
            MdEvent::Text(t) => {
                if self.depth > 0 && !is_blank(t.as_str()) {
                    let index = self.chunk_index;
                    self.chunk_index = self.chunk_index + 1;
                    if index < self.chunk_vec.len() {
                        let text = take_at(&mut self.chunk_vec, index);
                        return MdOutput::Replace(text);
                    }
                }
                MdOutput::Keep
            },
            MdEvent::Start(t) => {
                if text_block(t) {
                    self.depth = self.depth + 1;
                } else if let MdTag::HtmlBlock = t {
                    self.output_html = true;
                }
                MdOutput::Keep
            },
            MdEvent::End(t) => {
                if text_block(t) && self.depth > 0 {
                    self.depth = self.depth - 1;
                }
                MdOutput::Keep
            },
            MdEvent::Code(_) => {
                let index = self.chunk_index;
                self.chunk_index = self.chunk_index + 1;
                if trans_code && index < self.chunk_vec.len() {
                    let text = take_at(&mut self.chunk_vec, index);
                    return MdOutput::Replace(text);
                }
                MdOutput::Keep
            },
            MdEvent::Html(_) => {
                if self.output_html && self.html_index < self.html_vec.len() {
                    self.output_html = false;
                    let html = take_at(&mut self.html_vec, self.html_index);
                    self.html_index = self.html_index + 1;
                    return MdOutput::Replace(html);
                }
                MdOutput::Drop
            },
            MdEvent::Other => MdOutput::Keep,
        }
    }
}

/// Adding a piece keeps the numbering: where the pieces are as many as the numbers given, they
/// still are after `md_add_piece`, the new piece is `text` at the number written in its tag,
/// and the group gains exactly that numbered tag.
pub proof fn law_md_piece_numbered(s: TaggedMdView, text: Seq<char>, tag: Seq<char>)
    requires
        s.chunk_index == s.chunks.len(),
    ensures
        md_add_piece(s, text, tag).chunk_index == md_add_piece(s, text, tag).chunks.len(),
        md_add_piece(s, text, tag).chunks[s.chunk_index as int] == text,
        md_add_piece(s, text, tag).group_buf == s.group_buf + tagged_piece(
            s.new_tag,
            tag,
            s.chunk_index,
            text,
        ),
{
}

/// The text of a text or inline-code event.
pub open spec fn md_event_text(e: MdEventView) -> Seq<char> {
    match e {
        MdEventView::Text(t) => t,
        MdEventView::Code(t) => t,
        _ => Seq::<char>::empty(),
    }
}

/// Collecting and writing the output number the pieces alike: at the same depth and count,
/// both passes move to the same depth and count on any event, and text or inline code that
/// takes a translation while writing is the piece that collecting put at that number.
pub proof fn law_md_tagged_passes_agree(
    c: TaggedMdView,
    o: TaggedMdView,
    e: MdEventView,
    chunk_size: nat,
    tag: Seq<char>,
    trans_code: bool,
)
    requires
        c.depth == o.depth,
        c.chunk_index == o.chunk_index,
        c.chunk_index == c.chunks.len(),
    ensures
        md_collect_spec(c, e, chunk_size, tag).depth == md_output_spec(o, e, trans_code).0.depth,
        md_collect_spec(c, e, chunk_size, tag).chunk_index == md_output_spec(
            o,
            e,
            trans_code,
        ).0.chunk_index,
        md_collect_spec(c, e, chunk_size, tag).chunk_index == md_collect_spec(
            c,
            e,
            chunk_size,
            tag,
        ).chunks.len(),
        (e is Text || e is Code) && md_output_spec(o, e, trans_code).1 is Replace ==> md_collect_spec(
            c,
            e,
            chunk_size,
            tag,
        ).chunks[o.chunk_index as int] == md_event_text(e),
{
}

/// Text inside a paragraph, heading, list, metadata block, table or footnote definition is
/// collected: at the top, the events that open such a container, give it a text that is not blank and close it make that text
/// the next numbered piece, and leave the collection back at the top; writing the output, the
/// opening event enters the container as collecting does.
pub proof fn law_md_container_text_collected(
    s: TaggedMdView,
    o: TaggedMdView,
    t: MdTagView,
    text: Seq<char>,
    chunk_size: nat,
    tag: Seq<char>,
    trans_code: bool,
)
    requires
        s.depth == 0,
        (t is Paragraph || t is Heading || t is List || t is MetadataBlock || t is Table
            || t is FootnoteDefinition),
        !is_blank_spec(text),
    ensures
        ({
            let s1 = md_collect_spec(s, MdEventView::Start(t), chunk_size, tag);
            let s2 = md_collect_spec(s1, MdEventView::Text(text), chunk_size, tag);
            let s3 = md_collect_spec(s2, MdEventView::End(t), chunk_size, tag);
            &&& s1.depth == 1
            &&& s2.chunks == s.chunks.push(text)
            &&& s2.chunk_index == s.chunk_index + 1
            &&& s3.chunks == s.chunks.push(text)
            &&& s3.depth == 0
        }),
        md_output_spec(o, MdEventView::Start(t), trans_code).0.depth == o.depth + 1,
{
}

/// Closing a paragraph, heading, list, metadata block, table or footnote definition while
/// collecting neither loses nor repeats gathered text: the groups, joined, followed by the group
/// being gathered, stay the same, and the pieces are left alone. A group is closed exactly when
/// the collection is back at the top and the group has grown longer than `chunk_size`.
pub proof fn law_md_groups_keep_text(s: TaggedMdView, t: MdTagView, chunk_size: nat, tag: Seq<char>)
    requires
        (t is Paragraph || t is Heading || t is List || t is MetadataBlock || t is Table
            || t is FootnoteDefinition),
    ensures
        ({
            let c = md_collect_spec(s, MdEventView::End(t), chunk_size, tag);
            let top = s.depth <= 1;
            &&& c.groups.flatten() + c.group_buf == s.groups.flatten() + s.group_buf
            &&& c.chunks == s.chunks
            &&& c.chunk_index == s.chunk_index
            &&& c.depth == (if s.depth > 0 { s.depth - 1 } else { 0 })
            &&& (top && s.group_buf.len() > chunk_size) ==> (c.groups == s.groups.push(s.group_buf)
                && c.group_buf.len() == 0)
            &&& !(top && s.group_buf.len() > chunk_size) ==> (c.groups == s.groups && c.group_buf
                == s.group_buf)
        }),
{
    broadcast use Seq::lemma_flatten_push;

    let c = md_collect_spec(s, MdEventView::End(t), chunk_size, tag);
    assert(c.groups.flatten() + c.group_buf =~= s.groups.flatten() + s.group_buf);
}

/// Text outside the translated containers is not collected: at the top, raw HTML blocks, code
/// blocks and other containers leave their text alone.
pub proof fn law_md_other_text_left(
    s: TaggedMdView,
    t: MdTagView,
    text: Seq<char>,
    chunk_size: nat,
    tag: Seq<char>,
)
    requires
        s.depth == 0,
        (t is HtmlBlock || t is CodeBlock || t is Other),
    ensures
        ({
            let s1 = md_collect_spec(s, MdEventView::Start(t), chunk_size, tag);
            let s2 = md_collect_spec(s1, MdEventView::Text(text), chunk_size, tag);
            let s3 = md_collect_spec(s2, MdEventView::End(t), chunk_size, tag);
            &&& s3.chunks == s.chunks
            &&& s3.chunk_index == s.chunk_index
            &&& s3.depth == 0
        }),
{
}

// ---------------------------------------------------------------------------------------
// Top blocks sent with their markup (strategy 'byllm').
// ---------------------------------------------------------------------------------------

/// The state of the passes that send each top text block as MarkDown. While a top block is
/// open, the MarkDown that the writer produces for it is gathered; outside, in the second
/// pass, it is copied to the output.
#[derive(Debug)]
pub struct MarkupMdState {
    pub to_accept_text: bool,
    pub in_pass2: bool,
    pub is_needed_code_block: bool,
    pub depth: u32,
    pub parse_index: usize,
    pub trans_index: usize,
    pub text_buf: String,
    pub text_vec: Vec<String>,
    pub pass2_out: String,
}

/// The value of a [`MarkupMdState`].
pub struct MarkupMdView {
    pub to_accept_text: bool,
    pub in_pass2: bool,
    pub is_needed_code_block: bool,
    pub depth: nat,
    pub parse_index: nat,
    pub trans_index: nat,
    pub text_buf: Seq<char>,
    pub texts: Seq<Seq<char>>,
    pub out: Seq<char>,
}

impl View for MarkupMdState {
    type V = MarkupMdView;

    open spec fn view(&self) -> MarkupMdView {
        MarkupMdView {
            to_accept_text: self.to_accept_text,
            in_pass2: self.in_pass2,
            is_needed_code_block: self.is_needed_code_block,
            depth: self.depth as nat,
            parse_index: self.parse_index as nat,
            trans_index: self.trans_index as nat,
            text_buf: self.text_buf@,
            texts: strings_view(self.text_vec@),
            out: self.pass2_out@,
        }
    }
}

/// Whether a container opens or closes a gathered block: the text blocks and raw HTML blocks.
pub open spec fn is_markup_block(t: MdTagView) -> bool {
    is_text_block(t) || t is HtmlBlock
}

/// Whether the info string of a fenced code block starts with 'admonish'.
pub open spec fn is_admonish(info: Seq<char>) -> bool {
    info.len() >= 8 && info.take(8) == "admonish"@
}

/// A gathered block is handed over: in the first pass it becomes the next piece; in the
/// second its translation goes to the output in its place.
pub open spec fn md_flush_block(s: MarkupMdView) -> MarkupMdView {
    if !is_blank_spec(s.text_buf) {
        if !s.in_pass2 {
            MarkupMdView { texts: s.texts.push(s.text_buf), text_buf: Seq::<char>::empty(), ..s }
        } else {
            let i = s.parse_index;
            let emitted = if i < s.texts.len() {
                MarkupMdView {
                    out: s.out + s.texts[i as int],
                    texts: s.texts.update(i as int, Seq::<char>::empty()),
                    ..s
                }
            } else {
                s
            };
            MarkupMdView { parse_index: i + 1, text_buf: Seq::<char>::empty(), ..emitted }
        }
    } else {
        MarkupMdView { text_buf: Seq::<char>::empty(), ..s }
    }
}

/// A parser event reaches the writer: a container that opens at the top first hands over the
/// gathered block; text blocks, raw HTML blocks and 'admonish' code blocks open a gathered
/// block at the top; their ends close one level.
pub open spec fn md_event_spec(s: MarkupMdView, e: MdEventView) -> MarkupMdView {
    match e {
        MdEventView::Start(t) => {
            let s1 = if s.depth == 0 {
                md_flush_block(MarkupMdView { to_accept_text: false, ..s })
            } else {
                s
            };
            if is_markup_block(t) {
                MarkupMdView {
                    to_accept_text: if s1.depth == 0 {
                        true
                    } else {
                        s1.to_accept_text
                    },
                    depth: s1.depth + 1,
                    ..s1
                }
            } else {
                match t {
                    MdTagView::CodeBlock(Some(info)) => if is_admonish(info) {
                        MarkupMdView {
                            depth: s1.depth + 1,
                            to_accept_text: true,
                            is_needed_code_block: true,
                            ..s1
                        }
                    } else {
                        MarkupMdView { is_needed_code_block: false, ..s1 }
                    },
                    _ => s1,
                }
            }
        },
        MdEventView::End(t) => if is_markup_block(t) {
            if s.depth > 0 {
                MarkupMdView { depth: (s.depth - 1) as nat, ..s }
            } else {
                s
            }
        } else if t is CodeBlock {
            if s.is_needed_code_block {
                MarkupMdView {
                    depth: if s.depth > 0 {
                        (s.depth - 1) as nat
                    } else {
                        0
                    },
                    is_needed_code_block: false,
                    ..s
                }
            } else {
                s
            }
        } else {
            s
        },
        _ => s,
    }
}

/// Text written by the MarkDown writer: gathered while a block accepts text, else copied to
/// the output in the second pass.
pub open spec fn md_write_spec(s: MarkupMdView, text: Seq<char>) -> MarkupMdView {
    if s.to_accept_text {
        MarkupMdView { text_buf: s.text_buf + text, ..s }
    } else if s.in_pass2 {
        MarkupMdView { out: s.out + text, ..s }
    } else {
        s
    }
}

/// The two passes number the gathered blocks alike: where the first pass holds as many pieces
/// as the second has handed over and both hand over the same gathered text, the first makes it
/// the piece at that number, the second writes the piece of that number in its place, and both
/// move on to the same count.
pub proof fn law_md_markup_passes_agree(c: MarkupMdView, o: MarkupMdView)
    requires
        !c.in_pass2,
        o.in_pass2,
        c.texts.len() == o.parse_index,
        c.text_buf == o.text_buf,
    ensures
        md_flush_block(c).texts.len() == md_flush_block(o).parse_index,
        !is_blank_spec(c.text_buf) ==> md_flush_block(c).texts[c.texts.len() as int] == c.text_buf,
        !is_blank_spec(o.text_buf) && o.parse_index < o.texts.len() ==> md_flush_block(o).out
            == o.out + o.texts[o.parse_index as int],
{
}

/// At the top, a paragraph, heading, list, metadata block, table, footnote definition or raw
/// HTML block opens a gathered block: the text that the writer then produces is gathered as the
/// block's text, and none of it reaches the output.
pub proof fn law_md_block_gathered(s: MarkupMdView, t: MdTagView, text: Seq<char>)
    requires
        s.depth == 0,
        (t is Paragraph || t is Heading || t is List || t is MetadataBlock || t is Table
            || t is FootnoteDefinition || t is HtmlBlock),
    ensures
        md_event_spec(s, MdEventView::Start(t)).to_accept_text,
        md_event_spec(s, MdEventView::Start(t)).depth == 1,
        md_write_spec(md_event_spec(s, MdEventView::Start(t)), text).text_buf == text,
        md_write_spec(md_event_spec(s, MdEventView::Start(t)), text).out == md_event_spec(
            s,
            MdEventView::Start(t),
        ).out,
{
}

/// Text that the writer produces: while a block is gathered it joins the block; otherwise, in
/// the second pass, it is copied to the output, and in the first it is dropped. Nothing else
/// changes.
pub proof fn law_md_write_text(s: MarkupMdView, text: Seq<char>)
    ensures
        s.to_accept_text ==> md_write_spec(s, text) == (MarkupMdView {
            text_buf: s.text_buf + text,
            ..s
        }),
        !s.to_accept_text && s.in_pass2 ==> md_write_spec(s, text) == (MarkupMdView {
            out: s.out + text,
            ..s
        }),
        !s.to_accept_text && !s.in_pass2 ==> md_write_spec(s, text) == s,
{
}

/// The state after the writer produced the texts `ws`, in order.
pub open spec fn md_write_all(s: MarkupMdView, ws: Seq<Seq<char>>) -> MarkupMdView
    decreases ws.len(),
{
    if ws.len() == 0 {
        s
    } else {
        md_write_all(md_write_spec(s, ws[0]), ws.drop_first())
    }
}

/// In the second pass, outside any gathered block, the output gains exactly what the writer
/// produces, in order: code blocks, rules and separators come out as the writer wrote them.
pub proof fn law_md_pass2_copies_writes(s: MarkupMdView, ws: Seq<Seq<char>>)
    requires
        s.in_pass2,
        !s.to_accept_text,
    ensures
        md_write_all(s, ws).out == s.out + ws.flatten(),
        md_write_all(s, ws).text_buf == s.text_buf,
        md_write_all(s, ws).texts == s.texts,
    decreases ws.len(),
{
    if ws.len() == 0 {
        assert(s.out + ws.flatten() =~= s.out);
    } else {
        let s1 = md_write_spec(s, ws[0]);
        law_md_pass2_copies_writes(s1, ws.drop_first());
        assert(s1.out + ws.drop_first().flatten() =~= s.out + ws.flatten());
    }
}

/// The state before the first pass: nothing gathered.
pub open spec fn markup_md_empty() -> MarkupMdView {
    MarkupMdView {
        to_accept_text: false,
        in_pass2: false,
        is_needed_code_block: false,
        depth: 0,
        parse_index: 0,
        trans_index: 0,
        text_buf: Seq::<char>::empty(),
        texts: Seq::<Seq<char>>::empty(),
        out: Seq::<char>::empty(),
    }
}

/// The end of the first pass: a gathered block left is handed over.
pub open spec fn md_markup_finish_pass1(s: MarkupMdView) -> MarkupMdView {
    if !is_blank_spec(s.text_buf) {
        MarkupMdView { texts: s.texts.push(s.text_buf), text_buf: Seq::<char>::empty(), ..s }
    } else {
        s
    }
}

/// The start of the second pass: no block open, nothing gathered, no piece met.
pub open spec fn md_markup_begin_pass2(s: MarkupMdView) -> MarkupMdView {
    MarkupMdView {
        depth: 0,
        parse_index: 0,
        text_buf: Seq::<char>::empty(),
        to_accept_text: false,
        in_pass2: true,
        ..s
    }
}

/// What reaches the writer's state in a pass: a parser event, or text that the writer produces.
pub enum MdWriterStep {
    Event(MdEventView),
    Write(Seq<char>),
}

/// The state after the steps `steps`, in order.
pub open spec fn md_markup_run(s: MarkupMdView, steps: Seq<MdWriterStep>) -> MarkupMdView
    decreases steps.len(),
{
    if steps.len() == 0 {
        s
    } else {
        let p = md_markup_run(s, steps.drop_last());
        match steps.last() {
            MdWriterStep::Event(e) => md_event_spec(p, e),
            MdWriterStep::Write(t) => md_write_spec(p, t),
        }
    }
}

/// All the text that the writer produces in `steps`, in order.
pub open spec fn md_writer_text(steps: Seq<MdWriterStep>) -> Seq<char>
    decreases steps.len(),
{
    if steps.len() == 0 {
        Seq::<char>::empty()
    } else {
        md_writer_text(steps.drop_last()) + match steps.last() {
            MdWriterStep::Write(t) => t,
            MdWriterStep::Event(_) => Seq::<char>::empty(),
        }
    }
}

/// Whether no block gathered in a first pass over `steps` is made of white space alone (such a
/// block is dropped): wherever a block is handed over, and at the end, what was gathered is
/// empty or holds more than white space.
pub open spec fn md_no_blank_block(steps: Seq<MdWriterStep>) -> bool {
    &&& forall|i: int|
        #![trigger steps[i]]
        0 <= i < steps.len() && (steps[i] matches MdWriterStep::Event(MdEventView::Start(_)))
            && md_markup_run(markup_md_empty(), steps.take(i)).depth == 0 ==> {
            let b = md_markup_run(markup_md_empty(), steps.take(i)).text_buf;
            b.len() == 0 || !is_blank_spec(b)
        }
    &&& {
        let b = md_markup_run(markup_md_empty(), steps).text_buf;
        b.len() == 0 || !is_blank_spec(b)
    }
}

proof fn lemma_pass1_texts_grow(steps: Seq<MdWriterStep>, n: int)
    requires
        0 <= n <= steps.len(),
    ensures
        !md_markup_run(markup_md_empty(), steps).in_pass2,
        md_markup_run(markup_md_empty(), steps.take(n)).texts.len() <= md_markup_run(
            markup_md_empty(),
            steps,
        ).texts.len(),
        forall|j: int|
            0 <= j < md_markup_run(markup_md_empty(), steps.take(n)).texts.len() ==> md_markup_run(
                markup_md_empty(),
                steps.take(n),
            ).texts[j] == md_markup_run(markup_md_empty(), steps).texts[j],
    decreases steps.len(),
{
    if n == steps.len() {
        assert(steps.take(n) =~= steps);
        if steps.len() > 0 {
            lemma_pass1_texts_grow(steps.drop_last(), n - 1);
        }
    } else {
        lemma_pass1_texts_grow(steps.drop_last(), n);
        assert(steps.drop_last().take(n) =~= steps.take(n));
    }
}

proof fn lemma_pass2_walk(steps: Seq<MdWriterStep>, n: int)
    requires
        0 <= n <= steps.len(),
        md_no_blank_block(steps),
        !md_markup_run(markup_md_empty(), steps).is_needed_code_block,
    ensures
        ({
            let t = md_markup_finish_pass1(md_markup_run(markup_md_empty(), steps)).texts;
            let start = md_markup_begin_pass2(md_markup_finish_pass1(md_markup_run(markup_md_empty(), steps)));
            let r1 = md_markup_run(markup_md_empty(), steps.take(n));
            let r2 = md_markup_run(start, steps.take(n));
            &&& !r1.in_pass2
            &&& r2.in_pass2
            &&& r2.depth == r1.depth
            &&& r2.to_accept_text == r1.to_accept_text
            &&& r2.text_buf == r1.text_buf
            &&& r2.is_needed_code_block == r1.is_needed_code_block
            &&& (!r2.to_accept_text ==> r2.text_buf.len() == 0)
            &&& r2.parse_index == r1.texts.len()
            &&& r2.texts.len() == t.len()
            &&& forall|j: int| r2.parse_index <= j < t.len() ==> r2.texts[j] == t[j]
            &&& r2.out + r2.text_buf == md_writer_text(steps.take(n))
        }),
    decreases n,
{
    let p1 = md_markup_finish_pass1(md_markup_run(markup_md_empty(), steps));
    let t = p1.texts;
    let start = md_markup_begin_pass2(p1);
    lemma_pass1_texts_grow(steps, n);
    lemma_pass1_texts_grow(steps, steps.len() as int);
    if n == 0 {
        assert(steps.take(0) =~= Seq::<MdWriterStep>::empty());
        lemma_pass1_out_empty(steps);
        assert(start.out + start.text_buf =~= Seq::<char>::empty());
    } else {
        lemma_pass2_walk(steps, n - 1);
        assert(steps.take(n).drop_last() =~= steps.take(n - 1));
        assert(steps.take(n).last() == steps[n - 1]);
        let r1 = md_markup_run(markup_md_empty(), steps.take(n - 1));
        let r2 = md_markup_run(start, steps.take(n - 1));
        let q1 = md_markup_run(markup_md_empty(), steps.take(n));
        let q2 = md_markup_run(start, steps.take(n));
        lemma_pass1_texts_grow(steps, n - 1);
        let w = md_writer_text(steps.take(n - 1));
        assert(r2.out + r2.text_buf == w);
        match steps[n - 1] {
            MdWriterStep::Write(x) => {
                assert(md_writer_text(steps.take(n)) == w + x);
                assert(r2.out + r2.text_buf + x =~= r2.out + (r2.text_buf + x));
                if !r2.to_accept_text {
                    assert(r2.out + r2.text_buf =~= r2.out);
                    assert(q2.out + q2.text_buf =~= q2.out);
                }
                assert(q2.out + q2.text_buf == w + x);
            },
            MdWriterStep::Event(e) => {
                assert(md_writer_text(steps.take(n)) =~= w);
                if e is Start && r1.depth == 0 {
                    assert(r1.text_buf.len() == 0 || !is_blank_spec(r1.text_buf));
                    if r1.text_buf.len() == 0 {
                        assert(is_blank_spec(r1.text_buf));
                        assert(q2.text_buf.len() == 0);
                        assert(q2.out == r2.out);
                        assert(r2.out + r2.text_buf =~= r2.out);
                        assert(q2.out + q2.text_buf =~= q2.out);
                    } else {
                        let i = r2.parse_index as int;
                        assert(q1.texts == r1.texts.push(r1.text_buf));
                        assert(q1.texts[i] == r1.text_buf);
                        assert(t[i] == r1.text_buf);
                        assert(i < t.len());
                        assert(r2.texts[i] == t[i]);
                        assert(q2.out == r2.out + r1.text_buf);
                        assert(q2.text_buf.len() == 0);
                        assert(q2.out + q2.text_buf =~= q2.out);
                    }
                } else {
                    assert(q2.out == r2.out);
                    assert(q2.text_buf == r2.text_buf);
                }
            },
        }
    }
}

proof fn lemma_pass1_out_empty(steps: Seq<MdWriterStep>)
    ensures
        md_markup_run(markup_md_empty(), steps).out == Seq::<char>::empty(),
        !md_markup_run(markup_md_empty(), steps).in_pass2,
    decreases steps.len(),
{
    if steps.len() > 0 {
        lemma_pass1_out_empty(steps.drop_last());
    }
}

/// With the gathered blocks untranslated, the second pass gives back what the writer produces
/// for the whole document: every text written outside a gathered block is copied, and each
/// gathered block is replaced by the very text gathered for it in the first pass. This holds
/// where no gathered block is made of white space alone (those are dropped) and the first pass
/// does not end inside an 'admonish' code block.
pub proof fn law_md_untranslated_pass2_is_writer_text(steps: Seq<MdWriterStep>)
    requires
        md_no_blank_block(steps),
        !md_markup_run(markup_md_empty(), steps).is_needed_code_block,
    ensures
        md_flush_block(
            md_markup_run(
                md_markup_begin_pass2(md_markup_finish_pass1(md_markup_run(markup_md_empty(), steps))),
                steps,
            ),
        ).out == md_writer_text(steps),
{
    let n = steps.len() as int;
    lemma_pass2_walk(steps, n);
    lemma_pass1_texts_grow(steps, n);
    assert(steps.take(n) =~= steps);
    let r1 = md_markup_run(markup_md_empty(), steps);
    let t = md_markup_finish_pass1(r1).texts;
    let r2 = md_markup_run(md_markup_begin_pass2(md_markup_finish_pass1(r1)), steps);
    if r1.text_buf.len() == 0 {
        assert(is_blank_spec(r1.text_buf));
        assert(r2.out + r2.text_buf =~= r2.out);
    } else {
        assert(t[r1.texts.len() as int] == r1.text_buf);
    }
}

/// Whether a text starts with 'admonish'.
fn starts_admonish(info: &str) -> (r: bool)
    ensures
        r == is_admonish(info@),
{
    let len = info.unicode_len();
    if len < 8 {
        return false;
    }
    let head = info.substring_char(0, 8);
    crate::config::same_text(head, "admonish")
}

impl MarkupMdState {
    /// A state with nothing gathered.
    pub fn new() -> (r: Self)
        ensures
            r@ == markup_md_empty(),
    {
        let r = MarkupMdState {
            to_accept_text: false,
            in_pass2: false,
            is_needed_code_block: false,
            depth: 0,
            parse_index: 0,
            trans_index: 0,
            text_buf: String::new(),
            text_vec: Vec::new(),
            pass2_out: String::new(),
        };
        assert(strings_view(r.text_vec@) =~= Seq::<Seq<char>>::empty());
        r
    }

    fn flush_block(&mut self)
        requires
            old(self).parse_index < usize::MAX,
        ensures
            final(self)@ == md_flush_block(old(self)@),
    {
        if !is_blank(self.text_buf.as_str()) {
            let text = take_string(&mut self.text_buf);
            if !self.in_pass2 {
                push_string(&mut self.text_vec, text);
            } else {
                let index = self.parse_index;
                if index < self.text_vec.len() {
                    let t = take_at(&mut self.text_vec, index);
                    self.pass2_out.append(t.as_str());
                }
                self.parse_index = self.parse_index + 1;
            }
        }
        self.text_buf = String::new();
    }

    /// A parser event reaches the writer.
    pub fn on_event(&mut self, e: &MdEvent)
        requires
            old(self).parse_index < usize::MAX,
            old(self).depth < u32::MAX,
        ensures
            final(self)@ == md_event_spec(old(self)@, e@),
    {
        match e {
            MdEvent::Start(t) => {
                if self.depth == 0 {
                    self.to_accept_text = false;
                    self.flush_block();
                }
                match t {
                    MdTag::Paragraph | MdTag::Heading | MdTag::List | MdTag::MetadataBlock
                    | MdTag::Table | MdTag::HtmlBlock | MdTag::FootnoteDefinition => {
                        if self.depth == 0 {
                            self.to_accept_text = true;
                        }
                        self.depth = self.depth + 1;
                    },
                    MdTag::CodeBlock(Some(info)) => {
                        if starts_admonish(info.as_str()) {
                            self.depth = self.depth + 1;
                            self.to_accept_text = true;
                            self.is_needed_code_block = true;
                        } else {
                            self.is_needed_code_block = false;
                        }
                    },
                    _ => {},
                }
            },
            MdEvent::End(t) => {
                match t {
                    MdTag::Paragraph | MdTag::Heading | MdTag::List | MdTag::MetadataBlock
                    | MdTag::Table | MdTag::HtmlBlock | MdTag::FootnoteDefinition => {
                        if self.depth > 0 {
                            self.depth = self.depth - 1;
                        }
                    },
                    MdTag::CodeBlock(_) => {
                        if self.is_needed_code_block {
                            if self.depth > 0 {
                                self.depth = self.depth - 1;
                            }
                            self.is_needed_code_block = false;
                        }
                    },
                    _ => {},
                }
            },
            _ => {},
        }
    }

    /// Text written by the MarkDown writer.
    pub fn write_text(&mut self, text: &str)
        ensures
            final(self)@ == md_write_spec(old(self)@, text@),
            !old(self)@.to_accept_text && old(self)@.in_pass2 ==> final(self)@.out == old(self)@.out
                + text@,
    {
        if self.to_accept_text {
            self.text_buf.append(text);
        } else if self.in_pass2 {
            self.pass2_out.append(text);
        }
    }

    /// The end of the first pass: a gathered block left is handed over.
    pub fn finish_pass1(&mut self)
        ensures
            final(self)@ == md_markup_finish_pass1(old(self)@),
    {
        if !is_blank(self.text_buf.as_str()) {
            let text = take_string(&mut self.text_buf);
            push_string(&mut self.text_vec, text);
        }
    }

    /// Stores the translation of block `index`, its newlines put back.
    pub fn store_translation(&mut self, index: usize, translated: String)
        requires
            index < old(self).text_vec@.len(),
        ensures
            final(self)@ == (MarkupMdView {
                texts: old(self)@.texts.update(
                    index as int,
                    with_piece_newlines(old(self)@.texts[index as int], translated@),
                ),
                ..old(self)@
            }),
    {
        let mut t = translated;
        restore_triming_newlines(&mut t, self.text_vec[index].as_str());
        set_string(&mut self.text_vec, index, t);
    }

    /// Gets ready for the second pass.
    pub fn begin_pass2(&mut self)
        ensures
            final(self)@ == md_markup_begin_pass2(old(self)@),
    {
        self.depth = 0;
        self.parse_index = 0;
        self.text_buf = String::new();
        self.to_accept_text = false;
        self.in_pass2 = true;
    }

    /// The end of the second pass: the last gathered block is replaced, and the output is
    /// handed out.
    pub fn finish_pass2(&mut self) -> (r: String)
        requires
            old(self).parse_index < usize::MAX,
        ensures
            r@ == md_flush_block(old(self)@).out,
            final(self)@ == (MarkupMdView { out: Seq::<char>::empty(), ..md_flush_block(old(self)@) }),
    {
        self.flush_block();
        take_string(&mut self.pass2_out)
    }
}

} // verus!
