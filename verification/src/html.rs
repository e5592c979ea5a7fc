//! The decisions of the HTML passes. An HTML rewriter walks the document and reports, in
//! order, the selected elements that open and close, the text chunks and the output; these
//! state machines decide what is collected for the LLM and what replaces the text of the document.
use vstd::prelude::*;
use crate::config::joined;
use crate::strutil::{
    is_blank, is_blank_spec, leading_newline_count, newlines, push_string,
    restore_triming_newlines, set_string, strings_view, take_at, take_string,
    trailing_newline_count,
};
use crate::tagged::{lossy_text, tag_piece, tagged_piece, utf8_lossy};

verus! {

/// The text of a closing tag for an element name.
pub open spec fn closing_tag(name: Seq<char>) -> Seq<char> {
    "</"@ + name + ">"@
}

fn close_tag(name: &str) -> (r: String)
    ensures
        r@ == closing_tag(name@),
{
    let mut s = joined("</", name);
    s.append(">");
    s
}

// ---------------------------------------------------------------------------------------
// Text pieces numbered by tags (strategy 'bytransbot').
// ---------------------------------------------------------------------------------------

/// The state of the numbered-piece passes over HTML.
#[derive(Debug)]
pub struct TaggedHtmlState {
    /// Whether an element opened since the last piece, so that the next piece starts a line.
    pub new_tag: bool,
    /// How many selected elements are open.
    pub depth: u32,
    /// How many pieces were met.
    pub parse_index: usize,
    /// How many groups are translated.
    pub trans_index: usize,
    /// The group being filled.
    pub chunk_group_buf: String,
    /// The groups of numbered pieces, each sent to the LLM at once.
    pub chunk_group_vec: Vec<String>,
    /// The pieces, by number.
    pub chunk_vec: Vec<String>,
}

/// The value of a [`TaggedHtmlState`].
pub struct TaggedHtmlView {
    pub new_tag: bool,
    pub depth: nat,
    pub parse_index: nat,
    pub trans_index: nat,
    pub buf: Seq<char>,
    pub groups: Seq<Seq<char>>,
    pub chunks: Seq<Seq<char>>,
}

impl View for TaggedHtmlState {
    type V = TaggedHtmlView;

    open spec fn view(&self) -> TaggedHtmlView {
        TaggedHtmlView {
            new_tag: self.new_tag,
            depth: self.depth as nat,
            parse_index: self.parse_index as nat,
            trans_index: self.trans_index as nat,
            buf: self.chunk_group_buf@,
            groups: strings_view(self.chunk_group_vec@),
            chunks: strings_view(self.chunk_vec@),
        }
    }
}

/// A selected element opens while collecting: one more level, and the next piece starts a line.
pub open spec fn tagged_open_spec(s: TaggedHtmlView) -> TaggedHtmlView {
    TaggedHtmlView { depth: s.depth + 1, new_tag: true, ..s }
}

/// A selected element closes while collecting: one level less; back at the top, a group
/// longer than `chunk_size` characters is closed.
pub open spec fn tagged_close_spec(s: TaggedHtmlView, chunk_size: nat) -> TaggedHtmlView {
    let depth = if s.depth > 0 {
        (s.depth - 1) as nat
    } else {
        0
    };
    if depth == 0 && s.buf.len() > chunk_size {
        TaggedHtmlView { depth, buf: Seq::<char>::empty(), groups: s.groups.push(s.buf), ..s }
    } else {
        TaggedHtmlView { depth, ..s }
    }
}

/// A text chunk while collecting: inside a selected element and not blank, it becomes the
/// next numbered piece and joins the group in its numbered tag.
pub open spec fn tagged_text_spec(s: TaggedHtmlView, chunk: Seq<char>, tag: Seq<char>) -> TaggedHtmlView {
    if s.depth > 0 && !is_blank_spec(chunk) {
        TaggedHtmlView {
            new_tag: false,
            parse_index: s.parse_index + 1,
            chunks: s.chunks.push(chunk),
            buf: s.buf + tagged_piece(s.new_tag, tag, s.parse_index, chunk),
            ..s
        }
    } else {
        s
    }
}

/// The end of collecting: a group left unfinished is closed.
pub open spec fn tagged_finish_spec(s: TaggedHtmlView) -> TaggedHtmlView {
    if s.buf.len() > 0 {
        TaggedHtmlView { buf: Seq::<char>::empty(), groups: s.groups.push(s.buf), ..s }
    } else {
        s
    }
}

/// The translation of a text chunk while writing the output: inside a selected element and
/// not blank, the chunk takes the next piece, which is handed out and left empty.
pub open spec fn tagged_output_text_spec(s: TaggedHtmlView, chunk: Seq<char>) -> (
    TaggedHtmlView,
    Option<Seq<char>>,
) {
    if s.depth > 0 && !is_blank_spec(chunk) {
        let i = s.parse_index;
        let next = TaggedHtmlView { parse_index: s.parse_index + 1, ..s };
        if i < s.chunks.len() {
            (
                TaggedHtmlView { chunks: s.chunks.update(i as int, Seq::<char>::empty()), ..next },
                Some(s.chunks[i as int]),
            )
        } else {
            (next, None)
        }
    } else {
        (s, None)
    }
}

impl TaggedHtmlState {
    /// A state with nothing collected.
    pub fn new() -> (r: Self)
        ensures
            r@ == (TaggedHtmlView {
                new_tag: false,
                depth: 0,
                parse_index: 0,
                trans_index: 0,
                buf: Seq::<char>::empty(),
                groups: Seq::<Seq<char>>::empty(),
                chunks: Seq::<Seq<char>>::empty(),
            }),
    {
        let r = TaggedHtmlState {
            new_tag: false,
            depth: 0,
            parse_index: 0,
            trans_index: 0,
            chunk_group_buf: String::new(),
            chunk_group_vec: Vec::new(),
            chunk_vec: Vec::new(),
        };
        assert(strings_view(r.chunk_vec@) =~= Seq::<Seq<char>>::empty());
        assert(strings_view(r.chunk_group_vec@) =~= Seq::<Seq<char>>::empty());
        r
    }

    /// A selected element that is not self-closing opens while collecting.
    pub fn open_element(&mut self)
        requires
            old(self).depth < u32::MAX,
        ensures
            final(self)@ == tagged_open_spec(old(self)@),
    {
        self.depth = self.depth + 1;
        self.new_tag = true;
    }

    /// A selected element closes while collecting.
    pub fn close_element(&mut self, chunk_size: usize)
        ensures
            final(self)@ == tagged_close_spec(old(self)@, chunk_size as nat),
    {
        if self.depth > 0 {
            self.depth = self.depth - 1;
        }
        if self.depth == 0 && self.chunk_group_buf.as_str().unicode_len() > chunk_size {
            let chunk = take_string(&mut self.chunk_group_buf);
            push_string(&mut self.chunk_group_vec, chunk);
        }
    }

    /// A text chunk while collecting.
    pub fn collect_text(&mut self, chunk: &str, syntax_tag: &str)
        requires
            old(self).parse_index < usize::MAX,
        ensures
            final(self)@ == tagged_text_spec(old(self)@, chunk@, syntax_tag@),
    {
        if self.depth > 0 && !is_blank(chunk) {
            let index = self.parse_index;
            self.parse_index = self.parse_index + 1;
            push_string(&mut self.chunk_vec, String::from_str(chunk));
            let new_line = self.new_tag;
            self.new_tag = false;
            let piece = tag_piece(new_line, syntax_tag, index, chunk);
            self.chunk_group_buf.append(piece.as_str());
        }
    }

    /// The end of collecting.
    pub fn finish_collecting(&mut self)
        ensures
            final(self)@ == tagged_finish_spec(old(self)@),
    {
        if !self.chunk_group_buf.as_str().is_empty() {
            let chunk = take_string(&mut self.chunk_group_buf);
            push_string(&mut self.chunk_group_vec, chunk);
        }
    }

    /// Gets ready to write the output: no element open, no piece met.
    pub fn begin_output(&mut self)
        ensures
            final(self)@ == (TaggedHtmlView { depth: 0, parse_index: 0, ..old(self)@ }),
    {
        self.depth = 0;
        self.parse_index = 0;
    }

    /// A selected element opens while writing the output.
    pub fn output_open_element(&mut self)
        requires
            old(self).depth < u32::MAX,
        ensures
            final(self)@ == (TaggedHtmlView { depth: old(self)@.depth + 1, ..old(self)@ }),
    {
        self.depth = self.depth + 1;
    }

    /// A selected element closes while writing the output.
    pub fn output_close_element(&mut self)
        ensures
            final(self)@ == (TaggedHtmlView {
                depth: if old(self)@.depth > 0 {
                    (old(self)@.depth - 1) as nat
                } else {
                    0
                },
                ..old(self)@
            }),
    {
        if self.depth > 0 {
            self.depth = self.depth - 1;
        }
    }

    /// The translation that replaces a text chunk while writing the output, if any.
    pub fn output_text(&mut self, chunk: &str) -> (r: Option<String>)
        requires
            old(self).parse_index < usize::MAX,
        ensures
            (final(self)@, crate::config::opt_view(r)) == tagged_output_text_spec(
                old(self)@,
                chunk@,
            ),
    {
        if self.depth > 0 && !is_blank(chunk) {
            let index = self.parse_index;
            self.parse_index = self.parse_index + 1;
            if index < self.chunk_vec.len() {
                let translated = take_at(&mut self.chunk_vec, index);
                return Some(translated);
            }
        }
        None
    }
}

// ---------------------------------------------------------------------------------------
// Whole elements sent with their markup (strategy 'byllm').
// ---------------------------------------------------------------------------------------

/// The state of the passes that send each top selected element, markup included.
#[derive(Debug)]
pub struct MarkupHtmlState {
    /// How many selected elements are open.
    pub depth: u32,
    /// How many elements were written back.
    pub parse_index: usize,
    /// How many elements are translated.
    pub trans_index: usize,
    /// The markup of the element being collected.
    pub chunk_buf: String,
    /// The inner markup of every top selected element, by order.
    pub chunk_vec: Vec<String>,
}

/// The value of a [`MarkupHtmlState`].
pub struct MarkupHtmlView {
    pub depth: nat,
    pub parse_index: nat,
    pub trans_index: nat,
    pub buf: Seq<char>,
    pub chunks: Seq<Seq<char>>,
}

impl View for MarkupHtmlState {
    type V = MarkupHtmlView;

    open spec fn view(&self) -> MarkupHtmlView {
        MarkupHtmlView {
            depth: self.depth as nat,
            parse_index: self.parse_index as nat,
            trans_index: self.trans_index as nat,
            buf: self.chunk_buf@,
            chunks: strings_view(self.chunk_vec@),
        }
    }
}

/// A selected element opens while collecting: a top one starts an empty buffer.
pub open spec fn markup_open_spec(s: MarkupHtmlView) -> MarkupHtmlView {
    if s.depth > 0 {
        MarkupHtmlView { depth: s.depth + 1, ..s }
    } else {
        MarkupHtmlView { depth: 1, buf: Seq::<char>::empty(), ..s }
    }
}

/// Output of the rewriter while collecting: inside a selected element, it joins the buffer.
pub open spec fn markup_output_spec(s: MarkupHtmlView, out: Seq<char>) -> MarkupHtmlView {
    if s.depth > 0 {
        MarkupHtmlView { buf: s.buf + out, ..s }
    } else {
        s
    }
}

/// A selected element named `name` closes while collecting: when it is a top one, its
/// buffer, closed by the end tag, becomes the next piece.
pub open spec fn markup_close_spec(s: MarkupHtmlView, name: Seq<char>) -> MarkupHtmlView {
    if s.depth >= 1 {
        if s.depth == 1 {
            MarkupHtmlView {
                depth: 0,
                buf: Seq::<char>::empty(),
                chunks: s.chunks.push(s.buf + closing_tag(name)),
                ..s
            }
        } else {
            MarkupHtmlView { depth: (s.depth - 1) as nat, ..s }
        }
    } else {
        s
    }
}

/// A selected element closes while writing the output: a top one is replaced by its
/// translated piece (or nothing, where there is none), which is left empty.
pub open spec fn markup_output_close_spec(s: MarkupHtmlView) -> (MarkupHtmlView, Option<Seq<char>>) {
    if s.depth == 1 {
        let i = s.parse_index;
        let next = MarkupHtmlView { depth: 0, parse_index: i + 1, ..s };
        if i < s.chunks.len() {
            (
                MarkupHtmlView { chunks: s.chunks.update(i as int, Seq::<char>::empty()), ..next },
                Some(s.chunks[i as int]),
            )
        } else {
            (next, Some(Seq::<char>::empty()))
        }
    } else if s.depth > 1 {
        (MarkupHtmlView { depth: (s.depth - 1) as nat, ..s }, None)
    } else {
        (s, None)
    }
}

/// A translation stored for a piece: the newlines that started and ended the piece are put
/// back around it.
pub open spec fn with_piece_newlines(orig: Seq<char>, translated: Seq<char>) -> Seq<char> {
    newlines(leading_newline_count(orig)) + translated + newlines(trailing_newline_count(orig))
}

impl MarkupHtmlState {
    /// A state with nothing collected.
    pub fn new() -> (r: Self)
        ensures
            r@ == (MarkupHtmlView {
                depth: 0,
                parse_index: 0,
                trans_index: 0,
                buf: Seq::<char>::empty(),
                chunks: Seq::<Seq<char>>::empty(),
            }),
    {
        let r = MarkupHtmlState {
            depth: 0,
            parse_index: 0,
            trans_index: 0,
            chunk_buf: String::new(),
            chunk_vec: Vec::new(),
        };
        assert(strings_view(r.chunk_vec@) =~= Seq::<Seq<char>>::empty());
        r
    }

    /// A selected element that is not self-closing opens while collecting.
    pub fn open_element(&mut self)
        requires
            old(self).depth < u32::MAX,
        ensures
            final(self)@ == markup_open_spec(old(self)@),
    {
        if self.depth > 0 {
            self.depth = self.depth + 1;
        } else {
            self.depth = 1;
            self.chunk_buf = String::new();
        }
    }

    /// Output bytes of the rewriter while collecting.
    pub fn collect_output(&mut self, out: &[u8])
        ensures
            final(self)@ == markup_output_spec(old(self)@, utf8_lossy(out@)),
    {
        if self.depth > 0 {
            let text = lossy_text(out);
            self.chunk_buf.append(text.as_str());
        }
    }

    /// A selected element named `name` closes while collecting.
    pub fn close_element(&mut self, name: &str)
        ensures
            final(self)@ == markup_close_spec(old(self)@, name@),
    {
        if self.depth >= 1 {
            self.depth = self.depth - 1;
            if self.depth == 0 {
                let end = close_tag(name);
                self.chunk_buf.append(end.as_str());
                let chunk = take_string(&mut self.chunk_buf);
                push_string(&mut self.chunk_vec, chunk);
            }
        }
    }

    /// Stores the translation of piece `index`, its newlines put back.
    pub fn store_translation(&mut self, index: usize, translated: String)
        requires
            index < old(self).chunk_vec@.len(),
        ensures
            final(self)@ == (MarkupHtmlView {
                chunks: old(self)@.chunks.update(
                    index as int,
                    with_piece_newlines(old(self)@.chunks[index as int], translated@),
                ),
                ..old(self)@
            }),
    {
        let mut t = translated;
        restore_triming_newlines(&mut t, self.chunk_vec[index].as_str());
        set_string(&mut self.chunk_vec, index, t);
    }

    /// A selected element that is not self-closing opens while writing the output.
    pub fn output_open_element(&mut self)
        requires
            old(self).depth < u32::MAX,
        ensures
            final(self)@ == (MarkupHtmlView {
                depth: if old(self)@.depth > 0 {
                    old(self)@.depth + 1
                } else {
                    1
                },
                ..old(self)@
            }),
    {
        if self.depth > 0 {
            self.depth = self.depth + 1;
        } else {
            self.depth = 1;
        }
    }

    /// A selected element closes while writing the output: what replaces its end tag, if
    /// anything.
    pub fn output_close_element(&mut self) -> (r: Option<String>)
        requires
            old(self).parse_index < usize::MAX,
        ensures
            (final(self)@, crate::config::opt_view(r)) == markup_output_close_spec(old(self)@),
    {
        if self.depth >= 1 {
            self.depth = self.depth - 1;
            if self.depth == 0 {
                let index = self.parse_index;
                self.parse_index = self.parse_index + 1;
                let translated = if index < self.chunk_vec.len() {
                    take_at(&mut self.chunk_vec, index)
                } else {
                    String::new()
                };
                return Some(translated);
            }
        }
        None
    }

    /// Whether output of the rewriter is written while writing the output: only outside the
    /// selected elements, whose content the translations replace.
    pub fn emits_output(&self) -> (r: bool)
        ensures
            r == (self@.depth == 0),
    {
        self.depth == 0
    }
}

// ---------------------------------------------------------------------------------------
// Bare text of whole elements (strategy 'stripped').
// ---------------------------------------------------------------------------------------

/// The state of the passes that send the bare text of each top selected element.
#[derive(Debug)]
pub struct StrippedHtmlState {
    /// Whether the start tag of the current top element was written.
    pub start_tag_ended: bool,
    /// How many selected elements are open.
    pub depth: u32,
    /// How many top elements were met.
    pub index: u32,
    /// The text of the element being collected.
    pub elem_buffer: String,
    /// The text of every top selected element; the one met `k`-th is at `k - 1`.
    pub pieces: Vec<String>,
}

/// The value of a [`StrippedHtmlState`].
pub struct StrippedHtmlView {
    pub start_tag_ended: bool,
    pub depth: nat,
    pub index: nat,
    pub buf: Seq<char>,
    pub pieces: Seq<Seq<char>>,
}

impl View for StrippedHtmlState {
    type V = StrippedHtmlView;

    open spec fn view(&self) -> StrippedHtmlView {
        StrippedHtmlView {
            start_tag_ended: self.start_tag_ended,
            depth: self.depth as nat,
            index: self.index as nat,
            buf: self.elem_buffer@,
            pieces: strings_view(self.pieces@),
        }
    }
}

/// A selected element opens while collecting: a top one starts an empty buffer.
pub open spec fn stripped_open_spec(s: StrippedHtmlView) -> StrippedHtmlView {
    if s.depth > 0 {
        StrippedHtmlView { depth: s.depth + 1, ..s }
    } else {
        StrippedHtmlView { depth: 1, buf: Seq::<char>::empty(), ..s }
    }
}

/// A selected element closes while collecting: a top one hands its text over as the next
/// piece.
pub open spec fn stripped_close_spec(s: StrippedHtmlView) -> StrippedHtmlView {
    if s.depth == 1 {
        StrippedHtmlView {
            depth: 0,
            index: s.index + 1,
            buf: Seq::<char>::empty(),
            pieces: s.pieces.push(s.buf),
            ..s
        }
    } else if s.depth > 1 {
        StrippedHtmlView { depth: (s.depth - 1) as nat, ..s }
    } else {
        s
    }
}

/// A selected element named `name` closes while writing the output: a top one is replaced by
/// its translated text, or nothing, followed by its end tag.
pub open spec fn stripped_output_close_spec(s: StrippedHtmlView, name: Seq<char>) -> (
    StrippedHtmlView,
    Option<Seq<char>>,
) {
    if s.depth == 1 {
        let i = s.index;
        let next = StrippedHtmlView { depth: 0, index: i + 1, ..s };
        if i < s.pieces.len() {
            (
                StrippedHtmlView { pieces: s.pieces.update(i as int, Seq::<char>::empty()), ..next },
                Some(s.pieces[i as int] + closing_tag(name)),
            )
        } else {
            (next, Some(closing_tag(name)))
        }
    } else if s.depth > 1 {
        (StrippedHtmlView { depth: (s.depth - 1) as nat, ..s }, None)
    } else {
        (s, None)
    }
}

/// Whether an output chunk is written: outside the selected elements, and the start tag of a
/// top element.
pub open spec fn stripped_output_spec(s: StrippedHtmlView) -> (StrippedHtmlView, bool) {
    if s.depth == 0 || !s.start_tag_ended {
        (StrippedHtmlView { start_tag_ended: true, ..s }, true)
    } else {
        (s, false)
    }
}

impl StrippedHtmlState {
    /// A state with nothing collected.
    pub fn new() -> (r: Self)
        ensures
            r@ == (StrippedHtmlView {
                start_tag_ended: false,
                depth: 0,
                index: 0,
                buf: Seq::<char>::empty(),
                pieces: Seq::<Seq<char>>::empty(),
            }),
    {
        let r = StrippedHtmlState {
            start_tag_ended: false,
            depth: 0,
            index: 0,
            elem_buffer: String::new(),
            pieces: Vec::new(),
        };
        assert(strings_view(r.pieces@) =~= Seq::<Seq<char>>::empty());
        r
    }

    /// A selected element that is not self-closing opens while collecting.
    pub fn open_element(&mut self)
        requires
            old(self).depth < u32::MAX,
        ensures
            final(self)@ == stripped_open_spec(old(self)@),
    {
        if self.depth > 0 {
            self.depth = self.depth + 1;
        } else {
            self.depth = 1;
            self.elem_buffer = String::new();
        }
    }

    /// A text chunk while collecting: inside a selected element, it joins the buffer.
    pub fn collect_text(&mut self, text: &str)
        ensures
            final(self)@ == (if old(self)@.depth > 0 {
                StrippedHtmlView { buf: old(self)@.buf + text@, ..old(self)@ }
            } else {
                old(self)@
            }),
    {
        if self.depth > 0 {
            self.elem_buffer.append(text);
        }
    }

    /// A selected element closes while collecting.
    pub fn close_element(&mut self)
        requires
            old(self).index < u32::MAX,
        ensures
            final(self)@ == stripped_close_spec(old(self)@),
    {
        if self.depth == 1 {
            self.index = self.index + 1;
            let text = take_string(&mut self.elem_buffer);
            push_string(&mut self.pieces, text);
            self.depth = 0;
        } else if self.depth > 1 {
            self.depth = self.depth - 1;
        }
    }

    /// Stores the translation of piece `k`.
    pub fn store_translation(&mut self, k: usize, translated: String)
        requires
            k < old(self).pieces@.len(),
        ensures
            final(self)@ == (StrippedHtmlView {
                pieces: old(self)@.pieces.update(k as int, translated@),
                ..old(self)@
            }),
    {
        set_string(&mut self.pieces, k, translated);
    }

    /// Gets ready to write the output: no top element met yet.
    pub fn begin_output(&mut self)
        ensures
            final(self)@ == (StrippedHtmlView { index: 0, ..old(self)@ }),
    {
        self.index = 0;
    }

    /// A selected element that is not self-closing opens while writing the output.
    pub fn output_open_element(&mut self)
        requires
            old(self).depth < u32::MAX,
        ensures
            final(self)@ == (if old(self)@.depth > 0 {
                StrippedHtmlView { depth: old(self)@.depth + 1, ..old(self)@ }
            } else {
                StrippedHtmlView { depth: 1, start_tag_ended: false, ..old(self)@ }
            }),
    {
        if self.depth > 0 {
            self.depth = self.depth + 1;
        } else {
            self.depth = 1;
            self.start_tag_ended = false;
        }
    }

    /// A selected element named `name` closes while writing the output: what replaces its end
    /// tag, if anything.
    pub fn output_close_element(&mut self, name: &str) -> (r: Option<String>)
        requires
            old(self).index < u32::MAX,
        ensures
            (final(self)@, crate::config::opt_view(r)) == stripped_output_close_spec(
                old(self)@,
                name@,
            ),
    {
        if self.depth == 1 {
            let i = self.index as usize;
            self.index = self.index + 1;
            let mut content = if i < self.pieces.len() {
                take_at(&mut self.pieces, i)
            } else {
                String::new()
            };
            let end = close_tag(name);
            content.append(end.as_str());
            self.depth = 0;
            Some(content)
        } else {
            if self.depth > 1 {
                self.depth = self.depth - 1;
            }
            None
        }
    }

    /// Whether an output chunk of the rewriter is written while writing the output.
    pub fn output_chunk(&mut self) -> (r: bool)
        ensures
            (final(self)@, r) == stripped_output_spec(old(self)@),
    {
        if self.depth == 0 || !self.start_tag_ended {
            self.start_tag_ended = true;
            true
        } else {
            false
        }
    }
}

/// Collecting keeps one piece per number met: a state whose pieces are as many as the numbers
/// met keeps so after any text chunk.
pub proof fn law_tagged_numbers_match_pieces(s: TaggedHtmlView, chunk: Seq<char>, tag: Seq<char>)
    requires
        s.parse_index == s.chunks.len(),
    ensures
        tagged_text_spec(s, chunk, tag).parse_index == tagged_text_spec(s, chunk, tag).chunks.len(),
{
}

/// Closing an element while collecting neither loses nor repeats gathered text: the groups,
/// joined, followed by the group being gathered, stay the same. A group is closed exactly when
/// the element closed was a top one and the group has grown longer than `chunk_size`; the end of
/// collecting closes what is left. The pieces themselves are left alone.
pub proof fn law_tagged_groups_keep_text(s: TaggedHtmlView, chunk_size: nat)
    ensures
        ({
            let c = tagged_close_spec(s, chunk_size);
            &&& c.groups.flatten() + c.buf == s.groups.flatten() + s.buf
            &&& c.chunks == s.chunks
            &&& c.parse_index == s.parse_index
            &&& (c.depth == 0 && s.buf.len() > chunk_size) ==> (c.groups == s.groups.push(s.buf)
                && c.buf.len() == 0)
            &&& !(c.depth == 0 && s.buf.len() > chunk_size) ==> (c.groups == s.groups && c.buf
                == s.buf)
        }),
        ({
            let f = tagged_finish_spec(s);
            &&& f.groups.flatten() + f.buf == s.groups.flatten() + s.buf
            &&& f.buf.len() == 0
        }),
{
    broadcast use Seq::lemma_flatten_push;

    let c = tagged_close_spec(s, chunk_size);
    let f = tagged_finish_spec(s);
    assert(c.groups.flatten() + c.buf =~= s.groups.flatten() + s.buf);
    assert(f.groups.flatten() + f.buf =~= s.groups.flatten() + s.buf);
}

/// Collecting and writing the output number the text chunks alike: at the same depth and
/// count, a chunk that takes a translation while writing is the chunk that collecting put at
/// that number, and both passes move on to the same count.
pub proof fn law_tagged_passes_agree(
    c: TaggedHtmlView,
    o: TaggedHtmlView,
    chunk: Seq<char>,
    tag: Seq<char>,
)
    requires
        c.depth == o.depth,
        c.parse_index == o.parse_index,
        c.parse_index == c.chunks.len(),
    ensures
        tagged_text_spec(c, chunk, tag).parse_index == tagged_output_text_spec(o, chunk).0.parse_index,
        tagged_output_text_spec(o, chunk).1 is Some ==> tagged_text_spec(c, chunk, tag).chunks[o.parse_index as int]
            == chunk,
        tagged_output_text_spec(o, chunk).1 is Some ==> tagged_output_text_spec(o, chunk).1
            == Some(o.chunks[o.parse_index as int]),
{
}

/// Collecting and writing the output of whole elements number the top elements alike: at the
/// same depth, with as many pieces collected as top elements written, closing an element moves
/// both passes to the same depth and count, a closing top element becomes the piece at that
/// number (its markup and its end tag), and the output puts the piece of that number in its
/// place.
pub proof fn law_markup_passes_agree(c: MarkupHtmlView, o: MarkupHtmlView, name: Seq<char>)
    requires
        c.depth == o.depth,
        c.chunks.len() == o.parse_index,
    ensures
        markup_open_spec(c).depth == (if o.depth > 0 {
            o.depth + 1
        } else {
            1
        }),
        markup_close_spec(c, name).depth == markup_output_close_spec(o).0.depth,
        markup_close_spec(c, name).chunks.len() == markup_output_close_spec(o).0.parse_index,
        c.depth == 1 ==> markup_close_spec(c, name).chunks[c.chunks.len() as int] == c.buf
            + closing_tag(name),
        c.depth == 1 && o.parse_index < o.chunks.len() ==> markup_output_close_spec(o).1 == Some(
            o.chunks[o.parse_index as int],
        ),
{
}

/// Collecting and writing the output of bare text number the top elements alike: with as many
/// pieces as top elements met and the same count and depth on both sides, closing an element
/// moves both passes to the same depth and count, a closing top element becomes the piece at
/// that number, and the output puts the piece of that number, then the end tag, in its place.
pub proof fn law_stripped_passes_agree(c: StrippedHtmlView, o: StrippedHtmlView, name: Seq<char>)
    requires
        c.depth == o.depth,
        c.index == o.index,
        c.index == c.pieces.len(),
    ensures
        stripped_close_spec(c).depth == stripped_output_close_spec(o, name).0.depth,
        stripped_close_spec(c).index == stripped_output_close_spec(o, name).0.index,
        stripped_close_spec(c).index == stripped_close_spec(c).pieces.len(),
        c.depth == 1 ==> stripped_close_spec(c).pieces[c.index as int] == c.buf,
        c.depth == 1 && o.index < o.pieces.len() ==> stripped_output_close_spec(o, name).1 == Some(
            o.pieces[o.index as int] + closing_tag(name),
        ),
{
}

} // verus!
