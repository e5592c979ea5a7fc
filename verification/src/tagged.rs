//! The numbered-tag scheme: pieces of text are sent to the LLM wrapped in tags that carry their
//! number, and the reply is read back tag by tag into the list of pieces.
use vstd::prelude::*;
use vstd::utf8::{decode_utf8, encode_utf8, valid_utf8};
use crate::config::joined;
use crate::strutil::{
    decimal, law_decimal_read_back, strings_view, usize_to_decimal, parse_usize, parse_usize_spec,
};

verus! {

/// The characters that `String::from_utf8_lossy` makes of bytes: invalid sequences become
/// U+FFFD.
pub uninterp spec fn utf8_lossy(b: Seq<u8>) -> Seq<char>;

/// Calls `String::from_utf8_lossy`; named by `utf8_lossy`. Its documentation says that valid
/// UTF-8 comes out unchanged.
#[verifier::external_body]
pub(crate) fn lossy_text(b: &[u8]) -> (r: String)
    ensures
        r@ == utf8_lossy(b@),
        valid_utf8(b@) ==> r@ == decode_utf8(b@),
{
    String::from_utf8_lossy(b).into_owned()
}

/// The characters of bytes as `String::from_utf8_lossy` gives them: the decoded text of valid
/// UTF-8, else what `utf8_lossy` names.
pub open spec fn lossy_decoded(b: Seq<u8>) -> Seq<char> {
    if valid_utf8(b) {
        decode_utf8(b)
    } else {
        utf8_lossy(b)
    }
}

/// One numbered piece: `<tag id="index">text</tag>`, after a newline when `new_line`.
pub open spec fn tagged_piece(new_line: bool, tag: Seq<char>, index: nat, text: Seq<char>) -> Seq<
    char,
> {
    (if new_line {
        "\n"@
    } else {
        Seq::<char>::empty()
    }) + "<"@ + tag + " id=\""@ + decimal(index) + "\">"@ + text + "</"@ + tag + ">"@
}

/// Writes one numbered piece.
pub fn tag_piece(new_line: bool, tag: &str, index: usize, text: &str) -> (r: String)
    ensures
        r@ == tagged_piece(new_line, tag@, index as nat, text@),
{
    let mut out = if new_line {
        String::from_str("\n")
    } else {
        String::new()
    };
    proof {
        reveal_strlit("\n");
    }
    out.append("<");
    out.append(tag);
    out.append(" id=\"");
    let number = usize_to_decimal(index);
    out.append(number.as_str());
    out.append("\">");
    out.append(text);
    out.append("</");
    out.append(tag);
    out.append(">");
    assert(out@ =~= tagged_piece(new_line, tag@, index as nat, text@));
    out
}

/// A part of an LLM reply read as XML.
#[derive(Clone, Debug)]
pub enum XmlPiece {
    /// A start tag: its name and the raw value of its 'id' attribute, if it has one.
    Start { name: Vec<u8>, id: Option<Vec<u8>> },
    /// Raw text.
    Text(Vec<u8>),
    /// An end tag.
    End,
    /// Anything else: empty elements, comments, declarations, and parse errors.
    Other,
}

/// The value of an [`XmlPiece`].
pub enum XmlPieceView {
    Start { name: Seq<u8>, id: Option<Seq<u8>> },
    Text(Seq<u8>),
    End,
    Other,
}

impl View for XmlPiece {
    type V = XmlPieceView;

    open spec fn view(&self) -> XmlPieceView {
        match self {
            XmlPiece::Start { name, id } => XmlPieceView::Start {
                name: name@,
                id: match id {
                    Some(v) => Some(v@),
                    None => None,
                },
            },
            XmlPiece::Text(t) => XmlPieceView::Text(t@),
            XmlPiece::End => XmlPieceView::End,
            XmlPiece::Other => XmlPieceView::Other,
        }
    }
}

/// The values of a list of XML parts.
pub open spec fn pieces_view(v: Seq<XmlPiece>) -> Seq<XmlPieceView> {
    v.map_values(|p: XmlPiece| p@)
}

/// The events, up to the end of input, that a `quick_xml::Reader` reads from `text`, trimming
/// text where `trim` holds; a start tag carries the value of its attribute `id_attr`.
pub uninterp spec fn xml_pieces(text: Seq<char>, id_attr: Seq<char>, trim: bool) -> Seq<XmlPieceView>;

/// Reads every event of `text` with a `quick_xml::Reader` (`Reader::from_str`, text trimmed
/// where `trim` holds, `read_event` up to the end of input), taking the value of attribute
/// `id_attr` of each start tag with `try_get_attribute`; named by `xml_pieces`. Errors are
/// kept as `Other` and reading goes on; the reader stops after any error but an ill-formed
/// piece, which it has read past, so reading ends.
#[verifier::external_body]
fn read_xml_pieces(text: &str, id_attr: &str, trim: bool) -> (r: Vec<XmlPiece>)
    ensures
        pieces_view(r@) == xml_pieces(text@, id_attr@, trim),
{
    let mut reader = quick_xml::Reader::from_str(text);
    reader.config_mut().trim_text(trim);
    std::iter::from_fn(|| match reader.read_event() {
        Ok(quick_xml::events::Event::Eof) => None,
        Ok(quick_xml::events::Event::Start(e)) => Some(XmlPiece::Start {
            name: e.name().as_ref().to_vec(),
            id: e.try_get_attribute(id_attr).ok().flatten().map(|a| a.value.to_vec()),
        }),
        Ok(quick_xml::events::Event::Text(e)) => Some(XmlPiece::Text(e.to_vec())),
        Ok(quick_xml::events::Event::End(_)) => Some(XmlPiece::End),
        _ => Some(XmlPiece::Other),
    }).collect()
}

/// The state of reading a reply: the piece being written, if any, and whether it got text.
pub struct ReplyCursor {
    pub index: Option<nat>,
    pub has_text: bool,
}

/// The piece number that a start tag sets, if it is a tag named `tag` with a numeric 'id'.
pub open spec fn tag_target(name: Seq<u8>, id: Option<Seq<u8>>, tag: Seq<u8>) -> Option<nat> {
    if name == tag {
        match id {
            Some(v) => parse_usize_spec(lossy_decoded(v)),
            None => None,
        }
    } else {
        None
    }
}

/// The pieces and cursor after one part of the reply: a numbered tag selects the piece of that
/// number, where there is one (and deselects otherwise), text
/// replaces the selected piece, and an end tag empties a selected piece that got no text.
pub open spec fn reply_step(
    pieces: Seq<Seq<char>>,
    cur: ReplyCursor,
    tag: Seq<u8>,
    p: XmlPieceView,
) -> (Seq<Seq<char>>, ReplyCursor) {
    match p {
        XmlPieceView::Start { name, id } => match tag_target(name, id, tag) {
            Some(n) => (
                pieces,
                ReplyCursor {
                    index: if n < pieces.len() {
                        Some(n)
                    } else {
                        None
                    },
                    has_text: false,
                },
            ),
            None => (pieces, cur),
        },
        XmlPieceView::Text(t) => match cur.index {
            Some(n) => if n < pieces.len() {
                (pieces.update(n as int, lossy_decoded(t)), ReplyCursor { index: cur.index, has_text: true })
            } else {
                (pieces, ReplyCursor { index: cur.index, has_text: true })
            },
            None => (pieces, ReplyCursor { index: None, has_text: true }),
        },
        XmlPieceView::End => {
            let emptied = match cur.index {
                Some(n) => if !cur.has_text && n < pieces.len() {
                    pieces.update(n as int, Seq::<char>::empty())
                } else {
                    pieces
                },
                None => pieces,
            };
            (emptied, ReplyCursor { index: None, has_text: cur.has_text })
        },
        XmlPieceView::Other => (pieces, cur),
    }
}

/// The pieces once every part of the reply is read.
pub open spec fn read_reply(
    pieces: Seq<Seq<char>>,
    cur: ReplyCursor,
    tag: Seq<u8>,
    parts: Seq<XmlPieceView>,
) -> Seq<Seq<char>>
    decreases parts.len(),
{
    if parts.len() == 0 {
        pieces
    } else {
        let (next, c) = reply_step(pieces, cur, tag, parts[0]);
        read_reply(next, c, tag, parts.drop_first())
    }
}

fn bytes_equal(a: &Vec<u8>, b: &[u8]) -> (r: bool)
    ensures
        r == (a@ == b@),
{
    if a.len() != b.len() {
        return false;
    }
    let mut i: usize = 0;
    while i < a.len()
        invariant
            a@.len() == b@.len(),
            i <= a@.len(),
            forall|j: int| 0 <= j < i ==> a@[j] == b@[j],
        decreases a@.len() - i,
    {
        if a[i] != b[i] {
            return false;
        }
        i = i + 1;
    }
    assert(a@ =~= b@);
    true
}

/// Writes into `pieces` what the XML parts of a reply say, as [`read_reply`] states.
pub fn apply_reply_pieces(parts: &Vec<XmlPiece>, pieces: &mut Vec<String>, syntax_tag: &str)
    ensures
        strings_view(final(pieces)@) == read_reply(
            strings_view(old(pieces)@),
            ReplyCursor { index: None, has_text: false },
            encode_utf8(syntax_tag@),
            pieces_view(parts@),
        ),
{
    let tag = syntax_tag.as_bytes();
    let len = pieces.len();
    let mut index: usize = len;
    let mut has_text = false;
    let mut k: usize = 0;
    let ghost goal = read_reply(
        strings_view(pieces@),
        ReplyCursor { index: None, has_text: false },
        encode_utf8(syntax_tag@),
        pieces_view(parts@),
    );
    assert(pieces_view(parts@).skip(0) =~= pieces_view(parts@));
    while k < parts.len()
        invariant
            tag@ == encode_utf8(syntax_tag@),
            len == pieces@.len(),
            k <= parts@.len(),
            index <= len || index == len,
            goal == read_reply(
                strings_view(pieces@),
                ReplyCursor {
                    index: if index < len {
                        Some(index as nat)
                    } else {
                        None
                    },
                    has_text,
                },
                encode_utf8(syntax_tag@),
                pieces_view(parts@).skip(k as int),
            ),
        decreases parts@.len() - k,
    {
        let ghost rest = pieces_view(parts@).skip(k as int);
        assert(rest.drop_first() =~= pieces_view(parts@).skip(k + 1));
        assert(rest[0] == parts@[k as int]@);
        let ghost before = strings_view(pieces@);
        match &parts[k] {
            XmlPiece::Start { name, id } => {
                if bytes_equal(name, tag) {
                    if let Some(v) = id {
                        let text = lossy_text(v.as_slice());
                        if let Some(n) = parse_usize(text.as_str()) {
                            index = if n < len {
                                n
                            } else {
                                len
                            };
                            has_text = false;
                        }
                    }
                }
            },
            XmlPiece::Text(t) => {
                has_text = true;
                if index < len {
                    let s = lossy_text(t.as_slice());
                    pieces.set(index, s);
                    assert(strings_view(pieces@) =~= before.update(index as int, lossy_decoded(t@)));
                }
            },
            XmlPiece::End => {
                if !has_text && index < len {
                    pieces.set(index, String::new());
                    assert(strings_view(pieces@) =~= before.update(index as int, Seq::<char>::empty()));
                }
                index = len;
            },
            XmlPiece::Other => {},
        }
        k = k + 1;
    }
    assert(pieces_view(parts@).skip(k as int) =~= Seq::<XmlPieceView>::empty());
}

/// Reads an LLM reply in which numbered tags named `syntax_tag` carry translated pieces, and
/// writes each translated piece into `chunk_vec` at its number.
pub fn handle_tagged_result(text: &str, chunk_vec: &mut Vec<String>, syntax_tag: &str)
    ensures
        strings_view(final(chunk_vec)@) == read_reply(
            strings_view(old(chunk_vec)@),
            ReplyCursor { index: None, has_text: false },
            encode_utf8(syntax_tag@),
            xml_pieces(text@, "id"@, true),
        ),
{
    let parts = read_xml_pieces(text, "id", true);
    apply_reply_pieces(&parts, chunk_vec, syntax_tag);
}

/// A reply part that opens the numbered tag `n`.
pub open spec fn opening(tag: Seq<u8>, n: nat) -> XmlPieceView {
    XmlPieceView::Start { name: tag, id: Some(encode_utf8(decimal(n))) }
}

/// Reading back a numbered piece: a reply that opens the tag of piece `n`, gives text `t` and
/// closes the tag puts `t` at `n` and reads on from there with nothing selected: the bytes of
/// the decimal text of `n` are valid UTF-8, decode to that text, and parse back to `n`.
pub proof fn law_numbered_piece_read_back(
    pieces: Seq<Seq<char>>,
    cur: ReplyCursor,
    tag: Seq<u8>,
    n: nat,
    t: Seq<u8>,
    rest: Seq<XmlPieceView>,
)
    requires
        n < pieces.len(),
        n <= usize::MAX,
    ensures
        read_reply(
            pieces,
            cur,
            tag,
            seq![opening(tag, n), XmlPieceView::Text(t), XmlPieceView::End] + rest,
        ) == read_reply(
            pieces.update(n as int, lossy_decoded(t)),
            ReplyCursor { index: None, has_text: true },
            tag,
            rest,
        ),
{
    law_decimal_read_back(n);
    vstd::utf8::encode_utf8_valid_utf8(decimal(n));
    vstd::utf8::encode_utf8_decode_utf8(decimal(n));
    let parts = seq![opening(tag, n), XmlPieceView::Text(t), XmlPieceView::End] + rest;
    assert(parts[0] == opening(tag, n));
    assert(parts.drop_first()[0] == XmlPieceView::Text(t));
    assert(parts.drop_first().drop_first()[0] == XmlPieceView::End);
    assert(parts.drop_first().drop_first().drop_first() =~= rest);
    let c1 = ReplyCursor { index: Some(n), has_text: false };
    assert(read_reply(pieces, cur, tag, parts) == read_reply(pieces, c1, tag, parts.drop_first()));
    let p2 = pieces.update(n as int, lossy_decoded(t));
    let c2 = ReplyCursor { index: Some(n), has_text: true };
    assert(read_reply(pieces, c1, tag, parts.drop_first()) == read_reply(
        p2,
        c2,
        tag,
        parts.drop_first().drop_first(),
    ));
}

/// The parts of a reply that gives back, in order, the numbered pieces `ns` with the texts
/// `ts`, each in its own numbered tag.
pub open spec fn tagged_reply(tag: Seq<u8>, ns: Seq<nat>, ts: Seq<Seq<u8>>) -> Seq<XmlPieceView>
    decreases ns.len(),
{
    if ns.len() == 0 || ts.len() == 0 {
        Seq::empty()
    } else {
        seq![opening(tag, ns[0]), XmlPieceView::Text(ts[0]), XmlPieceView::End] + tagged_reply(
            tag,
            ns.drop_first(),
            ts.drop_first(),
        )
    }
}

/// The pieces with the texts `ts` put, in order, at the numbers `ns`.
pub open spec fn with_translations(pieces: Seq<Seq<char>>, ns: Seq<nat>, ts: Seq<Seq<u8>>) -> Seq<
    Seq<char>,
>
    decreases ns.len(),
{
    if ns.len() == 0 || ts.len() == 0 {
        pieces
    } else {
        with_translations(
            pieces.update(ns[0] as int, lossy_decoded(ts[0])),
            ns.drop_first(),
            ts.drop_first(),
        )
    }
}

/// Reading back a reply: a reply that gives back numbered pieces, each text in the tag of its
/// number, puts every text at its number, whatever was being read before.
pub proof fn law_tagged_reply_read_back(
    pieces: Seq<Seq<char>>,
    cur: ReplyCursor,
    tag: Seq<u8>,
    ns: Seq<nat>,
    ts: Seq<Seq<u8>>,
)
    requires
        ns.len() == ts.len(),
        forall|j: int| 0 <= j < ns.len() ==> #[trigger] ns[j] < pieces.len() && ns[j] <= usize::MAX,
    ensures
        read_reply(pieces, cur, tag, tagged_reply(tag, ns, ts)) == with_translations(pieces, ns, ts),
    decreases ns.len(),
{
    if ns.len() > 0 {
        let rest = tagged_reply(tag, ns.drop_first(), ts.drop_first());
        assert(ns[0] < pieces.len() && ns[0] <= usize::MAX);
        law_numbered_piece_read_back(pieces, cur, tag, ns[0], ts[0], rest);
        let next = pieces.update(ns[0] as int, lossy_decoded(ts[0]));
        assert forall|j: int| 0 <= j < ns.drop_first().len() implies #[trigger] ns.drop_first()[j]
            < next.len() && ns.drop_first()[j] <= usize::MAX by {
            assert(ns.drop_first()[j] == ns[j + 1]);
        }
        law_tagged_reply_read_back(
            next,
            ReplyCursor { index: None, has_text: true },
            tag,
            ns.drop_first(),
            ts.drop_first(),
        );
    }
}

/// A reply without parts changes no piece.
pub proof fn law_empty_reply_keeps_pieces(pieces: Seq<Seq<char>>, cur: ReplyCursor, tag: Seq<u8>)
    ensures
        read_reply(pieces, cur, tag, Seq::<XmlPieceView>::empty()) == pieces,
{
}

} // verus!
