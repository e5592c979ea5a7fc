//! Plain text documents: cut into chunks, translated chunk by chunk, joined by blank lines.
use vstd::prelude::*;
use crate::strutil::{strings_view, set_string};
use crate::tagged::{lossy_text, utf8_lossy};

verus! {

/// The chunks that `text_splitter::TextSplitter::new(size).chunks(text)` gives: pieces of
/// `text`, each of at most `size` characters where the text allows it, cut at the largest
/// semantic boundaries that fit.
pub uninterp spec fn text_chunks(size: nat, text: Seq<char>) -> Seq<Seq<char>>;

/// Calls `TextSplitter::new(size).chunks(text)`; named by `text_chunks`.
#[verifier::external_body]
fn split_text(size: usize, text: &str) -> (r: Vec<String>)
    ensures
        strings_view(r@) == text_chunks(size as nat, text@),
{
    text_splitter::TextSplitter::new(size).chunks(text).map(String::from).collect()
}

/// The state of translating a plain text: its chunks, and how many of them are translated.
#[derive(Debug)]
pub struct TextState {
    pub trans_index: usize,
    pub text_vec: Vec<String>,
}

/// Cuts a plain text document into chunks of about `chunk_size` characters, none translated.
pub fn text_pass1(chunk_size: usize, orig_text: &[u8]) -> (r: TextState)
    ensures
        r.trans_index == 0,
        strings_view(r.text_vec@) == text_chunks(chunk_size as nat, utf8_lossy(orig_text@)),
{
    let text = lossy_text(orig_text);
    TextState { trans_index: 0, text_vec: split_text(chunk_size, text.as_str()) }
}

/// The chunks, each followed by a blank line.
pub open spec fn joined_chunks(chunks: Seq<Seq<char>>) -> Seq<char>
    decreases chunks.len(),
{
    if chunks.len() == 0 {
        Seq::<char>::empty()
    } else {
        joined_chunks(chunks.drop_last()) + chunks.last() + "\n\n"@
    }
}

/// Writes the chunks back as one text, each followed by a blank line.
pub fn text_pass2(data: TextState) -> (r: String)
    ensures
        r@ == joined_chunks(strings_view(data.text_vec@)),
{
    let mut out = String::new();
    let mut i: usize = 0;
    let ghost chunks = strings_view(data.text_vec@);
    while i < data.text_vec.len()
        invariant
            chunks == strings_view(data.text_vec@),
            i <= chunks.len(),
            out@ == joined_chunks(chunks.take(i as int)),
        decreases chunks.len() - i,
    {
        assert(chunks.take(i + 1).drop_last() =~= chunks.take(i as int));
        out.append(data.text_vec[i].as_str());
        out.append("\n\n");
        i = i + 1;
    }
    assert(chunks.take(i as int) =~= chunks);
    out
}

impl TextState {
    /// Stores the translation of chunk `index`.
    pub fn store_translation(&mut self, index: usize, translated: String)
        requires
            index < old(self).text_vec@.len(),
        ensures
            final(self).trans_index == old(self).trans_index,
            strings_view(final(self).text_vec@) == strings_view(old(self).text_vec@).update(
                index as int,
                translated@,
            ),
    {
        set_string(&mut self.text_vec, index, translated);
    }
}

/// Translating every chunk and joining them gives the translations, each followed by a blank
/// line, in the order of the chunks.
pub proof fn law_joined_chunks_append(chunks: Seq<Seq<char>>, more: Seq<char>)
    ensures
        joined_chunks(chunks.push(more)) == joined_chunks(chunks) + more + "\n\n"@,
{
    assert(chunks.push(more).drop_last() =~= chunks);
}

/// The chunks with those from `a` up to `b` (`b` left out) replaced by their translation `f`.
pub open spec fn translated_range(
    chunks: Seq<Seq<char>>,
    f: spec_fn(Seq<char>) -> Seq<char>,
    a: int,
    b: int,
) -> Seq<Seq<char>> {
    Seq::new(chunks.len(), |i: int| if a <= i < b { f(chunks[i]) } else { chunks[i] })
}

/// Resuming gives the same text: a run that translates the chunks from `s` up to `k`, saved and
/// resumed by a run that translates those from `k` up to `t`, leaves the same chunks, and so
/// writes the same text, as one run that translates those from `s` up to `t`, where each chunk
/// is translated alike (`f`).
pub proof fn law_resumed_text_same_output(
    chunks: Seq<Seq<char>>,
    f: spec_fn(Seq<char>) -> Seq<char>,
    s: int,
    k: int,
    t: int,
)
    requires
        0 <= s <= k <= t <= chunks.len(),
    ensures
        translated_range(translated_range(chunks, f, s, k), f, k, t) == translated_range(chunks, f, s, t),
        joined_chunks(translated_range(translated_range(chunks, f, s, k), f, k, t)) == joined_chunks(
            translated_range(chunks, f, s, t),
        ),
{
    assert(translated_range(translated_range(chunks, f, s, k), f, k, t) =~= translated_range(chunks, f, s, t));
}

} // verus!
