//! The table of contents of an EPUB book: its labels are sent to the LLM in numbered tags,
//! grouped, and the translations are put back label by label.
use vstd::prelude::*;
use crate::strutil::{is_blank, is_blank_spec, push_string, strings_view, take_at, take_string};
use crate::tagged::{tag_piece, tagged_piece};

verus! {

/// The numbered line of a label: `<tag id="index">label</tag>` and a newline.
pub open spec fn toc_line(tag: Seq<char>, index: nat, label: Seq<char>) -> Seq<char> {
    tagged_piece(false, tag, index, label) + "\n"@
}

/// The pieces and groups made of a list of labels: every label that is not blank becomes the
/// next piece, its numbered line joins the current group, and a group longer than `thres`
/// characters is closed.
pub struct TocGroups {
    pub chunks: Seq<Seq<char>>,
    pub groups: Seq<Seq<char>>,
    pub buf: Seq<char>,
}

/// The pieces and groups after the labels.
pub open spec fn toc_groups(labels: Seq<Seq<char>>, thres: nat, tag: Seq<char>) -> TocGroups
    decreases labels.len(),
{
    if labels.len() == 0 {
        TocGroups { chunks: Seq::empty(), groups: Seq::empty(), buf: Seq::empty() }
    } else {
        let prev = toc_groups(labels.drop_last(), thres, tag);
        let label = labels.last();
        if is_blank_spec(label) {
            prev
        } else {
            let buf = prev.buf + toc_line(tag, prev.chunks.len(), label);
            if buf.len() > thres {
                TocGroups {
                    chunks: prev.chunks.push(label),
                    groups: prev.groups.push(buf),
                    buf: Seq::empty(),
                }
            } else {
                TocGroups { chunks: prev.chunks.push(label), groups: prev.groups, buf }
            }
        }
    }
}

/// The groups to send: the closed ones, and the last one if it is not empty.
pub open spec fn toc_groups_to_send(g: TocGroups) -> Seq<Seq<char>> {
    if g.buf.len() > 0 {
        g.groups.push(g.buf)
    } else {
        g.groups
    }
}

/// Numbers the labels that are not blank and groups their lines, each group closed once
/// longer than `thres` characters; gives the pieces and the groups to send.
pub fn toc_pass1(labels: &Vec<String>, thres: usize, syntax_tag: &str) -> (r: (Vec<String>, Vec<String>))
    ensures
        strings_view(r.0@) == toc_groups(strings_view(labels@), thres as nat, syntax_tag@).chunks,
        strings_view(r.1@) == toc_groups_to_send(
            toc_groups(strings_view(labels@), thres as nat, syntax_tag@),
        ),
{
    let mut chunk_vec: Vec<String> = Vec::new();
    let mut groups: Vec<String> = Vec::new();
    let mut buf = String::new();
    let ghost all = strings_view(labels@);
    let mut i: usize = 0;
    assert(all.take(0) =~= Seq::<Seq<char>>::empty());
    assert(strings_view(chunk_vec@) =~= Seq::<Seq<char>>::empty());
    assert(strings_view(groups@) =~= Seq::<Seq<char>>::empty());
    while i < labels.len()
        invariant
            all == strings_view(labels@),
            i <= labels@.len(),
            strings_view(chunk_vec@) == toc_groups(all.take(i as int), thres as nat, syntax_tag@).chunks,
            strings_view(groups@) == toc_groups(all.take(i as int), thres as nat, syntax_tag@).groups,
            buf@ == toc_groups(all.take(i as int), thres as nat, syntax_tag@).buf,
            chunk_vec@.len() <= i,
        decreases labels@.len() - i,
    {
        assert(all.take(i + 1).drop_last() =~= all.take(i as int));
        let label = labels[i].as_str();
        assert(label@ == all.take(i + 1).last());
        if !is_blank(label) {
            let index = chunk_vec.len();
            let piece = tag_piece(false, syntax_tag, index, label);
            let ghost old_buf = buf@;
            buf.append(piece.as_str());
            buf.append("\n");
            assert(buf@ =~= old_buf + toc_line(syntax_tag@, index as nat, label@));
            push_string(&mut chunk_vec, String::from_str(label));
            if buf.as_str().unicode_len() > thres {
                let text = take_string(&mut buf);
                push_string(&mut groups, text);
            }
        }
        i = i + 1;
    }
    assert(all.take(i as int) =~= all);
    if !buf.as_str().is_empty() {
        push_string(&mut groups, buf);
    }
    (chunk_vec, groups)
}

/// The new label of each label of the list: a label that is not blank takes its translated
/// piece, which is left empty; other labels stay (`None`). The pieces numbered below the count
/// of labels that are not blank are left empty; the others stay.
pub fn toc_pass2(labels: &Vec<String>, chunk_vec: &mut Vec<String>) -> (r: Vec<Option<String>>)
    ensures
        r@.len() == labels@.len(),
        forall|k: int| 0 <= k < labels@.len() ==> (#[trigger] r@[k] is Some) == (!is_blank_spec(labels@[k]@)
            && toc_piece_number(strings_view(labels@), k) < old(chunk_vec)@.len()),
        forall|k: int|
            0 <= k < labels@.len() && #[trigger] r@[k] is Some ==> r@[k]->0@ == strings_view(
                old(chunk_vec)@,
            )[toc_piece_number(strings_view(labels@), k) as int],
        final(chunk_vec)@.len() == old(chunk_vec)@.len(),
        forall|j: int|
            0 <= j < old(chunk_vec)@.len() ==> #[trigger] strings_view(final(chunk_vec)@)[j] == if j
                < toc_piece_number(strings_view(labels@), labels@.len() as int) {
                Seq::<char>::empty()
            } else {
                strings_view(old(chunk_vec)@)[j]
            },
{
    let mut out: Vec<Option<String>> = Vec::new();
    let mut index: usize = 0;
    let ghost all = strings_view(labels@);
    let ghost orig = strings_view(chunk_vec@);
    let mut i: usize = 0;
    while i < labels.len()
        invariant
            all == strings_view(labels@),
            i <= labels@.len(),
            out@.len() == i,
            index == toc_piece_number(all, i as int),
            index <= i,
            chunk_vec@.len() == orig.len(),
            forall|j: int| index <= j < orig.len() ==> strings_view(chunk_vec@)[j] == orig[j],
            forall|j: int| 0 <= j < index && j < orig.len() ==> strings_view(chunk_vec@)[j] == Seq::<char>::empty(),
            forall|k: int| 0 <= k < i ==> (#[trigger] out@[k] is Some) == (!is_blank_spec(all[k])
                && toc_piece_number(all, k) < orig.len()),
            forall|k: int|
                0 <= k < i && #[trigger] out@[k] is Some ==> out@[k]->0@ == orig[toc_piece_number(
                    all,
                    k,
                ) as int],
        decreases labels@.len() - i,
    {
        let label = labels[i].as_str();
        if !is_blank(label) {
            if index < chunk_vec.len() {
                let text = take_at(chunk_vec, index);
                out.push(Some(text));
            } else {
                out.push(None);
            }
            index = index + 1;
        } else {
            out.push(None);
        }
        proof {
            lemma_piece_number_step(all, i as int);
        }
        i = i + 1;
    }
    out
}

/// The number of the labels before `k` that are not blank: the piece number of label `k`.
pub open spec fn toc_piece_number(labels: Seq<Seq<char>>, k: int) -> nat
    decreases k,
{
    if k <= 0 {
        0
    } else {
        toc_piece_number(labels, k - 1) + if is_blank_spec(labels[k - 1]) {
            0nat
        } else {
            1nat
        }
    }
}

proof fn lemma_piece_number_prefix(labels: Seq<Seq<char>>, m: int, k: int)
    requires
        0 <= k <= m <= labels.len(),
    ensures
        toc_piece_number(labels.take(m), k) == toc_piece_number(labels, k),
    decreases k,
{
    if k > 0 {
        lemma_piece_number_prefix(labels, m, k - 1);
        assert(labels.take(m)[k - 1] == labels[k - 1]);
    }
}

/// The labels that are not blank, in order.
pub open spec fn toc_chunks(labels: Seq<Seq<char>>) -> Seq<Seq<char>>
    decreases labels.len(),
{
    if labels.len() == 0 {
        Seq::empty()
    } else if is_blank_spec(labels.last()) {
        toc_chunks(labels.drop_last())
    } else {
        toc_chunks(labels.drop_last()).push(labels.last())
    }
}

proof fn lemma_toc_groups_chunks(labels: Seq<Seq<char>>, thres: nat, tag: Seq<char>)
    ensures
        toc_groups(labels, thres, tag).chunks == toc_chunks(labels),
    decreases labels.len(),
{
    if labels.len() > 0 {
        lemma_toc_groups_chunks(labels.drop_last(), thres, tag);
    }
}

#[verifier::spinoff_prover]
#[verifier::rlimit(40)]
proof fn lemma_toc_chunks_numbered(labels: Seq<Seq<char>>)
    ensures
        toc_chunks(labels).len() == toc_piece_number(labels, labels.len() as int),
        forall|k: int|
            0 <= k < labels.len() && !is_blank_spec(labels[k]) ==> toc_piece_number(labels, k)
                < toc_chunks(labels).len() && toc_chunks(labels)[toc_piece_number(labels, k) as int]
                == labels[k],
    decreases labels.len(),
{
    if labels.len() > 0 {
        let n = labels.len() as int;
        let prev = labels.drop_last();
        lemma_toc_chunks_numbered(prev);
        assert(prev =~= labels.take(n - 1));
        lemma_piece_number_prefix(labels, n - 1, n - 1);
        lemma_piece_number_step(labels, n - 1);
        assert forall|k: int| 0 <= k < n && !is_blank_spec(labels[k]) implies toc_piece_number(labels, k)
            < toc_chunks(labels).len() && toc_chunks(labels)[toc_piece_number(labels, k) as int]
            == labels[k] by {
            if k < n - 1 {
                lemma_piece_number_prefix(labels, n - 1, k);
                assert(prev[k] == labels[k]);
            }
        }
    }
}

/// Collecting and putting back number the labels alike: the piece that collecting makes of a
/// label that is not blank is at that label's piece number, the number by which putting back
/// picks its translation; so where no piece is changed, every label gets its own text back.
pub proof fn law_toc_numbers_match(labels: Seq<Seq<char>>, thres: nat, tag: Seq<char>)
    ensures
        toc_groups(labels, thres, tag).chunks.len() == toc_piece_number(labels, labels.len() as int),
        forall|k: int|
            0 <= k < labels.len() && !is_blank_spec(labels[k]) ==> toc_piece_number(labels, k)
                < toc_groups(labels, thres, tag).chunks.len() && toc_groups(
                labels,
                thres,
                tag,
            ).chunks[toc_piece_number(labels, k) as int] == labels[k],
{
    lemma_toc_groups_chunks(labels, thres, tag);
    lemma_toc_chunks_numbered(labels);
}

proof fn lemma_piece_number_step(labels: Seq<Seq<char>>, i: int)
    requires
        0 <= i,
    ensures
        toc_piece_number(labels, i + 1) == toc_piece_number(labels, i) + if is_blank_spec(labels[i]) {
            0nat
        } else {
            1nat
        },
{
}

} // verus!
