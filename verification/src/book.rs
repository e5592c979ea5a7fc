//! The decisions of translating an EPUB book: which of its stages (the metadata, the table of
//! contents, then each chapter) run in a resumed job, which manifest entries are chapters, and
//! which metadata properties are translated.
use vstd::prelude::*;
use crate::config::{opt_view, same_text};
use crate::route::{contains_text, occurs_in};
use crate::strutil::strings_view;

verus! {

/// The progress over the stages of a book: `index` is the stage at hand, and the stages before
/// `previous` were done by an earlier job.
#[derive(Clone, Copy, Debug, PartialEq, Eq, Structural)]
pub struct BookProgress {
    pub index: u32,
    pub previous: u32,
}

/// The stages already done when a job starts: what the progress file holds, provided the
/// translated book that it speaks of could be opened; none otherwise.
pub open spec fn previous_stages(saved: Option<u32>, dest_opened: bool) -> u32 {
    if dest_opened {
        match saved {
            Some(n) => n,
            None => 0,
        }
    } else {
        0
    }
}

impl BookProgress {
    /// The progress at the start of a job, from the saved progress, if any, and whether the
    /// translated book could be opened.
    pub fn begin(saved: Option<u32>, dest_opened: bool) -> (r: BookProgress)
        ensures
            r == (BookProgress { index: 0, previous: previous_stages(saved, dest_opened) }),
    {
        let previous = if dest_opened {
            match saved {
                Some(n) => n,
                None => 0,
            }
        } else {
            0
        };
        BookProgress { index: 0, previous }
    }

    /// Whether the stage at hand runs: it does unless an earlier job did it.
    pub fn runs_next(&self) -> (r: bool)
        ensures
            r == stage_runs(*self),
    {
        self.index >= self.previous
    }

    /// Moves past the stage at hand, run or skipped, and gives the progress to save.
    pub fn pass(&mut self) -> (r: u32)
        requires
            old(self).index < u32::MAX,
        ensures
            *final(self) == (BookProgress { index: (old(self).index + 1) as u32, ..*old(self) }),
            r == final(self).index,
    {
        self.index = self.index + 1;
        self.index
    }
}

/// Whether the stage at hand runs.
pub open spec fn stage_runs(p: BookProgress) -> bool {
    p.index >= p.previous
}

/// A job resumed from a saved progress of `saved` stages skips exactly the first `saved`
/// stages; a job stopped right after stage `i` (which saved `i + 1`) resumes with the stage
/// that follows and does not run stage `i` again; without the translated book every stage
/// runs again.
pub proof fn law_book_resumes_where_it_stopped(saved: u32, i: u32)
    requires
        i < u32::MAX,
    ensures
        stage_runs(BookProgress { index: i, previous: previous_stages(Some(saved), true) }) == (i
            >= saved),
        stage_runs(
            BookProgress { index: (i + 1) as u32, previous: previous_stages(Some((i + 1) as u32), true) },
        ),
        !stage_runs(BookProgress { index: i, previous: previous_stages(Some((i + 1) as u32), true) }),
        stage_runs(BookProgress { index: i, previous: previous_stages(Some(saved), false) }),
{
}

/// The keys of the spine items whose media type names an HTML document ('htm' occurs in it),
/// in spine order; an item is a media type and the key of its resource, if it has one.
pub open spec fn html_keys(spine: Seq<(String, Option<String>)>) -> Seq<Seq<char>>
    decreases spine.len(),
{
    if spine.len() == 0 {
        Seq::empty()
    } else {
        let prev = html_keys(spine.drop_last());
        let item = spine.last();
        match opt_view(item.1) {
            Some(key) => if occurs_in(item.0@, "htm"@) {
                prev.push(key)
            } else {
                prev
            },
            None => prev,
        }
    }
}

/// The ids of the manifest entries whose href is one of `keys`, in manifest order; an entry is
/// an href and an id.
pub open spec fn chapter_ids_spec(keys: Seq<Seq<char>>, manifest: Seq<(String, String)>) -> Seq<
    Seq<char>,
>
    decreases manifest.len(),
{
    if manifest.len() == 0 {
        Seq::empty()
    } else {
        let prev = chapter_ids_spec(keys, manifest.drop_last());
        let entry = manifest.last();
        if keys.contains(entry.0@) {
            prev.push(entry.1@)
        } else {
            prev
        }
    }
}

/// Whether `s` is one of the strings of `v`.
fn contains_string(v: &Vec<String>, s: &str) -> (r: bool)
    ensures
        r == strings_view(v@).contains(s@),
{
    let mut i: usize = 0;
    while i < v.len()
        invariant
            i <= v@.len(),
            forall|j: int| 0 <= j < i ==> v@[j]@ != s@,
        decreases v@.len() - i,
    {
        if same_text(v[i].as_str(), s) {
            assert(strings_view(v@)[i as int] == s@);
            return true;
        }
        i = i + 1;
    }
    assert forall|j: int| 0 <= j < strings_view(v@).len() implies strings_view(v@)[j] != s@ by {
        assert(strings_view(v@)[j] == v@[j]@);
    }
    false
}

/// The keys of the HTML documents of the spine, in spine order.
pub fn spine_html_keys(spine: &Vec<(String, Option<String>)>) -> (r: Vec<String>)
    ensures
        strings_view(r@) == html_keys(spine@),
{
    let mut keys: Vec<String> = Vec::new();
    let mut i: usize = 0;
    while i < spine.len()
        invariant
            i <= spine@.len(),
            strings_view(keys@) == html_keys(spine@.take(i as int)),
        decreases spine@.len() - i,
    {
        assert(spine@.take(i + 1).drop_last() =~= spine@.take(i as int));
        assert(spine@.take(i + 1).last() == spine@[i as int]);
        let item = &spine[i];
        if contains_text(item.0.as_str(), "htm") {
            match &item.1 {
                Some(key) => {
                    keys.push(key.clone());
                    assert(strings_view(keys@) =~= html_keys(spine@.take(i as int)).push(
                        key@,
                    ));
                },
                None => {},
            }
        }
        i = i + 1;
    }
    assert(spine@.take(spine@.len() as int) =~= spine@);
    keys
}

/// The ids of the chapters to translate: the manifest entries whose href is the key of an HTML
/// document of the spine, in manifest order.
pub fn chapter_ids(spine: &Vec<(String, Option<String>)>, manifest: &Vec<(String, String)>) -> (r: Vec<
    String,
>)
    ensures
        strings_view(r@) == chapter_ids_spec(html_keys(spine@), manifest@),
{
    let keys = spine_html_keys(spine);
    let mut ids: Vec<String> = Vec::new();
    let mut i: usize = 0;
    while i < manifest.len()
        invariant
            i <= manifest@.len(),
            strings_view(keys@) == html_keys(spine@),
            strings_view(ids@) == chapter_ids_spec(html_keys(spine@), manifest@.take(i as int)),
        decreases manifest@.len() - i,
    {
        assert(manifest@.take(i + 1).drop_last() =~= manifest@.take(i as int));
        assert(manifest@.take(i + 1).last() == manifest@[i as int]);
        let entry = &manifest[i];
        if contains_string(&keys, entry.0.as_str()) {
            ids.push(entry.1.clone());
            assert(strings_view(ids@) =~= chapter_ids_spec(
                html_keys(spine@),
                manifest@.take(i as int),
            ).push(entry.1@));
        }
        i = i + 1;
    }
    assert(manifest@.take(manifest@.len() as int) =~= manifest@);
    ids
}

/// The metadata properties of a book that are translated: its title, creator and description.
pub fn metadata_properties() -> (r: Vec<String>)
    ensures
        strings_view(r@) == seq!["dc:title"@, "dc:creator"@, "dc:description"@],
{
    let mut v: Vec<String> = Vec::new();
    v.push(String::from_str("dc:title"));
    v.push(String::from_str("dc:creator"));
    v.push(String::from_str("dc:description"));
    assert(strings_view(v@) =~= seq!["dc:title"@, "dc:creator"@, "dc:description"@]);
    v
}

} // verus!
