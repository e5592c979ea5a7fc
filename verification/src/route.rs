//! Which pass handles a document, where files go, and what a file name says of its format.
use vstd::prelude::*;
use crate::config::{joined, lowercase, opt_view, same_text, to_lowercase, DocFormat, SyntaxStrategy};
use crate::settings::{TransError, TransSettings};

verus! {

/// The way a document is translated.
#[derive(Clone, Copy, Debug, PartialEq, Eq, Structural)]
pub enum Route {
    /// The whole document goes to the LLM as it is.
    WholeDoc,
    /// HTML whose text pieces are numbered by tags that this library puts back.
    HtmlTagged,
    /// HTML whose selected elements go to the LLM with their markup.
    HtmlByLlm,
    /// HTML whose selected elements go to the LLM as bare text.
    HtmlStripped,
    /// MarkDown whose text pieces are numbered by tags that this library puts back.
    MarkdownTagged,
    /// MarkDown whose blocks go to the LLM with their markup.
    MarkdownByLlm,
    /// Plain text cut into chunks.
    Text,
}

/// Whether the document goes whole to the LLM: asked for in the settings, or an HTML document
/// whose selector is 'whole' (whatever its case).
pub open spec fn goes_whole(format: DocFormat, whole_doc_to_llm: bool, selector: Seq<char>) -> bool {
    whole_doc_to_llm || (format == DocFormat::Html && lowercase(selector) == "whole"@)
}

/// The route of a document, or the error that refuses it.
pub open spec fn route_spec(
    format: DocFormat,
    whole_doc_to_llm: bool,
    selector: Seq<char>,
    strategy: SyntaxStrategy,
) -> Result<Route, TransError> {
    if goes_whole(format, whole_doc_to_llm, selector) {
        Ok(Route::WholeDoc)
    } else {
        match format {
            DocFormat::Html => match strategy {
                SyntaxStrategy::MaintainedByTransBot => Ok(Route::HtmlTagged),
                SyntaxStrategy::MaintainedByLlm => Ok(Route::HtmlByLlm),
                SyntaxStrategy::Stripped => Ok(Route::HtmlStripped),
            },
            DocFormat::MarkDown => match strategy {
                SyntaxStrategy::MaintainedByTransBot => Ok(Route::MarkdownTagged),
                SyntaxStrategy::MaintainedByLlm => Ok(Route::MarkdownByLlm),
                SyntaxStrategy::Stripped => Err(TransError::StrippedMarkdown),
            },
            DocFormat::Text => Ok(Route::Text),
            DocFormat::Epub => Err(TransError::UnexpectedFormat),
        }
    }
}

/// Chooses how a document of `format` is translated under `settings`.
pub fn route_for(format: DocFormat, settings: &TransSettings) -> (r: Result<Route, TransError>)
    ensures
        match route_spec(
            format,
            settings.whole_doc_to_llm,
            settings.html_elem_selector@,
            settings.syntax_strategy,
        ) {
            Ok(route) => r == Ok::<Route, TransError>(route),
            Err(TransError::StrippedMarkdown) => r matches Err(e) && e is StrippedMarkdown,
            Err(_) => r matches Err(e) && e is UnexpectedFormat,
        },
{
    let mut whole = settings.whole_doc_to_llm;
    if format == DocFormat::Html {
        let lower = to_lowercase(settings.html_elem_selector.as_str());
        if same_text(lower.as_str(), "whole") {
            whole = true;
        }
    }
    if whole {
        return Ok(Route::WholeDoc);
    }
    match format {
        DocFormat::Html => match settings.syntax_strategy {
            SyntaxStrategy::MaintainedByTransBot => Ok(Route::HtmlTagged),
            SyntaxStrategy::MaintainedByLlm => Ok(Route::HtmlByLlm),
            SyntaxStrategy::Stripped => Ok(Route::HtmlStripped),
        },
        DocFormat::MarkDown => match settings.syntax_strategy {
            SyntaxStrategy::MaintainedByTransBot => Ok(Route::MarkdownTagged),
            SyntaxStrategy::MaintainedByLlm => Ok(Route::MarkdownByLlm),
            SyntaxStrategy::Stripped => Err(TransError::StrippedMarkdown),
        },
        DocFormat::Text => Ok(Route::Text),
        DocFormat::Epub => Err(TransError::UnexpectedFormat),
    }
}

/// The parent directory of a path, as `Path::parent` gives it under the path rules of the
/// platform that the library is built for.
pub uninterp spec fn path_parent(p: Seq<char>) -> Option<Seq<char>>;

/// The last component of a path, as `Path::file_name` gives it under the path rules of the
/// platform that the library is built for.
pub uninterp spec fn path_file_name(p: Seq<char>) -> Option<Seq<char>>;

/// The file name of a path without its extension, as `Path::file_stem` gives it under the path
/// rules of the platform that the library is built for.
pub uninterp spec fn path_file_stem(p: Seq<char>) -> Option<Seq<char>>;

/// The extension of a path's file name, as `Path::extension` gives it under the path rules of
/// the platform that the library is built for.
pub uninterp spec fn path_extension(p: Seq<char>) -> Option<Seq<char>>;

/// A path with a name appended, as `Path::join` gives it under the path rules of the platform
/// that the library is built for.
pub uninterp spec fn path_joined(base: Seq<char>, name: Seq<char>) -> Seq<char>;

/// Calls `Path::parent`; named by `path_parent`.
#[verifier::external_body]
fn parent_of(p: &str) -> (r: Option<String>)
    ensures
        opt_view(r) == path_parent(p@),
{
    std::path::Path::new(p).parent().map(|x| x.to_string_lossy().into_owned())
}

/// Calls `Path::file_name`; named by `path_file_name`.
#[verifier::external_body]
fn file_name_of(p: &str) -> (r: Option<String>)
    ensures
        opt_view(r) == path_file_name(p@),
{
    std::path::Path::new(p).file_name().map(|x| x.to_string_lossy().into_owned())
}

/// Calls `Path::file_stem`; named by `path_file_stem`.
#[verifier::external_body]
fn file_stem_of(p: &str) -> (r: Option<String>)
    ensures
        opt_view(r) == path_file_stem(p@),
{
    std::path::Path::new(p).file_stem().map(|x| x.to_string_lossy().into_owned())
}

/// Calls `Path::extension`; named by `path_extension`.
#[verifier::external_body]
fn extension_of(p: &str) -> (r: Option<String>)
    ensures
        opt_view(r) == path_extension(p@),
{
    std::path::Path::new(p).extension().map(|x| x.to_string_lossy().into_owned())
}

/// Calls `Path::join`; named by `path_joined`.
#[verifier::external_body]
fn join_path(base: &str, name: &str) -> (r: String)
    ensures
        r@ == path_joined(base@, name@),
{
    std::path::Path::new(base).join(name).to_string_lossy().into_owned()
}

/// The characters of an optional text, or nothing.
pub open spec fn or_empty(o: Option<Seq<char>>) -> Seq<char> {
    match o {
        Some(s) => s,
        None => Seq::<char>::empty(),
    }
}

/// The path beside `src` whose file name is extended by `to_extend`: at the end of the whole
/// file name when `at_end`, else between the stem and the extension.
pub open spec fn extended_path_spec(src: Seq<char>, to_extend: Seq<char>, at_end: bool) -> Seq<char> {
    let name = if at_end {
        or_empty(path_file_name(src)) + "."@ + to_extend
    } else {
        or_empty(path_file_stem(src)) + "."@ + to_extend + "."@ + or_empty(path_extension(src))
    };
    path_joined(or_empty(path_parent(src)), name)
}

fn or_empty_string(o: Option<String>) -> (r: String)
    ensures
        r@ == or_empty(opt_view(o)),
{
    match o {
        Some(s) => s,
        None => String::new(),
    }
}

/// The path beside `src_path` whose file name is extended by `to_extend`, as
/// '<stem>.<to_extend>.<ext>' or, when `at_end`, '<file_name>.<to_extend>'.
pub fn get_extended_path(src_path: &str, to_extend: &str, at_end: bool) -> (r: String)
    ensures
        r@ == extended_path_spec(src_path@, to_extend@, at_end),
{
    let parent = or_empty_string(parent_of(src_path));
    let name = if at_end {
        let mut n = or_empty_string(file_name_of(src_path));
        n.append(".");
        n.append(to_extend);
        n
    } else {
        let mut n = or_empty_string(file_stem_of(src_path));
        n.append(".");
        n.append(to_extend);
        n.append(".");
        let ext = or_empty_string(extension_of(src_path));
        n.append(ext.as_str());
        n
    };
    join_path(parent.as_str(), name.as_str())
}

/// The essence of the first MIME type that `mime_guess::from_path` guesses for a path, as
/// `Mime::essence_str` writes it, or `None` where it guesses none.
pub uninterp spec fn guessed_mime(path: Seq<char>) -> Option<Seq<char>>;

/// Calls `mime_guess::from_path(..).first()` and `Mime::essence_str`; named by `guessed_mime`.
#[verifier::external_body]
fn guess_mime(path: &str) -> (r: Option<String>)
    ensures
        opt_view(r) == guessed_mime(path@),
{
    mime_guess::from_path(path).first().map(|m| m.essence_str().to_string())
}

/// Whether `pat` occurs in `s`.
pub open spec fn occurs_in(s: Seq<char>, pat: Seq<char>) -> bool {
    exists|i: int| 0 <= i && i + pat.len() <= s.len() && #[trigger] s.subrange(i, i + pat.len()) == pat
}

/// Whether `pat` occurs in `s`, as `str::contains` says.
pub fn contains_text(s: &str, pat: &str) -> (r: bool)
    ensures
        r == occurs_in(s@, pat@),
{
    let slen = s.unicode_len();
    let plen = pat.unicode_len();
    if plen > slen {
        return false;
    }
    let mut i: usize = 0;
    while i <= slen - plen
        invariant
            slen == s@.len(),
            plen == pat@.len(),
            plen <= slen,
            forall|j: int| 0 <= j < i ==> #[trigger] s@.subrange(j, j + plen) != pat@,
        decreases slen - plen + 1 - i,
    {
        let mut k: usize = 0;
        let mut same = true;
        while k < plen
            invariant
                slen == s@.len(),
                plen == pat@.len(),
                i + plen <= slen,
                k <= plen,
                same == (forall|j: int| 0 <= j < k ==> s@[i + j] == pat@[j]),
            decreases plen - k,
        {
            if s.get_char(i + k) != pat.get_char(k) {
                same = false;
            }
            k = k + 1;
        }
        if same {
            assert(s@.subrange(i as int, i + plen) =~= pat@);
            return true;
        }
        assert(s@.subrange(i as int, i + plen) != pat@) by {
            let w = choose|j: int| 0 <= j < plen && s@[i + j] != pat@[j];
            assert(s@.subrange(i as int, i + plen)[w] != pat@[w]);
        }
        i = i + 1;
    }
    false
}

/// The format that a MIME type essence stands for, or the message that refuses it.
pub open spec fn mime_format_spec(essence: Seq<char>) -> Result<DocFormat, Seq<char>> {
    if essence == "application/epub+zip"@ {
        Ok(DocFormat::Epub)
    } else if occurs_in(essence, "htm"@) {
        Ok(DocFormat::Html)
    } else if essence == "text/markdown"@ {
        Ok(DocFormat::MarkDown)
    } else if essence == "text/plain"@ {
        Ok(DocFormat::Text)
    } else {
        Err("Unsupported input file format. ["@ + essence + "]"@)
    }
}

/// The format that a MIME type essence stands for.
pub fn format_from_mime(essence: &str) -> (r: Result<DocFormat, String>)
    ensures
        match mime_format_spec(essence@) {
            Ok(f) => r == Ok::<DocFormat, String>(f),
            Err(m) => r matches Err(e) && e@ == m,
        },
{
    if same_text(essence, "application/epub+zip") {
        Ok(DocFormat::Epub)
    } else if contains_text(essence, "htm") {
        Ok(DocFormat::Html)
    } else if same_text(essence, "text/markdown") {
        Ok(DocFormat::MarkDown)
    } else if same_text(essence, "text/plain") {
        Ok(DocFormat::Text)
    } else {
        let mut m = joined("Unsupported input file format. [", essence);
        m.append("]");
        Err(m)
    }
}

/// The format of the file at `path`: the one asked for, if any, else the one that its guessed
/// MIME type stands for.
pub fn detect_format(asked: Option<DocFormat>, path: &str) -> (r: Result<DocFormat, String>)
    ensures
        match asked {
            Some(f) => r == Ok::<DocFormat, String>(f),
            None => match guessed_mime(path@) {
                None => r matches Err(e) && e@ == "Unkonwn input file format!"@,
                Some(m) => match mime_format_spec(m) {
                    Ok(f) => r == Ok::<DocFormat, String>(f),
                    Err(msg) => r matches Err(e) && e@ == msg,
                },
            },
        },
{
    match asked {
        Some(f) => Ok(f),
        None => match guess_mime(path) {
            None => Err(String::from_str("Unkonwn input file format!")),
            Some(m) => format_from_mime(m.as_str()),
        },
    }
}

/// Where a translated file goes, and its state file when resuming is enabled.
#[derive(Clone, Debug)]
pub struct FilePlan {
    pub dest: String,
    pub state: Option<String>,
}

/// The destination of a translated file: the one given, else '<stem>.transbot.<ext>' beside
/// the source.
pub open spec fn dest_path_spec(src: Seq<char>, dest: Option<Seq<char>>) -> Seq<char> {
    match dest {
        Some(d) => d,
        None => extended_path_spec(src, "transbot"@, false),
    }
}

/// Plans the translation of a file: its destination, and '<dest>.temp' as the state file when
/// resuming is enabled.
pub fn plan_file(src_path: &str, dest_path: Option<String>, resuming: bool) -> (r: FilePlan)
    ensures
        r.dest@ == dest_path_spec(src_path@, opt_view(dest_path)),
        resuming ==> opt_view(r.state) == Some(extended_path_spec(r.dest@, "temp"@, true)),
        !resuming ==> r.state is None,
{
    let dest = match dest_path {
        Some(d) => d,
        None => get_extended_path(src_path, "transbot", false),
    };
    let state = if resuming {
        Some(get_extended_path(dest.as_str(), "temp", true))
    } else {
        None
    };
    FilePlan { dest, state }
}

/// The state file of chapter `index` of a book, beside the book's state file.
pub fn chapter_state_path(book_state: &str, index: u32) -> (r: String)
    ensures
        r@ == extended_path_spec(book_state@, crate::strutil::decimal(index as nat), true),
{
    let number = crate::strutil::usize_to_decimal(index as usize);
    get_extended_path(book_state, number.as_str(), true)
}

} // verus!
