//! What goes to the LLM in one interaction and what is kept of its reply.
use vstd::prelude::*;
use crate::config::{joined, opt_view};
use crate::strutil::{trim_end_all, trim_end_matches, trim_start_all, trim_start_matches};
use crate::settings::TransError;

verus! {

/// The messages of one request: an optional system message and the user message.
#[derive(Clone, Debug)]
pub struct LlmMessages {
    pub system: Option<String>,
    pub user: String,
}

/// The messages that carry `input` under `prompt`: with a single prompt, the prompt and the
/// input joined by a blank line as the user message; else the prompt as the system message
/// and the input as the user message.
pub fn build_messages(prompt: &str, single_prompt: bool, input: &str) -> (r: LlmMessages)
    ensures
        single_prompt ==> r.system is None && r.user@ == prompt@ + "\n\n"@ + input@,
        !single_prompt ==> (r.system matches Some(s) && s@ == prompt@ && r.user@ == input@),
{
    if single_prompt {
        let mut user = joined(prompt, "\n\n");
        user.append(input);
        LlmMessages { system: None, user }
    } else {
        LlmMessages { system: Some(String::from_str(prompt)), user: String::from_str(input) }
    }
}

/// What a `regex::Regex` built by `Regex::new(pattern)` gives from `replace_all(text,
/// replacement)`, or `None` where `Regex::new` refuses the pattern.
pub uninterp spec fn regex_replaced(
    pattern: Seq<char>,
    text: Seq<char>,
    replacement: Seq<char>,
) -> Option<Seq<char>>;

/// Builds a `regex::Regex` from `pattern` with `Regex::new` and calls its `replace_all`;
/// named by `regex_replaced`. The built expression is opaque and lives only for this call, so
/// the two calls stand behind one item.
#[verifier::external_body]
fn replace_all_matches(pattern: &str, text: &str, replacement: &str) -> (r: Option<String>)
    ensures
        opt_view(r) == regex_replaced(pattern@, text@, replacement@),
{
    regex::Regex::new(pattern).ok().map(|re| re.replace_all(text, replacement).into_owned())
}

/// The spaces between an ASCII character other than '#', '-' and '*' and a following
/// non-ASCII one ('#', '-' and '*' keep MarkDown headings and list items).
pub open spec fn ascii_then_wide() -> Seq<char> {
    "([^\\P{ASCII}#\\-*]) +(\\P{ASCII})"@
}

/// The spaces between a non-ASCII character and a following ASCII one.
pub open spec fn wide_then_ascii() -> Seq<char> {
    "(\\P{ASCII}) +(\\p{ASCII})"@
}

/// `text` with the matches of `pattern` replaced by their two groups, or `text` itself where
/// the pattern is refused.
pub open spec fn unspaced(pattern: Seq<char>, text: Seq<char>) -> Seq<char> {
    match regex_replaced(pattern, text, "$1$2"@) {
        Some(t) => t,
        None => text,
    }
}

fn unspace(pattern: &str, text: String) -> (r: String)
    ensures
        r@ == unspaced(pattern@, text@),
{
    match replace_all_matches(pattern, text.as_str(), "$1$2") {
        Some(t) => t,
        None => text,
    }
}

/// Removes the spaces that the LLM puts between ASCII text and CJK text: first after ASCII
/// characters, then before them.
pub fn remove_boundary_spaces(text: &str) -> (r: String)
    ensures
        r@ == unspaced(wide_then_ascii(), unspaced(ascii_then_wide(), text@)),
{
    let step1 = unspace("([^\\P{ASCII}#\\-*]) +(\\P{ASCII})", String::from_str(text));
    unspace("(\\P{ASCII}) +(\\p{ASCII})", step1)
}

/// The kept part of a reply: the '```html' fences around it removed and, when `clean`, the
/// spaces between ASCII and CJK text removed.
pub open spec fn finished_reply(reply: Seq<char>, clean: bool) -> Seq<char> {
    let out = trim_end_all(trim_start_all(reply, "```html\n"@), "\n```"@);
    if clean {
        unspaced(wide_then_ascii(), unspaced(ascii_then_wide(), out))
    } else {
        out
    }
}

/// Keeps the translation out of a reply of the LLM.
pub fn finish_reply(reply: &str, clean: bool) -> (r: String)
    ensures
        r@ == finished_reply(reply@, clean),
{
    let start_trimmed = trim_start_matches(reply, "```html\n");
    let out = trim_end_matches(start_trimmed.as_str(), "\n```");
    if clean {
        remove_boundary_spaces(out.as_str())
    } else {
        out
    }
}

/// The first text of a reply, or `when_empty` where it holds none.
pub fn first_reply_text(mut texts: Vec<String>, when_empty: TransError) -> (r: Result<String, TransError>)
    ensures
        texts@.len() > 0 ==> (r matches Ok(t) && t == texts@[0]),
        texts@.len() == 0 ==> r == Err::<String, TransError>(when_empty),
{
    if texts.len() == 0 {
        Err(when_empty)
    } else {
        Ok(texts.remove(0))
    }
}

} // verus!
