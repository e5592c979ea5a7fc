//! Configuration types, their parsing from text, and the settings derived from them.
use vstd::prelude::*;
use crate::strutil::{is_ascii_text, lemma_split_on_ascii, split_char, split_on, strings_view};

verus! {

/// What `str::to_lowercase` gives for a string: its characters lowercased by the Unicode rules
/// of the standard library.
pub uninterp spec fn lowercase(s: Seq<char>) -> Seq<char>;

/// A character with 'A' to 'Z' made lowercase.
pub open spec fn ascii_lower_char(c: char) -> char {
    if 'A' <= c && c <= 'Z' {
        ((c as u32) + 32) as char
    } else {
        c
    }
}

/// Text with its ASCII capital letters made lowercase.
pub open spec fn ascii_lower(s: Seq<char>) -> Seq<char> {
    s.map_values(|c: char| ascii_lower_char(c))
}

/// Calls `str::to_lowercase`; its result is named by `lowercase`, a function of the input alone.
/// On ASCII text it lowercases the letters 'A' to 'Z' and leaves every other character as it
/// is, as the standard library documents.
#[verifier::external_body]
pub(crate) fn to_lowercase(s: &str) -> (r: String)
    ensures
        r@ == lowercase(s@),
        is_ascii_text(s@) ==> r@ == ascii_lower(s@),
{
    s.to_lowercase()
}

/// Whether two strings hold the same characters.
pub fn same_text(a: &str, b: &str) -> (r: bool)
    ensures
        r == (a@ == b@),
{
    String::from_str(a) == String::from_str(b)
}

/// `prefix` followed by `s`, as a new string.
pub(crate) fn joined(prefix: &str, s: &str) -> (r: String)
    ensures
        r@ == prefix@ + s@,
{
    let mut out = String::from_str(prefix);
    out.append(s);
    out
}

/// The format of a document to translate.
#[derive(Clone, Copy, Debug, PartialEq, Eq, Structural)]
pub enum DocFormat {
    Html,
    Epub,
    MarkDown,
    Text,
}

/// The format that a lowercased format name stands for.
pub open spec fn doc_format_named(name: Seq<char>) -> Option<DocFormat> {
    if name == "html"@ {
        Some(DocFormat::Html)
    } else if name == "epub"@ {
        Some(DocFormat::Epub)
    } else if name == "md"@ {
        Some(DocFormat::MarkDown)
    } else if name == "text"@ {
        Some(DocFormat::Text)
    } else {
        None
    }
}

/// The API style of the LLM, which defines the message structure during interacting
/// with the LLM.
#[derive(Clone, Copy, Debug, PartialEq, Eq, Structural)]
pub enum LlmApiStyle {
    OLLAMA,
    OPENAI,
    GEMINI,
    ANTHROPIC,
}

/// The API style that a lowercased style name stands for.
pub open spec fn api_style_named(name: Seq<char>) -> Option<LlmApiStyle> {
    if name == "ollama"@ {
        Some(LlmApiStyle::OLLAMA)
    } else if name == "openai"@ {
        Some(LlmApiStyle::OPENAI)
    } else if name == "gemini"@ {
        Some(LlmApiStyle::GEMINI)
    } else if name == "anthropic"@ {
        Some(LlmApiStyle::ANTHROPIC)
    } else {
        None
    }
}

/// The strategy to maintain the syntax defined by sub elements of selected elements.
#[derive(Clone, Copy, Debug, PartialEq, Eq, Structural)]
pub enum SyntaxStrategy {
    /// The syntax is maintained by the LLM.
    MaintainedByLlm,
    /// The syntax is maintained by this library through numbered tags around text pieces.
    MaintainedByTransBot,
    /// The syntax is stripped.
    Stripped,
}

/// The strategy that a lowercased strategy name stands for.
pub open spec fn syntax_strategy_named(name: Seq<char>) -> Option<SyntaxStrategy> {
    if name == "byllm"@ {
        Some(SyntaxStrategy::MaintainedByLlm)
    } else if name == "bytransbot"@ {
        Some(SyntaxStrategy::MaintainedByTransBot)
    } else if name == "stripped"@ {
        Some(SyntaxStrategy::Stripped)
    } else {
        None
    }
}

impl DocFormat {
    /// The format named by an already lowercased name.
    pub fn from_lowercase_name(name: &str) -> (r: Option<DocFormat>)
        ensures
            r == doc_format_named(name@),
    {
        if same_text(name, "html") {
            Some(DocFormat::Html)
        } else if same_text(name, "epub") {
            Some(DocFormat::Epub)
        } else if same_text(name, "md") {
            Some(DocFormat::MarkDown)
        } else if same_text(name, "text") {
            Some(DocFormat::Text)
        } else {
            None
        }
    }

    /// Reads a format name, whatever its case: 'html', 'epub', 'md' or 'text'.
    pub fn from_name(s: &str) -> (r: Result<DocFormat, String>)
        ensures
            match doc_format_named(lowercase(s@)) {
                Some(f) => r == Ok::<DocFormat, String>(f),
                None => r matches Err(e) && e@ == "Unsupported document format: "@ + s@,
            },
            is_ascii_text(s@) ==> match doc_format_named(ascii_lower(s@)) {
                Some(f) => r == Ok::<DocFormat, String>(f),
                None => r matches Err(e) && e@ == "Unsupported document format: "@ + s@,
            },
    {
        let lower = to_lowercase(s);
        match DocFormat::from_lowercase_name(lower.as_str()) {
            Some(f) => Ok(f),
            None => Err(joined("Unsupported document format: ", s)),
        }
    }
}

impl LlmApiStyle {
    /// The style named by an already lowercased name.
    pub fn from_lowercase_name(name: &str) -> (r: Option<LlmApiStyle>)
        ensures
            r == api_style_named(name@),
    {
        if same_text(name, "ollama") {
            Some(LlmApiStyle::OLLAMA)
        } else if same_text(name, "openai") {
            Some(LlmApiStyle::OPENAI)
        } else if same_text(name, "gemini") {
            Some(LlmApiStyle::GEMINI)
        } else if same_text(name, "anthropic") {
            Some(LlmApiStyle::ANTHROPIC)
        } else {
            None
        }
    }

    /// Reads a style name, whatever its case: 'ollama', 'openai', 'gemini' or 'anthropic'.
    pub fn from_name(s: &str) -> (r: Result<LlmApiStyle, String>)
        ensures
            match api_style_named(lowercase(s@)) {
                Some(a) => r == Ok::<LlmApiStyle, String>(a),
                None => r matches Err(e) && e@ == "Unsupported LLM API style: "@ + s@,
            },
            is_ascii_text(s@) ==> match api_style_named(ascii_lower(s@)) {
                Some(a) => r == Ok::<LlmApiStyle, String>(a),
                None => r matches Err(e) && e@ == "Unsupported LLM API style: "@ + s@,
            },
    {
        let lower = to_lowercase(s);
        match LlmApiStyle::from_lowercase_name(lower.as_str()) {
            Some(a) => Ok(a),
            None => Err(joined("Unsupported LLM API style: ", s)),
        }
    }
}

impl SyntaxStrategy {
    /// The strategy named by an already lowercased name.
    pub fn from_lowercase_name(name: &str) -> (r: Option<SyntaxStrategy>)
        ensures
            r == syntax_strategy_named(name@),
    {
        if same_text(name, "byllm") {
            Some(SyntaxStrategy::MaintainedByLlm)
        } else if same_text(name, "bytransbot") {
            Some(SyntaxStrategy::MaintainedByTransBot)
        } else if same_text(name, "stripped") {
            Some(SyntaxStrategy::Stripped)
        } else {
            None
        }
    }

    /// Reads a strategy name, whatever its case: 'byllm', 'bytransbot' or 'stripped'.
    pub fn from_name(s: &str) -> (r: Result<SyntaxStrategy, String>)
        ensures
            match syntax_strategy_named(lowercase(s@)) {
                Some(a) => r == Ok::<SyntaxStrategy, String>(a),
                None => r matches Err(e) && e@ == "Unsupported syntax strategy: "@ + s@,
            },
            is_ascii_text(s@) ==> match syntax_strategy_named(ascii_lower(s@)) {
                Some(a) => r == Ok::<SyntaxStrategy, String>(a),
                None => r matches Err(e) && e@ == "Unsupported syntax strategy: "@ + s@,
            },
    {
        let lower = to_lowercase(s);
        match SyntaxStrategy::from_lowercase_name(lower.as_str()) {
            Some(a) => Ok(a),
            None => Err(joined("Unsupported syntax strategy: ", s)),
        }
    }
}

/// The format of a book-like file that the reduced command line takes: HTML or EPUB.
#[derive(Clone, Copy, Debug, PartialEq, Eq, Structural)]
pub enum FileFormat {
    HTML,
    EPUB,
}

/// The file format that a lowercased name stands for.
pub open spec fn file_format_named(name: Seq<char>) -> Option<FileFormat> {
    if name == "html"@ {
        Some(FileFormat::HTML)
    } else if name == "epub"@ {
        Some(FileFormat::EPUB)
    } else {
        None
    }
}

impl FileFormat {
    /// Reads a file format name, whatever its case: 'html' or 'epub'.
    pub fn from_name(s: &str) -> (r: Result<FileFormat, String>)
        ensures
            match file_format_named(lowercase(s@)) {
                Some(f) => r == Ok::<FileFormat, String>(f),
                None => r matches Err(e) && e@ == "Unsupported file format: "@ + s@,
            },
            is_ascii_text(s@) ==> match file_format_named(ascii_lower(s@)) {
                Some(f) => r == Ok::<FileFormat, String>(f),
                None => r matches Err(e) && e@ == "Unsupported file format: "@ + s@,
            },
    {
        let lower = to_lowercase(s);
        if same_text(lower.as_str(), "html") {
            Ok(FileFormat::HTML)
        } else if same_text(lower.as_str(), "epub") {
            Ok(FileFormat::EPUB)
        } else {
            Err(joined("Unsupported file format: ", s))
        }
    }
}

impl std::str::FromStr for FileFormat {
    type Err = String;

    fn from_str(s: &str) -> (r: Result<FileFormat, String>)
        ensures
            match file_format_named(lowercase(s@)) {
                Some(x) => r == Ok::<FileFormat, String>(x),
                None => r matches Err(e) && e@ == "Unsupported file format: "@ + s@,
            },
            is_ascii_text(s@) ==> match file_format_named(ascii_lower(s@)) {
                Some(x) => r == Ok::<FileFormat, String>(x),
                None => r matches Err(e) && e@ == "Unsupported file format: "@ + s@,
            },
    {
        FileFormat::from_name(s)
    }
}

impl std::str::FromStr for DocFormat {
    type Err = String;

    fn from_str(s: &str) -> (r: Result<DocFormat, String>)
        ensures
            match doc_format_named(lowercase(s@)) {
                Some(f) => r == Ok::<DocFormat, String>(f),
                None => r matches Err(e) && e@ == "Unsupported document format: "@ + s@,
            },
            is_ascii_text(s@) ==> match doc_format_named(ascii_lower(s@)) {
                Some(f) => r == Ok::<DocFormat, String>(f),
                None => r matches Err(e) && e@ == "Unsupported document format: "@ + s@,
            },
    {
        DocFormat::from_name(s)
    }
}

impl std::str::FromStr for LlmApiStyle {
    type Err = String;

    fn from_str(s: &str) -> (r: Result<LlmApiStyle, String>)
        ensures
            match api_style_named(lowercase(s@)) {
                Some(x) => r == Ok::<LlmApiStyle, String>(x),
                None => r matches Err(e) && e@ == "Unsupported LLM API style: "@ + s@,
            },
            is_ascii_text(s@) ==> match api_style_named(ascii_lower(s@)) {
                Some(x) => r == Ok::<LlmApiStyle, String>(x),
                None => r matches Err(e) && e@ == "Unsupported LLM API style: "@ + s@,
            },
    {
        LlmApiStyle::from_name(s)
    }
}

impl std::str::FromStr for SyntaxStrategy {
    type Err = String;

    fn from_str(s: &str) -> (r: Result<SyntaxStrategy, String>)
        ensures
            match syntax_strategy_named(lowercase(s@)) {
                Some(x) => r == Ok::<SyntaxStrategy, String>(x),
                None => r matches Err(e) && e@ == "Unsupported syntax strategy: "@ + s@,
            },
            is_ascii_text(s@) ==> match syntax_strategy_named(ascii_lower(s@)) {
                Some(x) => r == Ok::<SyntaxStrategy, String>(x),
                None => r matches Err(e) && e@ == "Unsupported syntax strategy: "@ + s@,
            },
    {
        SyntaxStrategy::from_name(s)
    }
}

/// The LLM provider. For ollama providers, an optional full service URL may be provided.
/// For custom providers, the API style and the full service URL must be provided.
#[derive(Clone, Debug)]
pub enum LlmProvider {
    /// Self-defined provider.
    Custom { api_style: LlmApiStyle, full_url: String },
    /// By ollama, mostly running locally.
    OLLAMA { full_url: Option<String> },
    OPENAI,
    GEMINI,
    ANTHROPIC,
    ZHIPU,
    DEEPSEEK,
    QWEN,
}

/// The mathematical value of an [`LlmProvider`].
pub enum ProviderView {
    Custom { api_style: LlmApiStyle, full_url: Seq<char> },
    Ollama { full_url: Option<Seq<char>> },
    OpenAi,
    Gemini,
    Anthropic,
    Zhipu,
    DeepSeek,
    Qwen,
}

/// The character view of an optional string.
pub open spec fn opt_view(o: Option<String>) -> Option<Seq<char>> {
    match o {
        Some(s) => Some(s@),
        None => None,
    }
}

impl View for LlmProvider {
    type V = ProviderView;

    open spec fn view(&self) -> ProviderView {
        match self {
            LlmProvider::Custom { api_style, full_url } => ProviderView::Custom {
                api_style: *api_style,
                full_url: full_url@,
            },
            LlmProvider::OLLAMA { full_url } => ProviderView::Ollama { full_url: opt_view(*full_url) },
            LlmProvider::OPENAI => ProviderView::OpenAi,
            LlmProvider::GEMINI => ProviderView::Gemini,
            LlmProvider::ANTHROPIC => ProviderView::Anthropic,
            LlmProvider::ZHIPU => ProviderView::Zhipu,
            LlmProvider::DEEPSEEK => ProviderView::DeepSeek,
            LlmProvider::QWEN => ProviderView::Qwen,
        }
    }
}

/// What the parts of a provider description stand for, given its first part lowercased as
/// `main` and its second lowercased as `style`: the first part names the provider, 'ollama' may
/// be followed by a URL, and 'custom' must be followed by an API style and a URL.
pub open spec fn provider_parsed(parts: Seq<Seq<char>>, main: Seq<char>, style: Seq<char>) -> Result<
    ProviderView,
    Seq<char>,
> {
    if main == "openai"@ {
        Ok(ProviderView::OpenAi)
    } else if main == "gemini"@ {
        Ok(ProviderView::Gemini)
    } else if main == "anthropic"@ {
        Ok(ProviderView::Anthropic)
    } else if main == "zhipu"@ {
        Ok(ProviderView::Zhipu)
    } else if main == "deepseek"@ {
        Ok(ProviderView::DeepSeek)
    } else if main == "qwen"@ {
        Ok(ProviderView::Qwen)
    } else if main == "ollama"@ {
        Ok(ProviderView::Ollama { full_url: if parts.len() > 1 { Some(parts[1]) } else { None } })
    } else if main == "custom"@ {
        if parts.len() < 3 {
            Err("Wrong custom provider format. It should be 'custom;<api_style>;<url>'"@)
        } else {
            match api_style_named(style) {
                Some(a) => Ok(ProviderView::Custom { api_style: a, full_url: parts[2] }),
                None => Err("Unsupported LLM API style: "@ + parts[1]),
            }
        }
    } else {
        Err("Unkonwn provider: "@ + main)
    }
}

/// What a provider description `s` stands for: its parts are separated by ';', and the first
/// two are read whatever their case.
pub open spec fn provider_named(s: Seq<char>) -> Result<ProviderView, Seq<char>> {
    let parts = split_on(s, ';');
    provider_parsed(parts, lowercase(parts[0]), lowercase(parts[1]))
}

/// What an ASCII provider description `s` stands for: its first two parts are lowercased
/// letter by letter.
pub open spec fn provider_named_ascii(s: Seq<char>) -> Result<ProviderView, Seq<char>> {
    let parts = split_on(s, ';');
    provider_parsed(parts, ascii_lower(parts[0]), ascii_lower(parts[1]))
}

impl LlmProvider {
    /// Reads a provider description: 'openai', 'gemini', 'anthropic', 'zhipu', 'deepseek',
    /// 'qwen', 'ollama[;url]' or 'custom;<api_style>;<url>'.
    pub fn from_name(s: &str) -> (r: Result<LlmProvider, String>)
        ensures
            match provider_named(s@) {
                Ok(p) => r matches Ok(q) && q@ == p,
                Err(m) => r matches Err(e) && e@ == m,
            },
            is_ascii_text(s@) ==> match provider_named_ascii(s@) {
                Ok(p) => r matches Ok(q) && q@ == p,
                Err(m) => r matches Err(e) && e@ == m,
            },
    {
        let parts = split_char(s, ';');
        proof {
            crate::strutil::lemma_split_on_nonempty(s@, ';');
            assert(parts@[0]@ == split_on(s@, ';')[0]);
            if is_ascii_text(s@) {
                lemma_split_on_ascii(s@, ';');
            }
        }
        let main = to_lowercase(parts[0].as_str());
        let m = main.as_str();
        if same_text(m, "openai") {
            Ok(LlmProvider::OPENAI)
        } else if same_text(m, "gemini") {
            Ok(LlmProvider::GEMINI)
        } else if same_text(m, "anthropic") {
            Ok(LlmProvider::ANTHROPIC)
        } else if same_text(m, "zhipu") {
            Ok(LlmProvider::ZHIPU)
        } else if same_text(m, "deepseek") {
            Ok(LlmProvider::DEEPSEEK)
        } else if same_text(m, "qwen") {
            Ok(LlmProvider::QWEN)
        } else if same_text(m, "ollama") {
            let url = if parts.len() > 1 {
                assert(parts@[1]@ == split_on(s@, ';')[1]);
                Some(parts[1].clone())
            } else {
                None
            };
            Ok(LlmProvider::OLLAMA { full_url: url })
        } else if same_text(m, "custom") {
            if parts.len() < 3 {
                return Err(
                    String::from_str(
                        "Wrong custom provider format. It should be 'custom;<api_style>;<url>'",
                    ),
                );
            }
            assert(parts@[1]@ == split_on(s@, ';')[1]);
            assert(parts@[2]@ == split_on(s@, ';')[2]);
            let api_style = match LlmApiStyle::from_name(parts[1].as_str()) {
                Ok(a) => a,
                Err(e) => {
                    return Err(e);
                },
            };
            let full_url = parts[2].clone();
            Ok(LlmProvider::Custom { api_style, full_url })
        } else {
            Err(joined("Unkonwn provider: ", m))
        }
    }
}

impl std::str::FromStr for LlmProvider {
    type Err = String;

    fn from_str(s: &str) -> (r: Result<LlmProvider, String>)
        ensures
            match provider_named(s@) {
                Ok(p) => r matches Ok(q) && q@ == p,
                Err(m) => r matches Err(e) && e@ == m,
            },
            is_ascii_text(s@) ==> match provider_named_ascii(s@) {
                Ok(p) => r matches Ok(q) && q@ == p,
                Err(m) => r matches Err(e) && e@ == m,
            },
    {
        LlmProvider::from_name(s)
    }
}

/// The prompt hint.
#[derive(Clone, Debug)]
pub struct PromptHint {
    /// The topic of the document to translate.
    pub topic: Option<String>,
    /// The extra instructions to ask the LLM to follow, like how to translate glossary, etc.
    pub extra_prompt: Option<String>,
    /// The full prompt. If it's provided, it replaces the whole default prompt.
    pub full_prompt: Option<String>,
}

impl PromptHint {
    /// Creates a PromptHint with nothing set.
    pub fn new() -> (r: Self)
        ensures
            r.topic is None,
            r.extra_prompt is None,
            r.full_prompt is None,
    {
        PromptHint { topic: None, extra_prompt: None, full_prompt: None }
    }

    /// Sets the topic.
    pub fn set_topic(&mut self, topic: &str) -> (r: &mut Self)
        ensures
            opt_view(r.topic) == Some(topic@),
            r.extra_prompt == old(self).extra_prompt,
            r.full_prompt == old(self).full_prompt,
            *final(self) == *final(r),
    {
        self.topic = Some(String::from_str(topic));
        self
    }

    /// Sets the extra prompt.
    pub fn set_extra_prompt(&mut self, extra_prompt: &str) -> (r: &mut Self)
        ensures
            opt_view(r.extra_prompt) == Some(extra_prompt@),
            r.topic == old(self).topic,
            r.full_prompt == old(self).full_prompt,
            *final(self) == *final(r),
    {
        self.extra_prompt = Some(String::from_str(extra_prompt));
        self
    }

    /// Sets the full prompt.
    pub fn set_full_prompt(&mut self, full_prompt: &str) -> (r: &mut Self)
        ensures
            opt_view(r.full_prompt) == Some(full_prompt@),
            r.topic == old(self).topic,
            r.extra_prompt == old(self).extra_prompt,
            *final(self) == *final(r),
    {
        self.full_prompt = Some(String::from_str(full_prompt));
        self
    }
}

impl Default for PromptHint {
    fn default() -> (r: Self)
        ensures
            r.topic is None,
            r.extra_prompt is None,
            r.full_prompt is None,
    {
        PromptHint::new()
    }
}

/// The configuration for translation. Every field left `None` takes its default.
#[derive(Clone, Debug)]
pub struct TransConfig {
    /// The destination language to translate into. The default is 'Chinese(zh-Hans)'.
    pub dest_lang: Option<String>,
    /// Whether to use only a single user prompt without a system prompt. The default is false.
    pub single_prompt: Option<bool>,
    /// The selector of the HTML elements to translate. The default is 'p,h1,h2,h3,li'; 'whole'
    /// means to pass the whole HTML to the LLM.
    pub html_elem_selector: Option<String>,
    /// The strategy to maintain the syntax of sub elements. The default is 'byllm'.
    pub syntax_strategy: Option<SyntaxStrategy>,
    /// The prompt hint. The default prompt is built when it is `None`.
    pub prompt_hint: Option<PromptHint>,
    /// Whether to print the text passed to and got from the LLM. The default is false.
    pub print_translating_text: Option<bool>,
    /// Whether to remove spaces between ASCII text and CJK text after translation.
    /// The default is false.
    pub clean_cjk_ascii_spacing: Option<bool>,
    /// Whether to pass the whole document to the LLM without parsing and splitting.
    /// The default is false.
    pub whole_doc_to_llm: Option<bool>,
    /// Whether to translate inline code in MarkDown. The default is false.
    pub trans_code_in_md: Option<bool>,
    /// The text size in characters that decides how long a text sent to the LLM is (a group of
    /// numbered pieces, a chunk of plain text). The default is 400.
    pub text_chunk_size: Option<usize>,
}

/// Whether every field of the configuration is unset.
pub open spec fn trans_config_empty(c: TransConfig) -> bool {
    &&& c.dest_lang is None
    &&& c.single_prompt is None
    &&& c.html_elem_selector is None
    &&& c.syntax_strategy is None
    &&& c.prompt_hint is None
    &&& c.print_translating_text is None
    &&& c.clean_cjk_ascii_spacing is None
    &&& c.whole_doc_to_llm is None
    &&& c.trans_code_in_md is None
    &&& c.text_chunk_size is None
}

/// `a` and `b` agree on every field but the ones that a setter may change.
pub open spec fn trans_config_same_except(
    a: TransConfig,
    b: TransConfig,
    dest_lang: bool,
    single_prompt: bool,
    selector: bool,
    strategy: bool,
    hint: bool,
    print: bool,
    clean: bool,
) -> bool {
    &&& (dest_lang || a.dest_lang == b.dest_lang)
    &&& (single_prompt || a.single_prompt == b.single_prompt)
    &&& (selector || a.html_elem_selector == b.html_elem_selector)
    &&& (strategy || a.syntax_strategy == b.syntax_strategy)
    &&& (hint || a.prompt_hint == b.prompt_hint)
    &&& (print || a.print_translating_text == b.print_translating_text)
    &&& (clean || a.clean_cjk_ascii_spacing == b.clean_cjk_ascii_spacing)
    &&& a.whole_doc_to_llm == b.whole_doc_to_llm
    &&& a.trans_code_in_md == b.trans_code_in_md
    &&& a.text_chunk_size == b.text_chunk_size
}

impl TransConfig {
    /// Creates a TransConfig with every field unset.
    pub fn new() -> (r: Self)
        ensures
            trans_config_empty(r),
    {
        TransConfig {
            dest_lang: None,
            single_prompt: None,
            html_elem_selector: None,
            syntax_strategy: None,
            prompt_hint: None,
            print_translating_text: None,
            clean_cjk_ascii_spacing: None,
            whole_doc_to_llm: None,
            trans_code_in_md: None,
            text_chunk_size: None,
        }
    }

    /// Sets the destination language.
    pub fn set_dest_lang(&mut self, dest_lang: &str) -> (r: &mut Self)
        ensures
            opt_view(r.dest_lang) == Some(dest_lang@),
            trans_config_same_except(*r, *old(self), true, false, false, false, false, false, false),
            *final(self) == *final(r),
    {
        self.dest_lang = Some(String::from_str(dest_lang));
        self
    }

    /// Sets whether to use only a single user prompt.
    pub fn set_single_prompt(&mut self, single_prompt: bool) -> (r: &mut Self)
        ensures
            r.single_prompt == Some(single_prompt),
            trans_config_same_except(*r, *old(self), false, true, false, false, false, false, false),
            *final(self) == *final(r),
    {
        self.single_prompt = Some(single_prompt);
        self
    }

    /// Sets the HTML element selector.
    pub fn set_html_elem_selector(&mut self, html_elem_selector: &str) -> (r: &mut Self)
        ensures
            opt_view(r.html_elem_selector) == Some(html_elem_selector@),
            trans_config_same_except(*r, *old(self), false, false, true, false, false, false, false),
            *final(self) == *final(r),
    {
        self.html_elem_selector = Some(String::from_str(html_elem_selector));
        self
    }

    /// Sets the syntax strategy.
    pub fn set_syntax_strategy(&mut self, syntax_strategy: SyntaxStrategy) -> (r: &mut Self)
        ensures
            r.syntax_strategy == Some(syntax_strategy),
            trans_config_same_except(*r, *old(self), false, false, false, true, false, false, false),
            *final(self) == *final(r),
    {
        self.syntax_strategy = Some(syntax_strategy);
        self
    }

    /// Sets the prompt hint.
    pub fn set_prompt_hint(&mut self, prompt_hint: PromptHint) -> (r: &mut Self)
        ensures
            r.prompt_hint == Some(prompt_hint),
            trans_config_same_except(*r, *old(self), false, false, false, false, true, false, false),
            *final(self) == *final(r),
    {
        self.prompt_hint = Some(prompt_hint);
        self
    }

    /// Sets whether to print the translating text.
    pub fn set_print_translating_text(&mut self, print_translating_text: bool) -> (r: &mut Self)
        ensures
            r.print_translating_text == Some(print_translating_text),
            trans_config_same_except(*r, *old(self), false, false, false, false, false, true, false),
            *final(self) == *final(r),
    {
        self.print_translating_text = Some(print_translating_text);
        self
    }

    /// Sets whether to clean the spaces between ASCII and CJK text.
    pub fn set_clean_cjk_ascii_spacing(&mut self, clean_cjk_ascii_spacing: bool) -> (r: &mut Self)
        ensures
            r.clean_cjk_ascii_spacing == Some(clean_cjk_ascii_spacing),
            trans_config_same_except(*r, *old(self), false, false, false, false, false, false, true),
            *final(self) == *final(r),
    {
        self.clean_cjk_ascii_spacing = Some(clean_cjk_ascii_spacing);
        self
    }
}

impl Default for TransConfig {
    fn default() -> (r: Self)
        ensures
            trans_config_empty(r),
    {
        TransConfig::new()
    }
}


} // verus!
