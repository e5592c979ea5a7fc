//! The settings that a translation robot derives from its configuration: defaults, the LLM
//! endpoint, the authentication header and the prompt.
use vstd::prelude::*;
use crate::config::{
    joined, opt_view, LlmApiStyle, LlmProvider, PromptHint, ProviderView, SyntaxStrategy,
    TransConfig,
};

verus! {

#[verifier::external_type_specification]
#[verifier::external_body]
pub struct ExUrlParseError(url::ParseError);

/// The serialization of the URL that `url::Url::parse` reads from `s`, or `None` where it
/// refuses `s`.
pub uninterp spec fn url_normalized(s: Seq<char>) -> Option<Seq<char>>;

/// Calls `url::Url::parse` and takes the serialization of the parsed URL; both are named by
/// `url_normalized`, a function of the text alone.
#[verifier::external_body]
fn parse_url(s: &str) -> (r: Result<String, url::ParseError>)
    ensures
        r matches Ok(u) ==> url_normalized(s@) == Some(u@),
        r is Err ==> url_normalized(s@) is None,
{
    url::Url::parse(s).map(String::from)
}

/// An error of the translation robot.
#[derive(Debug)]
pub enum TransError {
    /// A URL that does not parse.
    InvalidUrl { url: String, cause: url::ParseError },
    /// The job was interrupted.
    Interrupted,
    /// The 'stripped' syntax strategy was asked for a MarkDown document.
    StrippedMarkdown,
    /// A format that the asked operation does not handle.
    UnexpectedFormat,
    /// The document holds more elements or pieces than the counters can number.
    DocumentTooLarge,
    /// The parser or the writer of the document failed.
    RewriteFailed,
    /// The LLM reply, written out in `reply`, holds no choice.
    NoChoice { reply: String },
    /// The LLM reply, written out in `reply`, holds no text.
    NoReplyText { reply: String },
}

impl TransError {
    /// The text that describes the error.
    pub fn message(&self) -> (r: String)
        ensures
            self is InvalidUrl ==> r@ == "Invalid URL: "@ + self->url@,
            self is Interrupted ==> r@ == "The translation job is interrupted."@,
            self is StrippedMarkdown ==> r@
                == "Syntax strategy 'stripped' is not supported yet for MarkDown files."@,
            self is UnexpectedFormat ==> r@ == "Unexpected format."@,
            self is DocumentTooLarge ==> r@ == "The document is too large."@,
            self is RewriteFailed ==> r@ == "The document could not be parsed or written."@,
            self is NoChoice ==> r@ == "No choice contained in response: "@ + self->NoChoice_reply@,
            self is NoReplyText ==> r@ == "No text contained in response: "@ + self->NoReplyText_reply@,
    {
        match self {
            TransError::InvalidUrl { url, cause: _ } => joined("Invalid URL: ", url.as_str()),
            TransError::Interrupted => String::from_str("The translation job is interrupted."),
            TransError::StrippedMarkdown => String::from_str(
                "Syntax strategy 'stripped' is not supported yet for MarkDown files.",
            ),
            TransError::UnexpectedFormat => String::from_str("Unexpected format."),
            TransError::DocumentTooLarge => String::from_str("The document is too large."),
            TransError::RewriteFailed => String::from_str(
                "The document could not be parsed or written.",
            ),
            TransError::NoChoice { reply } => joined("No choice contained in response: ", reply.as_str()),
            TransError::NoReplyText { reply } => joined(
                "No text contained in response: ",
                reply.as_str(),
            ),
        }
    }
}

/// Checks that `url` parses as a URL, and gives its serialization.
pub fn verify_url(url: &str) -> (r: Result<String, TransError>)
    ensures
        match url_normalized(url@) {
            Some(u) => r matches Ok(v) && v@ == u,
            None => r matches Err(e) && e is InvalidUrl && e->url@ == url@,
        },
{
    match parse_url(url) {
        Ok(u) => Ok(u),
        Err(cause) => Err(TransError::InvalidUrl { url: String::from_str(url), cause }),
    }
}

/// Where and how the LLM is reached.
#[derive(Clone, Debug)]
pub struct LlmEndpoint {
    pub api_style: LlmApiStyle,
    pub full_url: String,
}

/// The API style that a provider speaks.
pub open spec fn provider_style(p: ProviderView) -> LlmApiStyle {
    match p {
        ProviderView::Custom { api_style, full_url: _ } => api_style,
        ProviderView::Ollama { full_url: _ } => LlmApiStyle::OLLAMA,
        ProviderView::Gemini => LlmApiStyle::GEMINI,
        ProviderView::Anthropic => LlmApiStyle::ANTHROPIC,
        _ => LlmApiStyle::OPENAI,
    }
}

/// The service URL of a provider before any check: the given one for custom and ollama
/// providers, else the provider's well-known one.
pub open spec fn provider_base_url(p: ProviderView) -> Seq<char> {
    match p {
        ProviderView::Custom { api_style: _, full_url } => full_url,
        ProviderView::Ollama { full_url } => match full_url {
            Some(u) => u,
            None => "http://localhost:11434/api/chat"@,
        },
        ProviderView::Gemini => "https://generativelanguage.googleapis.com/v1beta/models"@,
        ProviderView::OpenAi => "https://api.openai.com/v1/chat/completions"@,
        ProviderView::Anthropic => "https://api.anthropic.com/v1/messages"@,
        ProviderView::Zhipu => "https://open.bigmodel.cn/api/paas/v4/chat/completions"@,
        ProviderView::DeepSeek => "https://api.deepseek.com/chat/completions"@,
        ProviderView::Qwen => "https://dashscope.aliyuncs.com/compatible-mode/v1/chat/completions"@,
    }
}

/// Whether the provider's URL is given by the user, and so must be checked.
pub open spec fn provider_url_given(p: ProviderView) -> bool {
    ||| p is Custom
    ||| (p matches ProviderView::Ollama { full_url } && full_url is Some)
}

/// The gemini URL for a model under a base URL.
pub open spec fn gemini_model_url(base: Seq<char>, model: Seq<char>) -> Seq<char> {
    base + "/"@ + model + ":generateContent"@
}

/// The endpoint of a provider for a model, or the text of the URL that does not parse.
pub open spec fn endpoint_spec(model: Seq<char>, p: ProviderView) -> Result<
    (LlmApiStyle, Seq<char>),
    Seq<char>,
> {
    let base = provider_base_url(p);
    let checked = if provider_url_given(p) {
        match url_normalized(base) {
            Some(u) => Ok(u),
            None => Err(base),
        }
    } else {
        Ok(base)
    };
    match checked {
        Err(bad) => Err(bad),
        Ok(u) => if provider_style(p) == LlmApiStyle::GEMINI {
            match url_normalized(gemini_model_url(u, model)) {
                Some(g) => Ok((LlmApiStyle::GEMINI, g)),
                None => Err(gemini_model_url(u, model)),
            }
        } else {
            Ok((provider_style(p), u))
        },
    }
}

/// Each provider is reached in the API style its service speaks, at its service's URL:
/// anthropic in the anthropic style, openai, zhipu, deepseek and qwen in the openai style, ollama
/// in the ollama style (at the local default URL when none is given), gemini in the gemini style
/// at the URL of the model's 'generateContent' method, and a custom provider in the style it was
/// given. A URL that the user gives is checked, and refused, with its text, where it does not
/// parse.
pub proof fn law_provider_endpoint(model: Seq<char>, p: ProviderView)
    ensures
        p is Anthropic ==> endpoint_spec(model, p) == Ok::<(LlmApiStyle, Seq<char>), Seq<char>>(
            (LlmApiStyle::ANTHROPIC, "https://api.anthropic.com/v1/messages"@),
        ),
        p is OpenAi ==> endpoint_spec(model, p) == Ok::<(LlmApiStyle, Seq<char>), Seq<char>>(
            (LlmApiStyle::OPENAI, "https://api.openai.com/v1/chat/completions"@),
        ),
        p is Zhipu ==> endpoint_spec(model, p) == Ok::<(LlmApiStyle, Seq<char>), Seq<char>>(
            (LlmApiStyle::OPENAI, "https://open.bigmodel.cn/api/paas/v4/chat/completions"@),
        ),
        p is DeepSeek ==> endpoint_spec(model, p) == Ok::<(LlmApiStyle, Seq<char>), Seq<char>>(
            (LlmApiStyle::OPENAI, "https://api.deepseek.com/chat/completions"@),
        ),
        p is Qwen ==> endpoint_spec(model, p) == Ok::<(LlmApiStyle, Seq<char>), Seq<char>>(
            (
                LlmApiStyle::OPENAI,
                "https://dashscope.aliyuncs.com/compatible-mode/v1/chat/completions"@,
            ),
        ),
        p == (ProviderView::Ollama { full_url: None }) ==> endpoint_spec(model, p) == Ok::<
            (LlmApiStyle, Seq<char>),
            Seq<char>,
        >((LlmApiStyle::OLLAMA, "http://localhost:11434/api/chat"@)),
        p is Ollama ==> (endpoint_spec(model, p) matches Ok(e) ==> e.0 == LlmApiStyle::OLLAMA),
        p matches ProviderView::Ollama { full_url: Some(u) } ==> endpoint_spec(model, p) == match url_normalized(u) {
            Some(n) => Ok::<(LlmApiStyle, Seq<char>), Seq<char>>((LlmApiStyle::OLLAMA, n)),
            None => Err(u),
        },
        p is Gemini ==> endpoint_spec(model, p) == match url_normalized(
            "https://generativelanguage.googleapis.com/v1beta/models"@ + "/"@ + model
                + ":generateContent"@,
        ) {
            Some(g) => Ok::<(LlmApiStyle, Seq<char>), Seq<char>>((LlmApiStyle::GEMINI, g)),
            None => Err(
                "https://generativelanguage.googleapis.com/v1beta/models"@ + "/"@ + model
                    + ":generateContent"@,
            ),
        },
        p matches ProviderView::Custom { api_style, full_url } ==> (api_style != LlmApiStyle::GEMINI
            ==> endpoint_spec(model, p) == match url_normalized(full_url) {
            Some(n) => Ok::<(LlmApiStyle, Seq<char>), Seq<char>>((api_style, n)),
            None => Err(full_url),
        }),
        p is Gemini ==> (endpoint_spec(model, p) matches Ok(e) ==> e.0 == LlmApiStyle::GEMINI),
        p matches ProviderView::Custom { api_style, full_url: _ } ==> (endpoint_spec(
            model,
            p,
        ) matches Ok(e) ==> e.0 == api_style),
{
}

fn provider_base(provider: &LlmProvider) -> (r: String)
    ensures
        r@ == provider_base_url(provider@),
{
    match provider {
        LlmProvider::Custom { api_style: _, full_url } => full_url.clone(),
        LlmProvider::OLLAMA { full_url } => match full_url {
            Some(u) => u.clone(),
            None => String::from_str("http://localhost:11434/api/chat"),
        },
        LlmProvider::GEMINI => String::from_str(
            "https://generativelanguage.googleapis.com/v1beta/models",
        ),
        LlmProvider::OPENAI => String::from_str("https://api.openai.com/v1/chat/completions"),
        LlmProvider::ANTHROPIC => String::from_str("https://api.anthropic.com/v1/messages"),
        LlmProvider::ZHIPU => String::from_str(
            "https://open.bigmodel.cn/api/paas/v4/chat/completions",
        ),
        LlmProvider::DEEPSEEK => String::from_str("https://api.deepseek.com/chat/completions"),
        LlmProvider::QWEN => String::from_str(
            "https://dashscope.aliyuncs.com/compatible-mode/v1/chat/completions",
        ),
    }
}

/// Finds where and how to reach the LLM of a provider for a model: the provider's API style,
/// and its URL, checked where the user gave it, and extended by the model for gemini.
pub fn resolve_endpoint(model_name: &str, provider: &LlmProvider) -> (r: Result<
    LlmEndpoint,
    TransError,
>)
    ensures
        match endpoint_spec(model_name@, provider@) {
            Ok((style, url)) => r matches Ok(e) && e.api_style == style && e.full_url@ == url,
            Err(bad) => r matches Err(e) && e is InvalidUrl && e->url@ == bad,
        },
        provider@ is Anthropic ==> (r matches Ok(e) && e.api_style == LlmApiStyle::ANTHROPIC
            && e.full_url@ == "https://api.anthropic.com/v1/messages"@),
        provider@ is OpenAi ==> (r matches Ok(e) && e.api_style == LlmApiStyle::OPENAI
            && e.full_url@ == "https://api.openai.com/v1/chat/completions"@),
        provider@ is Zhipu ==> (r matches Ok(e) && e.api_style == LlmApiStyle::OPENAI
            && e.full_url@ == "https://open.bigmodel.cn/api/paas/v4/chat/completions"@),
        provider@ is DeepSeek ==> (r matches Ok(e) && e.api_style == LlmApiStyle::OPENAI
            && e.full_url@ == "https://api.deepseek.com/chat/completions"@),
        provider@ is Qwen ==> (r matches Ok(e) && e.api_style == LlmApiStyle::OPENAI
            && e.full_url@ == "https://dashscope.aliyuncs.com/compatible-mode/v1/chat/completions"@),
        provider@ is Ollama ==> (r matches Ok(e) ==> e.api_style == LlmApiStyle::OLLAMA),
        provider@ is Gemini ==> (r matches Ok(e) ==> e.api_style == LlmApiStyle::GEMINI),
        provider@ matches ProviderView::Custom { api_style, full_url: _ } ==> (r matches Ok(e)
            ==> e.api_style == api_style),
{
    let base = provider_base(provider);
    let given = match provider {
        LlmProvider::Custom { .. } => true,
        LlmProvider::OLLAMA { full_url } => full_url.is_some(),
        _ => false,
    };
    let style = match provider {
        LlmProvider::Custom { api_style, full_url: _ } => *api_style,
        LlmProvider::OLLAMA { .. } => LlmApiStyle::OLLAMA,
        LlmProvider::GEMINI => LlmApiStyle::GEMINI,
        LlmProvider::ANTHROPIC => LlmApiStyle::ANTHROPIC,
        _ => LlmApiStyle::OPENAI,
    };
    let url = if given {
        verify_url(base.as_str())?
    } else {
        base
    };
    if style == LlmApiStyle::GEMINI {
        let mut g = url;
        g.append("/");
        g.append(model_name);
        g.append(":generateContent");
        let full = verify_url(g.as_str())?;
        Ok(LlmEndpoint { api_style: style, full_url: full })
    } else {
        Ok(LlmEndpoint { api_style: style, full_url: url })
    }
}

/// The HTTP header that carries an API key for an API style: its name and its value.
pub open spec fn auth_header_spec(style: LlmApiStyle, key: Seq<char>) -> (Seq<char>, Seq<char>) {
    match style {
        LlmApiStyle::OPENAI | LlmApiStyle::OLLAMA => ("authorization"@, "Bearer "@ + key),
        LlmApiStyle::GEMINI => ("x-goog-api-key"@, key),
        LlmApiStyle::ANTHROPIC => ("x-api-key"@, key),
    }
}

/// The HTTP header that carries `key` for `style`: its name and its value.
pub fn auth_header(style: LlmApiStyle, key: &str) -> (r: (String, String))
    ensures
        (r.0@, r.1@) == auth_header_spec(style, key@),
{
    match style {
        LlmApiStyle::OPENAI | LlmApiStyle::OLLAMA => (
            String::from_str("authorization"),
            joined("Bearer ", key),
        ),
        LlmApiStyle::GEMINI => (String::from_str("x-goog-api-key"), String::from_str(key)),
        LlmApiStyle::ANTHROPIC => (String::from_str("x-api-key"), String::from_str(key)),
    }
}

/// The default prompt for a destination language, with an optional topic and extra
/// instructions; `single` asks for the form that the text to translate follows.
pub open spec fn default_prompt(
    dest: Seq<char>,
    topic: Option<Seq<char>>,
    extra: Option<Seq<char>>,
    single: bool,
) -> Seq<char> {
    let topic_line = match topic {
        Some(t) => "The topic of the text is '"@ + t + "'.\n"@,
        None => Seq::<char>::empty(),
    };
    let extra_line = match extra {
        Some(e) => e + "\n"@,
        None => Seq::<char>::empty(),
    };
    let request = if single {
        "Please translate below text into "@ + dest + ":"@
    } else {
        "Please translate the provided text into "@ + dest + "."@
    };
    "You are a professional translator. Your task is to translate the provided text into "@ + dest
        + ".\n"@ + topic_line
        + "Strictly maintain the original format, the HTML tags, their attributes and the HTML entities.\nProduce only the translation text, without any additional explanations or commentary.\n"@
        + extra_line + request
}

/// The prompt: the hint's full prompt where it gives one, else the default prompt built from
/// the hint's topic and extra instructions.
pub open spec fn prompt_spec(dest: Seq<char>, hint: Option<PromptHint>, single: bool) -> Seq<char> {
    match hint {
        Some(h) => match h.full_prompt {
            Some(p) => p@,
            None => default_prompt(dest, opt_view(h.topic), opt_view(h.extra_prompt), single),
        },
        None => default_prompt(dest, None, None, single),
    }
}

/// Builds the prompt that instructs the LLM.
pub fn get_prompt(dest_lang: &str, prompt_hint: &Option<PromptHint>, single_prompt: bool) -> (r:
    String)
    ensures
        r@ == prompt_spec(dest_lang@, *prompt_hint, single_prompt),
{
    let mut topic = String::new();
    let mut extra_prompt = String::new();
    let ghost mut topic_v: Option<Seq<char>> = None;
    let ghost mut extra_v: Option<Seq<char>> = None;
    if let Some(hint) = prompt_hint {
        if let Some(prompt) = &hint.full_prompt {
            return prompt.clone();
        }
        if let Some(t) = &hint.topic {
            topic = joined("The topic of the text is '", t.as_str());
            topic.append("'.\n");
            proof {
                topic_v = Some(t@);
            }
        }
        if let Some(e) = &hint.extra_prompt {
            extra_prompt = String::from_str(e.as_str());
            extra_prompt.append("\n");
            proof {
                extra_v = Some(e@);
            }
        }
    }
    let translate_request = if single_prompt {
        let mut q = joined("Please translate below text into ", dest_lang);
        q.append(":");
        q
    } else {
        let mut q = joined("Please translate the provided text into ", dest_lang);
        q.append(".");
        q
    };
    let mut out = joined(
        "You are a professional translator. Your task is to translate the provided text into ",
        dest_lang,
    );
    out.append(".\n");
    out.append(topic.as_str());
    out.append(
        "Strictly maintain the original format, the HTML tags, their attributes and the HTML entities.\nProduce only the translation text, without any additional explanations or commentary.\n",
    );
    out.append(extra_prompt.as_str());
    out.append(translate_request.as_str());
    assert(out@ =~= default_prompt(dest_lang@, topic_v, extra_v, single_prompt));
    out
}

/// The settings of a translation robot, every default applied.
#[derive(Debug)]
pub struct TransSettings {
    pub dest_lang: String,
    pub single_prompt: bool,
    pub html_elem_selector: String,
    pub syntax_strategy: SyntaxStrategy,
    pub print_translating_text: bool,
    pub clean_spacing: bool,
    pub whole_doc_to_llm: bool,
    pub trans_code_in_md: bool,
    pub text_chunk_size: usize,
    pub syntax_tag: String,
}

/// The tag name that marks the numbered pieces of text sent to the LLM, where nothing else is
/// asked for.
pub open spec fn default_syntax_tag() -> Seq<char> {
    "a"@
}

fn text_or(o: &Option<String>, default: &str) -> (r: String)
    ensures
        r@ == match opt_view(*o) {
            Some(v) => v,
            None => default@,
        },
{
    match o {
        Some(v) => v.clone(),
        None => String::from_str(default),
    }
}

fn flag_or_false(o: Option<bool>) -> (r: bool)
    ensures
        r == (o == Some(true)),
{
    match o {
        Some(b) => b,
        None => false,
    }
}

impl TransSettings {
    /// Applies the defaults to a configuration: 'Chinese(zh-Hans)', selector 'p,h1,h2,h3,li',
    /// strategy 'byllm', chunk size 400, every flag false; `syntax_tag` is the tag name asked
    /// for, if any, else 'a'.
    pub fn resolve(config: &TransConfig, syntax_tag: Option<String>) -> (r: TransSettings)
        ensures
            r.dest_lang@ == match opt_view(config.dest_lang) {
                Some(v) => v,
                None => "Chinese(zh-Hans)"@,
            },
            r.single_prompt == (config.single_prompt == Some(true)),
            r.html_elem_selector@ == match opt_view(config.html_elem_selector) {
                Some(v) => v,
                None => "p,h1,h2,h3,li"@,
            },
            r.syntax_strategy == match config.syntax_strategy {
                Some(s) => s,
                None => SyntaxStrategy::MaintainedByLlm,
            },
            r.print_translating_text == (config.print_translating_text == Some(true)),
            r.clean_spacing == (config.clean_cjk_ascii_spacing == Some(true)),
            r.whole_doc_to_llm == (config.whole_doc_to_llm == Some(true)),
            r.trans_code_in_md == (config.trans_code_in_md == Some(true)),
            r.text_chunk_size == match config.text_chunk_size {
                Some(n) => n,
                None => 400,
            },
            r.syntax_tag@ == match opt_view(syntax_tag) {
                Some(t) => t,
                None => default_syntax_tag(),
            },
    {
        TransSettings {
            dest_lang: text_or(&config.dest_lang, "Chinese(zh-Hans)"),
            single_prompt: flag_or_false(config.single_prompt),
            html_elem_selector: text_or(&config.html_elem_selector, "p,h1,h2,h3,li"),
            syntax_strategy: match config.syntax_strategy {
                Some(s) => s,
                None => SyntaxStrategy::MaintainedByLlm,
            },
            print_translating_text: flag_or_false(config.print_translating_text),
            clean_spacing: flag_or_false(config.clean_cjk_ascii_spacing),
            whole_doc_to_llm: flag_or_false(config.whole_doc_to_llm),
            trans_code_in_md: flag_or_false(config.trans_code_in_md),
            text_chunk_size: match config.text_chunk_size {
                Some(n) => n,
                None => 400,
            },
            syntax_tag: text_or(&syntax_tag, "a"),
        }
    }

    /// The prompt that these settings build from a hint.
    pub fn prompt(&self, prompt_hint: &Option<PromptHint>) -> (r: String)
        ensures
            r@ == prompt_spec(self.dest_lang@, *prompt_hint, self.single_prompt),
    {
        get_prompt(self.dest_lang.as_str(), prompt_hint, self.single_prompt)
    }
}

/// The tag name that numbers the pieces of MarkDown documents, whatever tag name is asked for
/// elsewhere.
pub fn fixed_syntax_tag() -> (r: String)
    ensures
        r@ == default_syntax_tag(),
{
    String::from_str("a")
}

} // verus!
