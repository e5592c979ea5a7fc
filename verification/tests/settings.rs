use transbot::config::{LlmApiStyle, LlmProvider, PromptHint, SyntaxStrategy, TransConfig};
use transbot::settings::{
    auth_header, get_prompt, resolve_endpoint, verify_url, TransError, TransSettings,
};

#[test]
fn urls_are_checked_and_normalized() {
    assert_eq!(verify_url("HTTP://Example.com").unwrap(), "http://example.com/");
    match verify_url("not a url") {
        Err(TransError::InvalidUrl { url, .. }) => assert_eq!(url, "not a url"),
        _ => panic!("invalid url expected"),
    }
}

#[test]
fn endpoints_follow_the_provider() {
    let e = resolve_endpoint("m", &LlmProvider::OPENAI).unwrap();
    assert_eq!(e.api_style, LlmApiStyle::OPENAI);
    assert_eq!(e.full_url, "https://api.openai.com/v1/chat/completions");
    let e = resolve_endpoint("m", &LlmProvider::OLLAMA { full_url: None }).unwrap();
    assert_eq!(e.api_style, LlmApiStyle::OLLAMA);
    assert_eq!(e.full_url, "http://localhost:11434/api/chat");
    let e = resolve_endpoint("m", &LlmProvider::DEEPSEEK).unwrap();
    assert_eq!(e.api_style, LlmApiStyle::OPENAI);
    assert_eq!(e.full_url, "https://api.deepseek.com/chat/completions");
    let e = resolve_endpoint("gemini-2.5", &LlmProvider::GEMINI).unwrap();
    assert_eq!(e.api_style, LlmApiStyle::GEMINI);
    assert_eq!(
        e.full_url,
        "https://generativelanguage.googleapis.com/v1beta/models/gemini-2.5:generateContent"
    );
    let e = resolve_endpoint(
        "m",
        &LlmProvider::Custom { api_style: LlmApiStyle::ANTHROPIC, full_url: String::from("HTTPS://A.B/c") },
    )
    .unwrap();
    assert_eq!(e.api_style, LlmApiStyle::ANTHROPIC);
    assert_eq!(e.full_url, "https://a.b/c");
    assert!(matches!(
        resolve_endpoint("m", &LlmProvider::OLLAMA { full_url: Some(String::from("::")) }),
        Err(TransError::InvalidUrl { .. })
    ));
}

#[test]
fn api_keys_go_in_the_style_header() {
    assert_eq!(
        auth_header(LlmApiStyle::OPENAI, "k"),
        (String::from("authorization"), String::from("Bearer k"))
    );
    assert_eq!(
        auth_header(LlmApiStyle::OLLAMA, "k"),
        (String::from("authorization"), String::from("Bearer k"))
    );
    assert_eq!(
        auth_header(LlmApiStyle::GEMINI, "k"),
        (String::from("x-goog-api-key"), String::from("k"))
    );
    assert_eq!(
        auth_header(LlmApiStyle::ANTHROPIC, "k"),
        (String::from("x-api-key"), String::from("k"))
    );
}

#[test]
fn default_prompt_follows_the_template() {
    let p = get_prompt("French", &None, false);
    assert_eq!(
        p,
        "You are a professional translator. Your task is to translate the provided text into French.\n\
         Strictly maintain the original format, the HTML tags, their attributes and the HTML entities.\n\
         Produce only the translation text, without any additional explanations or commentary.\n\
         Please translate the provided text into French."
    );
    let mut hint = PromptHint::new();
    hint.set_topic("Rust").set_extra_prompt("trait: 特型");
    let p = get_prompt("Chinese", &Some(hint), true);
    assert_eq!(
        p,
        "You are a professional translator. Your task is to translate the provided text into Chinese.\n\
         The topic of the text is 'Rust'.\n\
         Strictly maintain the original format, the HTML tags, their attributes and the HTML entities.\n\
         Produce only the translation text, without any additional explanations or commentary.\n\
         trait: 特型\n\
         Please translate below text into Chinese:"
    );
    let mut full = PromptHint::new();
    full.set_topic("ignored").set_full_prompt("Just translate.");
    assert_eq!(get_prompt("Chinese", &Some(full), false), "Just translate.");
}

#[test]
fn settings_take_their_defaults() {
    let s = TransSettings::resolve(&TransConfig::new(), None);
    assert_eq!(s.dest_lang, "Chinese(zh-Hans)");
    assert!(!s.single_prompt);
    assert_eq!(s.html_elem_selector, "p,h1,h2,h3,li");
    assert_eq!(s.syntax_strategy, SyntaxStrategy::MaintainedByLlm);
    assert!(!s.print_translating_text && !s.clean_spacing && !s.whole_doc_to_llm && !s.trans_code_in_md);
    assert_eq!(s.text_chunk_size, 400);
    assert_eq!(s.syntax_tag, "a");
    let mut c = TransConfig::new();
    c.set_dest_lang("German").set_single_prompt(true);
    c.text_chunk_size = Some(50);
    let s = TransSettings::resolve(&c, Some(String::from("seg")));
    assert_eq!(s.dest_lang, "German");
    assert!(s.single_prompt);
    assert_eq!(s.text_chunk_size, 50);
    assert_eq!(s.syntax_tag, "seg");
    assert!(s.prompt(&None).ends_with("Please translate below text into German:"));
}

#[test]
fn errors_describe_themselves() {
    assert_eq!(TransError::Interrupted.message(), "The translation job is interrupted.");
    assert_eq!(
        TransError::StrippedMarkdown.message(),
        "Syntax strategy 'stripped' is not supported yet for MarkDown files."
    );
    assert_eq!(TransError::UnexpectedFormat.message(), "Unexpected format.");
    assert_eq!(
        TransError::NoChoice { reply: String::from("R { choices: [] }") }.message(),
        "No choice contained in response: R { choices: [] }"
    );
    assert_eq!(
        TransError::NoReplyText { reply: String::from("R { content: [] }") }.message(),
        "No text contained in response: R { content: [] }"
    );
}
