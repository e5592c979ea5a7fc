use transbot::config::{
    DocFormat, FileFormat, LlmApiStyle, LlmProvider, PromptHint, SyntaxStrategy, TransConfig,
};

#[test]
fn doc_formats_are_read_in_any_case() {
    assert_eq!(DocFormat::from_name("HTML"), Ok(DocFormat::Html));
    assert_eq!(DocFormat::from_name("epub"), Ok(DocFormat::Epub));
    assert_eq!(DocFormat::from_name("Md"), Ok(DocFormat::MarkDown));
    assert_eq!(DocFormat::from_name("text"), Ok(DocFormat::Text));
    assert_eq!(
        DocFormat::from_name("pdf"),
        Err(String::from("Unsupported document format: pdf"))
    );
    assert_eq!("md".parse::<DocFormat>(), Ok(DocFormat::MarkDown));
}

#[test]
fn api_styles_are_read() {
    assert_eq!(LlmApiStyle::from_name("Ollama"), Ok(LlmApiStyle::OLLAMA));
    assert_eq!(LlmApiStyle::from_name("OPENAI"), Ok(LlmApiStyle::OPENAI));
    assert_eq!(LlmApiStyle::from_name("gemini"), Ok(LlmApiStyle::GEMINI));
    assert_eq!(LlmApiStyle::from_name("anthropic"), Ok(LlmApiStyle::ANTHROPIC));
    assert_eq!(
        LlmApiStyle::from_name("x"),
        Err(String::from("Unsupported LLM API style: x"))
    );
}

#[test]
fn syntax_strategies_are_read() {
    assert_eq!(SyntaxStrategy::from_name("byllm"), Ok(SyntaxStrategy::MaintainedByLlm));
    assert_eq!(
        SyntaxStrategy::from_name("ByTransBot"),
        Ok(SyntaxStrategy::MaintainedByTransBot)
    );
    assert_eq!(SyntaxStrategy::from_name("stripped"), Ok(SyntaxStrategy::Stripped));
    assert_eq!(
        SyntaxStrategy::from_name("none"),
        Err(String::from("Unsupported syntax strategy: none"))
    );
}

#[test]
fn providers_are_read() {
    assert!(matches!(LlmProvider::from_name("openai"), Ok(LlmProvider::OPENAI)));
    assert!(matches!(LlmProvider::from_name("Gemini"), Ok(LlmProvider::GEMINI)));
    assert!(matches!(LlmProvider::from_name("anthropic"), Ok(LlmProvider::ANTHROPIC)));
    assert!(matches!(LlmProvider::from_name("zhipu"), Ok(LlmProvider::ZHIPU)));
    assert!(matches!(LlmProvider::from_name("deepseek"), Ok(LlmProvider::DEEPSEEK)));
    assert!(matches!(LlmProvider::from_name("qwen"), Ok(LlmProvider::QWEN)));
    match LlmProvider::from_name("ollama") {
        Ok(LlmProvider::OLLAMA { full_url }) => assert_eq!(full_url, None),
        _ => panic!("ollama expected"),
    }
    match LlmProvider::from_name("OLLAMA;http://h:1/api/chat") {
        Ok(LlmProvider::OLLAMA { full_url }) => {
            assert_eq!(full_url, Some(String::from("http://h:1/api/chat")))
        }
        _ => panic!("ollama expected"),
    }
    match LlmProvider::from_name("custom;Anthropic;https://x/y") {
        Ok(LlmProvider::Custom { api_style, full_url }) => {
            assert_eq!(api_style, LlmApiStyle::ANTHROPIC);
            assert_eq!(full_url, "https://x/y");
        }
        _ => panic!("custom expected"),
    }
    assert_eq!(
        LlmProvider::from_name("custom;openai").err(),
        Some(String::from(
            "Wrong custom provider format. It should be 'custom;<api_style>;<url>'"
        ))
    );
    assert_eq!(
        LlmProvider::from_name("custom;foo;http://x").err(),
        Some(String::from("Unsupported LLM API style: foo"))
    );
    assert_eq!(
        LlmProvider::from_name("Other;x").err(),
        Some(String::from("Unkonwn provider: other"))
    );
}

#[test]
fn prompt_hint_setters_set_one_field() {
    let mut hint = PromptHint::new();
    assert!(hint.topic.is_none() && hint.extra_prompt.is_none() && hint.full_prompt.is_none());
    hint.set_topic("Rust programming").set_extra_prompt("trait: 特型");
    assert_eq!(hint.topic.as_deref(), Some("Rust programming"));
    assert_eq!(hint.extra_prompt.as_deref(), Some("trait: 特型"));
    assert!(hint.full_prompt.is_none());
    hint.set_full_prompt("Translate!");
    assert_eq!(hint.full_prompt.as_deref(), Some("Translate!"));
    let d = PromptHint::default();
    assert!(d.topic.is_none() && d.extra_prompt.is_none() && d.full_prompt.is_none());
}

#[test]
fn trans_config_setters_set_one_field() {
    let mut config = TransConfig::new();
    assert!(config.dest_lang.is_none() && config.text_chunk_size.is_none());
    config
        .set_dest_lang("Chinese")
        .set_html_elem_selector("p,h1,h2,h3,li,code[class=\"c\"]")
        .set_syntax_strategy(SyntaxStrategy::MaintainedByTransBot)
        .set_prompt_hint(PromptHint::new())
        .set_clean_cjk_ascii_spacing(true)
        .set_print_translating_text(true)
        .set_single_prompt(false);
    assert_eq!(config.dest_lang.as_deref(), Some("Chinese"));
    assert_eq!(
        config.html_elem_selector.as_deref(),
        Some("p,h1,h2,h3,li,code[class=\"c\"]")
    );
    assert_eq!(config.syntax_strategy, Some(SyntaxStrategy::MaintainedByTransBot));
    assert!(config.prompt_hint.is_some());
    assert_eq!(config.clean_cjk_ascii_spacing, Some(true));
    assert_eq!(config.print_translating_text, Some(true));
    assert_eq!(config.single_prompt, Some(false));
    assert_eq!(config.whole_doc_to_llm, None);
    assert_eq!(config.trans_code_in_md, None);
    let d = TransConfig::default();
    assert!(d.dest_lang.is_none() && d.prompt_hint.is_none());
}

#[test]
fn file_formats_are_read_in_any_case() {
    assert_eq!(FileFormat::from_name("Html"), Ok(FileFormat::HTML));
    assert_eq!(FileFormat::from_name("EPUB"), Ok(FileFormat::EPUB));
    assert_eq!(
        FileFormat::from_name("md"),
        Err(String::from("Unsupported file format: md"))
    );
    assert_eq!("epub".parse::<FileFormat>(), Ok(FileFormat::EPUB));
}
