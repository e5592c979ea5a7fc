use transbot::book::{chapter_ids, metadata_properties, BookProgress};
use transbot::config::{DocFormat, SyntaxStrategy, TransConfig};
use transbot::html::{MarkupHtmlState, StrippedHtmlState, TaggedHtmlState};
use transbot::htmlpass::{
    markup_html_collect, markup_html_pass1, markup_html_write, stripped_html_collect,
    stripped_html_pass1, stripped_html_write, tagged_html_collect, tagged_html_pass1,
    tagged_html_replacements, tagged_html_write, HtmlEvent,
};
use transbot::llm::{build_messages, finish_reply, first_reply_text, remove_boundary_spaces};
use transbot::markdown::{MarkupMdState, MdEvent, MdOutput, MdTag, TaggedMdState};
use transbot::mdpass::{tagged_md_pass1, tagged_md_pass2};
use transbot::progress::{Progress, Step, StopReason};
use transbot::route::{
    chapter_state_path, contains_text, detect_format, format_from_mime, get_extended_path,
    plan_file, route_for, Route,
};
use transbot::settings::{TransError, TransSettings};
use transbot::tagged::{handle_tagged_result, tag_piece};
use transbot::text::{text_pass1, text_pass2, TextState};
use transbot::toc::{toc_pass1, toc_pass2};

fn settings(selector: &str, strategy: SyntaxStrategy, whole: bool) -> TransSettings {
    let mut c = TransConfig::new();
    c.set_html_elem_selector(selector).set_syntax_strategy(strategy);
    c.whole_doc_to_llm = Some(whole);
    TransSettings::resolve(&c, None)
}

#[test]
fn routes_follow_format_and_strategy() {
    let s = settings("p", SyntaxStrategy::MaintainedByTransBot, false);
    assert_eq!(route_for(DocFormat::Html, &s).unwrap(), Route::HtmlTagged);
    assert_eq!(route_for(DocFormat::MarkDown, &s).unwrap(), Route::MarkdownTagged);
    assert_eq!(route_for(DocFormat::Text, &s).unwrap(), Route::Text);
    assert!(matches!(route_for(DocFormat::Epub, &s), Err(TransError::UnexpectedFormat)));
    let s = settings("p", SyntaxStrategy::MaintainedByLlm, false);
    assert_eq!(route_for(DocFormat::Html, &s).unwrap(), Route::HtmlByLlm);
    assert_eq!(route_for(DocFormat::MarkDown, &s).unwrap(), Route::MarkdownByLlm);
    let s = settings("p", SyntaxStrategy::Stripped, false);
    assert_eq!(route_for(DocFormat::Html, &s).unwrap(), Route::HtmlStripped);
    assert!(matches!(route_for(DocFormat::MarkDown, &s), Err(TransError::StrippedMarkdown)));
    let s = settings("WHOLE", SyntaxStrategy::Stripped, false);
    assert_eq!(route_for(DocFormat::Html, &s).unwrap(), Route::WholeDoc);
    assert!(matches!(route_for(DocFormat::MarkDown, &s), Err(TransError::StrippedMarkdown)));
    let s = settings("p", SyntaxStrategy::Stripped, true);
    assert_eq!(route_for(DocFormat::Epub, &s).unwrap(), Route::WholeDoc);
}

#[test]
fn extended_paths_are_built_beside_the_source() {
    assert_eq!(get_extended_path("dir/book.html", "transbot", false), "dir/book.transbot.html");
    assert_eq!(get_extended_path("dir/book.html", "temp", true), "dir/book.html.temp");
    assert_eq!(get_extended_path("notes", "transbot", false), "notes.transbot.");
    let plan = plan_file("a/b.md", None, true);
    assert_eq!(plan.dest, "a/b.transbot.md");
    assert_eq!(plan.state.as_deref(), Some("a/b.transbot.md.temp"));
    let plan = plan_file("a/b.md", Some(String::from("out.md")), false);
    assert_eq!(plan.dest, "out.md");
    assert!(plan.state.is_none());
    assert_eq!(chapter_state_path("x/b.epub.temp", 12), "x/b.epub.temp.12");
}

#[test]
fn formats_follow_the_mime_type() {
    assert_eq!(format_from_mime("application/epub+zip"), Ok(DocFormat::Epub));
    assert_eq!(format_from_mime("text/html"), Ok(DocFormat::Html));
    assert_eq!(format_from_mime("application/xhtml+xml"), Ok(DocFormat::Html));
    assert_eq!(format_from_mime("text/markdown"), Ok(DocFormat::MarkDown));
    assert_eq!(format_from_mime("text/plain"), Ok(DocFormat::Text));
    assert_eq!(
        format_from_mime("image/png"),
        Err(String::from("Unsupported input file format. [image/png]"))
    );
    assert_eq!(detect_format(Some(DocFormat::Text), "x.html"), Ok(DocFormat::Text));
    assert_eq!(detect_format(None, "x.html"), Ok(DocFormat::Html));
    assert_eq!(detect_format(None, "x.md"), Ok(DocFormat::MarkDown));
    assert_eq!(detect_format(None, "x.epub"), Ok(DocFormat::Epub));
    assert_eq!(detect_format(None, "x.txt"), Ok(DocFormat::Text));
    assert_eq!(
        detect_format(None, "noext"),
        Err(String::from("Unkonwn input file format!"))
    );
    assert!(contains_text("abc", ""));
    assert!(!contains_text("ab", "abc"));
}

#[test]
fn messages_carry_prompt_and_input() {
    let m = build_messages("P", true, "text");
    assert!(m.system.is_none());
    assert_eq!(m.user, "P\n\ntext");
    let m = build_messages("P", false, "text");
    assert_eq!(m.system.as_deref(), Some("P"));
    assert_eq!(m.user, "text");
}

#[test]
fn replies_are_unfenced_and_cleaned() {
    assert_eq!(finish_reply("```html\n<p>x</p>\n```", false), "<p>x</p>");
    assert_eq!(finish_reply("Rust 是 一种 language", false), "Rust 是 一种 language");
    assert_eq!(finish_reply("Rust 是一种 language", true), "Rust是一种language");
    assert_eq!(remove_boundary_spaces("# 标题 and - 项"), "# 标题and - 项");
    let empty = || TransError::NoReplyText { reply: String::from("R") };
    assert_eq!(first_reply_text(vec![String::from("a"), String::from("b")], empty()).unwrap(), "a");
    assert!(matches!(
        first_reply_text(vec![], empty()),
        Err(TransError::NoReplyText { reply }) if reply == "R"
    ));
}

#[test]
fn progress_steps_through_pieces() {
    let (mut p, step) = Progress::begin(0, 2, true, false);
    assert_eq!(step, Step::Translate(0));
    assert_eq!(p.translated(false), Step::Translate(1));
    assert_eq!(p.failed(), Step::Stop { save: true, reason: StopReason::Failed });
    assert_eq!(p.translated(false), Step::Finish { save: true });
    let (mut p, _) = Progress::begin(1, 3, true, false);
    assert_eq!(p.translated(true), Step::Stop { save: true, reason: StopReason::Interrupted });
    let (_, step) = Progress::begin(0, 3, true, true);
    assert_eq!(step, Step::Stop { save: false, reason: StopReason::Interrupted });
    let (mut p, step) = Progress::begin(0, 1, false, true);
    assert_eq!(step, Step::Translate(0));
    assert_eq!(p.translated(true), Step::Finish { save: false });
    let (p, step) = Progress::begin(0, 1, false, false);
    assert_eq!(p.failed(), Step::Stop { save: false, reason: StopReason::Failed });
    assert_eq!(step, Step::Translate(0));
    let (_, step) = Progress::begin(5, 3, true, false);
    assert_eq!(step, Step::Finish { save: false });
}

#[test]
fn tagged_pieces_are_read_back() {
    assert_eq!(tag_piece(true, "a", 3, "Hello"), "\n<a id=\"3\">Hello</a>");
    let mut chunks = vec![String::from("x"), String::from("y"), String::from("z")];
    handle_tagged_result(
        "<a id=\"0\">Bonjour</a>\n<a id=\"2\"></a><a id=\"9\">lost</a><b id=\"1\">no</b>",
        &mut chunks,
        "a",
    );
    assert_eq!(chunks, vec![String::from("Bonjour"), String::from("y"), String::new()]);
    let mut chunks = vec![String::from("x")];
    handle_tagged_result("<a id=\"+0\">A &amp; B</a>", &mut chunks, "a");
    assert_eq!(chunks, vec![String::from("A &amp; B")]);
}

#[test]
fn tagged_html_collects_and_replaces_text() {
    let mut s = TaggedHtmlState::new();
    s.collect_text("outside", "a");
    s.open_element();
    s.collect_text("Hello", "a");
    s.collect_text("  ", "a");
    s.collect_text("world", "a");
    s.close_element(5);
    assert_eq!(s.chunk_vec, vec![String::from("Hello"), String::from("world")]);
    assert_eq!(s.chunk_group_vec, vec![String::from("\n<a id=\"0\">Hello</a><a id=\"1\">world</a>")]);
    s.open_element();
    s.collect_text("Bye", "a");
    s.close_element(1000);
    s.finish_collecting();
    assert_eq!(s.chunk_group_vec.len(), 2);
    assert_eq!(s.chunk_group_vec[1], "\n<a id=\"2\">Bye</a>");
    s.chunk_vec = vec![String::from("Bonjour"), String::from("monde"), String::from("Salut")];
    s.begin_output();
    assert_eq!(s.output_text("outside"), None);
    s.output_open_element();
    assert_eq!(s.output_text("Hello"), Some(String::from("Bonjour")));
    assert_eq!(s.output_text(" "), None);
    assert_eq!(s.output_text("world"), Some(String::from("monde")));
    s.output_close_element();
    assert_eq!(s.output_text("after"), None);
}

#[test]
fn markup_html_collects_whole_elements() {
    let mut s = MarkupHtmlState::new();
    s.collect_output(b"<html>");
    s.open_element();
    s.collect_output(b"<p>Hi <b>");
    s.open_element();
    s.collect_output(b"you");
    s.close_element("b");
    s.collect_output(b"</b>");
    s.close_element("p");
    assert_eq!(s.chunk_vec, vec![String::from("<p>Hi <b>you</b></p>")]);
    s.store_translation(0, String::from("<p>Salut</p>"));
    assert_eq!(s.chunk_vec[0], "<p>Salut</p>");
    s.output_open_element();
    assert!(!s.emits_output());
    assert_eq!(s.output_close_element(), Some(String::from("<p>Salut</p>")));
    assert!(s.emits_output());
    s.output_open_element();
    assert_eq!(s.output_close_element(), Some(String::new()));
    let mut t = MarkupHtmlState::new();
    t.chunk_vec = vec![String::from("\n<p>x</p>\n")];
    t.store_translation(0, String::from("<p>y</p>"));
    assert_eq!(t.chunk_vec[0], "\n<p>y</p>\n");
}

#[test]
fn stripped_html_keeps_bare_text() {
    let mut s = StrippedHtmlState::new();
    s.collect_text("skip");
    s.open_element();
    s.collect_text("See ");
    s.open_element();
    s.collect_text("the blog");
    s.close_element();
    s.collect_text(" for details.");
    s.close_element();
    assert_eq!(s.index, 1);
    assert_eq!(s.pieces, vec![String::from("See the blog for details.")]);
    s.store_translation(0, String::from("详见博客。"));
    s.begin_output();
    assert!(s.output_chunk());
    s.output_open_element();
    assert!(s.output_chunk());
    assert!(!s.output_chunk());
    assert_eq!(s.output_close_element("p"), Some(String::from("详见博客。</p>")));
    assert!(s.output_chunk());
}

#[test]
fn tagged_markdown_collects_and_replaces() {
    let mut s = TaggedMdState::new();
    let events = vec![
        MdEvent::Start(MdTag::Heading),
        MdEvent::Text(String::from("Title")),
        MdEvent::End(MdTag::Heading),
        MdEvent::Start(MdTag::Paragraph),
        MdEvent::Text(String::from("Use ")),
        MdEvent::Code(String::from("cargo")),
        MdEvent::End(MdTag::Paragraph),
        MdEvent::Start(MdTag::HtmlBlock),
        MdEvent::Html(String::from("<div>")),
        MdEvent::Html(String::from("x</div>")),
        MdEvent::End(MdTag::HtmlBlock),
    ];
    for e in &events {
        s.collect(e, 10, "a");
    }
    s.finish_collecting();
    assert_eq!(
        s.chunk_vec,
        vec![String::from("Title"), String::from("Use "), String::from("cargo")]
    );
    assert_eq!(
        s.chunk_group_vec,
        vec![
            String::from("<a id=\"0\">Title</a>"),
            String::from("<a id=\"1\">Use </a><a id=\"2\">cargo</a>")
        ]
    );
    assert_eq!(s.html_vec, vec![String::from("<div>x</div>")]);
    s.chunk_vec = vec![String::from("标题"), String::from("使用 "), String::from("货物")];
    s.store_html(0, String::from("<div>y</div>"));
    s.begin_output();
    let outs: Vec<MdOutput> = events.iter().map(|e| s.output(e, false)).collect();
    assert!(matches!(&outs[1], MdOutput::Replace(t) if t == "标题"));
    assert!(matches!(&outs[4], MdOutput::Replace(t) if t == "使用 "));
    assert!(matches!(&outs[5], MdOutput::Keep));
    assert!(matches!(&outs[8], MdOutput::Replace(t) if t == "<div>y</div>"));
    assert!(matches!(&outs[9], MdOutput::Drop));
}

#[test]
fn markup_markdown_gathers_top_blocks() {
    let mut s = MarkupMdState::new();
    s.on_event(&MdEvent::Start(MdTag::Paragraph));
    s.write_text("Hello *world*");
    s.on_event(&MdEvent::End(MdTag::Paragraph));
    s.on_event(&MdEvent::Start(MdTag::CodeBlock(Some(String::from("rust")))));
    s.write_text("```rust\nfn x() {}\n```");
    s.on_event(&MdEvent::End(MdTag::CodeBlock(Some(String::from("rust")))));
    s.on_event(&MdEvent::Start(MdTag::CodeBlock(Some(String::from("admonish note")))));
    s.write_text("note body");
    s.on_event(&MdEvent::End(MdTag::CodeBlock(None)));
    s.finish_pass1();
    assert_eq!(
        s.text_vec,
        vec![String::from("Hello *world*"), String::from("note body")]
    );
    s.store_translation(0, String::from("你好 *世界*"));
    s.store_translation(1, String::from("代码"));
    s.begin_pass2();
    s.on_event(&MdEvent::Start(MdTag::Paragraph));
    s.write_text("Hello *world*");
    s.on_event(&MdEvent::End(MdTag::Paragraph));
    s.on_event(&MdEvent::Start(MdTag::Heading));
    s.write_text("# T");
    let out = s.finish_pass2();
    assert_eq!(out, "你好 *世界*代码");
}

#[test]
fn plain_text_is_cut_and_joined() {
    let data = text_pass1(10, b"Some text\n\nfrom a\ndocument");
    assert_eq!(data.trans_index, 0);
    assert_eq!(
        data.text_vec,
        vec![String::from("Some text"), String::from("from a"), String::from("document")]
    );
    let mut data = data;
    data.store_translation(1, String::from("d'un"));
    assert_eq!(text_pass2(data), "Some text\n\nd'un\n\ndocument\n\n");
    assert_eq!(text_pass2(TextState { trans_index: 0, text_vec: vec![] }), "");
}

#[test]
fn toc_labels_are_grouped_and_put_back() {
    let labels = vec![String::from("Intro"), String::from(" "), String::from("Part 1")];
    let (mut chunks, groups) = toc_pass1(&labels, 10, "a");
    assert_eq!(chunks, vec![String::from("Intro"), String::from("Part 1")]);
    assert_eq!(
        groups,
        vec![String::from("<a id=\"0\">Intro</a>\n"), String::from("<a id=\"1\">Part 1</a>\n")]
    );
    let (_, one_group) = toc_pass1(&labels, 1000, "a");
    assert_eq!(one_group.len(), 1);
    chunks[0] = String::from("Introduction");
    let new_labels = toc_pass2(&labels, &mut chunks);
    assert_eq!(
        new_labels,
        vec![Some(String::from("Introduction")), None, Some(String::from("Part 1"))]
    );
}

#[test]
fn tagged_markdown_passes_number_pieces_alike() {
    let events = vec![
        MdEvent::Start(MdTag::Paragraph),
        MdEvent::Text(String::from("one")),
        MdEvent::Code(String::from("two")),
        MdEvent::End(MdTag::Paragraph),
        MdEvent::Text(String::from("outside")),
        MdEvent::Start(MdTag::List),
        MdEvent::Text(String::from("three")),
        MdEvent::End(MdTag::List),
    ];
    let mut s = TaggedMdState::new();
    for e in &events {
        s.collect(e, 1000, "a");
    }
    s.finish_collecting();
    let collected = s.chunk_vec.clone();
    assert_eq!(collected, vec![String::from("one"), String::from("two"), String::from("three")]);
    s.begin_output();
    let mut replaced = Vec::new();
    for e in &events {
        if let MdOutput::Replace(t) = s.output(e, true) {
            replaced.push(t);
        }
    }
    assert_eq!(replaced, collected);
}

#[test]
fn groups_close_by_characters() {
    // A group of sixteen characters in twenty bytes: the threshold counts characters.
    let mut s = TaggedMdState::new();
    for e in [
        MdEvent::Start(MdTag::Paragraph),
        MdEvent::Text(String::from("翻译")),
        MdEvent::End(MdTag::Paragraph),
    ] {
        s.collect(&e, 16, "a");
    }
    assert!(s.chunk_group_vec.is_empty());
    assert_eq!(s.chunk_group_buf, "<a id=\"0\">翻译</a>");
    let mut t = TaggedMdState::new();
    for e in [
        MdEvent::Start(MdTag::Paragraph),
        MdEvent::Text(String::from("翻译")),
        MdEvent::End(MdTag::Paragraph),
    ] {
        t.collect(&e, 15, "a");
    }
    assert_eq!(t.chunk_group_vec, vec![String::from("<a id=\"0\">翻译</a>")]);
}

#[test]
fn book_stages_resume_after_the_saved_ones() {
    let mut p = BookProgress::begin(Some(2), true);
    assert_eq!(p, BookProgress { index: 0, previous: 2 });
    assert!(!p.runs_next());
    assert_eq!(p.pass(), 1);
    assert!(!p.runs_next());
    assert_eq!(p.pass(), 2);
    assert!(p.runs_next());
    assert_eq!(p.pass(), 3);
    assert!(p.runs_next());
    assert_eq!(BookProgress::begin(Some(5), false).previous, 0);
    assert_eq!(BookProgress::begin(None, true).previous, 0);
}

#[test]
fn chapters_are_the_html_documents_of_the_spine() {
    let spine = vec![
        (String::from("application/xhtml+xml"), Some(String::from("text/ch2.xhtml"))),
        (String::from("image/png"), Some(String::from("img/cover.png"))),
        (String::from("text/html"), None),
        (String::from("text/html"), Some(String::from("text/ch1.html"))),
    ];
    let manifest = vec![
        (String::from("text/ch1.html"), String::from("c1")),
        (String::from("img/cover.png"), String::from("cover")),
        (String::from("text/ch2.xhtml"), String::from("c2")),
        (String::from("style.css"), String::from("css")),
    ];
    assert_eq!(chapter_ids(&spine, &manifest), vec![String::from("c1"), String::from("c2")]);
    assert!(chapter_ids(&Vec::new(), &manifest).is_empty());
    assert_eq!(
        metadata_properties(),
        vec![String::from("dc:title"), String::from("dc:creator"), String::from("dc:description")]
    );
}

#[test]
fn markdown_document_goes_through_both_tagged_passes() {
    let doc = "# Title\n\nUse `cargo` now.\n";
    let mut s = tagged_md_pass1(doc, 10, "a").unwrap();
    assert_eq!(
        s.chunk_vec,
        vec![String::from("Title"), String::from("Use "), String::from("cargo"), String::from(" now.")]
    );
    assert_eq!(
        s.chunk_group_vec,
        vec![
            String::from("<a id=\"0\">Title</a>"),
            String::from("<a id=\"1\">Use </a><a id=\"2\">cargo</a><a id=\"3\"> now.</a>")
        ]
    );
    s.chunk_vec = vec![
        String::from("Titre"),
        String::from("Utiliser "),
        String::from("cargaison"),
        String::from(" maintenant."),
    ];
    let out = tagged_md_pass2(&mut s, doc, false).unwrap();
    assert!(out.contains("# Titre"));
    assert!(out.contains("Utiliser `cargo` maintenant."));
    assert!(!out.contains("Title"));
}

#[test]
fn html_reports_fold_into_the_passes() {
    let events = vec![
        HtmlEvent::Text(String::from("outside")),
        HtmlEvent::Open { self_closing: false },
        HtmlEvent::Output(b"<p>".to_vec()),
        HtmlEvent::Text(String::from("Hello")),
        HtmlEvent::Open { self_closing: true },
        HtmlEvent::Text(String::from(" ")),
        HtmlEvent::Text(String::from("world")),
        HtmlEvent::Output(b"Hello world".to_vec()),
        HtmlEvent::Close(String::from("p")),
    ];
    let mut s = tagged_html_pass1(&events, 5, "a").unwrap();
    assert_eq!(s.chunk_vec, vec![String::from("Hello"), String::from("world")]);
    assert_eq!(s.chunk_group_vec, vec![String::from("\n<a id=\"0\">Hello</a><a id=\"1\">world</a>")]);
    s.chunk_vec = vec![String::from("Bonjour"), String::from("monde")];
    let r = tagged_html_replacements(&mut s, &events).unwrap();
    assert_eq!(r, vec![None, Some(String::from("Bonjour")), None, Some(String::from("monde"))]);
    let m = markup_html_pass1(&events).unwrap();
    assert_eq!(m.chunk_vec, vec![String::from("<p>Hello world</p>")]);
    let t = stripped_html_pass1(&events).unwrap();
    assert_eq!(t.pieces, vec![String::from("Hello world")]);
}

#[test]
fn html_documents_go_through_the_passes() {
    let doc: &[u8] = b"<html><body><p>Hello <b>world</b></p><div>skip</div><p/></body></html>";
    let mut t = tagged_html_collect(doc, "p", 5, "a").unwrap();
    assert_eq!(t.chunk_vec, vec![String::from("Hello "), String::from("world")]);
    assert_eq!(t.chunk_group_vec, vec![String::from("\n<a id=\"0\">Hello </a><a id=\"1\">world</a>")]);
    t.chunk_vec = vec![String::from("Bonjour "), String::from("monde")];
    let out = tagged_html_write(&mut t, doc, "p").unwrap();
    assert_eq!(
        String::from_utf8(out).unwrap(),
        "<html><body><p>Bonjour <b>monde</b></p><div>skip</div><p/></body></html>"
    );

    let mut m = markup_html_collect(doc, "p").unwrap();
    assert_eq!(m.chunk_vec, vec![String::from("<p>Hello <b>world</b></p>")]);
    m.store_translation(0, String::from("<p>Salut</p>"));
    let out = markup_html_write(&m, doc, "p").unwrap();
    assert_eq!(
        String::from_utf8(out).unwrap(),
        "<html><body><p>Salut</p><div>skip</div><p/></body></html>"
    );

    let mut s = stripped_html_collect(doc, "p").unwrap();
    assert_eq!(s.pieces, vec![String::from("Hello world")]);
    s.store_translation(0, String::from("Salut le monde"));
    let out = stripped_html_write(&s, doc, "p").unwrap();
    assert_eq!(
        String::from_utf8(out).unwrap(),
        "<html><body><p>Salut le monde</p><div>skip</div><p/></body></html>"
    );
    assert!(tagged_html_collect(doc, "p[", 5, "a").is_err());
}

#[test]
fn a_resumed_run_gives_the_same_text() {
    let translate = |s: &str| s.to_uppercase();
    let mut whole = text_pass1(6, b"one two\n\nthree four\n\nfive");
    let mut resumed = text_pass1(6, b"one two\n\nthree four\n\nfive");
    let n = whole.text_vec.len();
    for i in 0..n {
        let t = translate(&whole.text_vec[i]);
        whole.store_translation(i, t);
    }
    let (mut p, mut step) = Progress::begin(0, n, true, false);
    while let Step::Translate(i) = step {
        let t = translate(&resumed.text_vec[i]);
        resumed.store_translation(i, t);
        step = p.translated(i == 0);
    }
    assert_eq!(step, Step::Stop { save: true, reason: StopReason::Interrupted });
    let (mut p, mut step) = Progress::begin(p.trans_index, n, true, false);
    assert_eq!(step, Step::Translate(1));
    while let Step::Translate(i) = step {
        let t = translate(&resumed.text_vec[i]);
        resumed.store_translation(i, t);
        step = p.translated(false);
    }
    assert_eq!(text_pass2(resumed), text_pass2(whole));
}

#[test]
fn toc_pieces_taken_are_left_empty() {
    let labels = vec![String::from("A"), String::from(" "), String::from("B")];
    let mut chunks = vec![String::from("x"), String::from("y"), String::from("z")];
    let _ = toc_pass2(&labels, &mut chunks);
    assert_eq!(chunks, vec![String::new(), String::new(), String::from("z")]);
}
