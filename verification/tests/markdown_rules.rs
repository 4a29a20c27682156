use basemark_cli::json::{Json, Member};
use basemark_cli::markdown::{heading_level_to_u8, markdown_to_tiptap_json, tiptap_from_events, MdEvent, MdHeadingLevel, MdTag, MdTagEnd};
use basemark_cli::render::{text_for_display, tiptap_json_to_markdown};

fn at<'a>(j: &'a Json, key: &str) -> &'a Json {
    j.get(key).expect("key should be present")
}

fn nth(j: &Json, i: usize) -> &Json {
    &j.as_array().expect("should be an array")[i]
}

fn text(j: &Json) -> &str {
    j.as_str().expect("should be a string")
}

fn obj(members: Vec<(&str, Json)>) -> Json {
    Json::object(members.into_iter().map(|(k, v)| Member::new(k, v)).collect())
}

fn node(t: &str, content: Vec<Json>) -> Json {
    obj(vec![("type", Json::string(t)), ("content", Json::array(content))])
}

fn plain(t: &str) -> Json {
    obj(vec![("type", Json::string("text")), ("text", Json::string(t))])
}

fn para(t: &str) -> Json {
    node("paragraph", vec![plain(t)])
}

fn md(input: &str) -> String {
    tiptap_json_to_markdown(&markdown_to_tiptap_json(input))
}

#[test]
fn empty_markdown_is_an_empty_document() {
    let json = markdown_to_tiptap_json("");
    assert_eq!(text(at(&json, "type")), "doc");
    assert_eq!(at(&json, "content").as_array().unwrap().len(), 0);
    assert_eq!(tiptap_json_to_markdown(&json), "");
}

#[test]
fn heading_level_three_round_trip() {
    let json = markdown_to_tiptap_json("### Deep\n");
    let h = nth(at(&json, "content"), 0);
    assert_eq!(at(at(h, "attrs"), "level").as_u64(), Some(3));
    assert_eq!(tiptap_json_to_markdown(&json), "### Deep\n\n");
}

#[test]
fn heading_level_numbers() {
    assert_eq!(heading_level_to_u8(&MdHeadingLevel::H1), 1);
    assert_eq!(heading_level_to_u8(&MdHeadingLevel::H4), 4);
    assert_eq!(heading_level_to_u8(&MdHeadingLevel::H6), 6);
}

#[test]
fn ordered_list_keeps_its_start_number() {
    let json = markdown_to_tiptap_json("3. a\n4. b\n");
    let list = nth(at(&json, "content"), 0);
    assert_eq!(text(at(list, "type")), "orderedList");
    assert_eq!(at(at(list, "attrs"), "start").as_u64(), Some(3));
    assert_eq!(tiptap_json_to_markdown(&json), "3. a\n4. b\n\n");
}

#[test]
fn code_block_language_is_first_word_of_info() {
    let json = markdown_to_tiptap_json("```rust extra words\ncode\n```\n");
    let cb = nth(at(&json, "content"), 0);
    assert_eq!(text(at(at(cb, "attrs"), "language")), "rust");
    assert_eq!(tiptap_json_to_markdown(&json), "```rust\ncode\n\n```\n\n");
}

#[test]
fn code_block_info_leading_whitespace_is_skipped() {
    let json = markdown_to_tiptap_json("``` \u{2003}py\nx\n```\n");
    let cb = nth(at(&json, "content"), 0);
    assert_eq!(text(at(at(cb, "attrs"), "language")), "py");
}

#[test]
fn indented_code_block_has_empty_language() {
    let json = markdown_to_tiptap_json("    x = 1\n");
    let cb = nth(at(&json, "content"), 0);
    assert_eq!(text(at(cb, "type")), "codeBlock");
    assert_eq!(text(at(at(cb, "attrs"), "language")), "");
}

#[test]
fn html_block_becomes_nested_paragraph_of_raw_text() {
    let json = markdown_to_tiptap_json("<div>hi</div>\n");
    let outer = nth(at(&json, "content"), 0);
    assert_eq!(text(at(outer, "type")), "paragraph");
    let inner = nth(at(outer, "content"), 0);
    assert_eq!(text(at(inner, "type")), "paragraph");
    let raw = nth(at(inner, "content"), 0);
    assert!(text(at(raw, "text")).starts_with("<div>hi</div>"));
}

#[test]
fn image_becomes_image_node_with_alt() {
    let json = markdown_to_tiptap_json("![the alt](http://x/y.png \"Title\")\n");
    let p = nth(at(&json, "content"), 0);
    let img = nth(at(p, "content"), 0);
    assert_eq!(text(at(img, "type")), "image");
    let attrs = at(img, "attrs");
    assert_eq!(text(at(attrs, "src")), "http://x/y.png");
    assert_eq!(text(at(attrs, "title")), "Title");
    assert_eq!(text(at(attrs, "alt")), "the alt");
    assert!(img.get("content").is_none());
}

#[test]
fn table_round_trip() {
    let json = markdown_to_tiptap_json("| a | b |\n|---|---|\n| 1 | 2 |\n");
    let table = nth(at(&json, "content"), 0);
    assert_eq!(text(at(table, "type")), "table");
    let head = nth(at(table, "content"), 0);
    assert_eq!(text(at(head, "type")), "tableRow");
    assert_eq!(text(at(nth(at(head, "content"), 0), "type")), "tableCell");
    assert_eq!(
        tiptap_json_to_markdown(&json),
        "| a | b |\n| --- | --- |\n| 1 | 2 |\n\n"
    );
}

#[test]
fn nested_marks_wrap_outermost_first() {
    let json = markdown_to_tiptap_json("***both***\n");
    let t = nth(at(nth(at(&json, "content"), 0), "content"), 0);
    let marks = at(t, "marks");
    assert_eq!(text(at(nth(marks, 0), "type")), "italic");
    assert_eq!(text(at(nth(marks, 1), "type")), "bold");
    assert_eq!(tiptap_json_to_markdown(&json), "***both***\n\n");
}

#[test]
fn soft_break_is_a_space_and_hard_break_is_kept() {
    assert_eq!(md("a\nb\n"), "a b\n\n");
    assert_eq!(md("a  \nb\n"), "a  \nb\n\n");
}

#[test]
fn blockquote_prefixes_every_line() {
    assert_eq!(md("> q\n> r\n"), "> q r\n> \n\n");
}

#[test]
fn nested_bullet_list_is_indented_under_its_item() {
    assert_eq!(md("- a\n  - b\n"), "- a\n  - b\n\n\n");
}

#[test]
fn link_with_title_keeps_only_href() {
    let json = markdown_to_tiptap_json("[x](http://u \"t\")\n");
    let t = nth(at(nth(at(&json, "content"), 0), "content"), 0);
    let mark = nth(at(t, "marks"), 0);
    let attrs = at(mark, "attrs");
    assert_eq!(text(at(attrs, "href")), "http://u");
    assert!(attrs.get("title").is_none());
}

#[test]
fn events_are_folded_into_a_document() {
    let events = vec![
        MdEvent::Start(MdTag::Paragraph),
        MdEvent::Start(MdTag::Strong),
        MdEvent::Text("hi".to_string()),
        MdEvent::End(MdTagEnd::Strong),
        MdEvent::SoftBreak,
        MdEvent::Rule,
        MdEvent::End(MdTagEnd::Other),
    ];
    let doc = tiptap_from_events(&events);
    let p = nth(at(&doc, "content"), 0);
    let content = at(p, "content");
    assert_eq!(text(at(nth(content, 0), "text")), "hi");
    assert_eq!(text(at(nth(at(nth(content, 0), "marks"), 0), "type")), "bold");
    assert_eq!(text(at(nth(content, 1), "text")), " ");
    assert!(nth(content, 1).get("marks").is_none());
    assert_eq!(text(at(nth(content, 2), "type")), "horizontalRule");
}

#[test]
fn unmatched_end_drops_the_document_node() {
    // A stray end event closes the document itself; the result is then a
    // fresh empty document.
    let events = vec![MdEvent::End(MdTagEnd::Other)];
    let doc = tiptap_from_events(&events);
    assert_eq!(text(at(&doc, "type")), "doc");
    assert_eq!(at(&doc, "content").as_array().unwrap().len(), 0);
}

#[test]
fn empty_paragraph_renders_as_blank_line() {
    let doc = node("doc", vec![node("paragraph", vec![])]);
    assert_eq!(tiptap_json_to_markdown(&doc), "\n");
}

#[test]
fn unknown_node_renders_its_children() {
    let doc = node("doc", vec![node("callout", vec![para("inside")])]);
    assert_eq!(tiptap_json_to_markdown(&doc), "inside\n\n");
}

#[test]
fn ordered_list_numbers_wrap_at_u64_max() {
    let list = obj(vec![
        ("type", Json::string("orderedList")),
        ("attrs", obj(vec![("start", Json::UInt(u64::MAX))])),
        (
            "content",
            Json::array(vec![node("listItem", vec![para("x")]), node("listItem", vec![para("y")])]),
        ),
    ]);
    let doc = node("doc", vec![list]);
    assert_eq!(
        tiptap_json_to_markdown(&doc),
        "18446744073709551615. x\n0. y\n\n"
    );
}

#[test]
fn image_and_rule_and_hard_break_render() {
    let img = obj(vec![
        ("type", Json::string("image")),
        (
            "attrs",
            obj(vec![("src", Json::string("s.png")), ("alt", Json::string("pic"))]),
        ),
    ]);
    let doc = node(
        "doc",
        vec![img, obj(vec![("type", Json::string("horizontalRule"))])],
    );
    assert_eq!(tiptap_json_to_markdown(&doc), "![pic](s.png)\n\n---\n\n");
    let hb = obj(vec![("type", Json::string("hardBreak"))]);
    assert_eq!(tiptap_json_to_markdown(&hb), "  \n");
}

#[test]
fn marks_render_in_their_syntax() {
    let link = obj(vec![
        ("type", Json::string("link")),
        ("attrs", obj(vec![("href", Json::string("http://h"))])),
    ]);
    let t = obj(vec![
        ("type", Json::string("text")),
        ("text", Json::string("w")),
        (
            "marks",
            Json::array(vec![
                link,
                obj(vec![("type", Json::string("strike"))]),
                obj(vec![("type", Json::string("code"))]),
                obj(vec![("type", Json::string("unknown"))]),
            ]),
        ),
    ]);
    assert_eq!(tiptap_json_to_markdown(&t), "[~~`w`~~](http://h)");
}

#[test]
fn display_converts_only_tiptap_documents() {
    let doc = node("doc", vec![para("hello")]);
    assert_eq!(text_for_display("raw", Some(&doc)), "hello\n\n");
    let other = node("paragraph", vec![plain("x")]);
    assert_eq!(text_for_display("raw", Some(&other)), "raw");
    assert_eq!(text_for_display("# md", None), "# md");
}

#[test]
fn plain_paragraph_round_trip() {
    let events = vec![
        MdEvent::Start(MdTag::Paragraph),
        MdEvent::Text("hello".to_string()),
        MdEvent::End(MdTagEnd::Other),
    ];
    assert_eq!(tiptap_json_to_markdown(&tiptap_from_events(&events)), "hello\n\n");
    assert_eq!(md("hello\n"), "hello\n\n");
}

#[test]
fn plain_heading_round_trip() {
    let events = vec![
        MdEvent::Start(MdTag::Heading(MdHeadingLevel::H2)),
        MdEvent::Text("Sub".to_string()),
        MdEvent::End(MdTagEnd::Other),
    ];
    assert_eq!(tiptap_json_to_markdown(&tiptap_from_events(&events)), "## Sub\n\n");
}
