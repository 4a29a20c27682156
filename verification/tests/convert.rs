use basemark_cli::json::{Json, Member};
use basemark_cli::markdown::markdown_to_tiptap_json;
use basemark_cli::render::tiptap_json_to_markdown;

/// `j[key]`, where the key must be present.
fn at<'a>(j: &'a Json, key: &str) -> &'a Json {
    j.get(key).expect("key should be present")
}

/// `j[i]`, where `j` must be an array long enough.
fn nth(j: &Json, i: usize) -> &Json {
    &j.as_array().expect("should be an array")[i]
}

fn text(j: &Json) -> &str {
    j.as_str().expect("should be a string")
}

fn content(j: &Json) -> &Vec<Json> {
    at(j, "content").as_array().expect("content should be an array")
}

/// The child of `para` whose `"text"` is `t`.
fn find_text<'a>(para: &'a Json, t: &str) -> Option<&'a Json> {
    content(para)
        .iter()
        .find(|n| n.str_field("text") == Some(t))
}

#[test]
fn round_trip_heading() {
    let md = "# Hello World\n";
    let json = markdown_to_tiptap_json(md);
    assert_eq!(text(at(&json, "type")), "doc");
    let first = nth(at(&json, "content"), 0);
    assert_eq!(text(at(first, "type")), "heading");
    assert_eq!(at(at(first, "attrs"), "level").as_u64(), Some(1));
    assert_eq!(text(at(nth(at(first, "content"), 0), "text")), "Hello World");

    let back = tiptap_json_to_markdown(&json);
    assert!(back.contains("# Hello World"));
}

#[test]
fn round_trip_paragraph_with_bold() {
    let md = "Hello **bold** world\n";
    let json = markdown_to_tiptap_json(md);
    let para = nth(at(&json, "content"), 0);
    assert_eq!(text(at(para, "type")), "paragraph");

    let bold_node = find_text(para, "bold").expect("should have bold text node");
    assert_eq!(text(at(nth(at(bold_node, "marks"), 0), "type")), "bold");

    let back = tiptap_json_to_markdown(&json);
    assert!(back.contains("**bold**"));
}

#[test]
fn round_trip_code_block() {
    let md = "```rust\nfn main() {}\n```\n";
    let json = markdown_to_tiptap_json(md);
    let cb = nth(at(&json, "content"), 0);
    assert_eq!(text(at(cb, "type")), "codeBlock");
    assert_eq!(text(at(at(cb, "attrs"), "language")), "rust");

    let back = tiptap_json_to_markdown(&json);
    assert!(back.contains("```rust"));
    assert!(back.contains("fn main() {}"));
}

#[test]
fn round_trip_bullet_list() {
    let md = "- Item 1\n- Item 2\n";
    let json = markdown_to_tiptap_json(md);
    let list = nth(at(&json, "content"), 0);
    assert_eq!(text(at(list, "type")), "bulletList");
    assert_eq!(content(list).len(), 2);

    let back = tiptap_json_to_markdown(&json);
    assert!(back.contains("- Item 1"));
    assert!(back.contains("- Item 2"));
}

#[test]
fn round_trip_ordered_list() {
    let md = "1. First\n2. Second\n";
    let json = markdown_to_tiptap_json(md);
    let list = nth(at(&json, "content"), 0);
    assert_eq!(text(at(list, "type")), "orderedList");

    let back = tiptap_json_to_markdown(&json);
    assert!(back.contains("1. First"));
    assert!(back.contains("2. Second"));
}

#[test]
fn round_trip_blockquote() {
    let md = "> quoted text\n";
    let json = markdown_to_tiptap_json(md);
    let bq = nth(at(&json, "content"), 0);
    assert_eq!(text(at(bq, "type")), "blockquote");

    let back = tiptap_json_to_markdown(&json);
    assert!(back.contains("> quoted text"));
}

#[test]
fn round_trip_horizontal_rule() {
    let md = "---\n";
    let json = markdown_to_tiptap_json(md);
    let hr = nth(at(&json, "content"), 0);
    assert_eq!(text(at(hr, "type")), "horizontalRule");

    let back = tiptap_json_to_markdown(&json);
    assert!(back.contains("---"));
}

#[test]
fn inline_code() {
    let md = "Use `println!` here\n";
    let json = markdown_to_tiptap_json(md);
    let para = nth(at(&json, "content"), 0);
    let code_node = find_text(para, "println!").expect("should have code text node");
    assert_eq!(text(at(nth(at(code_node, "marks"), 0), "type")), "code");

    let back = tiptap_json_to_markdown(&json);
    assert!(back.contains("`println!`"));
}

#[test]
fn link_mark() {
    let md = "[click here](https://example.com)\n";
    let json = markdown_to_tiptap_json(md);
    let para = nth(at(&json, "content"), 0);
    let link_node = find_text(para, "click here").expect("should have link text node");
    let mark = nth(at(link_node, "marks"), 0);
    assert_eq!(text(at(mark, "type")), "link");
    assert_eq!(text(at(at(mark, "attrs"), "href")), "https://example.com");

    let back = tiptap_json_to_markdown(&json);
    assert!(back.contains("[click here](https://example.com)"));
}

#[test]
fn strikethrough() {
    let md = "~~deleted~~\n";
    let json = markdown_to_tiptap_json(md);
    let para = nth(at(&json, "content"), 0);
    let strike_node = find_text(para, "deleted").expect("should have strike text node");
    assert_eq!(text(at(nth(at(strike_node, "marks"), 0), "type")), "strike");

    let back = tiptap_json_to_markdown(&json);
    assert!(back.contains("~~deleted~~"));
}

#[test]
fn complex_document() {
    let md = "\
# Title

Some **bold** and *italic* text.

- Item 1
- Item 2

```python
print('hello')
```

---

> A quote
";
    let json = markdown_to_tiptap_json(md);
    assert_eq!(text(at(&json, "type")), "doc");

    let back = tiptap_json_to_markdown(&json);
    assert!(back.contains("# Title"));
    assert!(back.contains("**bold**"));
    assert!(back.contains("*italic*"));
    assert!(back.contains("- Item 1"));
    assert!(back.contains("```python"));
    assert!(back.contains("print('hello')"));
    assert!(back.contains("---"));
    assert!(back.contains("> A quote"));
}

fn obj(members: Vec<(&str, Json)>) -> Json {
    Json::object(members.into_iter().map(|(k, v)| Member::new(k, v)).collect())
}

fn text_node(t: &str, marks: Option<Vec<Json>>) -> Json {
    let mut ms = vec![("type", Json::string("text")), ("text", Json::string(t))];
    if let Some(m) = marks {
        ms.push(("marks", Json::array(m)));
    }
    obj(ms)
}

#[test]
fn tiptap_json_to_md_standalone() {
    let doc = obj(vec![
        ("type", Json::string("doc")),
        (
            "content",
            Json::array(vec![
                obj(vec![
                    ("type", Json::string("heading")),
                    ("attrs", obj(vec![("level", Json::UInt(2))])),
                    ("content", Json::array(vec![text_node("Section", None)])),
                ]),
                obj(vec![
                    ("type", Json::string("paragraph")),
                    (
                        "content",
                        Json::array(vec![
                            text_node("Normal ", None),
                            text_node("bold", Some(vec![obj(vec![("type", Json::string("bold"))])])),
                        ]),
                    ),
                ]),
            ]),
        ),
    ]);

    let md = tiptap_json_to_markdown(&doc);
    assert!(md.contains("## Section"));
    assert!(md.contains("Normal **bold**"));
}

