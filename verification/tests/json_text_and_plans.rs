use basemark_cli::api::{delete_request, share_step_outcome, Api, HttpMethod};
use basemark_cli::codec::tiptap_text_of_markdown;
use basemark_cli::config::{Config, ConfigError};
use basemark_cli::json::{str_eq, Json, Member};
use basemark_cli::render::{reply_display, tiptap_json_to_markdown};
use basemark_cli::text::is_white_space;
use serde_json::Value;

fn parsed(text: &str) -> Value {
    serde_json::from_str(text).expect("valid JSON")
}

fn configured() -> Config {
    Config { url: Some("https://basemark.wiki/".to_string()), token: Some("bm_t".to_string()) }
}

#[test]
fn reply_holding_a_tiptap_document_is_shown_as_markdown() {
    let reply = r#"{"type":"doc","content":[{"type":"heading","attrs":{"level":2},"content":[{"type":"text","text":"Title"}]},{"type":"paragraph","content":[{"type":"text","text":"Body"}]}]}"#;
    assert_eq!(reply_display(reply), "## Title\n\nBody\n\n");
}

#[test]
fn reply_that_is_markdown_is_shown_as_it_is() {
    assert_eq!(reply_display("# Already markdown\n"), "# Already markdown\n");
}

#[test]
fn reply_that_is_json_but_not_a_document_is_shown_as_it_is() {
    let reply = r#"{"type":"paragraph","content":[]}"#;
    assert_eq!(reply_display(reply), reply);
    assert_eq!(reply_display("[1, 2]"), "[1, 2]");
}

#[test]
fn markdown_becomes_tiptap_json_text() {
    let sent = tiptap_text_of_markdown("# Hi\n\nSome **bold** text\n");
    let expected = parsed(
        r#"{"type":"doc","content":[
            {"type":"heading","attrs":{"level":1},"content":[{"type":"text","text":"Hi"}]},
            {"type":"paragraph","content":[
                {"type":"text","text":"Some "},
                {"type":"text","text":"bold","marks":[{"type":"bold"}]},
                {"type":"text","text":" text"}]}]}"#,
    );
    assert_eq!(parsed(&sent), expected);
    assert!(!sent.contains('\n'));
}

#[test]
fn request_body_is_sent_as_json_text() {
    let api = Api::new("https://basemark.wiki", "bm_t");
    let req = api.create_document("Note", Some("text \"quoted\""), None);
    let body = req.body_text().expect("a body");
    assert_eq!(parsed(&body), parsed(r#"{"title":"Note","text":"text \"quoted\""}"#));
    assert_eq!(api.list_collections().body_text(), None);
    let vis = api.update_document_public("d1", true).body_text().expect("a body");
    assert_eq!(parsed(&vis), parsed(r#"{"isPublic":true}"#));
}

#[test]
fn document_delete_needs_force() {
    match delete_request(&Config { url: None, token: None }, "d1", false) {
        Ok(None) => {}
        _ => panic!("an unconfirmed delete sends nothing, whatever the configuration"),
    }
    match delete_request(&configured(), "d1", false) {
        Ok(None) => {}
        _ => panic!("an unconfirmed delete sends nothing"),
    }
}

#[test]
fn confirmed_document_delete_sends_the_deletion() {
    match delete_request(&configured(), "d1", true) {
        Ok(Some(req)) => {
            assert!(req.method == HttpMethod::Post);
            assert_eq!(req.url, "https://basemark.wiki/api/documents.delete");
            assert_eq!(req.body.as_ref().and_then(|b| b.str_field("id")), Some("d1"));
        }
        _ => panic!("expected the deletion"),
    }
}

#[test]
fn confirmed_delete_without_configuration_is_an_error() {
    match delete_request(&Config { url: None, token: Some("t".to_string()) }, "d1", true) {
        Err(ConfigError::MissingUrl) => {}
        _ => panic!("expected the missing URL"),
    }
    match delete_request(&Config { url: Some("u".to_string()), token: None }, "d1", true) {
        Err(ConfigError::MissingToken) => {}
        _ => panic!("expected the missing token"),
    }
}

#[test]
fn api_of_a_configuration() {
    match Api::from_config(&configured()) {
        Ok(api) => {
            assert_eq!(api.base_url, "https://basemark.wiki");
            assert_eq!(api.token, "bm_t");
        }
        Err(_) => panic!("expected an API"),
    }
    match Api::from_config(&Config { url: None, token: None }) {
        Err(ConfigError::MissingUrl) => {}
        _ => panic!("the URL is checked first"),
    }
}

#[test]
fn share_step_reports_success_or_stops_with_its_error() {
    let api = Api::new("https://basemark.wiki", "bm_t");
    let steps = api.share_doc_steps("d1", Some(true), Some("a@b.c"));
    assert_eq!(share_step_outcome(&steps[0], Ok(())), Ok("Document is now public".to_string()));
    assert_eq!(
        share_step_outcome(&steps[1], Err("403 Forbidden".to_string())),
        Err("Error inviting user: 403 Forbidden".to_string())
    );
    assert_eq!(
        share_step_outcome(&steps[0], Err("timeout".to_string())),
        Err("Error setting visibility: timeout".to_string())
    );
}

#[test]
fn unknown_marks_add_nothing() {
    let mark = |t: &str| Json::object(vec![Member::new("type", Json::string(t))]);
    let text = Json::object(vec![
        Member::new("type", Json::string("text")),
        Member::new("text", Json::string("hi")),
        Member::new("marks", Json::array(vec![mark("underline"), mark("bold"), mark("highlight")])),
    ]);
    let para = Json::object(vec![
        Member::new("type", Json::string("paragraph")),
        Member::new("content", Json::array(vec![text])),
    ]);
    assert_eq!(tiptap_json_to_markdown(&para), "**hi**\n\n");
    let only_unknown = Json::object(vec![
        Member::new("type", Json::string("text")),
        Member::new("text", Json::string("plain")),
        Member::new("marks", Json::array(vec![mark("underline")])),
    ]);
    assert_eq!(tiptap_json_to_markdown(&only_unknown), "plain");
}

#[test]
fn whitespace_and_string_equality() {
    for c in ['\t', '\n', '\r', ' ', '\u{85}', '\u{a0}', '\u{2003}', '\u{3000}'] {
        assert!(is_white_space(c), "{c:?}");
        assert_eq!(is_white_space(c), c.is_whitespace());
    }
    for c in ['a', '_', '\u{200b}', '\u{feff}'] {
        assert!(!is_white_space(c), "{c:?}");
        assert_eq!(is_white_space(c), c.is_whitespace());
    }
    for u in 0..=0x10FFFFu32 {
        if let Some(c) = char::from_u32(u) {
            assert_eq!(is_white_space(c), c.is_whitespace(), "{u:#x}");
        }
    }
    assert!(str_eq("héllo", "héllo"));
    assert!(!str_eq("héllo", "hello"));
    assert!(!str_eq("doc", "docs"));
}
