use basemark_cli::api::{share_report, share_url_of, Api, CollectionAction, HttpMethod};
use basemark_cli::config::{preview_token, Config, ConfigAction, ConfigError, ConfigOutcome};
use basemark_cli::json::Json;

fn empty() -> Config {
    Config { url: None, token: None }
}

fn body_str<'a>(body: &'a Option<Json>, key: &str) -> Option<&'a str> {
    body.as_ref().expect("body").str_field(key)
}

#[test]
fn missing_url_and_token_are_errors_with_instructions() {
    let c = empty();
    match c.url() {
        Err(e) => assert_eq!(e.message(), "URL not configured. Run: basemark config set url <url>"),
        Ok(_) => panic!("expected an error"),
    }
    match c.token() {
        Err(e) => assert_eq!(
            e.message(),
            "Token not configured. Run: basemark config set token <token>"
        ),
        Ok(_) => panic!("expected an error"),
    }
}

#[test]
fn set_then_read_back() {
    let mut c = empty();
    assert!(c.set("url".to_string(), "https://basemark.wiki".to_string()).is_ok());
    assert!(c.set("token".to_string(), "bm_abc123".to_string()).is_ok());
    assert_eq!(c.url().ok(), Some("https://basemark.wiki"));
    assert_eq!(c.token().ok(), Some("bm_abc123"));
    match c.get("url".to_string()) {
        Ok(Some(line)) => assert_eq!(line, "https://basemark.wiki"),
        _ => panic!("expected the url"),
    }
}

#[test]
fn unknown_keys_are_refused() {
    let mut c = empty();
    match c.set("colour".to_string(), "red".to_string()) {
        Err(e) => assert_eq!(e.message(), "Unknown key: colour. Valid: url, token"),
        Ok(()) => panic!("expected an error"),
    }
    assert!(c.url.is_none() && c.token.is_none());
    match c.get("colour".to_string()) {
        Err(e) => assert_eq!(e.message(), "Unknown key: colour"),
        Ok(_) => panic!("expected an error"),
    }
}

#[test]
fn get_without_values() {
    let c = empty();
    match c.get("url".to_string()) {
        Ok(Some(line)) => assert_eq!(line, ""),
        _ => panic!("expected an empty line"),
    }
    assert!(matches!(c.get("token".to_string()), Ok(None)));
}

#[test]
fn token_is_shown_by_its_first_eleven_bytes() {
    assert_eq!(preview_token("bm_abcdefghijklmnop"), "bm_abcdefgh...");
    assert_eq!(preview_token("short"), "short...");
    assert_eq!(preview_token("exactly_11b"), "exactly_11b...");
}

#[test]
fn apply_reports_what_to_do() {
    let mut c = empty();
    match c.apply(ConfigAction::SetValue { key: "url".to_string(), value: "u".to_string() }) {
        Ok(ConfigOutcome::Saved { key }) => assert_eq!(key, "url"),
        _ => panic!("expected a save"),
    }
    assert_eq!(c.url.as_deref(), Some("u"));
    match c.apply(ConfigAction::Get { key: "url".to_string() }) {
        Ok(ConfigOutcome::Print(Some(line))) => assert_eq!(line, "u"),
        _ => panic!("expected a line"),
    }
    assert!(matches!(c.apply(ConfigAction::Show), Ok(ConfigOutcome::ShowAll)));
    assert!(matches!(
        c.apply(ConfigAction::SetValue { key: "x".to_string(), value: "v".to_string() }),
        Err(ConfigError::UnknownSetKey(_))
    ));
}

#[test]
fn base_url_loses_trailing_slashes() {
    let api = Api::new("https://basemark.wiki//", "tok");
    assert_eq!(api.base_url, "https://basemark.wiki");
    assert_eq!(api.token, "tok");
    let req = api.search("architecture");
    assert_eq!(req.url, "https://basemark.wiki/api/documents.search");
    assert!(req.method == HttpMethod::Post);
    assert_eq!(body_str(&req.body, "query"), Some("architecture"));
}

#[test]
fn document_requests() {
    let api = Api::new("https://b.w", "t");
    let create = api.create_document("T", Some("body"), None);
    assert_eq!(create.url, "https://b.w/api/documents.create");
    assert_eq!(body_str(&create.body, "title"), Some("T"));
    assert_eq!(body_str(&create.body, "text"), Some("body"));
    assert!(create.body.as_ref().unwrap().get("collectionId").is_none());

    let md = api.read_document_markdown("abc");
    assert!(md.method == HttpMethod::Get);
    assert_eq!(md.url, "https://b.w/api/documents/abc/export");
    assert!(md.accept_markdown && md.body.is_none());

    let update = api.update_document("abc", None, Some("{}"));
    assert_eq!(update.url, "https://b.w/api/documents.update");
    assert_eq!(body_str(&update.body, "id"), Some("abc"));
    assert!(update.body.as_ref().unwrap().get("title").is_none());
    assert_eq!(body_str(&update.body, "text"), Some("{}"));

    let list = api.list_documents(Some("c1"));
    assert_eq!(body_str(&list.body, "collectionId"), Some("c1"));
    let all = api.list_documents(None);
    assert!(all.body.as_ref().unwrap().as_array().is_none());
    assert!(all.body.as_ref().unwrap().get("collectionId").is_none());

    let info = api.read_document("abc");
    assert_eq!(info.url, "https://b.w/api/documents.info");
    let del = api.delete_document("abc");
    assert_eq!(del.url, "https://b.w/api/documents.delete");
    assert_eq!(body_str(&del.body, "id"), Some("abc"));

    let public = api.update_document_public("abc", true);
    assert!(public.method == HttpMethod::Put);
    assert_eq!(public.url, "https://b.w/api/documents/abc");
    assert!(matches!(public.body.as_ref().unwrap().get("isPublic"), Some(Json::Bool(true))));

    let invite = api.invite_to_document("abc", "a@b.c");
    assert_eq!(invite.url, "https://b.w/api/documents/abc/permissions");
    assert_eq!(body_str(&invite.body, "email"), Some("a@b.c"));
}

#[test]
fn collection_requests_and_confirmation() {
    let api = Api::new("https://b.w/", "t");
    let list = api.collection_request(&CollectionAction::List).unwrap();
    assert!(list.method == HttpMethod::Get);
    assert_eq!(list.url, "https://b.w/api/collections");
    let create = api
        .collection_request(&CollectionAction::Create { name: "Engineering".to_string() })
        .unwrap();
    assert!(create.method == HttpMethod::Post);
    assert_eq!(body_str(&create.body, "name"), Some("Engineering"));
    assert!(api
        .collection_request(&CollectionAction::Delete { id: "c9".to_string(), force: false })
        .is_none());
    let del = api
        .collection_request(&CollectionAction::Delete { id: "c9".to_string(), force: true })
        .unwrap();
    assert!(del.method == HttpMethod::Delete);
    assert_eq!(del.url, "https://b.w/api/collections/c9");
}

#[test]
fn share_steps_in_order() {
    let api = Api::new("https://b.w", "t");
    let steps = api.share_steps("d1", true, true, Some("x@y.z"));
    assert_eq!(steps.len(), 3);
    assert_eq!(steps[0].done, "Document is now public");
    assert!(steps[0].prints_document);
    assert_eq!(steps[1].done, "Document is now private");
    assert_eq!(steps[2].done, "Invited x@y.z");
    assert_eq!(steps[2].request.url, "https://b.w/api/documents/d1/permissions");
    assert!(api.share_steps("d1", false, false, None).is_empty());
    assert_eq!(share_url_of("https://b.w/", "d1"), "https://b.w//share/d1");
}

#[test]
fn share_doc_tool_steps_and_report() {
    let api = Api::new("https://b.w", "t");
    let steps = api.share_doc_steps("d1", Some(false), Some("x@y.z"));
    assert_eq!(steps.len(), 2);
    assert_eq!(steps[0].error_prefix, "Error setting visibility: ");
    assert_eq!(steps[1].error_prefix, "Error inviting user: ");
    let done: Vec<String> = steps.into_iter().map(|s| s.done).collect();
    assert_eq!(
        share_report(&done).ok().unwrap(),
        "Document is now private\nInvited x@y.z"
    );
    assert_eq!(
        share_report(&Vec::new()).err().unwrap(),
        "No share action specified. Provide is_public and/or invite_email."
    );
}

#[test]
fn token_preview_cuts_at_a_byte_boundary() {
    // 3 ASCII bytes and 2-byte characters: byte 11 falls between characters.
    assert_eq!(preview_token("abcééééé"), "abcéééé...");
}
