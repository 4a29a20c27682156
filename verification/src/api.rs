//! The Basemark REST API: the request that each operation sends (method,
//! URL, JSON body, accepted format), and the plans of the commands that send
//! several requests in turn.
use vstd::prelude::*;
use crate::json::{Json, JsonV, Member, MemberV, member_views, str_member, members_lookup, lemma_unique_key, lemma_absent_key};
use crate::codec::{json_text, write_json};
use crate::config::{Config, ConfigError};
use crate::text::{chars_of, push_str, push_trimmed, string_of, trim_end_char};

verus! {

/// An HTTP method.
#[derive(PartialEq, Eq, Structural)]
pub enum HttpMethod {
    Get,
    Post,
    Put,
    Delete,
}

/// One request to the API.  The caller sends it with the bearer token.
pub struct ApiRequest {
    pub method: HttpMethod,
    pub url: String,
    /// The JSON body, if the request has one.
    pub body: Option<Json>,
    /// Whether the request asks for Markdown (`Accept: text/markdown`).
    pub accept_markdown: bool,
}

/// The view of a request.
pub struct ApiRequestV {
    pub method: HttpMethod,
    pub url: Seq<char>,
    pub body: Option<JsonV>,
    pub accept_markdown: bool,
}

impl View for ApiRequest {
    type V = ApiRequestV;

    open spec fn view(&self) -> ApiRequestV {
        ApiRequestV {
            method: self.method,
            url: self.url@,
            body: match self.body {
                Some(b) => Some(b@),
                None => None,
            },
            accept_markdown: self.accept_markdown,
        }
    }
}

impl ApiRequest {
    /// The JSON text of the body, as it is sent.
    pub fn body_text(&self) -> (t: Option<String>)
        ensures
            match (self.body, t) {
                (Some(b), Some(s)) => s@ == json_text(b@),
                (None, None) => true,
                _ => false,
            },
    {
        match &self.body {
            Some(b) => Some(write_json(b)),
            None => None,
        }
    }
}

/// Where the API lives and how to authenticate to it.
pub struct Api {
    /// The base URL, without trailing slashes.
    pub base_url: String,
    pub token: String,
}

/// A search hit.
pub struct SearchResult {
    pub id: String,
    pub title: String,
    pub snippet: String,
}

/// A `collections` subcommand.
pub enum CollectionAction {
    /// List all collections.
    List,
    /// Create a new collection.
    Create { name: String },
    /// Delete a collection.
    Delete { id: String, force: bool },
}

// ---------------------------------------------------------------------------
// The specification of the requests
// ---------------------------------------------------------------------------
pub open spec fn opt_view(o: Option<&str>) -> Option<Seq<char>> {
    match o {
        Some(s) => Some(s@),
        None => None,
    }
}

/// `{key: value}` appended to `ms` when `value` is present.
pub open spec fn with_opt(ms: Seq<MemberV>, key: Seq<char>, value: Option<Seq<char>>) -> Seq<
    MemberV,
> {
    match value {
        Some(v) => ms.push(str_member(key, v)),
        None => ms,
    }
}

pub open spec fn request(
    method: HttpMethod,
    url: Seq<char>,
    body: Option<JsonV>,
    accept_markdown: bool,
) -> ApiRequestV {
    ApiRequestV { method, url, body, accept_markdown }
}

/// A POST with a JSON object body.
pub open spec fn post(url: Seq<char>, ms: Seq<MemberV>) -> ApiRequestV {
    request(HttpMethod::Post, url, Some(JsonV::Object(ms)), false)
}

pub open spec fn create_document_request(
    base: Seq<char>,
    title: Seq<char>,
    content: Option<Seq<char>>,
    collection_id: Option<Seq<char>>,
) -> ApiRequestV {
    post(
        base + "/api/documents.create"@,
        with_opt(
            with_opt(seq![str_member("title"@, title)], "text"@, content),
            "collectionId"@,
            collection_id,
        ),
    )
}

pub open spec fn read_document_request(base: Seq<char>, id: Seq<char>) -> ApiRequestV {
    post(base + "/api/documents.info"@, seq![str_member("id"@, id)])
}

pub open spec fn read_markdown_request(base: Seq<char>, id: Seq<char>) -> ApiRequestV {
    request(HttpMethod::Get, base + "/api/documents/"@ + id + "/export"@, None, true)
}

pub open spec fn update_document_request(
    base: Seq<char>,
    id: Seq<char>,
    title: Option<Seq<char>>,
    content: Option<Seq<char>>,
) -> ApiRequestV {
    post(
        base + "/api/documents.update"@,
        with_opt(with_opt(seq![str_member("id"@, id)], "title"@, title), "text"@, content),
    )
}

pub open spec fn delete_document_request(base: Seq<char>, id: Seq<char>) -> ApiRequestV {
    post(base + "/api/documents.delete"@, seq![str_member("id"@, id)])
}

pub open spec fn list_documents_request(
    base: Seq<char>,
    collection_id: Option<Seq<char>>,
) -> ApiRequestV {
    post(base + "/api/documents.list"@, with_opt(seq![], "collectionId"@, collection_id))
}

pub open spec fn search_request(base: Seq<char>, query: Seq<char>) -> ApiRequestV {
    post(base + "/api/documents.search"@, seq![str_member("query"@, query)])
}

pub open spec fn list_collections_request(base: Seq<char>) -> ApiRequestV {
    request(HttpMethod::Get, base + "/api/collections"@, None, false)
}

pub open spec fn create_collection_request(base: Seq<char>, name: Seq<char>) -> ApiRequestV {
    post(base + "/api/collections"@, seq![str_member("name"@, name)])
}

pub open spec fn delete_collection_request(base: Seq<char>, id: Seq<char>) -> ApiRequestV {
    request(HttpMethod::Delete, base + "/api/collections/"@ + id, None, false)
}

pub open spec fn update_public_request(
    base: Seq<char>,
    id: Seq<char>,
    is_public: bool,
) -> ApiRequestV {
    request(
        HttpMethod::Put,
        base + "/api/documents/"@ + id,
        Some(JsonV::Object(seq![MemberV { key: "isPublic"@, value: JsonV::Bool(is_public) }])),
        false,
    )
}

pub open spec fn invite_request(base: Seq<char>, doc_id: Seq<char>, email: Seq<char>) -> ApiRequestV {
    post(base + "/api/documents/"@ + doc_id + "/permissions"@, seq![str_member("email"@, email)])
}

// ---------------------------------------------------------------------------
// The requests
// ---------------------------------------------------------------------------
/// `a + b + c`, as a string.
fn concat3(a: &str, b: &str, c: &str) -> (s: String)
    ensures
        s@ == a@ + b@ + c@,
{
    let mut v = chars_of(a);
    push_str(&mut v, b);
    push_str(&mut v, c);
    assert(v@ =~= a@ + b@ + c@);
    string_of(&v)
}

/// An object body from members.
fn body(ms: Vec<Member>) -> (b: Option<Json>)
    ensures
        b matches Some(j) && j@ == JsonV::Object(member_views(ms@)),
{
    Some(Json::object(ms))
}

fn push_opt(ms: &mut Vec<Member>, key: &str, value: Option<&str>)
    ensures
        member_views(final(ms)@) == with_opt(member_views(old(ms)@), key@, opt_view(value)),
{
    let ghost before = member_views(ms@);
    match value {
        Some(v) => {
            ms.push(Member::new(key, Json::string(v)));
            assert(member_views(ms@) =~= before.push(str_member(key@, v@)));
        },
        None => {},
    }
}

fn one(key: &str, value: &str) -> (ms: Vec<Member>)
    ensures
        member_views(ms@) == seq![str_member(key@, value@)],
{
    let mut ms: Vec<Member> = Vec::new();
    ms.push(Member::new(key, Json::string(value)));
    assert(member_views(ms@) =~= seq![str_member(key@, value@)]);
    ms
}

impl Api {
    /// The API at `url` (trailing slashes removed), authenticated by `token`.
    pub fn new(url: &str, token: &str) -> (a: Api)
        ensures
            a.base_url@ == trim_end_char(url@, '/'),
            a.base_url@.len() > 0 ==> a.base_url@.last() != '/',
            url@ == a.base_url@ + crate::text::repeat('/', (url@.len() - a.base_url@.len()) as nat),
            a.token@ == token@,
    {
        proof {
            crate::text::lemma_trim_end_char(url@, '/');
            crate::text::lemma_trim_end_char_splits(url@, '/');
        }
        let mut v: Vec<char> = Vec::new();
        push_trimmed(&mut v, &chars_of(url), '/');
        Api { base_url: string_of(&v), token: token.to_owned() }
    }

    /// The API of a configuration: its URL (trailing slashes removed) and its
    /// token, or the error for the first of the two that is missing.
    pub fn from_config(config: &Config) -> (r: Result<Api, ConfigError>)
        ensures
            match (config.url, config.token) {
                (None, _) => r matches Err(ConfigError::MissingUrl),
                (Some(_), None) => r matches Err(ConfigError::MissingToken),
                (Some(u), Some(t)) => r matches Ok(a) && a.base_url@ == trim_end_char(u@, '/')
                    && a.token@ == t@,
            },
    {
        let url = match config.url() {
            Ok(u) => u,
            Err(e) => return Err(e),
        };
        let token = match config.token() {
            Ok(t) => t,
            Err(e) => return Err(e),
        };
        Ok(Api::new(url, token))
    }

    /// Create a new document.
    pub fn create_document(
        &self,
        title: &str,
        content: Option<&str>,
        collection_id: Option<&str>,
    ) -> (r: ApiRequest)
        ensures
            r@ == create_document_request(
                self.base_url@,
                title@,
                opt_view(content),
                opt_view(collection_id),
            ),
    {
        let mut ms = one("title", title);
        push_opt(&mut ms, "text", content);
        push_opt(&mut ms, "collectionId", collection_id);
        let url = concat3(self.base_url.as_str(), "/api/documents.create", "");
        proof {
            reveal_strlit("");
        }
        assert(url@ =~= self.base_url@ + "/api/documents.create"@);
        ApiRequest { method: HttpMethod::Post, url, body: body(ms), accept_markdown: false }
    }

    /// Retrieve a document by ID (JSON).
    pub fn read_document(&self, id: &str) -> (r: ApiRequest)
        ensures
            r@ == read_document_request(self.base_url@, id@),
    {
        let url = concat3(self.base_url.as_str(), "/api/documents.info", "");
        proof {
            reveal_strlit("");
        }
        assert(url@ =~= self.base_url@ + "/api/documents.info"@);
        ApiRequest {
            method: HttpMethod::Post,
            url,
            body: body(one("id", id)),
            accept_markdown: false,
        }
    }

    /// Retrieve a document's content as Markdown text.
    pub fn read_document_markdown(&self, id: &str) -> (r: ApiRequest)
        ensures
            r@ == read_markdown_request(self.base_url@, id@),
    {
        let mut v = chars_of(self.base_url.as_str());
        push_str(&mut v, "/api/documents/");
        push_str(&mut v, id);
        push_str(&mut v, "/export");
        assert(v@ =~= self.base_url@ + "/api/documents/"@ + id@ + "/export"@);
        ApiRequest { method: HttpMethod::Get, url: string_of(&v), body: None, accept_markdown: true }
    }

    /// Update a document's title and/or content.
    pub fn update_document(&self, id: &str, title: Option<&str>, content: Option<&str>) -> (r:
        ApiRequest)
        ensures
            r@ == update_document_request(
                self.base_url@,
                id@,
                opt_view(title),
                opt_view(content),
            ),
    {
        let mut ms = one("id", id);
        push_opt(&mut ms, "title", title);
        push_opt(&mut ms, "text", content);
        let url = concat3(self.base_url.as_str(), "/api/documents.update", "");
        proof {
            reveal_strlit("");
        }
        assert(url@ =~= self.base_url@ + "/api/documents.update"@);
        ApiRequest { method: HttpMethod::Post, url, body: body(ms), accept_markdown: false }
    }

    /// Delete a document by ID.
    pub fn delete_document(&self, id: &str) -> (r: ApiRequest)
        ensures
            r@ == delete_document_request(self.base_url@, id@),
    {
        let url = concat3(self.base_url.as_str(), "/api/documents.delete", "");
        proof {
            reveal_strlit("");
        }
        assert(url@ =~= self.base_url@ + "/api/documents.delete"@);
        ApiRequest {
            method: HttpMethod::Post,
            url,
            body: body(one("id", id)),
            accept_markdown: false,
        }
    }

    /// List documents, optionally filtered by collection.
    pub fn list_documents(&self, collection_id: Option<&str>) -> (r: ApiRequest)
        ensures
            r@ == list_documents_request(self.base_url@, opt_view(collection_id)),
    {
        let mut ms: Vec<Member> = Vec::new();
        assert(member_views(ms@) =~= Seq::<MemberV>::empty());
        push_opt(&mut ms, "collectionId", collection_id);
        let url = concat3(self.base_url.as_str(), "/api/documents.list", "");
        proof {
            reveal_strlit("");
        }
        assert(url@ =~= self.base_url@ + "/api/documents.list"@);
        ApiRequest { method: HttpMethod::Post, url, body: body(ms), accept_markdown: false }
    }

    /// Full-text search across documents.
    pub fn search(&self, query: &str) -> (r: ApiRequest)
        ensures
            r@ == search_request(self.base_url@, query@),
    {
        let url = concat3(self.base_url.as_str(), "/api/documents.search", "");
        proof {
            reveal_strlit("");
        }
        assert(url@ =~= self.base_url@ + "/api/documents.search"@);
        ApiRequest {
            method: HttpMethod::Post,
            url,
            body: body(one("query", query)),
            accept_markdown: false,
        }
    }

    /// List all collections.
    pub fn list_collections(&self) -> (r: ApiRequest)
        ensures
            r@ == list_collections_request(self.base_url@),
    {
        let url = concat3(self.base_url.as_str(), "/api/collections", "");
        proof {
            reveal_strlit("");
        }
        assert(url@ =~= self.base_url@ + "/api/collections"@);
        ApiRequest { method: HttpMethod::Get, url, body: None, accept_markdown: false }
    }

    /// Create a new collection.
    pub fn create_collection(&self, name: &str) -> (r: ApiRequest)
        ensures
            r@ == create_collection_request(self.base_url@, name@),
    {
        let url = concat3(self.base_url.as_str(), "/api/collections", "");
        proof {
            reveal_strlit("");
        }
        assert(url@ =~= self.base_url@ + "/api/collections"@);
        ApiRequest {
            method: HttpMethod::Post,
            url,
            body: body(one("name", name)),
            accept_markdown: false,
        }
    }

    /// Delete a collection by ID.
    pub fn delete_collection(&self, id: &str) -> (r: ApiRequest)
        ensures
            r@ == delete_collection_request(self.base_url@, id@),
    {
        let url = concat3(self.base_url.as_str(), "/api/collections/", id);
        ApiRequest { method: HttpMethod::Delete, url, body: None, accept_markdown: false }
    }

    /// Set a document's public/private visibility.
    pub fn update_document_public(&self, id: &str, is_public: bool) -> (r: ApiRequest)
        ensures
            r@ == update_public_request(self.base_url@, id@, is_public),
    {
        let url = concat3(self.base_url.as_str(), "/api/documents/", id);
        let mut ms: Vec<Member> = Vec::new();
        ms.push(Member::new("isPublic", Json::Bool(is_public)));
        assert(member_views(ms@) =~= seq![
            MemberV { key: "isPublic"@, value: JsonV::Bool(is_public) },
        ]);
        ApiRequest { method: HttpMethod::Put, url, body: body(ms), accept_markdown: false }
    }

    /// Invite a user by email to a document.
    pub fn invite_to_document(&self, doc_id: &str, email: &str) -> (r: ApiRequest)
        ensures
            r@ == invite_request(self.base_url@, doc_id@, email@),
    {
        let mut v = chars_of(self.base_url.as_str());
        push_str(&mut v, "/api/documents/");
        push_str(&mut v, doc_id);
        push_str(&mut v, "/permissions");
        assert(v@ =~= self.base_url@ + "/api/documents/"@ + doc_id@ + "/permissions"@);
        ApiRequest {
            method: HttpMethod::Post,
            url: string_of(&v),
            body: body(one("email", email)),
            accept_markdown: false,
        }
    }
}

// ---------------------------------------------------------------------------
// Commands that decide which requests to send
// ---------------------------------------------------------------------------
/// The request of a `collections` subcommand; a deletion without `force` is
/// not sent (the user is asked to confirm with `--force`).
pub open spec fn collection_request(base: Seq<char>, action: CollectionAction) -> Option<ApiRequestV> {
    match action {
        CollectionAction::List => Some(list_collections_request(base)),
        CollectionAction::Create { name } => Some(create_collection_request(base, name@)),
        CollectionAction::Delete { id, force } => if force {
            Some(delete_collection_request(base, id@))
        } else {
            None
        },
    }
}

/// One request of a sharing command, with what to report.
pub struct ShareStep {
    pub request: ApiRequest,
    /// Reported when the request succeeds.
    pub done: String,
    /// Put before the error when the request fails (MCP tool results).
    pub error_prefix: String,
    /// Whether the document returned by the request is printed (CLI).
    pub prints_document: bool,
}

/// The view of a sharing step.
pub struct ShareStepV {
    pub request: ApiRequestV,
    pub done: Seq<char>,
    pub error_prefix: Seq<char>,
    pub prints_document: bool,
}

impl View for ShareStep {
    type V = ShareStepV;

    open spec fn view(&self) -> ShareStepV {
        ShareStepV {
            request: self.request@,
            done: self.done@,
            error_prefix: self.error_prefix@,
            prints_document: self.prints_document,
        }
    }
}

pub open spec fn step_views(s: Seq<ShareStep>) -> Seq<ShareStepV> {
    Seq::new(s.len(), |i: int| s[i]@)
}

/// Making a document public or private.
pub open spec fn visibility_step(base: Seq<char>, id: Seq<char>, is_public: bool) -> ShareStepV {
    ShareStepV {
        request: update_public_request(base, id, is_public),
        done: "Document is now "@ + (if is_public {
            "public"@
        } else {
            "private"@
        }),
        error_prefix: "Error setting visibility: "@,
        prints_document: true,
    }
}

/// Inviting a user by email.
pub open spec fn invite_step(base: Seq<char>, id: Seq<char>, email: Seq<char>) -> ShareStepV {
    ShareStepV {
        request: invite_request(base, id, email),
        done: "Invited "@ + email,
        error_prefix: "Error inviting user: "@,
        prints_document: false,
    }
}

/// The steps of `share`: public, then private, then the invitation, each
/// when asked for.
pub open spec fn cli_share_steps(
    base: Seq<char>,
    id: Seq<char>,
    public: bool,
    private: bool,
    invite: Option<Seq<char>>,
) -> Seq<ShareStepV> {
    (if public {
        seq![visibility_step(base, id, true)]
    } else {
        seq![]
    }) + (if private {
        seq![visibility_step(base, id, false)]
    } else {
        seq![]
    }) + match invite {
        Some(email) => seq![invite_step(base, id, email)],
        None => seq![],
    }
}

/// The steps of the `share_doc` tool: the visibility, then the invitation,
/// each when given.
pub open spec fn mcp_share_steps(
    base: Seq<char>,
    id: Seq<char>,
    is_public: Option<bool>,
    invite: Option<Seq<char>>,
) -> Seq<ShareStepV> {
    (match is_public {
        Some(p) => seq![visibility_step(base, id, p)],
        None => seq![],
    }) + match invite {
        Some(email) => seq![invite_step(base, id, email)],
        None => seq![],
    }
}

/// The share URL of a document.
pub open spec fn share_url(url: Seq<char>, id: Seq<char>) -> Seq<char> {
    url + "/share/"@ + id
}

/// `parts` joined by `sep`.
pub open spec fn join(parts: Seq<Seq<char>>, sep: Seq<char>) -> Seq<char>
    decreases parts.len(),
{
    if parts.len() == 0 {
        seq![]
    } else if parts.len() == 1 {
        parts[0]
    } else {
        join(parts.drop_last(), sep) + sep + parts.last()
    }
}

/// The result of the `share_doc` tool after all its steps succeeded, given
/// what they reported: an error when nothing was asked for, else the reports,
/// one per line.
pub open spec fn share_report_text(done: Seq<Seq<char>>) -> Result<Seq<char>, Seq<char>> {
    if done.len() == 0 {
        Err("No share action specified. Provide is_public and/or invite_email."@)
    } else {
        Ok(join(done, "\n"@))
    }
}

fn visibility(api: &Api, id: &str, is_public: bool) -> (s: ShareStep)
    ensures
        s@ == visibility_step(api.base_url@, id@, is_public),
{
    let done = if is_public {
        concat3("Document is now ", "public", "")
    } else {
        concat3("Document is now ", "private", "")
    };
    proof {
        reveal_strlit("");
    }
    assert(done@ =~= "Document is now "@ + (if is_public {
        "public"@
    } else {
        "private"@
    }));
    ShareStep {
        request: api.update_document_public(id, is_public),
        done,
        error_prefix: "Error setting visibility: ".to_owned(),
        prints_document: true,
    }
}

fn invitation(api: &Api, id: &str, email: &str) -> (s: ShareStep)
    ensures
        s@ == invite_step(api.base_url@, id@, email@),
{
    let done = concat3("Invited ", email, "");
    proof {
        reveal_strlit("");
    }
    assert(done@ =~= "Invited "@ + email@);
    ShareStep {
        request: api.invite_to_document(id, email),
        done,
        error_prefix: "Error inviting user: ".to_owned(),
        prints_document: false,
    }
}

impl Api {
    /// The request of a `collections` subcommand, or `None` for a deletion
    /// that was not confirmed with `force`.
    pub fn collection_request(&self, action: &CollectionAction) -> (r: Option<ApiRequest>)
        ensures
            match (r, collection_request(self.base_url@, *action)) {
                (Some(q), Some(v)) => q@ == v,
                (None, None) => true,
                _ => false,
            },
    {
        match action {
            CollectionAction::List => Some(self.list_collections()),
            CollectionAction::Create { name } => Some(self.create_collection(name.as_str())),
            CollectionAction::Delete { id, force } => if *force {
                Some(self.delete_collection(id.as_str()))
            } else {
                None
            },
        }
    }

    /// The steps of the `share` command.
    pub fn share_steps(&self, id: &str, public: bool, private: bool, invite: Option<&str>) -> (s:
        Vec<ShareStep>)
        ensures
            step_views(s@) == cli_share_steps(self.base_url@, id@, public, private, opt_view(invite)),
    {
        let mut s: Vec<ShareStep> = Vec::new();
        if public {
            s.push(visibility(self, id, true));
        }
        if private {
            s.push(visibility(self, id, false));
        }
        match invite {
            Some(email) => s.push(invitation(self, id, email)),
            None => {},
        }
        assert(step_views(s@) =~= cli_share_steps(
            self.base_url@,
            id@,
            public,
            private,
            opt_view(invite),
        ));
        s
    }

    /// The steps of the `share_doc` tool.
    pub fn share_doc_steps(&self, id: &str, is_public: Option<bool>, invite_email: Option<&str>) -> (s:
        Vec<ShareStep>)
        ensures
            step_views(s@) == mcp_share_steps(
                self.base_url@,
                id@,
                is_public,
                opt_view(invite_email),
            ),
    {
        let mut s: Vec<ShareStep> = Vec::new();
        match is_public {
            Some(p) => s.push(visibility(self, id, p)),
            None => {},
        }
        match invite_email {
            Some(email) => s.push(invitation(self, id, email)),
            None => {},
        }
        assert(step_views(s@) =~= mcp_share_steps(
            self.base_url@,
            id@,
            is_public,
            opt_view(invite_email),
        ));
        s
    }
}

/// The request of `delete` for document `id`: none unless `force` confirms
/// it (the configuration is not consulted then), else the deletion, or the
/// error for a missing URL or token.
pub fn delete_request(config: &Config, id: &str, force: bool) -> (r: Result<
    Option<ApiRequest>,
    ConfigError,
>)
    ensures
        !force ==> r matches Ok(None),
        force ==> match (config.url, config.token) {
            (None, _) => r matches Err(ConfigError::MissingUrl),
            (Some(_), None) => r matches Err(ConfigError::MissingToken),
            (Some(u), Some(_)) => r matches Ok(Some(q)) && q@ == delete_document_request(
                trim_end_char(u@, '/'),
                id@,
            ),
        },
{
    if !force {
        return Ok(None);
    }
    match Api::from_config(config) {
        Ok(api) => Ok(Some(api.delete_document(id))),
        Err(e) => Err(e),
    }
}

/// What a sharing step of the `share_doc` tool reports once its request has
/// been answered: `Ok(done)` to go on with the next step, or, when the
/// request failed with `e`, `Err(error_prefix + e)`, with which the tool
/// stops.
pub fn share_step_outcome(step: &ShareStep, outcome: Result<(), String>) -> (r: Result<
    String,
    String,
>)
    ensures
        match outcome {
            Ok(()) => r matches Ok(s) && s@ == step.done@,
            Err(e) => r matches Err(s) && s@ == step.error_prefix@ + e@,
        },
{
    match outcome {
        Ok(()) => Ok(step.done.clone()),
        Err(e) => {
            let mut v = chars_of(step.error_prefix.as_str());
            push_str(&mut v, e.as_str());
            Err(string_of(&v))
        },
    }
}

/// The share URL of a document, from the configured URL.
pub fn share_url_of(url: &str, id: &str) -> (u: String)
    ensures
        u@ == share_url(url@, id@),
{
    concat3(url, "/share/", id)
}

/// The result of the `share_doc` tool once its steps succeeded with the
/// reports `done`.
pub fn share_report(done: &Vec<String>) -> (r: Result<String, String>)
    ensures
        match (r, share_report_text(Seq::new(done@.len(), |i: int| done@[i]@))) {
            (Ok(a), Ok(b)) => a@ == b,
            (Err(a), Err(b)) => a@ == b,
            _ => false,
        },
{
    let ghost parts = Seq::new(done@.len(), |i: int| done@[i]@);
    if done.len() == 0 {
        return Err("No share action specified. Provide is_public and/or invite_email.".to_owned());
    }
    let mut v: Vec<char> = chars_of(done[0].as_str());
    let mut i: usize = 1;
    assert(parts.take(1) =~= seq![parts[0]]);
    while i < done.len()
        invariant
            1 <= i <= done.len(),
            parts == Seq::new(done@.len(), |i: int| done@[i]@),
            v@ == join(parts.take(i as int), "\n"@),
        decreases done.len() - i,
    {
        assert(parts.take(i + 1).drop_last() =~= parts.take(i as int));
        push_str(&mut v, "\n");
        push_str(&mut v, done[i].as_str());
        i += 1;
    }
    assert(parts.take(done.len() as int) =~= parts);
    Ok(string_of(&v))
}

// ---------------------------------------------------------------------------
// Laws of the requests
// ---------------------------------------------------------------------------
/// The member keys and words used below are pairwise distinct.
proof fn lemma_api_literals()
    ensures
        "title"@ != "text"@,
        "title"@ != "collectionId"@,
        "text"@ != "collectionId"@,
        "id"@ != "title"@,
        "id"@ != "text"@,
        "public"@ != "private"@,
{
    reveal_strlit("title");
    reveal_strlit("text");
    reveal_strlit("collectionId");
    reveal_strlit("id");
    reveal_strlit("public");
    reveal_strlit("private");
    assert("title"@[1] != "text"@[1]);
    assert("title"@[0] != "collectionId"@[0]);
    assert("text"@[0] != "collectionId"@[0]);
    assert("id"@[0] != "title"@[0]);
    assert("id"@[0] != "text"@[0]);
    assert("public"@[1] != "private"@[1]);
}

/// The string under `key` in an object body, if any.
pub open spec fn body_str(body: Option<JsonV>, key: Seq<char>) -> Option<Seq<char>> {
    match body {
        Some(b) => b.str_field(key),
        None => None,
    }
}

/// `with_opt` adds `key` exactly when the value is present: looking `key` up
/// in the result gives the value, given that `ms` does not hold `key`.
proof fn lemma_with_opt_key(ms: Seq<MemberV>, key: Seq<char>, value: Option<Seq<char>>)
    requires
        forall|j: int| 0 <= j < ms.len() ==> ms[j].key != key,
    ensures
        JsonV::Object(with_opt(ms, key, value)).str_field(key) == value,
{
    match value {
        Some(v) => {
            let r = ms.push(str_member(key, v));
            lemma_unique_key(r, key, ms.len() as int);
        },
        None => {
            lemma_absent_key(ms, key);
        },
    }
}

/// `with_opt` keeps what `ms` holds under any other key.
proof fn lemma_with_opt_other(
    ms: Seq<MemberV>,
    key: Seq<char>,
    value: Option<Seq<char>>,
    other: Seq<char>,
    i: int,
)
    requires
        key != other,
        0 <= i < ms.len(),
        ms[i].key == other,
        forall|j: int| 0 <= j < ms.len() && j != i ==> ms[j].key != other,
    ensures
        members_lookup(with_opt(ms, key, value), other) == Some(ms[i].value),
{
    lemma_unique_key(with_opt(ms, key, value), other, i);
}

/// Law: `create` sends a POST to `documents.create` whose body holds the
/// title, holds the content under `text` exactly when there is content, and
/// holds the collection under `collectionId` exactly when one is given.
pub proof fn lemma_create_request_carries_its_inputs(
    base: Seq<char>,
    title: Seq<char>,
    content: Option<Seq<char>>,
    collection_id: Option<Seq<char>>,
)
    ensures
        ({
            let r = create_document_request(base, title, content, collection_id);
            &&& r.method == HttpMethod::Post
            &&& r.url == base + "/api/documents.create"@
            &&& body_str(r.body, "title"@) == Some(title)
            &&& body_str(r.body, "text"@) == content
            &&& body_str(r.body, "collectionId"@) == collection_id
        }),
{
    lemma_api_literals();
    let m0 = seq![str_member("title"@, title)];
    let m1 = with_opt(m0, "text"@, content);
    let m2 = with_opt(m1, "collectionId"@, collection_id);
    lemma_with_opt_key(m0, "text"@, content);
    lemma_with_opt_other(m0, "text"@, content, "title"@, 0);
    lemma_with_opt_other(m1, "collectionId"@, collection_id, "title"@, 0);
    lemma_with_opt_key(m1, "collectionId"@, collection_id);
    match content {
        Some(c) => {
            lemma_with_opt_other(m1, "collectionId"@, collection_id, "text"@, 1);
        },
        None => {
            assert(m1 == m0);
            match collection_id {
                Some(k) => {
                    lemma_absent_key(m2, "text"@);
                },
                None => {
                    lemma_absent_key(m2, "text"@);
                },
            }
        },
    }
}

/// Law: `update` sends a POST to `documents.update` whose body holds the
/// document id, the new title exactly when one is given, and the new content
/// under `text` exactly when there is some.
pub proof fn lemma_update_request_carries_its_inputs(
    base: Seq<char>,
    id: Seq<char>,
    title: Option<Seq<char>>,
    content: Option<Seq<char>>,
)
    ensures
        ({
            let r = update_document_request(base, id, title, content);
            &&& r.method == HttpMethod::Post
            &&& r.url == base + "/api/documents.update"@
            &&& body_str(r.body, "id"@) == Some(id)
            &&& body_str(r.body, "title"@) == title
            &&& body_str(r.body, "text"@) == content
        }),
{
    lemma_api_literals();
    let m0 = seq![str_member("id"@, id)];
    let m1 = with_opt(m0, "title"@, title);
    let m2 = with_opt(m1, "text"@, content);
    lemma_with_opt_key(m0, "title"@, title);
    lemma_with_opt_other(m0, "title"@, title, "id"@, 0);
    lemma_with_opt_other(m1, "text"@, content, "id"@, 0);
    lemma_with_opt_key(m1, "text"@, content);
    match title {
        Some(t) => {
            lemma_with_opt_other(m1, "text"@, content, "title"@, 1);
        },
        None => {
            assert(m1 == m0);
            lemma_absent_key(m2, "title"@);
        },
    }
}

/// Law: `list` sends a POST to `documents.list` whose body holds the
/// collection under `collectionId` exactly when one is given.
pub proof fn lemma_list_request_carries_its_filter(base: Seq<char>, collection_id: Option<Seq<char>>)
    ensures
        ({
            let r = list_documents_request(base, collection_id);
            &&& r.method == HttpMethod::Post
            &&& r.url == base + "/api/documents.list"@
            &&& body_str(r.body, "collectionId"@) == collection_id
        }),
{
    lemma_with_opt_key(seq![], "collectionId"@, collection_id);
}

/// Law: the visibility step for `is_public` sends a PUT to the document whose
/// body sets `isPublic` to `is_public`, and reports "public" exactly when the
/// request makes the document public.
pub proof fn lemma_visibility_step_sends_its_setting(base: Seq<char>, id: Seq<char>, is_public: bool)
    ensures
        ({
            let s = visibility_step(base, id, is_public);
            &&& s.request.method == HttpMethod::Put
            &&& s.request.url == base + "/api/documents/"@ + id
            &&& s.request.body matches Some(b) && b.field("isPublic"@) == JsonV::Bool(is_public)
            &&& (s.done == "Document is now public"@ <==> s.request.body->0.field("isPublic"@)
                == JsonV::Bool(true))
            &&& (s.done == "Document is now private"@ <==> s.request.body->0.field("isPublic"@)
                == JsonV::Bool(false))
            &&& s.prints_document
        }),
{
    lemma_api_literals();
    let ms = seq![MemberV { key: "isPublic"@, value: JsonV::Bool(is_public) }];
    lemma_unique_key(ms, "isPublic"@, 0);
    let head = "Document is now "@;
    if is_public {
        assert((head + "public"@).subrange(head.len() as int, (head + "public"@).len() as int)
            =~= "public"@);
        if head + "public"@ == head + "private"@ {
            assert((head + "private"@).subrange(head.len() as int, (head + "private"@).len() as int)
                =~= "private"@);
        }
    } else {
        assert((head + "private"@).subrange(head.len() as int, (head + "private"@).len() as int)
            =~= "private"@);
        if head + "private"@ == head + "public"@ {
            assert((head + "public"@).subrange(head.len() as int, (head + "public"@).len() as int)
                =~= "public"@);
        }
    }
    reveal_strlit("Document is now public");
    reveal_strlit("Document is now private");
    reveal_strlit("Document is now ");
    reveal_strlit("public");
    reveal_strlit("private");
    assert("Document is now public"@ =~= head + "public"@);
    assert("Document is now private"@ =~= head + "private"@);
}

/// Law: the invitation step sends a POST to the document's permissions whose
/// body holds the email, and reports that email.
pub proof fn lemma_invite_step_sends_its_email(base: Seq<char>, id: Seq<char>, email: Seq<char>)
    ensures
        ({
            let s = invite_step(base, id, email);
            &&& s.request.method == HttpMethod::Post
            &&& s.request.url == base + "/api/documents/"@ + id + "/permissions"@
            &&& body_str(s.request.body, "email"@) == Some(email)
            &&& s.done == "Invited "@ + email
            &&& !s.prints_document
        }),
{
    lemma_unique_key(seq![str_member("email"@, email)], "email"@, 0);
}

/// Law: `share` sends one step per flag given, in the order public, private,
/// invitation: `--public` makes the document public, `--private` makes it
/// private, and `--invite e` invites `e`.
pub proof fn lemma_share_plan(
    base: Seq<char>,
    id: Seq<char>,
    public: bool,
    private: bool,
    invite: Option<Seq<char>>,
)
    ensures
        ({
            let s = cli_share_steps(base, id, public, private, invite);
            let p: int = if public { 1 } else { 0 };
            let q: int = if private { 1 } else { 0 };
            &&& s.len() == p + q + (if invite is Some { 1int } else { 0int })
            &&& public ==> s[0] == visibility_step(base, id, true)
            &&& private ==> s[p] == visibility_step(base, id, false)
            &&& invite matches Some(e) ==> s[p + q] == invite_step(base, id, e)
        }),
{
}

/// Law: the `share_doc` tool sends the visibility it is given, then the
/// invitation, each only when given.
pub proof fn lemma_share_doc_plan(
    base: Seq<char>,
    id: Seq<char>,
    is_public: Option<bool>,
    invite: Option<Seq<char>>,
)
    ensures
        ({
            let s = mcp_share_steps(base, id, is_public, invite);
            let p: int = if is_public is Some { 1 } else { 0 };
            &&& s.len() == p + (if invite is Some { 1int } else { 0int })
            &&& is_public matches Some(v) ==> s[0] == visibility_step(base, id, v)
            &&& invite matches Some(e) ==> s[p] == invite_step(base, id, e)
        }),
{
}

/// Law: `collections delete` sends a request only when `force` confirms it,
/// and then it is a DELETE of that collection; listing and creating always
/// send their request.
pub proof fn lemma_collection_delete_needs_force(base: Seq<char>, id: String, force: bool)
    ensures
        (collection_request(base, CollectionAction::Delete { id, force }) is Some) == force,
        force ==> (collection_request(base, CollectionAction::Delete { id, force }) matches Some(r)
            && r.method == HttpMethod::Delete && r.url == base + "/api/collections/"@ + id@
            && r.body is None),
        collection_request(base, CollectionAction::List) is Some,
{
}

/// Law: the reports of the `share_doc` steps are joined line by line: joining
/// `a` then `b` (both non-empty) is joining `a`, a newline, then joining `b`.
pub proof fn lemma_join_concat(a: Seq<Seq<char>>, b: Seq<Seq<char>>, sep: Seq<char>)
    requires
        a.len() > 0,
        b.len() > 0,
    ensures
        join(a + b, sep) == join(a, sep) + sep + join(b, sep),
    decreases b.len(),
{
    assert((a + b).drop_last() =~= a + b.drop_last());
    assert((a + b).last() == b.last());
    if b.len() == 1 {
        assert(b.drop_last() =~= Seq::<Seq<char>>::empty());
        assert(a + b.drop_last() =~= a);
    } else {
        lemma_join_concat(a, b.drop_last(), sep);
    }
}

/// Law: `share_doc` fails exactly when no step was asked for; otherwise its
/// report is the steps' reports, one per line, in order.
pub proof fn lemma_share_report(done: Seq<Seq<char>>)
    ensures
        share_report_text(done) is Err <==> done.len() == 0,
        done.len() == 1 ==> share_report_text(done) == Ok::<Seq<char>, Seq<char>>(done[0]),
        done.len() > 1 ==> share_report_text(done) == Ok::<Seq<char>, Seq<char>>(
            join(done.drop_last(), "\n"@) + "\n"@ + done.last(),
        ),
{
}

/// Law: the single-argument requests carry their argument: reading and
/// deleting a document send its id, searching sends the query, creating a
/// collection sends its name, and the Markdown export asks for Markdown at
/// the document's own URL with no body.
pub proof fn lemma_requests_carry_their_argument(base: Seq<char>, x: Seq<char>)
    ensures
        read_document_request(base, x).method == HttpMethod::Post,
        body_str(read_document_request(base, x).body, "id"@) == Some(x),
        delete_document_request(base, x).method == HttpMethod::Post,
        body_str(delete_document_request(base, x).body, "id"@) == Some(x),
        body_str(search_request(base, x).body, "query"@) == Some(x),
        body_str(create_collection_request(base, x).body, "name"@) == Some(x),
        read_markdown_request(base, x).accept_markdown,
        read_markdown_request(base, x).method == HttpMethod::Get,
        read_markdown_request(base, x).url == base + "/api/documents/"@ + x + "/export"@,
        read_markdown_request(base, x).body is None,
        !read_document_request(base, x).accept_markdown,
{
    lemma_unique_key(seq![str_member("id"@, x)], "id"@, 0);
    lemma_unique_key(seq![str_member("query"@, x)], "query"@, 0);
    lemma_unique_key(seq![str_member("name"@, x)], "name"@, 0);
}

} // verus!
