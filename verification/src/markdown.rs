//! Markdown -> Tiptap JSON.
//!
//! The Markdown text is parsed by pulldown-cmark (strikethrough and tables
//! enabled) into a sequence of events; `tiptap_from_events` folds those events
//! into a Tiptap document tree: block tags open nodes on a stack, inline tags
//! switch marks on and off, and text becomes text nodes that carry the marks
//! active at that point.
use vstd::prelude::*;
use pulldown_cmark::{CodeBlockKind, Event, Options, Parser, Tag, TagEnd};
use crate::json::{Json, JsonV, Member, MemberV, member_views, views, str_member};
use crate::text::{first_word, first_word_of, string_of};

verus! {

#[verifier::external_type_specification]
#[verifier::external_body]
pub struct ExEvent<'a>(Event<'a>);

#[verifier::external_type_specification]
#[verifier::external_body]
pub struct ExTag<'a>(Tag<'a>);

#[verifier::external_type_specification]
#[verifier::external_body]
pub struct ExTagEnd(TagEnd);

#[verifier::external_type_specification]
#[verifier::external_body]
pub struct ExHeadingLevel(pulldown_cmark::HeadingLevel);

/// A heading level, `#` to `######`.
pub enum MdHeadingLevel {
    H1,
    H2,
    H3,
    H4,
    H5,
    H6,
}

/// The opening tag of a Markdown element, with what the conversion reads of it.
pub enum MdTag {
    Paragraph,
    Heading(MdHeadingLevel),
    BlockQuote,
    /// A code block: `Some(info string)` when fenced, `None` when indented.
    CodeBlock(Option<String>),
    /// A list: `Some(first number)` when ordered, `None` for a bullet list.
    List(Option<u64>),
    Item,
    Table,
    TableHead,
    TableRow,
    TableCell,
    Emphasis,
    Strong,
    Strikethrough,
    /// A link, with its destination.
    Link(String),
    /// An image, with its destination and title.
    Image(String, String),
    /// Any other element (HTML block, footnote definition, ...).
    Other,
}

/// The closing tag of a Markdown element: the inline ones that the conversion
/// tells apart, and `Other` for the end of every other element.
pub enum MdTagEnd {
    Strong,
    Emphasis,
    Strikethrough,
    Link,
    Image,
    Other,
}

/// One Markdown parse event.
pub enum MdEvent {
    Start(MdTag),
    End(MdTagEnd),
    Text(String),
    Code(String),
    Html(String),
    SoftBreak,
    HardBreak,
    Rule,
    /// Any other event (inline HTML, footnote reference, ...).
    Other,
}

impl MdHeadingLevel {
    /// Converts pulldown-cmark's `HeadingLevel`, one variant for one variant.
    /// Part of the conversion in `markdown_events`, whose contract covers its
    /// result; it states nothing of its own.
    #[verifier::external_body]
    fn from_level(l: pulldown_cmark::HeadingLevel) -> MdHeadingLevel {
        match l {
            pulldown_cmark::HeadingLevel::H1 => MdHeadingLevel::H1,
            pulldown_cmark::HeadingLevel::H2 => MdHeadingLevel::H2,
            pulldown_cmark::HeadingLevel::H3 => MdHeadingLevel::H3,
            pulldown_cmark::HeadingLevel::H4 => MdHeadingLevel::H4,
            pulldown_cmark::HeadingLevel::H5 => MdHeadingLevel::H5,
            pulldown_cmark::HeadingLevel::H6 => MdHeadingLevel::H6,
        }
    }
}

impl MdTag {
    /// Converts a pulldown-cmark block `Tag`, one variant for one variant
    /// (inline tags go to `from_span_tag`).  Part of the conversion in
    /// `markdown_events`, whose contract covers its result; it states nothing
    /// of its own.
    #[verifier::external_body]
    fn from_tag(t: Tag<'_>) -> MdTag {
        match t {
            Tag::Paragraph => MdTag::Paragraph,
            Tag::Heading { level, .. } => MdTag::Heading(MdHeadingLevel::from_level(level)),
            Tag::BlockQuote(_) => MdTag::BlockQuote,
            Tag::CodeBlock(CodeBlockKind::Fenced(info)) => MdTag::CodeBlock(Some(info.to_string())),
            Tag::CodeBlock(CodeBlockKind::Indented) => MdTag::CodeBlock(None),
            Tag::List(start) => MdTag::List(start),
            Tag::Item => MdTag::Item,
            Tag::Table(_) => MdTag::Table,
            Tag::TableHead => MdTag::TableHead,
            Tag::TableRow => MdTag::TableRow,
            Tag::TableCell => MdTag::TableCell,
            other => MdTag::from_span_tag(other),
        }
    }

    /// Converts a pulldown-cmark inline `Tag`, one variant for one variant
    /// (`Other` for tags the conversion does not read).  Part of the
    /// conversion in `markdown_events`; it states nothing of its own.
    #[verifier::external_body]
    fn from_span_tag(t: Tag<'_>) -> MdTag {
        match t {
            Tag::Emphasis => MdTag::Emphasis,
            Tag::Strong => MdTag::Strong,
            Tag::Strikethrough => MdTag::Strikethrough,
            Tag::Link { dest_url, .. } => MdTag::Link(dest_url.to_string()),
            Tag::Image { dest_url, title, .. } => MdTag::Image(dest_url.to_string(), title.to_string()),
            _ => MdTag::Other,
        }
    }
}

impl MdTagEnd {
    /// Converts a pulldown-cmark `TagEnd`: the inline ends one variant for one
    /// variant, `Other` for the end of any other element.  Part of the
    /// conversion in `markdown_events`; it states nothing of its own.
    #[verifier::external_body]
    fn from_tag_end(t: TagEnd) -> MdTagEnd {
        match t {
            TagEnd::Strong => MdTagEnd::Strong,
            TagEnd::Emphasis => MdTagEnd::Emphasis,
            TagEnd::Strikethrough => MdTagEnd::Strikethrough,
            TagEnd::Link => MdTagEnd::Link,
            TagEnd::Image => MdTagEnd::Image,
            _ => MdTagEnd::Other,
        }
    }
}

impl MdEvent {
    /// Converts a pulldown-cmark `Event`, one variant for one variant (`Other`
    /// for events the conversion does not read).  Part of the conversion in
    /// `markdown_events`, whose contract covers its result; it states nothing
    /// of its own.
    #[verifier::external_body]
    fn from_event(e: Event<'_>) -> MdEvent {
        match e {
            Event::Start(t) => MdEvent::Start(MdTag::from_tag(t)),
            Event::End(t) => MdEvent::End(MdTagEnd::from_tag_end(t)),
            Event::Text(s) => MdEvent::Text(s.to_string()),
            Event::Code(s) => MdEvent::Code(s.to_string()),
            Event::Html(s) => MdEvent::Html(s.to_string()),
            Event::SoftBreak => MdEvent::SoftBreak,
            Event::HardBreak => MdEvent::HardBreak,
            Event::Rule => MdEvent::Rule,
            _ => MdEvent::Other,
        }
    }
}

/// The end tag that closes an element opened by `t`.
pub open spec fn end_of(t: MdTag) -> MdTagEnd {
    match t {
        MdTag::Strong => MdTagEnd::Strong,
        MdTag::Emphasis => MdTagEnd::Emphasis,
        MdTag::Strikethrough => MdTagEnd::Strikethrough,
        MdTag::Link(_) => MdTagEnd::Link,
        MdTag::Image(_, _) => MdTagEnd::Image,
        _ => MdTagEnd::Other,
    }
}

/// The elements left open after `es`, innermost last; `None` when some end
/// tag does not close the innermost open element.
pub open spec fn open_tags(es: Seq<MdEvent>) -> Option<Seq<MdTag>>
    decreases es.len(),
{
    if es.len() == 0 {
        Some(seq![])
    } else {
        match open_tags(es.drop_last()) {
            None => None,
            Some(open) => match es.last() {
                MdEvent::Start(t) => Some(open.push(t)),
                MdEvent::End(e) => if open.len() > 0 && end_of(open.last()) == e {
                    Some(open.drop_last())
                } else {
                    None
                },
                _ => Some(open),
            },
        }
    }
}

/// Start and end tags are properly nested and every element is closed.
pub open spec fn balanced(es: Seq<MdEvent>) -> bool {
    open_tags(es) == Some(Seq::<MdTag>::empty())
}

/// The events that pulldown-cmark's `Parser::new_ext` yields for `md`, with
/// strikethrough and tables enabled.
pub uninterp spec fn commonmark_events(md: Seq<char>) -> Seq<MdEvent>;

/// Calls pulldown-cmark's `Parser::new_ext(md, ENABLE_STRIKETHROUGH |
/// ENABLE_TABLES)` and converts every event it yields.  Trusted to return
/// `commonmark_events(md)`, and that start and end events are balanced, as
/// pulldown-cmark documents for `Event::Start`.
#[verifier::external_body]
fn markdown_events(md: &str) -> (events: Vec<MdEvent>)
    ensures
        events@ == commonmark_events(md@),
        balanced(events@),
{
    let opts = Options::ENABLE_STRIKETHROUGH | Options::ENABLE_TABLES;
    Parser::new_ext(md, opts).map(MdEvent::from_event).collect()
}

/// The number of a heading level.
pub open spec fn level_number(l: MdHeadingLevel) -> u8 {
    match l {
        MdHeadingLevel::H1 => 1,
        MdHeadingLevel::H2 => 2,
        MdHeadingLevel::H3 => 3,
        MdHeadingLevel::H4 => 4,
        MdHeadingLevel::H5 => 5,
        MdHeadingLevel::H6 => 6,
    }
}

/// The number of a heading level (`H1` is 1, ..., `H6` is 6).
pub fn heading_level_to_u8(l: &MdHeadingLevel) -> (n: u8)
    ensures
        n == level_number(*l),
        1 <= n <= 6,
{
    match l {
        MdHeadingLevel::H1 => 1,
        MdHeadingLevel::H2 => 2,
        MdHeadingLevel::H3 => 3,
        MdHeadingLevel::H4 => 4,
        MdHeadingLevel::H5 => 5,
        MdHeadingLevel::H6 => 6,
    }
}

// ---------------------------------------------------------------------------
// The specification of the conversion
// ---------------------------------------------------------------------------
/// A node under construction: its type, its attributes (if it has any) and
/// the children appended so far.
pub struct OpenNodeV {
    pub node_type: Seq<char>,
    pub attrs: Option<Seq<MemberV>>,
    pub content: Seq<JsonV>,
}

/// The state of the conversion: the stack of open nodes (the document at the
/// bottom) and the active marks, outermost first.
pub struct BuildState {
    pub stack: Seq<OpenNodeV>,
    pub marks: Seq<JsonV>,
}

pub open spec fn open_node(node_type: Seq<char>, attrs: Option<Seq<MemberV>>) -> OpenNodeV {
    OpenNodeV { node_type, attrs, content: seq![] }
}

/// `{"type": t, "attrs": {..}, "content": [..]}` (no `attrs` when there are none).
pub open spec fn close(n: OpenNodeV) -> JsonV {
    let head = seq![str_member("type"@, n.node_type)];
    let with_attrs = match n.attrs {
        Some(a) => head.push(MemberV { key: "attrs"@, value: JsonV::Object(a) }),
        None => head,
    };
    JsonV::Object(with_attrs.push(MemberV { key: "content"@, value: JsonV::Array(n.content) }))
}

/// The concatenated `"text"` strings of the nodes in `cs` (nodes without one
/// add nothing).
pub open spec fn text_join(cs: Seq<JsonV>) -> Seq<char>
    decreases cs.len(),
{
    if cs.len() == 0 {
        seq![]
    } else {
        text_join(cs.drop_last()) + match cs.last().str_field("text"@) {
            Some(t) => t,
            None => seq![],
        }
    }
}

/// The image node made from a closed `__image__` node: type `image`, its
/// attributes plus `alt` (the text of its children), and no content.
pub open spec fn image_node(n: OpenNodeV) -> JsonV {
    let attrs = match n.attrs {
        Some(a) => a,
        None => seq![],
    };
    JsonV::Object(
        seq![
            str_member("type"@, "image"@),
            MemberV {
                key: "attrs"@,
                value: JsonV::Object(attrs.push(str_member("alt"@, text_join(n.content)))),
            },
        ],
    )
}

/// An object `{"type": t}`.
pub open spec fn typed(t: Seq<char>) -> JsonV {
    JsonV::Object(seq![str_member("type"@, t)])
}

/// A link mark.
pub open spec fn link_mark(href: Seq<char>) -> JsonV {
    JsonV::Object(
        seq![
            str_member("type"@, "link"@),
            MemberV { key: "attrs"@, value: JsonV::Object(seq![str_member("href"@, href)]) },
        ],
    )
}

/// A text node `{"type": "text", "text": t}`, with `"marks"` when any are active.
pub open spec fn text_node(t: Seq<char>, marks: Seq<JsonV>) -> JsonV {
    let base = seq![str_member("type"@, "text"@), str_member("text"@, t)];
    if marks.len() > 0 {
        JsonV::Object(base.push(MemberV { key: "marks"@, value: JsonV::Array(marks) }))
    } else {
        JsonV::Object(base)
    }
}

/// A paragraph holding the raw HTML as plain text.
pub open spec fn html_node(h: Seq<char>) -> JsonV {
    JsonV::Object(
        seq![
            str_member("type"@, "paragraph"@),
            MemberV {
                key: "content"@,
                value: JsonV::Array(
                    seq![JsonV::Object(seq![str_member("type"@, "text"@), str_member("text"@, h)])],
                ),
            },
        ],
    )
}

/// A single-attribute list.
pub open spec fn one_attr(key: Seq<char>, value: JsonV) -> Option<Seq<MemberV>> {
    Some(seq![MemberV { key, value }])
}

/// The node that a block tag opens.
pub open spec fn node_for(t: MdTag) -> OpenNodeV {
    match t {
        MdTag::Heading(l) => open_node(
            "heading"@,
            one_attr("level"@, JsonV::UInt(level_number(l) as u64)),
        ),
        MdTag::Paragraph => open_node("paragraph"@, None),
        MdTag::CodeBlock(info) => open_node(
            "codeBlock"@,
            one_attr(
                "language"@,
                JsonV::Str(
                    match info {
                        Some(i) => first_word(i@),
                        None => seq![],
                    },
                ),
            ),
        ),
        MdTag::List(Some(n)) => open_node("orderedList"@, one_attr("start"@, JsonV::UInt(n))),
        MdTag::List(None) => open_node("bulletList"@, None),
        MdTag::Item => open_node("listItem"@, None),
        MdTag::BlockQuote => open_node("blockquote"@, None),
        MdTag::Table => open_node("table"@, None),
        MdTag::TableHead => open_node("tableRow"@, None),
        MdTag::TableRow => open_node("tableRow"@, None),
        MdTag::TableCell => open_node("tableCell"@, None),
        MdTag::Image(src, title) => open_node(
            "__image__"@,
            Some(seq![str_member("src"@, src@), str_member("title"@, title@)]),
        ),
        _ => open_node("paragraph"@, None),
    }
}

/// The mark that an inline tag switches on, if it is one.
pub open spec fn mark_for(t: MdTag) -> Option<JsonV> {
    match t {
        MdTag::Strong => Some(typed("bold"@)),
        MdTag::Emphasis => Some(typed("italic"@)),
        MdTag::Strikethrough => Some(typed("strike"@)),
        MdTag::Link(href) => Some(link_mark(href@)),
        _ => None,
    }
}

/// Appends `child` to the content of the innermost open node.
pub open spec fn append_child(stack: Seq<OpenNodeV>, child: JsonV) -> Seq<OpenNodeV> {
    if stack.len() == 0 {
        stack
    } else {
        let top = stack.last();
        stack.update(stack.len() - 1, OpenNodeV { content: top.content.push(child), ..top })
    }
}

/// Closes the innermost open node into its parent.
pub open spec fn pop_and_append(stack: Seq<OpenNodeV>) -> Seq<OpenNodeV> {
    if stack.len() == 0 {
        stack
    } else {
        append_child(stack.drop_last(), close(stack.last()))
    }
}

/// Closes the innermost open node as an image into its parent.
pub open spec fn pop_image(stack: Seq<OpenNodeV>) -> Seq<OpenNodeV> {
    if stack.len() == 0 {
        stack
    } else {
        append_child(stack.drop_last(), image_node(stack.last()))
    }
}

/// `i` is the position of the last mark of type `t`.
pub open spec fn is_last_mark(marks: Seq<JsonV>, t: Seq<char>, i: int) -> bool {
    &&& 0 <= i < marks.len()
    &&& marks[i].node_type() == Some(t)
    &&& forall|j: int| i < j < marks.len() ==> marks[j].node_type() != Some(t)
}

/// The marks without the most recent mark of type `t` (unchanged if none).
pub open spec fn pop_mark(marks: Seq<JsonV>, t: Seq<char>) -> Seq<JsonV> {
    if exists|i: int| is_last_mark(marks, t, i) {
        marks.remove(choose|i: int| is_last_mark(marks, t, i))
    } else {
        marks
    }
}

/// The state after one event.
pub open spec fn step(st: BuildState, e: MdEvent) -> BuildState {
    match e {
        MdEvent::Start(t) => match mark_for(t) {
            Some(m) => BuildState { marks: st.marks.push(m), ..st },
            None => BuildState { stack: st.stack.push(node_for(t)), ..st },
        },
        MdEvent::End(MdTagEnd::Strong) => BuildState { marks: pop_mark(st.marks, "bold"@), ..st },
        MdEvent::End(MdTagEnd::Emphasis) => BuildState {
            marks: pop_mark(st.marks, "italic"@),
            ..st
        },
        MdEvent::End(MdTagEnd::Strikethrough) => BuildState {
            marks: pop_mark(st.marks, "strike"@),
            ..st
        },
        MdEvent::End(MdTagEnd::Link) => BuildState { marks: pop_mark(st.marks, "link"@), ..st },
        MdEvent::End(MdTagEnd::Image) => BuildState { stack: pop_image(st.stack), ..st },
        MdEvent::End(MdTagEnd::Other) => BuildState { stack: pop_and_append(st.stack), ..st },
        MdEvent::Text(s) => BuildState {
            stack: append_child(st.stack, text_node(s@, st.marks)),
            ..st
        },
        MdEvent::Code(s) => BuildState {
            stack: append_child(st.stack, text_node(s@, st.marks.push(typed("code"@)))),
            ..st
        },
        MdEvent::SoftBreak => BuildState {
            stack: append_child(st.stack, text_node(" "@, st.marks)),
            ..st
        },
        MdEvent::HardBreak => BuildState {
            stack: append_child(st.stack, typed("hardBreak"@)),
            ..st
        },
        MdEvent::Rule => BuildState {
            stack: append_child(st.stack, typed("horizontalRule"@)),
            ..st
        },
        MdEvent::Html(h) => BuildState { stack: append_child(st.stack, html_node(h@)), ..st },
        MdEvent::Other => st,
    }
}

/// The initial state: an empty document and no marks.
pub open spec fn initial_state() -> BuildState {
    BuildState { stack: seq![open_node("doc"@, None)], marks: seq![] }
}

/// The state after all of `es`.
pub open spec fn run(es: Seq<MdEvent>) -> BuildState
    decreases es.len(),
{
    if es.len() == 0 {
        initial_state()
    } else {
        step(run(es.drop_last()), es.last())
    }
}

/// The Tiptap document built from `es`: the bottom node of the stack, closed.
pub open spec fn tiptap_of_events(es: Seq<MdEvent>) -> JsonV {
    let st = run(es);
    if st.stack.len() > 0 {
        close(st.stack[0])
    } else {
        close(open_node("doc"@, None))
    }
}

// ---------------------------------------------------------------------------
// The conversion
// ---------------------------------------------------------------------------
struct OpenNode {
    node_type: String,
    attrs: Option<Vec<Member>>,
    content: Vec<Json>,
}

impl View for OpenNode {
    type V = OpenNodeV;

    closed spec fn view(&self) -> OpenNodeV {
        OpenNodeV {
            node_type: self.node_type@,
            attrs: match self.attrs {
                Some(a) => Some(member_views(a@)),
                None => None,
            },
            content: views(self.content@),
        }
    }
}

spec fn stack_views(s: Seq<OpenNode>) -> Seq<OpenNodeV> {
    Seq::new(s.len(), |i: int| s[i]@)
}

fn new_open(node_type: &str, attrs: Option<Vec<Member>>) -> (n: OpenNode)
    ensures
        n@ == open_node(
            node_type@,
            match attrs {
                Some(a) => Some(member_views(a@)),
                None => None,
            },
        ),
{
    let n = OpenNode { node_type: node_type.to_owned(), attrs, content: Vec::new() };
    assert(n@.content =~= Seq::<JsonV>::empty());
    n
}

fn close_node(n: OpenNode) -> (j: Json)
    ensures
        j@ == close(n@),
{
    let ghost nv = n@;
    let mut ms: Vec<Member> = Vec::new();
    ms.push(Member { key: "type".to_owned(), value: Json::Str(n.node_type) });
    match n.attrs {
        Some(a) => {
            ms.push(Member::new("attrs", Json::object(a)));
        },
        None => {},
    }
    ms.push(Member::new("content", Json::array(n.content)));
    let j = Json::object(ms);
    assert(member_views(ms@) =~= close(nv)->Object_0);
    j
}

/// The concatenated `"text"` strings of `cs`.
pub(crate) fn text_join_of(cs: &Vec<Json>) -> (t: Vec<char>)
    ensures
        t@ == text_join(views(cs@)),
{
    let mut t: Vec<char> = Vec::new();
    let mut i: usize = 0;
    while i < cs.len()
        invariant
            0 <= i <= cs.len(),
            t@ == text_join(views(cs@).take(i as int)),
        decreases cs.len() - i,
    {
        assert(views(cs@).take(i + 1).drop_last() =~= views(cs@).take(i as int));
        match cs[i].str_field("text") {
            Some(s) => crate::text::push_str(&mut t, s),
            None => {},
        }
        i += 1;
    }
    assert(views(cs@).take(cs.len() as int) =~= views(cs@));
    t
}

fn close_image(n: OpenNode) -> (j: Json)
    ensures
        j@ == image_node(n@),
{
    let ghost nv = n@;
    let alt = text_join_of(&n.content);
    let mut attrs: Vec<Member> = match n.attrs {
        Some(a) => a,
        None => Vec::new(),
    };
    attrs.push(Member::new("alt", Json::Str(string_of(&alt))));
    let mut ms: Vec<Member> = Vec::new();
    ms.push(Member::new("type", Json::string("image")));
    ms.push(Member::new("attrs", Json::object(attrs)));
    let j = Json::object(ms);
    assert(member_views(attrs@) =~= (match nv.attrs {
        Some(a) => a,
        None => seq![],
    }).push(str_member("alt"@, text_join(nv.content))));
    assert(member_views(ms@) =~= image_node(nv)->Object_0);
    j
}

/// An object `{"type": t}`.
fn typed_node(t: &str) -> (j: Json)
    ensures
        j@ == typed(t@),
{
    let mut ms: Vec<Member> = Vec::new();
    ms.push(Member::new("type", Json::string(t)));
    let j = Json::object(ms);
    assert(member_views(ms@) =~= typed(t@)->Object_0);
    j
}

/// A copy of the marks.
fn copy_all(v: &Vec<Json>) -> (c: Vec<Json>)
    ensures
        views(c@) == views(v@),
{
    let mut c: Vec<Json> = Vec::new();
    let mut i: usize = 0;
    while i < v.len()
        invariant
            0 <= i <= v.len(),
            c@.len() == i,
            forall|k: int| 0 <= k < i ==> #[trigger] c@[k]@ == v@[k]@,
        decreases v.len() - i,
    {
        c.push(v[i].deep_copy());
        i += 1;
    }
    assert(views(c@) =~= views(v@));
    c
}

fn make_text_node(t: &str, marks: Vec<Json>) -> (j: Json)
    ensures
        j@ == text_node(t@, views(marks@)),
{
    let ghost mv = views(marks@);
    let mut ms: Vec<Member> = Vec::new();
    ms.push(Member::new("type", Json::string("text")));
    ms.push(Member::new("text", Json::string(t)));
    if marks.len() > 0 {
        ms.push(Member::new("marks", Json::array(marks)));
    }
    let j = Json::object(ms);
    assert(member_views(ms@) =~= text_node(t@, mv)->Object_0);
    j
}

fn make_html_node(h: &str) -> (j: Json)
    ensures
        j@ == html_node(h@),
{
    let mut inner: Vec<Member> = Vec::new();
    inner.push(Member::new("type", Json::string("text")));
    inner.push(Member::new("text", Json::string(h)));
    let text = Json::object(inner);
    let mut items: Vec<Json> = Vec::new();
    items.push(text);
    let mut ms: Vec<Member> = Vec::new();
    ms.push(Member::new("type", Json::string("paragraph")));
    ms.push(Member::new("content", Json::array(items)));
    let j = Json::object(ms);
    assert(member_views(inner@) =~= seq![str_member("type"@, "text"@), str_member("text"@, h@)]);
    assert(views(items@) =~= seq![text@]);
    assert(member_views(ms@) =~= html_node(h@)->Object_0);
    j
}

fn make_link_mark(href: &str) -> (j: Json)
    ensures
        j@ == link_mark(href@),
{
    let mut attrs: Vec<Member> = Vec::new();
    attrs.push(Member::new("href", Json::string(href)));
    let mut ms: Vec<Member> = Vec::new();
    ms.push(Member::new("type", Json::string("link")));
    ms.push(Member::new("attrs", Json::object(attrs)));
    let j = Json::object(ms);
    assert(member_views(attrs@) =~= seq![str_member("href"@, href@)]);
    assert(member_views(ms@) =~= link_mark(href@)->Object_0);
    j
}

fn one_member(key: &str, value: Json) -> (a: Option<Vec<Member>>)
    ensures
        a matches Some(v) && member_views(v@) == one_attr(key@, value@)->0,
{
    let mut v: Vec<Member> = Vec::new();
    v.push(Member::new(key, value));
    assert(member_views(v@) =~= one_attr(key@, value@)->0);
    Some(v)
}

/// The node that block tag `t` opens.
fn open_for(t: &MdTag) -> (n: OpenNode)
    requires
        mark_for(*t) is None,
    ensures
        n@ == node_for(*t),
{
    match t {
        MdTag::Heading(l) => {
            let level = heading_level_to_u8(l) as u64;
            let a = one_member("level", Json::UInt(level));
            let n = new_open("heading", a);
            assert(n@ == node_for(*t));
            n
        },
        MdTag::Paragraph => new_open("paragraph", None),
        MdTag::CodeBlock(info) => {
            let lang = match info {
                Some(i) => string_of(&first_word_of(i.as_str())),
                None => "".to_owned(),
            };
            proof {
                reveal_strlit("");
            }
            assert(lang@ == match *info {
                Some(i) => first_word(i@),
                None => seq![],
            });
            let n = new_open("codeBlock", one_member("language", Json::Str(lang)));
            assert(n@ == node_for(*t));
            n
        },
        MdTag::List(Some(k)) => {
            let n = new_open("orderedList", one_member("start", Json::UInt(*k)));
            assert(n@ == node_for(*t));
            n
        },
        MdTag::List(None) => new_open("bulletList", None),
        MdTag::Item => new_open("listItem", None),
        MdTag::BlockQuote => new_open("blockquote", None),
        MdTag::Table => new_open("table", None),
        MdTag::TableHead => new_open("tableRow", None),
        MdTag::TableRow => new_open("tableRow", None),
        MdTag::TableCell => new_open("tableCell", None),
        MdTag::Image(src, title) => {
            let mut a: Vec<Member> = Vec::new();
            a.push(Member::new("src", Json::Str(src.clone())));
            a.push(Member::new("title", Json::Str(title.clone())));
            assert(member_views(a@) =~= seq![str_member("src"@, src@), str_member("title"@, title@)]);
            let n = new_open("__image__", Some(a));
            assert(n@ == node_for(*t));
            n
        },
        _ => new_open("paragraph", None),
    }
}

/// Appends `child` to the content of the innermost open node.
fn push_child(stack: &mut Vec<OpenNode>, child: Json)
    ensures
        stack_views(final(stack)@) == append_child(stack_views(old(stack)@), child@),
{
    let ghost old_v = stack_views(stack@);
    match stack.pop() {
        Some(mut top) => {
            let ghost top_v = top@;
            top.content.push(child);
            assert(top@.content =~= top_v.content.push(child@));
            stack.push(top);
            assert(stack_views(stack@) =~= append_child(old_v, child@));
        },
        None => {
            assert(stack_views(stack@) =~= old_v);
        },
    }
}

/// Removes the most recent mark of type `t`.
fn remove_last_mark(marks: &mut Vec<Json>, t: &str)
    ensures
        views(final(marks)@) == pop_mark(views(old(marks)@), t@),
{
    let ghost mv = views(marks@);
    let mut k: usize = marks.len();
    while k > 0
        invariant
            0 <= k <= marks.len(),
            mv == views(marks@),
            mv == views(old(marks)@),
            forall|j: int| k <= j < marks.len() ==> mv[j].node_type() != Some(t@),
        decreases k,
    {
        let is_t = match marks[k - 1].str_field("type") {
            Some(s) => crate::json::str_eq(s, t),
            None => false,
        };
        if is_t {
            let i = k - 1;
            assert(is_last_mark(mv, t@, i as int));
            assert forall|x: int| #[trigger] is_last_mark(mv, t@, x) implies x == i by {
                if x < i {
                    assert(mv[i as int].node_type() == Some(t@));
                } else if x > i {
                    assert(mv[x].node_type() != Some(t@));
                }
            }
            assert(pop_mark(mv, t@) == mv.remove(i as int));
            marks.remove(i);
            assert(views(marks@) =~= mv.remove(i as int));
            return;
        }
        k -= 1;
    }
    assert(!exists|x: int| is_last_mark(mv, t@, x));
}

/// Applies one event to the conversion state.
fn apply_event(stack: &mut Vec<OpenNode>, marks: &mut Vec<Json>, e: &MdEvent)
    ensures
        (BuildState { stack: stack_views(final(stack)@), marks: views(final(marks)@) }) == step(
            BuildState { stack: stack_views(old(stack)@), marks: views(old(marks)@) },
            *e,
        ),
{
    let ghost st = BuildState { stack: stack_views(stack@), marks: views(marks@) };
    match e {
        MdEvent::Start(t) => {
            match t {
                MdTag::Strong => {
                    marks.push(typed_node("bold"));
                    assert(views(marks@) =~= st.marks.push(typed("bold"@)));
                },
                MdTag::Emphasis => {
                    marks.push(typed_node("italic"));
                    assert(views(marks@) =~= st.marks.push(typed("italic"@)));
                },
                MdTag::Strikethrough => {
                    marks.push(typed_node("strike"));
                    assert(views(marks@) =~= st.marks.push(typed("strike"@)));
                },
                MdTag::Link(href) => {
                    marks.push(make_link_mark(href.as_str()));
                    assert(views(marks@) =~= st.marks.push(link_mark(href@)));
                },
                _ => {
                    stack.push(open_for(t));
                    assert(stack_views(stack@) =~= st.stack.push(node_for(*t)));
                },
            }
        },
        MdEvent::End(MdTagEnd::Strong) => remove_last_mark(marks, "bold"),
        MdEvent::End(MdTagEnd::Emphasis) => remove_last_mark(marks, "italic"),
        MdEvent::End(MdTagEnd::Strikethrough) => remove_last_mark(marks, "strike"),
        MdEvent::End(MdTagEnd::Link) => remove_last_mark(marks, "link"),
        MdEvent::End(MdTagEnd::Image) => {
            match stack.pop() {
                Some(top) => {
                    assert(stack_views(stack@) =~= st.stack.drop_last());
                    push_child(stack, close_image(top));
                },
                None => {},
            }
        },
        MdEvent::End(MdTagEnd::Other) => {
            match stack.pop() {
                Some(top) => {
                    assert(stack_views(stack@) =~= st.stack.drop_last());
                    push_child(stack, close_node(top));
                },
                None => {},
            }
        },
        MdEvent::Text(s) => {
            let node = make_text_node(s.as_str(), copy_all(marks));
            push_child(stack, node);
        },
        MdEvent::Code(s) => {
            let mut code_marks = copy_all(marks);
            code_marks.push(typed_node("code"));
            assert(views(code_marks@) =~= st.marks.push(typed("code"@)));
            let node = make_text_node(s.as_str(), code_marks);
            push_child(stack, node);
        },
        MdEvent::SoftBreak => {
            let node = make_text_node(" ", copy_all(marks));
            push_child(stack, node);
        },
        MdEvent::HardBreak => push_child(stack, typed_node("hardBreak")),
        MdEvent::Rule => push_child(stack, typed_node("horizontalRule")),
        MdEvent::Html(h) => push_child(stack, make_html_node(h.as_str())),
        MdEvent::Other => {},
    }
}

/// Builds the Tiptap document for a sequence of Markdown events.
pub fn tiptap_from_events(events: &Vec<MdEvent>) -> (doc: Json)
    ensures
        doc@ == tiptap_of_events(events@),
{
    let mut stack: Vec<OpenNode> = Vec::new();
    stack.push(new_open("doc", None));
    let mut marks: Vec<Json> = Vec::new();
    assert(stack_views(stack@) =~= initial_state().stack);
    assert(views(marks@) =~= initial_state().marks);
    assert(events@.take(0) =~= Seq::<MdEvent>::empty());
    let mut i: usize = 0;
    while i < events.len()
        invariant
            0 <= i <= events.len(),
            (BuildState { stack: stack_views(stack@), marks: views(marks@) }) == run(
                events@.take(i as int),
            ),
        decreases events.len() - i,
    {
        assert(events@.take(i + 1).drop_last() =~= events@.take(i as int));
        apply_event(&mut stack, &mut marks, &events[i]);
        i += 1;
    }
    assert(events@.take(events.len() as int) =~= events@);
    if stack.len() > 0 {
        let ghost bottom = stack_views(stack@)[0];
        let first = stack.swap_remove(0);
        assert(first@ == bottom);
        close_node(first)
    } else {
        close_node(new_open("doc", None))
    }
}

/// Converts a Markdown string into a Tiptap JSON document.
///
/// The result has the shape `{ "type": "doc", "content": [ ... ] }`.
pub fn markdown_to_tiptap_json(md: &str) -> (doc: Json)
    ensures
        doc@ == tiptap_of_events(commonmark_events(md@)),
        doc@.node_type() == Some("doc"@),
        doc@.children() is Some,
{
    let events = markdown_events(md);
    proof {
        lemma_balanced_is_document(events@);
    }
    tiptap_from_events(&events)
}

// ---------------------------------------------------------------------------
// The document law
// ---------------------------------------------------------------------------
/// The number of open elements that hold a node on the stack (all but marks).
pub open spec fn node_count(open: Seq<MdTag>) -> nat
    decreases open.len(),
{
    if open.len() == 0 {
        0
    } else {
        node_count(open.drop_last()) + if mark_for(open.last()) is None {
            1nat
        } else {
            0nat
        }
    }
}

proof fn lemma_append_keeps_shape(stack: Seq<OpenNodeV>, child: JsonV)
    ensures
        append_child(stack, child).len() == stack.len(),
        stack.len() > 0 ==> append_child(stack, child)[0].node_type == stack[0].node_type,
{
}

proof fn lemma_run_shape(es: Seq<MdEvent>)
    requires
        open_tags(es) is Some,
    ensures
        run(es).stack.len() == 1 + node_count(open_tags(es)->0),
        run(es).stack[0].node_type == "doc"@,
    decreases es.len(),
{
    if es.len() > 0 {
        let pre = es.drop_last();
        lemma_run_shape(pre);
        let st = run(pre);
        let open = open_tags(pre)->0;
        match es.last() {
            MdEvent::Start(t) => {
                assert(open.push(t).drop_last() =~= open);
            },
            MdEvent::End(e) => {
                let top = open.last();
                assert(open =~= open.drop_last().push(top));
                if mark_for(top) is None {
                    lemma_append_keeps_shape(st.stack.drop_last(), close(st.stack.last()));
                    lemma_append_keeps_shape(st.stack.drop_last(), image_node(st.stack.last()));
                }
            },
            MdEvent::Text(s) => {
                lemma_append_keeps_shape(st.stack, text_node(s@, st.marks));
            },
            MdEvent::Code(s) => {
                lemma_append_keeps_shape(st.stack, text_node(s@, st.marks.push(typed("code"@))));
            },
            MdEvent::SoftBreak => {
                lemma_append_keeps_shape(st.stack, text_node(" "@, st.marks));
            },
            MdEvent::HardBreak => {
                lemma_append_keeps_shape(st.stack, typed("hardBreak"@));
            },
            MdEvent::Rule => {
                lemma_append_keeps_shape(st.stack, typed("horizontalRule"@));
            },
            MdEvent::Html(h) => {
                lemma_append_keeps_shape(st.stack, html_node(h@));
            },
            MdEvent::Other => {},
        }
    }
}

/// Law: the conversion of a balanced event sequence (as the parser yields for
/// every Markdown text) is a Tiptap document: an object of type `doc` with a
/// `content` array.
pub proof fn lemma_balanced_is_document(es: Seq<MdEvent>)
    requires
        balanced(es),
    ensures
        tiptap_of_events(es).node_type() == Some("doc"@),
        tiptap_of_events(es).children() is Some,
{
    lemma_run_shape(es);
    let n = run(es).stack[0];
    let ms = close(n)->Object_0;
    assert(crate::json::is_first_key(ms, "type"@, 0));
    crate::json::lemma_first_key_unique(ms, "type"@, 0);
    let ci = ms.len() - 1;
    assert forall|j: int| 0 <= j < ci implies ms[j].key != "content"@ by {
        reveal_strlit("type");
        reveal_strlit("attrs");
        reveal_strlit("content");
        assert(ms[j].key == "type"@ || ms[j].key == "attrs"@);
        assert("type"@[1] != "content"@[1]);
        assert("attrs"@[0] != "content"@[0]);
    }
    assert(crate::json::is_first_key(ms, "content"@, ci));
    crate::json::lemma_first_key_unique(ms, "content"@, ci);
}

// ---------------------------------------------------------------------------
// The marks law
// ---------------------------------------------------------------------------
/// The marks of the open inline elements of `open`, outermost first.
pub open spec fn open_marks(open: Seq<MdTag>) -> Seq<JsonV>
    decreases open.len(),
{
    if open.len() == 0 {
        seq![]
    } else {
        open_marks(open.drop_last()) + match mark_for(open.last()) {
            Some(m) => seq![m],
            None => seq![],
        }
    }
}

/// The name of the mark that an inline end tag switches off.
pub open spec fn mark_name(e: MdTagEnd) -> Option<Seq<char>> {
    match e {
        MdTagEnd::Strong => Some("bold"@),
        MdTagEnd::Emphasis => Some("italic"@),
        MdTagEnd::Strikethrough => Some("strike"@),
        MdTagEnd::Link => Some("link"@),
        _ => None,
    }
}

/// A mark switched on by `t` has the type that its end tag switches off.
proof fn lemma_mark_type(t: MdTag)
    requires
        mark_for(t) is Some,
    ensures
        mark_name(end_of(t)) is Some,
        mark_for(t)->0.node_type() == mark_name(end_of(t)),
{
    let m = mark_for(t)->0;
    let ms = m->Object_0;
    assert(crate::json::is_first_key(ms, "type"@, 0));
    crate::json::lemma_first_key_unique(ms, "type"@, 0);
}

/// Popping the mark of type `name` from marks that end with such a mark
/// removes exactly that last mark.
pub proof fn lemma_pop_last_mark(marks: Seq<JsonV>, m: JsonV, name: Seq<char>)
    requires
        m.node_type() == Some(name),
    ensures
        pop_mark(marks.push(m), name) == marks,
{
    let all = marks.push(m);
    let n = marks.len() as int;
    assert(is_last_mark(all, name, n));
    let i = choose|i: int| is_last_mark(all, name, i);
    assert(is_last_mark(all, name, i));
    if i < n {
        assert(all[n].node_type() == Some(name));
    }
    assert(i == n);
    assert(all.remove(n) =~= marks);
}

/// The active marks after `pre` then `inner` are those after `pre`, followed
/// by the marks of the inline elements that `inner` left open.
pub proof fn lemma_marks_follow_open_elements(pre: Seq<MdEvent>, inner: Seq<MdEvent>)
    requires
        open_tags(inner) is Some,
    ensures
        run(pre + inner).marks == run(pre).marks + open_marks(open_tags(inner)->0),
    decreases inner.len(),
{
    if inner.len() == 0 {
        assert(pre + inner =~= pre);
        assert(run(pre).marks + open_marks(seq![]) =~= run(pre).marks);
    } else {
        let prev = inner.drop_last();
        lemma_marks_follow_open_elements(pre, prev);
        let es = pre + inner;
        assert(es.drop_last() =~= pre + prev);
        assert(es.last() == inner.last());
        let st = run(pre + prev);
        let open = open_tags(prev)->0;
        let base = run(pre).marks;
        assert(run(es) == step(st, inner.last()));
        match inner.last() {
            MdEvent::Start(t) => {
                assert(open.push(t).drop_last() =~= open);
                match mark_for(t) {
                    Some(m) => {
                        assert((base + open_marks(open)).push(m) =~= base + (open_marks(open)
                            + seq![m]));
                    },
                    None => {
                        assert(open_marks(open) + seq![] =~= open_marks(open));
                    },
                }
            },
            MdEvent::End(e) => {
                let top = open.last();
                let rest = open.drop_last();
                match mark_for(top) {
                    Some(m) => {
                        lemma_mark_type(top);
                        assert(open_marks(open) == open_marks(rest) + seq![m]);
                        assert(base + open_marks(open) =~= (base + open_marks(rest)).push(m));
                        lemma_pop_last_mark(base + open_marks(rest), m, mark_name(e)->0);
                    },
                    None => {
                        assert(open_marks(open) =~= open_marks(rest));
                    },
                }
            },
            _ => {},
        }
    }
}

/// Law: a closed stretch of Markdown (balanced start and end events, such
/// as a whole link, emphasis or paragraph) leaves the active marks as they
/// were before it: text after a closed link, emphasis or strong span carries
/// none of its marks.
pub proof fn lemma_closed_elements_restore_marks(pre: Seq<MdEvent>, inner: Seq<MdEvent>)
    requires
        balanced(inner),
    ensures
        run(pre + inner).marks == run(pre).marks,
{
    lemma_marks_follow_open_elements(pre, inner);
    assert(run(pre).marks + open_marks(Seq::<MdTag>::empty()) =~= run(pre).marks);
}

/// Law: while a link is open, text carries the marks active before it plus
/// the link mark to its destination, and once it is closed the marks are
/// back to those before it.
pub proof fn lemma_link_marks_its_text_only(
    pre: Seq<MdEvent>,
    href: String,
    inner: Seq<MdEvent>,
)
    requires
        balanced(inner),
    ensures
        run(pre + seq![MdEvent::Start(MdTag::Link(href))] + inner).marks == run(pre).marks.push(
            link_mark(href@),
        ),
        run(pre + seq![MdEvent::Start(MdTag::Link(href))] + inner + seq![MdEvent::End(MdTagEnd::Link)]).marks
            == run(pre).marks,
{
    let open1 = pre + seq![MdEvent::Start(MdTag::Link(href))];
    assert(open1.drop_last() =~= pre);
    assert(run(open1) == step(run(pre), MdEvent::Start(MdTag::Link(href))));
    lemma_closed_elements_restore_marks(open1, inner);
    let body = open1 + inner;
    let all = body + seq![MdEvent::End(MdTagEnd::Link)];
    assert(all.drop_last() =~= body);
    assert(run(all) == step(run(body), MdEvent::End(MdTagEnd::Link)));
    lemma_mark_type(MdTag::Link(href));
    lemma_pop_last_mark(run(pre).marks, link_mark(href@), "link"@);
}

/// Law: text is marked by exactly the inline elements open around it: a
/// text event adds to the innermost open node a text node carrying the marks
/// of the open links, strong, emphasis and strikethrough spans, outermost
/// first.
pub proof fn lemma_text_carries_open_marks(es: Seq<MdEvent>, t: String)
    requires
        open_tags(es) is Some,
    ensures
        run(es.push(MdEvent::Text(t))).stack == append_child(
            run(es).stack,
            text_node(t@, open_marks(open_tags(es)->0)),
        ),
{
    lemma_marks_follow_open_elements(Seq::<MdEvent>::empty(), es);
    assert(Seq::<MdEvent>::empty() + es =~= es);
    assert(Seq::<JsonV>::empty() + open_marks(open_tags(es)->0) =~= open_marks(open_tags(es)->0));
    assert(es.push(MdEvent::Text(t)).drop_last() =~= es);
}

/// `a`'s content is `b`'s content followed by more children, with the same
/// type and attributes.
pub open spec fn extends(b: OpenNodeV, a: OpenNodeV) -> bool {
    &&& a.node_type == b.node_type
    &&& a.attrs == b.attrs
    &&& b.content.len() <= a.content.len()
    &&& a.content.take(b.content.len() as int) == b.content
}

/// The stack after `pre` then `inner`: the nodes below the innermost one
/// after `pre` are untouched, the innermost one only gains children, and
/// one node stands above it per block element that `inner` left open.
proof fn lemma_stack_follows_open_elements(pre: Seq<MdEvent>, inner: Seq<MdEvent>)
    requires
        open_tags(inner) is Some,
        run(pre).stack.len() > 0,
    ensures
        ({
            let before = run(pre).stack;
            let after = run(pre + inner).stack;
            let n = before.len() as int;
            &&& after.len() == n + node_count(open_tags(inner)->0)
            &&& forall|j: int| 0 <= j < n - 1 ==> after[j] == before[j]
            &&& extends(before[n - 1], after[n - 1])
        }),
    decreases inner.len(),
{
    let before = run(pre).stack;
    let n = before.len() as int;
    if inner.len() == 0 {
        assert(pre + inner =~= pre);
        assert(before[n - 1].content.take(before[n - 1].content.len() as int) =~= before[n
            - 1].content);
    } else {
        let prev = inner.drop_last();
        lemma_stack_follows_open_elements(pre, prev);
        let es = pre + inner;
        assert(es.drop_last() =~= pre + prev);
        assert(es.last() == inner.last());
        let st = run(pre + prev);
        let mid = st.stack;
        let open = open_tags(prev)->0;
        let k = node_count(open);
        assert(run(es) == step(st, inner.last()));
        let after = run(es).stack;
        let b = before[n - 1];
        let m = mid[n - 1];
        assert forall|child: JsonV| k == 0 implies extends(b, #[trigger] append_child(mid, child)[n
            - 1]) by {
            let a = append_child(mid, child)[n - 1];
            assert(a.content == m.content.push(child));
            assert(a.content.take(b.content.len() as int) =~= m.content.take(
                b.content.len() as int,
            ));
        }
        assert forall|child: JsonV, j: int|
            0 <= j < n - 1 && k == 0 implies #[trigger] append_child(mid, child)[j] == mid[j] by {}
        assert forall|child: JsonV, j: int|
            0 <= j < n && k > 0 implies #[trigger] append_child(mid, child)[j] == mid[j] by {}
        match inner.last() {
            MdEvent::Start(t) => {
                assert(open.push(t).drop_last() =~= open);
                assert(open.push(t).last() == t);
            },
            MdEvent::End(e) => {
                let top = open.last();
                let rest = open.drop_last();
                assert(open =~= rest.push(top));
                if mark_for(top) is None {
                    let lower = mid.drop_last();
                    let kr = node_count(rest);
                    assert(lower.len() == n + kr);
                    assert forall|child: JsonV| kr == 0 implies extends(
                        b,
                        #[trigger] append_child(lower, child)[n - 1],
                    ) by {
                        let a = append_child(lower, child)[n - 1];
                        assert(lower[n - 1] == m);
                        assert(a.content == m.content.push(child));
                        assert(a.content.take(b.content.len() as int) =~= m.content.take(
                            b.content.len() as int,
                        ));
                    }
                    assert forall|child: JsonV, j: int|
                        0 <= j < n - 1 && kr == 0 implies #[trigger] append_child(lower, child)[j]
                        == mid[j] by {}
                    assert forall|child: JsonV, j: int|
                        0 <= j < n && kr > 0 implies #[trigger] append_child(lower, child)[j]
                        == mid[j] by {}
                }
            },
            _ => {},
        }
    }
}

/// Law: a closed stretch of Markdown (balanced start and end events) leaves
/// the stack of open nodes as it found it, except that the innermost node has
/// gained children after the ones it had: nothing is dropped, reordered or
/// attached elsewhere.
pub proof fn lemma_closed_elements_keep_stack(pre: Seq<MdEvent>, inner: Seq<MdEvent>)
    requires
        balanced(inner),
        run(pre).stack.len() > 0,
    ensures
        ({
            let before = run(pre).stack;
            let after = run(pre + inner).stack;
            let n = before.len() as int;
            &&& after.len() == n
            &&& after.drop_last() == before.drop_last()
            &&& extends(before[n - 1], after[n - 1])
        }),
{
    lemma_stack_follows_open_elements(pre, inner);
    let before = run(pre).stack;
    let after = run(pre + inner).stack;
    assert(after.drop_last() =~= before.drop_last());
}

/// Law: a closed block element becomes exactly one new child of the node
/// around it: the node that its start tag opens (same type and attributes),
/// holding what was built inside it; every other open node is unchanged.
pub proof fn lemma_block_becomes_one_child(pre: Seq<MdEvent>, t: MdTag, inner: Seq<MdEvent>)
    requires
        mark_for(t) is None,
        end_of(t) == MdTagEnd::Other,
        balanced(inner),
        run(pre).stack.len() > 0,
    ensures
        ({
            let opened = pre.push(MdEvent::Start(t));
            let content = run(opened + inner).stack.last().content;
            run(opened + inner).stack.len() == run(pre).stack.len() + 1 && run(
                opened + inner + seq![MdEvent::End(MdTagEnd::Other)],
            ).stack == append_child(
                run(pre).stack,
                close(OpenNodeV { content, ..node_for(t) }),
            )
        }),
{
    let opened = pre.push(MdEvent::Start(t));
    assert(opened.drop_last() =~= pre);
    assert(run(opened) == step(run(pre), MdEvent::Start(t)));
    let before = run(opened).stack;
    assert(before == run(pre).stack.push(node_for(t)));
    lemma_closed_elements_keep_stack(opened, inner);
    let body = opened + inner;
    let after = run(body).stack;
    let n = before.len() as int;
    let all = body + seq![MdEvent::End(MdTagEnd::Other)];
    assert(all.drop_last() =~= body);
    assert(run(all) == step(run(body), MdEvent::End(MdTagEnd::Other)));
    assert(after.drop_last() == before.drop_last());
    assert(before.drop_last() =~= run(pre).stack);
    let top = after.last();
    assert(top == after[n - 1]);
    assert(extends(before[n - 1], top));
    assert(before[n - 1] == node_for(t));
    assert(top == OpenNodeV { content: top.content, ..node_for(t) });
}

/// Law: a closed image becomes exactly one new child of the node around it:
/// an image with its destination and title, whose `alt` is the text written
/// inside it; every other open node is unchanged.
pub proof fn lemma_image_becomes_one_child(
    pre: Seq<MdEvent>,
    src: String,
    title: String,
    inner: Seq<MdEvent>,
)
    requires
        balanced(inner),
        run(pre).stack.len() > 0,
    ensures
        ({
            let opened = pre.push(MdEvent::Start(MdTag::Image(src, title)));
            let content = run(opened + inner).stack.last().content;
            run(opened + inner + seq![MdEvent::End(MdTagEnd::Image)]).stack == append_child(
                run(pre).stack,
                JsonV::Object(
                    seq![
                        str_member("type"@, "image"@),
                        MemberV {
                            key: "attrs"@,
                            value: JsonV::Object(
                                seq![
                                    str_member("src"@, src@),
                                    str_member("title"@, title@),
                                    str_member("alt"@, text_join(content)),
                                ],
                            ),
                        },
                    ],
                ),
            )
        }),
{
    let t = MdTag::Image(src, title);
    let opened = pre.push(MdEvent::Start(t));
    assert(opened.drop_last() =~= pre);
    assert(run(opened) == step(run(pre), MdEvent::Start(t)));
    let before = run(opened).stack;
    lemma_closed_elements_keep_stack(opened, inner);
    let body = opened + inner;
    let after = run(body).stack;
    let n = before.len() as int;
    let all = body + seq![MdEvent::End(MdTagEnd::Image)];
    assert(all.drop_last() =~= body);
    assert(run(all) == step(run(body), MdEvent::End(MdTagEnd::Image)));
    assert(before.drop_last() =~= run(pre).stack);
    let top = after.last();
    assert(top == after[n - 1]);
    assert(extends(before[n - 1], top));
    assert(top.attrs == Some(seq![str_member("src"@, src@), str_member("title"@, title@)]));
    assert(seq![str_member("src"@, src@), str_member("title"@, title@)].push(
        str_member("alt"@, text_join(top.content)),
    ) =~= seq![
        str_member("src"@, src@),
        str_member("title"@, title@),
        str_member("alt"@, text_join(top.content)),
    ]);
}

} // verus!
