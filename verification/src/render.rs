//! Tiptap JSON -> Markdown.
//!
//! The renderer walks a Tiptap document tree and emits Markdown: blocks end
//! with a blank line, list items are prefixed with `- ` or their number and
//! their continuation blocks are indented under the prefix, block quotes
//! prefix every line with `> `, and text is wrapped in the syntax of its marks.
use vstd::prelude::*;
use crate::json::{Json, JsonV, MemberV, views, lemma_children_smaller, str_eq, is_first_key, key_pos, lemma_first_key_unique, str_member};
use crate::markdown::{text_join, tiptap_of_events, run, step, initial_state, close, text_node, node_for, open_node, MdEvent, MdTag, MdTagEnd, OpenNodeV, BuildState, append_child, pop_and_append, level_number, mark_for, link_mark, pop_mark, is_last_mark};
use crate::codec::{json_of_text, parse_json};
use crate::text::{
    chars_of, decimal, lines, push_chars, push_decimal, push_repeat, push_str,
    push_trimmed_newlines, repeat, split_lines, string_of, trim_end_newlines,
};

verus! {

// ---------------------------------------------------------------------------
// The specification of the rendering
// ---------------------------------------------------------------------------
/// The string, or nothing.
pub open spec fn or_empty(s: Option<Seq<char>>) -> Seq<char> {
    match s {
        Some(t) => t,
        None => seq![],
    }
}

/// `inner` wrapped in the Markdown syntax of `mark` (unknown marks add nothing).
pub open spec fn wrap_mark(mark: JsonV, inner: Seq<char>) -> Seq<char> {
    let t = mark.node_type();
    if t == Some("bold"@) {
        "**"@ + inner + "**"@
    } else if t == Some("italic"@) {
        "*"@ + inner + "*"@
    } else if t == Some("code"@) {
        "`"@ + inner + "`"@
    } else if t == Some("strike"@) {
        "~~"@ + inner + "~~"@
    } else if t == Some("link"@) {
        "["@ + inner + "]("@ + or_empty(mark.attr("href"@).as_str()) + ")"@
    } else {
        inner
    }
}

/// `text` wrapped in `marks`, the first mark outermost.
pub open spec fn apply_marks(marks: Seq<JsonV>, text: Seq<char>) -> Seq<char>
    decreases marks.len(),
{
    if marks.len() == 0 {
        text
    } else {
        wrap_mark(marks[0], apply_marks(marks.drop_first(), text))
    }
}

/// A text node: its text wrapped in its marks.
pub open spec fn render_text(node: JsonV) -> Seq<char> {
    let text = or_empty(node.str_field("text"@));
    match node.field("marks"@).as_array() {
        Some(marks) => apply_marks(marks, text),
        None => text,
    }
}

/// The text of a code block: the `text` strings of its children.
pub open spec fn code_text(node: JsonV) -> Seq<char> {
    match node.children() {
        Some(cs) => text_join(cs),
        None => seq![],
    }
}

/// Every line prefixed with `indent` and `> ` and ended with a newline.
pub open spec fn quote_lines(ls: Seq<Seq<char>>, indent: Seq<char>) -> Seq<char>
    decreases ls.len(),
{
    if ls.len() == 0 {
        seq![]
    } else {
        quote_lines(ls.drop_last(), indent) + indent + "> "@ + ls.last() + "\n"@
    }
}

/// `n` copies of the table separator cell ` --- |`.
pub open spec fn separator_cells(n: nat) -> Seq<char>
    decreases n,
{
    if n == 0 {
        seq![]
    } else {
        separator_cells((n - 1) as nat) + " --- |"@
    }
}

/// The prefix of the item at position `i` of an ordered list starting at `start`.
pub open spec fn number_prefix(start: u64, i: int) -> Seq<char> {
    decimal(start.wrapping_add(i as u64) as nat) + ". "@
}

/// The Markdown of a node, its lines indented by `indent`.
pub open spec fn node_md(node: JsonV, indent: Seq<char>) -> Seq<char>
    decreases node, 5int,
{
    proof {
        if node.children() is Some {
            lemma_children_smaller(node);
        }
    }
    let t = node.node_type();
    if t == Some("doc"@) {
        match node.children() {
            Some(cs) => children_md(cs, indent),
            None => seq![],
        }
    } else if t == Some("heading"@) {
        let level = match node.attr("level"@).as_u64() {
            Some(l) => l,
            None => 1,
        };
        indent + repeat('#', level as nat) + " "@ + inline_content(node) + "\n\n"@
    } else if t == Some("paragraph"@) {
        let text = inline_content(node);
        if text.len() == 0 {
            "\n"@
        } else {
            indent + text + "\n\n"@
        }
    } else if t == Some("codeBlock"@) {
        let lang = or_empty(node.attr("language"@).as_str());
        indent + "```"@ + lang + "\n"@ + code_text(node) + "\n"@ + indent + "```\n\n"@
    } else if t == Some("bulletList"@) {
        (match node.children() {
            Some(cs) => bullet_items(cs, indent),
            None => seq![],
        }) + "\n"@
    } else if t == Some("orderedList"@) {
        let start = match node.attr("start"@).as_u64() {
            Some(s) => s,
            None => 1,
        };
        (match node.children() {
            Some(cs) => ordered_items(cs, indent, start),
            None => seq![],
        }) + "\n"@
    } else if t == Some("listItem"@) {
        match node.children() {
            Some(cs) => children_md(cs, indent),
            None => seq![],
        }
    } else if t == Some("blockquote"@) {
        let inner = match node.children() {
            Some(cs) => children_md(cs, seq![]),
            None => seq![],
        };
        quote_lines(lines(inner), indent) + "\n"@
    } else if t == Some("horizontalRule"@) {
        indent + "---\n\n"@
    } else if t == Some("hardBreak"@) {
        "  \n"@
    } else if t == Some("image"@) {
        let src = or_empty(node.attr("src"@).as_str());
        let alt = or_empty(node.attr("alt"@).as_str());
        indent + "!["@ + alt + "]("@ + src + ")\n\n"@
    } else if t == Some("table"@) {
        table_md(node, indent)
    } else if t == Some("text"@) {
        render_text(node)
    } else {
        match node.children() {
            Some(cs) => children_md(cs, indent),
            None => seq![],
        }
    }
}

/// The Markdown of a sequence of sibling nodes, concatenated.
pub open spec fn children_md(cs: Seq<JsonV>, indent: Seq<char>) -> Seq<char>
    decreases cs, 0int,
{
    if cs.len() == 0 {
        seq![]
    } else {
        children_md(cs.drop_last(), indent) + node_md(cs.last(), indent)
    }
}

/// The inline content of a block node: text nodes with their marks, hard
/// breaks, and the inline content of any other child.
pub open spec fn inline_content(node: JsonV) -> Seq<char>
    decreases node, 3int,
{
    proof {
        if node.children() is Some {
            lemma_children_smaller(node);
        }
    }
    match node.children() {
        Some(cs) => inline_seq(cs),
        None => seq![],
    }
}

/// The inline content of a sequence of sibling nodes.
pub open spec fn inline_seq(cs: Seq<JsonV>) -> Seq<char>
    decreases cs, 0int,
{
    if cs.len() == 0 {
        seq![]
    } else {
        let c = cs.last();
        inline_seq(cs.drop_last()) + (if c.node_type() == Some("text"@) {
            render_text(c)
        } else if c.node_type() == Some("hardBreak"@) {
            "  \n"@
        } else {
            inline_content(c)
        })
    }
}

/// The items of a bullet list.
pub open spec fn bullet_items(cs: Seq<JsonV>, indent: Seq<char>) -> Seq<char>
    decreases cs, 0int,
{
    if cs.len() == 0 {
        seq![]
    } else {
        bullet_items(cs.drop_last(), indent) + list_item_md(cs.last(), indent, "- "@)
    }
}

/// The items of an ordered list numbered from `start`.
pub open spec fn ordered_items(cs: Seq<JsonV>, indent: Seq<char>, start: u64) -> Seq<char>
    decreases cs, 0int,
{
    if cs.len() == 0 {
        seq![]
    } else {
        ordered_items(cs.drop_last(), indent, start) + list_item_md(
            cs.last(),
            indent,
            number_prefix(start, cs.len() - 1),
        )
    }
}

/// One list item: its first child on the prefixed line, the others below,
/// indented by the width of the prefix.
pub open spec fn list_item_md(item: JsonV, indent: Seq<char>, prefix: Seq<char>) -> Seq<char>
    decreases item, 0int,
{
    proof {
        if item.children() is Some {
            lemma_children_smaller(item);
        }
    }
    match item.children() {
        Some(cs) => item_children(cs, indent, prefix, indent + repeat(' ', prefix.len())),
        None => seq![],
    }
}

/// The children of a list item.
pub open spec fn item_children(
    cs: Seq<JsonV>,
    indent: Seq<char>,
    prefix: Seq<char>,
    child_indent: Seq<char>,
) -> Seq<char>
    decreases cs, 0int,
{
    if cs.len() == 0 {
        seq![]
    } else if cs.len() == 1 {
        indent + prefix + trim_end_newlines(inline_or_block(cs[0], child_indent)) + "\n"@
    } else {
        item_children(cs.drop_last(), indent, prefix, child_indent) + node_md(
            cs.last(),
            child_indent,
        )
    }
}

/// A paragraph's inline content, or any other node's Markdown.
pub open spec fn inline_or_block(node: JsonV, indent: Seq<char>) -> Seq<char>
    decreases node, 6int,
{
    if node.node_type() == Some("paragraph"@) {
        inline_content(node)
    } else {
        node_md(node, indent)
    }
}

/// A table as a GitHub-flavored Markdown table.
pub open spec fn table_md(node: JsonV, indent: Seq<char>) -> Seq<char> {
    match node.children() {
        Some(rows) => rows_md(rows, indent) + "\n"@,
        None => seq![],
    }
}

/// The rows of a table.
pub open spec fn rows_md(rows: Seq<JsonV>, indent: Seq<char>) -> Seq<char>
    decreases rows, 0int,
{
    if rows.len() == 0 {
        seq![]
    } else {
        rows_md(rows.drop_last(), indent) + row_md(rows.last(), rows.len() - 1, indent)
    }
}

/// One table row (rows without a cell array render as nothing); the first
/// row is followed by the separator line.
pub open spec fn row_md(row: JsonV, idx: int, indent: Seq<char>) -> Seq<char> {
    match row.children() {
        Some(cells) => indent + "|"@ + cells_md(cells) + "\n"@ + (if idx == 0 {
            indent + "|"@ + separator_cells(cells.len()) + "\n"@
        } else {
            seq![]
        }),
        None => seq![],
    }
}

/// The cells of a table row.
pub open spec fn cells_md(cells: Seq<JsonV>) -> Seq<char>
    decreases cells, 0int,
{
    if cells.len() == 0 {
        seq![]
    } else {
        cells_md(cells.drop_last()) + " "@ + inline_content(cells.last()) + " |"@
    }
}

// ---------------------------------------------------------------------------
// The rendering
// ---------------------------------------------------------------------------
/// Whether `node` has node type `t`.
fn is_type(node: &Json, t: &str) -> (r: bool)
    ensures
        r == (node@.node_type() == Some(t@)),
{
    match node.str_field("type") {
        Some(s) => str_eq(s, t),
        None => false,
    }
}

/// The characters of an optional string, or nothing.
fn chars_or_empty(s: Option<&str>) -> (v: Vec<char>)
    ensures
        v@ == or_empty(
            match s {
                Some(t) => Some(t@),
                None => None,
            },
        ),
{
    match s {
        Some(t) => chars_of(t),
        None => Vec::new(),
    }
}

/// `open + inner + close`.
fn surround(open: &str, inner: &Vec<char>, close: &str) -> (r: Vec<char>)
    ensures
        r@ == open@ + inner@ + close@,
{
    let mut r: Vec<char> = Vec::new();
    push_str(&mut r, open);
    push_chars(&mut r, inner);
    push_str(&mut r, close);
    assert(r@ =~= open@ + inner@ + close@);
    r
}

fn render_mark(mark: &Json, inner: Vec<char>) -> (r: Vec<char>)
    ensures
        r@ == wrap_mark(mark@, inner@),
{
    if is_type(mark, "bold") {
        surround("**", &inner, "**")
    } else if is_type(mark, "italic") {
        surround("*", &inner, "*")
    } else if is_type(mark, "code") {
        surround("`", &inner, "`")
    } else if is_type(mark, "strike") {
        surround("~~", &inner, "~~")
    } else if is_type(mark, "link") {
        let href = match mark.attr("href") {
            Some(h) => h.as_str(),
            None => None,
        };
        let href_chars = chars_or_empty(href);
        let mut r = surround("[", &inner, "](");
        push_chars(&mut r, &href_chars);
        push_str(&mut r, ")");
        r
    } else {
        inner
    }
}

fn render_text_node(node: &Json) -> (r: Vec<char>)
    ensures
        r@ == render_text(node@),
{
    let text = chars_or_empty(node.str_field("text"));
    match node.array_field("marks") {
        Some(marks) => {
            let ghost mv = views(marks@);
            let mut r = text;
            let mut k: usize = marks.len();
            assert(mv.skip(k as int) =~= Seq::<JsonV>::empty());
            while k > 0
                invariant
                    0 <= k <= marks.len(),
                    mv == views(marks@),
                    r@ == apply_marks(mv.skip(k as int), or_empty(node@.str_field("text"@))),
                decreases k,
            {
                assert(mv.skip(k - 1).drop_first() =~= mv.skip(k as int));
                assert(mv.skip(k - 1)[0] == marks@[k - 1]@);
                r = render_mark(&marks[k - 1], r);
                k -= 1;
            }
            assert(mv.skip(0) =~= mv);
            r
        },
        None => text,
    }
}

fn render_code_text(node: &Json) -> (r: Vec<char>)
    ensures
        r@ == code_text(node@),
{
    match node.array_field("content") {
        Some(cs) => crate::markdown::text_join_of(cs),
        None => Vec::new(),
    }
}

/// The Markdown of a node.
fn render_node(node: &Json, indent: &Vec<char>) -> (r: Vec<char>)
    ensures
        r@ == node_md(node@, indent@),
    decreases node@, 5int,
{
    proof {
        if node@.children() is Some {
            lemma_children_smaller(node@);
        }
    }
    if is_type(node, "doc") {
        match node.array_field("content") {
            Some(cs) => render_children(cs, indent),
            None => Vec::new(),
        }
    } else if is_type(node, "heading") {
        let level = match node.attr("level") {
            Some(l) => match l.as_u64() {
                Some(n) => n,
                None => 1,
            },
            None => 1,
        };
        let mut r: Vec<char> = Vec::new();
        push_chars(&mut r, indent);
        push_repeat(&mut r, '#', level);
        push_str(&mut r, " ");
        let inner = render_inline(node);
        push_chars(&mut r, &inner);
        push_str(&mut r, "\n\n");
        r
    } else if is_type(node, "paragraph") {
        let text = render_inline(node);
        if text.len() == 0 {
            chars_of("\n")
        } else {
            let mut r: Vec<char> = Vec::new();
            push_chars(&mut r, indent);
            push_chars(&mut r, &text);
            push_str(&mut r, "\n\n");
            r
        }
    } else if is_type(node, "codeBlock") {
        let lang = match node.attr("language") {
            Some(l) => chars_or_empty(l.as_str()),
            None => Vec::new(),
        };
        let text = render_code_text(node);
        let mut r: Vec<char> = Vec::new();
        push_chars(&mut r, indent);
        push_str(&mut r, "```");
        push_chars(&mut r, &lang);
        push_str(&mut r, "\n");
        push_chars(&mut r, &text);
        push_str(&mut r, "\n");
        push_chars(&mut r, indent);
        push_str(&mut r, "```\n\n");
        r
    } else if is_type(node, "bulletList") {
        let mut r = match node.array_field("content") {
            Some(cs) => render_bullet_items(cs, indent),
            None => Vec::new(),
        };
        push_str(&mut r, "\n");
        r
    } else if is_type(node, "orderedList") {
        let start = match node.attr("start") {
            Some(s) => match s.as_u64() {
                Some(n) => n,
                None => 1,
            },
            None => 1,
        };
        let mut r = match node.array_field("content") {
            Some(cs) => render_ordered_items(cs, indent, start),
            None => Vec::new(),
        };
        push_str(&mut r, "\n");
        r
    } else if is_type(node, "listItem") {
        match node.array_field("content") {
            Some(cs) => render_children(cs, indent),
            None => Vec::new(),
        }
    } else if is_type(node, "blockquote") {
        let inner = match node.array_field("content") {
            Some(cs) => render_children(cs, &Vec::new()),
            None => Vec::new(),
        };
        let ls = split_lines(&inner);
        let ghost lv = lines(inner@);
        let mut r: Vec<char> = Vec::new();
        let mut j: usize = 0;
        assert(lv.take(0) =~= Seq::<Seq<char>>::empty());
        while j < ls.len()
            invariant
                0 <= j <= ls.len(),
                ls@.len() == lv.len(),
                forall|k: int| 0 <= k < ls@.len() ==> #[trigger] ls@[k]@ == lv[k],
                r@ == quote_lines(lv.take(j as int), indent@),
            decreases ls.len() - j,
        {
            assert(lv.take(j + 1).drop_last() =~= lv.take(j as int));
            assert(ls@[j as int]@ == lv[j as int]);
            push_chars(&mut r, indent);
            push_str(&mut r, "> ");
            push_chars(&mut r, &ls[j]);
            push_str(&mut r, "\n");
            j += 1;
        }
        assert(lv.take(ls.len() as int) =~= lv);
        push_str(&mut r, "\n");
        r
    } else if is_type(node, "horizontalRule") {
        let mut r: Vec<char> = Vec::new();
        push_chars(&mut r, indent);
        push_str(&mut r, "---\n\n");
        r
    } else if is_type(node, "hardBreak") {
        chars_of("  \n")
    } else if is_type(node, "image") {
        let src = match node.attr("src") {
            Some(v) => chars_or_empty(v.as_str()),
            None => Vec::new(),
        };
        let alt = match node.attr("alt") {
            Some(v) => chars_or_empty(v.as_str()),
            None => Vec::new(),
        };
        let mut r: Vec<char> = Vec::new();
        push_chars(&mut r, indent);
        push_str(&mut r, "![");
        push_chars(&mut r, &alt);
        push_str(&mut r, "](");
        push_chars(&mut r, &src);
        push_str(&mut r, ")\n\n");
        r
    } else if is_type(node, "table") {
        render_table(node, indent)
    } else if is_type(node, "text") {
        render_text_node(node)
    } else {
        match node.array_field("content") {
            Some(cs) => render_children(cs, indent),
            None => Vec::new(),
        }
    }
}

/// The Markdown of sibling nodes, concatenated.
fn render_children(cs: &Vec<Json>, indent: &Vec<char>) -> (r: Vec<char>)
    ensures
        r@ == children_md(views(cs@), indent@),
    decreases views(cs@), 0int,
{
    let ghost cv = views(cs@);
    let mut r: Vec<char> = Vec::new();
    let mut i: usize = 0;
    assert(cv.take(0) =~= Seq::<JsonV>::empty());
    while i < cs.len()
        invariant
            0 <= i <= cs.len(),
            cv == views(cs@),
            r@ == children_md(cv.take(i as int), indent@),
        decreases cs.len() - i,
    {
        assert(cv.take(i + 1).drop_last() =~= cv.take(i as int));
        assert(cv[i as int] == cs@[i as int]@);
        assert(decreases_to!(cv => cv[i as int]));
        let part = render_node(&cs[i], indent);
        push_chars(&mut r, &part);
        i += 1;
    }
    assert(cv.take(cs.len() as int) =~= cv);
    r
}

/// The inline content of a block node.
fn render_inline(node: &Json) -> (r: Vec<char>)
    ensures
        r@ == inline_content(node@),
    decreases node@, 3int,
{
    proof {
        if node@.children() is Some {
            lemma_children_smaller(node@);
        }
    }
    match node.array_field("content") {
        Some(cs) => {
            let ghost cv = views(cs@);
            let mut r: Vec<char> = Vec::new();
            let mut i: usize = 0;
            assert(cv.take(0) =~= Seq::<JsonV>::empty());
            while i < cs.len()
                invariant
                    0 <= i <= cs.len(),
                    cv == views(cs@),
                    cv == node@.children()->0,
                    decreases_to!(node@ => cv),
                    r@ == inline_seq(cv.take(i as int)),
                decreases cs.len() - i,
            {
                assert(cv.take(i + 1).drop_last() =~= cv.take(i as int));
                assert(cv[i as int] == cs@[i as int]@);
                assert(decreases_to!(cv => cv[i as int]));
                let c = &cs[i];
                let part = if is_type(c, "text") {
                    render_text_node(c)
                } else if is_type(c, "hardBreak") {
                    chars_of("  \n")
                } else {
                    render_inline(c)
                };
                push_chars(&mut r, &part);
                i += 1;
            }
            assert(cv.take(cs.len() as int) =~= cv);
            r
        },
        None => Vec::new(),
    }
}

/// The items of a bullet list.
fn render_bullet_items(cs: &Vec<Json>, indent: &Vec<char>) -> (r: Vec<char>)
    ensures
        r@ == bullet_items(views(cs@), indent@),
    decreases views(cs@), 0int,
{
    let ghost cv = views(cs@);
    let prefix = chars_of("- ");
    let mut r: Vec<char> = Vec::new();
    let mut i: usize = 0;
    assert(cv.take(0) =~= Seq::<JsonV>::empty());
    while i < cs.len()
        invariant
            0 <= i <= cs.len(),
            cv == views(cs@),
            prefix@ == "- "@,
            r@ == bullet_items(cv.take(i as int), indent@),
        decreases cs.len() - i,
    {
        assert(cv.take(i + 1).drop_last() =~= cv.take(i as int));
        assert(cv[i as int] == cs@[i as int]@);
        assert(decreases_to!(cv => cv[i as int]));
        let part = render_list_item(&cs[i], indent, &prefix);
        push_chars(&mut r, &part);
        i += 1;
    }
    assert(cv.take(cs.len() as int) =~= cv);
    r
}

/// The items of an ordered list numbered from `start`.
fn render_ordered_items(cs: &Vec<Json>, indent: &Vec<char>, start: u64) -> (r: Vec<char>)
    ensures
        r@ == ordered_items(views(cs@), indent@, start),
    decreases views(cs@), 0int,
{
    let ghost cv = views(cs@);
    let mut r: Vec<char> = Vec::new();
    let mut i: usize = 0;
    assert(cv.take(0) =~= Seq::<JsonV>::empty());
    while i < cs.len()
        invariant
            0 <= i <= cs.len(),
            cv == views(cs@),
            r@ == ordered_items(cv.take(i as int), indent@, start),
        decreases cs.len() - i,
    {
        assert(cv.take(i + 1).drop_last() =~= cv.take(i as int));
        assert(cv[i as int] == cs@[i as int]@);
        assert(decreases_to!(cv => cv[i as int]));
        let mut prefix: Vec<char> = Vec::new();
        push_decimal(&mut prefix, start.wrapping_add(i as u64));
        push_str(&mut prefix, ". ");
        assert(prefix@ =~= number_prefix(start, i as int));
        let part = render_list_item(&cs[i], indent, &prefix);
        push_chars(&mut r, &part);
        i += 1;
    }
    assert(cv.take(cs.len() as int) =~= cv);
    r
}

/// One list item.
fn render_list_item(item: &Json, indent: &Vec<char>, prefix: &Vec<char>) -> (r: Vec<char>)
    ensures
        r@ == list_item_md(item@, indent@, prefix@),
    decreases item@, 0int,
{
    proof {
        if item@.children() is Some {
            lemma_children_smaller(item@);
        }
    }
    let mut child_indent: Vec<char> = Vec::new();
    push_chars(&mut child_indent, indent);
    push_repeat(&mut child_indent, ' ', prefix.len() as u64);
    match item.array_field("content") {
        Some(cs) => {
            let ghost cv = views(cs@);
            let mut r: Vec<char> = Vec::new();
            let mut i: usize = 0;
            assert(cv.take(0) =~= Seq::<JsonV>::empty());
            while i < cs.len()
                invariant
                    0 <= i <= cs.len(),
                    cv == views(cs@),
                    cv == item@.children()->0,
                    decreases_to!(item@ => cv),
                    child_indent@ == indent@ + repeat(' ', prefix@.len()),
                    r@ == item_children(cv.take(i as int), indent@, prefix@, child_indent@),
                decreases cs.len() - i,
            {
                assert(cv.take(i + 1).drop_last() =~= cv.take(i as int));
                assert(cv[i as int] == cs@[i as int]@);
                assert(decreases_to!(cv => cv[i as int]));
                if i == 0 {
                    let inner = render_inline_or_block(&cs[0], &child_indent);
                    push_chars(&mut r, indent);
                    push_chars(&mut r, prefix);
                    push_trimmed_newlines(&mut r, &inner);
                    push_str(&mut r, "\n");
                    assert(cv.take(1)[0] == cv[0]);
                } else {
                    let part = render_node(&cs[i], &child_indent);
                    push_chars(&mut r, &part);
                }
                i += 1;
            }
            assert(cv.take(cs.len() as int) =~= cv);
            r
        },
        None => Vec::new(),
    }
}

/// A paragraph's inline content, or any other node's Markdown.
fn render_inline_or_block(node: &Json, indent: &Vec<char>) -> (r: Vec<char>)
    ensures
        r@ == inline_or_block(node@, indent@),
    decreases node@, 6int,
{
    if is_type(node, "paragraph") {
        render_inline(node)
    } else {
        render_node(node, indent)
    }
}

/// A table as a GitHub-flavored Markdown table.
fn render_table(node: &Json, indent: &Vec<char>) -> (r: Vec<char>)
    ensures
        r@ == table_md(node@, indent@),
{
    match node.array_field("content") {
        Some(rows) => {
            let ghost rv = views(rows@);
            let mut r: Vec<char> = Vec::new();
            let mut i: usize = 0;
            assert(rv.take(0) =~= Seq::<JsonV>::empty());
            while i < rows.len()
                invariant
                    0 <= i <= rows.len(),
                    rv == views(rows@),
                    r@ == rows_md(rv.take(i as int), indent@),
                decreases rows.len() - i,
            {
                assert(rv.take(i + 1).drop_last() =~= rv.take(i as int));
                assert(rv[i as int] == rows@[i as int]@);
                let part = render_row(&rows[i], i, indent);
                push_chars(&mut r, &part);
                i += 1;
            }
            assert(rv.take(rows.len() as int) =~= rv);
            push_str(&mut r, "\n");
            r
        },
        None => Vec::new(),
    }
}

/// One table row.
fn render_row(row: &Json, idx: usize, indent: &Vec<char>) -> (r: Vec<char>)
    ensures
        r@ == row_md(row@, idx as int, indent@),
{
    match row.array_field("content") {
        Some(cells) => {
            let ghost cv = views(cells@);
            let mut r: Vec<char> = Vec::new();
            push_chars(&mut r, indent);
            push_str(&mut r, "|");
            let ghost head = r@;
            let mut k: usize = 0;
            assert(cv.take(0) =~= Seq::<JsonV>::empty());
            while k < cells.len()
                invariant
                    0 <= k <= cells.len(),
                    cv == views(cells@),
                    r@ == head + cells_md(cv.take(k as int)),
                decreases cells.len() - k,
            {
                assert(cv.take(k + 1).drop_last() =~= cv.take(k as int));
                assert(cv[k as int] == cells@[k as int]@);
                let text = render_inline(&cells[k]);
                push_str(&mut r, " ");
                push_chars(&mut r, &text);
                push_str(&mut r, " |");
                k += 1;
            }
            assert(cv.take(cells.len() as int) =~= cv);
            push_str(&mut r, "\n");
            if idx == 0 {
                push_chars(&mut r, indent);
                push_str(&mut r, "|");
                let mut m: usize = 0;
                let ghost head2 = r@;
                while m < cells.len()
                    invariant
                        0 <= m <= cells.len(),
                        r@ == head2 + separator_cells(m as nat),
                    decreases cells.len() - m,
                {
                    push_str(&mut r, " --- |");
                    m += 1;
                }
                push_str(&mut r, "\n");
            }
            r
        },
        None => Vec::new(),
    }
}

/// Converts a Tiptap JSON document tree back into Markdown text.
pub fn tiptap_json_to_markdown(json: &Json) -> (md: String)
    ensures
        md@ == node_md(json@, seq![]),
{
    let empty: Vec<char> = Vec::new();
    assert(empty@ =~= Seq::<char>::empty());
    string_of(&render_node(json, &empty))
}

/// What `read` prints for a response body `text`, given the JSON value it
/// parses to (if it is JSON): the Markdown of a Tiptap document, else the
/// text itself.
pub open spec fn display_text(text: Seq<char>, parsed: Option<JsonV>) -> Seq<char> {
    match parsed {
        Some(p) => if p.node_type() == Some("doc"@) {
            node_md(p, seq![])
        } else {
            text
        },
        None => text,
    }
}

/// The text that `read` prints for a response body.
pub fn text_for_display(text: &str, parsed: Option<&Json>) -> (r: String)
    ensures
        r@ == display_text(
            text@,
            match parsed {
                Some(p) => Some(p@),
                None => None,
            },
        ),
{
    match parsed {
        Some(p) => if is_type(p, "doc") {
            tiptap_json_to_markdown(p)
        } else {
            text.to_owned()
        },
        None => text.to_owned(),
    }
}

/// What `read` prints for the reply text `text`: the Markdown of the Tiptap
/// document it holds when it is one, else the text itself.
pub fn reply_display(text: &str) -> (r: String)
    ensures
        r@ == display_text(text@, json_of_text(text@)),
{
    let parsed = parse_json(text);
    match parsed {
        Some(p) => text_for_display(text, Some(&p)),
        None => text_for_display(text, None),
    }
}

// ---------------------------------------------------------------------------
// Round trips
// ---------------------------------------------------------------------------
/// No member of `ms` has the key `key`.
proof fn lemma_no_key(ms: Seq<MemberV>, key: Seq<char>)
    requires
        forall|j: int| 0 <= j < ms.len() ==> ms[j].key != key,
    ensures
        key_pos(ms, key) is None,
{
    assert(!exists|i: int| is_first_key(ms, key, i));
}

/// The literal keys and node types used below are pairwise distinct.
proof fn lemma_literals_distinct()
    ensures
        "type"@ != "content"@,
        "type"@ != "text"@,
        "type"@ != "marks"@,
        "text"@ != "marks"@,
        "type"@ != "attrs"@,
        "attrs"@ != "content"@,
        "paragraph"@ != "doc"@,
        "paragraph"@ != "heading"@,
        "heading"@ != "doc"@,
{
    reveal_strlit("type");
    reveal_strlit("content");
    reveal_strlit("marks");
    reveal_strlit("text");
    reveal_strlit("attrs");
    reveal_strlit("paragraph");
    reveal_strlit("doc");
    reveal_strlit("heading");
    assert("type"@[0] != "content"@[0]);
    assert("type"@[0] != "marks"@[0]);
    assert("type"@[1] != "text"@[1]);
    assert("text"@[0] != "marks"@[0]);
    assert("type"@[0] != "attrs"@[0]);
    assert("attrs"@[0] != "content"@[0]);
    assert("paragraph"@[0] != "doc"@[0]);
    assert("paragraph"@[0] != "heading"@[0]);
    assert("heading"@[0] != "doc"@[0]);
}

/// A plain text node renders as its text, inline and as a node.
proof fn lemma_plain_text(t: Seq<char>)
    ensures
        text_node(t, seq![]).node_type() == Some("text"@),
        render_text(text_node(t, seq![])) == t,
{
    lemma_literals_distinct();
    let ms = text_node(t, seq![])->Object_0;
    assert(is_first_key(ms, "type"@, 0));
    lemma_first_key_unique(ms, "type"@, 0);
    assert(is_first_key(ms, "text"@, 1));
    lemma_first_key_unique(ms, "text"@, 1);
    lemma_no_key(ms, "marks"@);
}

/// A closed node without attributes: its type and its children.
proof fn lemma_closed_node(n: OpenNodeV)
    requires
        n.attrs is None,
    ensures
        close(n).node_type() == Some(n.node_type),
        close(n).children() == Some(n.content),
{
    lemma_literals_distinct();
    let ms = close(n)->Object_0;
    assert(is_first_key(ms, "type"@, 0));
    lemma_first_key_unique(ms, "type"@, 0);
    assert(is_first_key(ms, "content"@, 1));
    lemma_first_key_unique(ms, "content"@, 1);
}

/// A closed node with attributes: its type, its children and its attributes.
proof fn lemma_closed_node_with_attrs(n: OpenNodeV)
    requires
        n.attrs is Some,
    ensures
        close(n).node_type() == Some(n.node_type),
        close(n).children() == Some(n.content),
        close(n).field("attrs"@) == JsonV::Object(n.attrs->0),
{
    lemma_literals_distinct();
    let ms = close(n)->Object_0;
    assert(is_first_key(ms, "type"@, 0));
    lemma_first_key_unique(ms, "type"@, 0);
    assert(is_first_key(ms, "attrs"@, 1));
    lemma_first_key_unique(ms, "attrs"@, 1);
    assert(is_first_key(ms, "content"@, 2));
    lemma_first_key_unique(ms, "content"@, 2);
}

/// The document built from one block element holding one plain text: the
/// document node whose only child is the closed block.
proof fn lemma_single_block(tag: MdTag, t: String)
    requires
        mark_for(tag) is None,
    ensures
        tiptap_of_events(seq![MdEvent::Start(tag), MdEvent::Text(t), MdEvent::End(MdTagEnd::Other)])
            == close(
            OpenNodeV {
                node_type: "doc"@,
                attrs: None,
                content: seq![
                    close(OpenNodeV { content: seq![text_node(t@, seq![])], ..node_for(tag) }),
                ],
            },
        ),
{
    let es = seq![MdEvent::Start(tag), MdEvent::Text(t), MdEvent::End(MdTagEnd::Other)];
    let e1 = es.take(1);
    let e2 = es.take(2);
    assert(es.drop_last() =~= e2);
    assert(e2.drop_last() =~= e1);
    assert(e1.drop_last() =~= Seq::<MdEvent>::empty());
    let st0 = initial_state();
    assert(e1.len() == 1 && e1.last() == MdEvent::Start(tag));
    assert(e2.len() == 2 && e2.last() == MdEvent::Text(t));
    assert(es.len() == 3 && es.last() == MdEvent::End(MdTagEnd::Other));
    assert(run(Seq::<MdEvent>::empty()) == st0);
    assert(run(e1) == step(st0, MdEvent::Start(tag)));
    let st1 = run(e1);
    assert(st1.stack =~= seq![open_node("doc"@, None), node_for(tag)]);
    let st2 = run(e2);
    assert(st2 == step(st1, MdEvent::Text(t)));
    let p = OpenNodeV { content: seq![text_node(t@, seq![])], ..node_for(tag) };
    assert(node_for(tag).content =~= Seq::<JsonV>::empty());
    assert(st2.stack =~= seq![open_node("doc"@, None), p]);
    let st3 = run(es);
    assert(st3 == step(st2, MdEvent::End(MdTagEnd::Other)));
    assert(st2.stack.drop_last() =~= seq![open_node("doc"@, None)]);
    assert(st3.stack =~= seq![
        OpenNodeV { node_type: "doc"@, attrs: None, content: seq![close(p)] },
    ]);
}

/// The line of a table row: its cells between bars (a row without a cell
/// array gives no line).
pub open spec fn row_line(row: JsonV, indent: Seq<char>) -> Seq<char> {
    match row.children() {
        Some(cells) => indent + "|"@ + cells_md(cells) + "\n"@,
        None => seq![],
    }
}

/// The separator line under a header row: one ` --- |` per header cell.
pub open spec fn separator_line(row: JsonV, indent: Seq<char>) -> Seq<char> {
    match row.children() {
        Some(cells) => indent + "|"@ + separator_cells(cells.len()) + "\n"@,
        None => seq![],
    }
}

/// The lines of rows, in order, without separators.
pub open spec fn row_lines(rows: Seq<JsonV>, indent: Seq<char>) -> Seq<char>
    decreases rows.len(),
{
    if rows.len() == 0 {
        seq![]
    } else {
        row_lines(rows.drop_last(), indent) + row_line(rows.last(), indent)
    }
}

/// Law: the separator under a header of `a + b` cells is that of `a` cells
/// followed by that of `b` cells, and one cell's separator is ` --- |`.
pub proof fn lemma_separator_cells(a: nat, b: nat)
    ensures
        separator_cells(a + b) == separator_cells(a) + separator_cells(b),
        separator_cells(1) == " --- |"@,
    decreases b,
{
    assert(separator_cells(0) =~= Seq::<char>::empty());
    assert(separator_cells(1) == separator_cells(0) + " --- |"@);
    assert(separator_cells(0) + " --- |"@ =~= " --- |"@);
    if b == 0 {
        assert(separator_cells(a) + separator_cells(0) =~= separator_cells(a));
    } else {
        lemma_separator_cells(a, (b - 1) as nat);
        assert((a + b - 1) as nat == a + (b - 1) as nat);
        assert(separator_cells(a + b) == separator_cells((a + b - 1) as nat) + " --- |"@);
        assert(separator_cells(b) == separator_cells((b - 1) as nat) + " --- |"@);
        assert(separator_cells(a) + separator_cells(b) =~= separator_cells(a) + separator_cells(
            (b - 1) as nat,
        ) + " --- |"@);
    }
}

/// Law: a row after the first renders as its line alone, with no separator.
pub proof fn lemma_later_rows_have_no_separator(row: JsonV, idx: int, indent: Seq<char>)
    requires
        idx > 0,
    ensures
        row_md(row, idx, indent) == row_line(row, indent),
{
}

/// Law: a table renders as the line of its first row, the separator line
/// under it, the lines of all the other rows in order, and a blank line: the
/// separator stands once, right after the header.
pub proof fn lemma_table_layout(node: JsonV, indent: Seq<char>)
    ensures
        table_md(node, indent) == match node.children() {
            Some(rows) => if rows.len() == 0 {
                "\n"@
            } else {
                row_line(rows[0], indent) + separator_line(rows[0], indent) + row_lines(
                    rows.drop_first(),
                    indent,
                ) + "\n"@
            },
            None => seq![],
        },
{
    match node.children() {
        Some(rows) => {
            if rows.len() > 0 {
                lemma_rows_layout(rows, indent);
            }
        },
        None => {},
    }
}

proof fn lemma_rows_layout(rows: Seq<JsonV>, indent: Seq<char>)
    requires
        rows.len() > 0,
    ensures
        rows_md(rows, indent) == row_line(rows[0], indent) + separator_line(rows[0], indent)
            + row_lines(rows.drop_first(), indent),
    decreases rows.len(),
{
    if rows.len() == 1 {
        assert(rows.drop_last() =~= Seq::<JsonV>::empty());
        assert(rows.drop_first() =~= Seq::<JsonV>::empty());
        assert(rows_md(rows, indent) == rows_md(rows.drop_last(), indent) + row_md(rows[0], 0, indent));
        assert(row_md(rows[0], 0, indent) =~= row_line(rows[0], indent) + separator_line(
            rows[0],
            indent,
        ));
    } else {
        let pre = rows.drop_last();
        lemma_rows_layout(pre, indent);
        lemma_later_rows_have_no_separator(rows.last(), rows.len() - 1, indent);
        assert(rows.drop_first().drop_last() =~= pre.drop_first());
        assert(rows.drop_first().last() == rows.last());
        assert(pre[0] == rows[0]);
        assert(rows_md(rows, indent) == rows_md(pre, indent) + row_md(rows.last(), rows.len() - 1, indent));
        assert(row_lines(rows.drop_first(), indent) == row_lines(pre.drop_first(), indent) + row_line(rows.last(), indent));
    }
}

/// Law: sibling blocks render one after the other: the Markdown of `a`
/// followed by `b` is the Markdown of `a` followed by that of `b`.
pub proof fn lemma_children_concat(a: Seq<JsonV>, b: Seq<JsonV>, indent: Seq<char>)
    ensures
        children_md(a + b, indent) == children_md(a, indent) + children_md(b, indent),
    decreases b.len(),
{
    if b.len() == 0 {
        assert(a + b =~= a);
    } else {
        lemma_children_concat(a, b.drop_last(), indent);
        assert((a + b).drop_last() =~= a + b.drop_last());
        assert((a + b).last() == b.last());
    }
}

/// Law: inline content renders piece by piece, in order.
pub proof fn lemma_inline_concat(a: Seq<JsonV>, b: Seq<JsonV>)
    ensures
        inline_seq(a + b) == inline_seq(a) + inline_seq(b),
    decreases b.len(),
{
    if b.len() == 0 {
        assert(a + b =~= a);
    } else {
        lemma_inline_concat(a, b.drop_last());
        assert((a + b).drop_last() =~= a + b.drop_last());
        assert((a + b).last() == b.last());
    }
}

/// Law: bullet items render one after the other, each with its own `- `.
pub proof fn lemma_bullet_items_concat(a: Seq<JsonV>, b: Seq<JsonV>, indent: Seq<char>)
    ensures
        bullet_items(a + b, indent) == bullet_items(a, indent) + bullet_items(b, indent),
    decreases b.len(),
{
    if b.len() == 0 {
        assert(a + b =~= a);
    } else {
        lemma_bullet_items_concat(a, b.drop_last(), indent);
        assert((a + b).drop_last() =~= a + b.drop_last());
        assert((a + b).last() == b.last());
    }
}

/// Law: the numbering of an ordered list runs on: the items after the first
/// `a.len()` are numbered as a list of their own that starts `a.len()`
/// further on (with the wrap-around of `u64` addition).
pub proof fn lemma_ordered_items_concat(a: Seq<JsonV>, b: Seq<JsonV>, indent: Seq<char>, start: u64)
    requires
        a.len() + b.len() <= u64::MAX,
    ensures
        ordered_items(a + b, indent, start) == ordered_items(a, indent, start) + ordered_items(
            b,
            indent,
            start.wrapping_add(a.len() as u64),
        ),
    decreases b.len(),
{
    if b.len() == 0 {
        assert(a + b =~= a);
    } else {
        lemma_ordered_items_concat(a, b.drop_last(), indent, start);
        assert((a + b).drop_last() =~= a + b.drop_last());
        assert((a + b).last() == b.last());
        let i = a.len() + b.len() - 1;
        let s2 = start.wrapping_add(a.len() as u64);
        assert(start.wrapping_add(i as u64) == s2.wrapping_add((b.len() - 1) as u64));
    }
}

/// Law: an ordered list numbers its items from its start: item `i` carries
/// the number `start + i`.
pub proof fn lemma_ordered_item_number(cs: Seq<JsonV>, indent: Seq<char>, start: u64, i: int)
    requires
        0 <= i < cs.len(),
        cs.len() <= u64::MAX,
    ensures
        ordered_items(cs, indent, start) == ordered_items(cs.take(i), indent, start) + list_item_md(
            cs[i],
            indent,
            decimal(start.wrapping_add(i as u64) as nat) + ". "@,
        ) + ordered_items(cs.skip(i + 1), indent, start.wrapping_add((i + 1) as u64)),
{
    let head = cs.take(i);
    let one = seq![cs[i]];
    let tail = cs.skip(i + 1);
    assert(cs =~= head + one + tail);
    lemma_ordered_items_concat(head + one, tail, indent, start);
    lemma_ordered_items_concat(head, one, indent, start);
    assert(one.drop_last() =~= Seq::<JsonV>::empty());
    assert((head + one).len() == i + 1);
    let s = start.wrapping_add(i as u64);
    assert(s.wrapping_add(0) == s);
    assert(number_prefix(s, 0) == decimal(s as nat) + ". "@);
    assert(ordered_items(one, indent, s) == ordered_items(one.drop_last(), indent, s)
        + list_item_md(one.last(), indent, number_prefix(s, 0)));
}

/// Law: a block quote quotes line by line: quoting the lines `a` then `b`
/// is quoting `a`, then quoting `b`.
pub proof fn lemma_quote_lines_concat(a: Seq<Seq<char>>, b: Seq<Seq<char>>, indent: Seq<char>)
    ensures
        quote_lines(a + b, indent) == quote_lines(a, indent) + quote_lines(b, indent),
    decreases b.len(),
{
    if b.len() == 0 {
        assert(a + b =~= a);
    } else {
        lemma_quote_lines_concat(a, b.drop_last(), indent);
        assert((a + b).drop_last() =~= a + b.drop_last());
        assert((a + b).last() == b.last());
    }
}

/// Law: the cells of a row render one after the other, each followed by a bar.
pub proof fn lemma_cells_concat(a: Seq<JsonV>, b: Seq<JsonV>)
    ensures
        cells_md(a + b) == cells_md(a) + cells_md(b),
    decreases b.len(),
{
    if b.len() == 0 {
        assert(a + b =~= a);
    } else {
        lemma_cells_concat(a, b.drop_last());
        assert((a + b).drop_last() =~= a + b.drop_last());
        assert((a + b).last() == b.last());
    }
}

proof fn lemma_item_children_layout(
    cs: Seq<JsonV>,
    indent: Seq<char>,
    prefix: Seq<char>,
    child_indent: Seq<char>,
)
    requires
        cs.len() > 0,
    ensures
        item_children(cs, indent, prefix, child_indent) == indent + prefix + trim_end_newlines(
            inline_or_block(cs[0], child_indent),
        ) + "\n"@ + children_md(cs.drop_first(), child_indent),
    decreases cs.len(),
{
    if cs.len() == 1 {
        assert(cs.drop_first() =~= Seq::<JsonV>::empty());
    } else {
        let pre = cs.drop_last();
        lemma_item_children_layout(pre, indent, prefix, child_indent);
        assert(pre[0] == cs[0]);
        assert(cs.drop_first().drop_last() =~= pre.drop_first());
        assert(cs.drop_first().last() == cs.last());
    }
}

/// Law: a list item puts its first child on the line of its prefix (a
/// paragraph as its inline text, trailing newlines dropped) and renders its
/// other children below it, indented by the width of the prefix.
pub proof fn lemma_list_item_layout(item: JsonV, indent: Seq<char>, prefix: Seq<char>)
    ensures
        list_item_md(item, indent, prefix) == match item.children() {
            Some(cs) => if cs.len() == 0 {
                seq![]
            } else {
                indent + prefix + trim_end_newlines(
                    inline_or_block(cs[0], indent + repeat(' ', prefix.len())),
                ) + "\n"@ + children_md(cs.drop_first(), indent + repeat(' ', prefix.len()))
            },
            None => seq![],
        },
{
    match item.children() {
        Some(cs) => {
            if cs.len() > 0 {
                lemma_item_children_layout(cs, indent, prefix, indent + repeat(' ', prefix.len()));
            }
        },
        None => {},
    }
}

/// A mark that the renderer knows: bold, italic, code, strike or link.
pub open spec fn known_mark(m: JsonV) -> bool {
    let t = m.node_type();
    t == Some("bold"@) || t == Some("italic"@) || t == Some("code"@) || t == Some("strike"@)
        || t == Some("link"@)
}

/// The known marks of `ms`, in order.
pub open spec fn known_marks(ms: Seq<JsonV>) -> Seq<JsonV>
    decreases ms.len(),
{
    if ms.len() == 0 {
        seq![]
    } else if known_mark(ms[0]) {
        seq![ms[0]] + known_marks(ms.drop_first())
    } else {
        known_marks(ms.drop_first())
    }
}

/// Wrapping text in marks gives the same as wrapping it in the known ones.
pub proof fn lemma_unknown_marks_ignored(ms: Seq<JsonV>, text: Seq<char>)
    ensures
        apply_marks(ms, text) == apply_marks(known_marks(ms), text),
    decreases ms.len(),
{
    if ms.len() > 0 {
        lemma_unknown_marks_ignored(ms.drop_first(), text);
        if known_mark(ms[0]) {
            let k = seq![ms[0]] + known_marks(ms.drop_first());
            assert(k.drop_first() =~= known_marks(ms.drop_first()));
            assert(k[0] == ms[0]);
        }
    }
}

/// Law: a text node renders as its text wrapped in its known marks only;
/// marks of other types add nothing, and with no known marks (none at all,
/// an empty list, or only unknown ones) it renders as its bare text.
pub proof fn lemma_render_text_ignores_unknown_marks(node: JsonV)
    ensures
        ({
            let ms = match node.field("marks"@).as_array() {
                Some(ms) => ms,
                None => seq![],
            };
            let text = or_empty(node.str_field("text"@));
            &&& render_text(node) == apply_marks(known_marks(ms), text)
            &&& known_marks(ms).len() == 0 ==> render_text(node) == text
        }),
{
    let ms = match node.field("marks"@).as_array() {
        Some(ms) => ms,
        None => seq![],
    };
    let text = or_empty(node.str_field("text"@));
    lemma_unknown_marks_ignored(ms, text);
}

/// Law: a paragraph of plain text, converted to Tiptap and rendered back,
/// is the text followed by a blank line.
pub proof fn lemma_paragraph_round_trip(t: String)
    requires
        t@.len() > 0,
    ensures
        node_md(
            tiptap_of_events(
                seq![
                    MdEvent::Start(MdTag::Paragraph),
                    MdEvent::Text(t),
                    MdEvent::End(MdTagEnd::Other),
                ],
            ),
            seq![],
        ) == t@ + "\n\n"@,
{
    lemma_literals_distinct();
    lemma_single_block(MdTag::Paragraph, t);
    let tn = text_node(t@, seq![]);
    let p = OpenNodeV { node_type: "paragraph"@, attrs: None, content: seq![tn] };
    let d = OpenNodeV { node_type: "doc"@, attrs: None, content: seq![close(p)] };
    lemma_closed_node(p);
    lemma_closed_node(d);
    lemma_plain_text(t@);
    assert(seq![tn].drop_last() =~= Seq::<JsonV>::empty());
    assert(inline_seq(seq![tn]) == inline_seq(Seq::<JsonV>::empty()) + render_text(tn));
    assert(inline_content(close(p)) =~= t@);
    assert(seq![close(p)].drop_last() =~= Seq::<JsonV>::empty());
    assert(children_md(seq![close(p)], seq![]) == children_md(Seq::<JsonV>::empty(), seq![])
        + node_md(close(p), seq![]));
    assert(node_md(close(p), seq![]) =~= t@ + "\n\n"@);
    assert(node_md(close(d), seq![]) =~= t@ + "\n\n"@);
}

/// Law: a heading of plain text, converted to Tiptap and rendered back, is
/// its `#` marks, a space, the text and a blank line.
pub proof fn lemma_heading_round_trip(level: crate::markdown::MdHeadingLevel, t: String)
    ensures
        node_md(
            tiptap_of_events(
                seq![
                    MdEvent::Start(MdTag::Heading(level)),
                    MdEvent::Text(t),
                    MdEvent::End(MdTagEnd::Other),
                ],
            ),
            seq![],
        ) == repeat('#', level_number(level) as nat) + " "@ + t@ + "\n\n"@,
{
    lemma_literals_distinct();
    lemma_single_block(MdTag::Heading(level), t);
    let tn = text_node(t@, seq![]);
    let attrs = seq![MemberV { key: "level"@, value: JsonV::UInt(level_number(level) as u64) }];
    let h = OpenNodeV { node_type: "heading"@, attrs: Some(attrs), content: seq![tn] };
    let d = OpenNodeV { node_type: "doc"@, attrs: None, content: seq![close(h)] };
    lemma_closed_node_with_attrs(h);
    lemma_closed_node(d);
    lemma_plain_text(t@);
    assert(is_first_key(attrs, "level"@, 0));
    lemma_first_key_unique(attrs, "level"@, 0);
    assert(close(h).attr("level"@).as_u64() == Some(level_number(level) as u64));
    assert(seq![tn].drop_last() =~= Seq::<JsonV>::empty());
    assert(inline_seq(seq![tn]) == inline_seq(Seq::<JsonV>::empty()) + render_text(tn));
    assert(inline_content(close(h)) =~= t@);
    assert(seq![close(h)].drop_last() =~= Seq::<JsonV>::empty());
    assert(children_md(seq![close(h)], seq![]) == children_md(Seq::<JsonV>::empty(), seq![])
        + node_md(close(h), seq![]));
    assert(node_md(close(h), seq![]) =~= repeat('#', level_number(level) as nat) + " "@ + t@
        + "\n\n"@);
    assert(node_md(close(d), seq![]) =~= repeat('#', level_number(level) as nat) + " "@ + t@
        + "\n\n"@);
}

/// A text node with marks: its type, its text and its marks.
proof fn lemma_marked_text(t: Seq<char>, ms: Seq<JsonV>)
    requires
        ms.len() > 0,
    ensures
        text_node(t, ms).node_type() == Some("text"@),
        text_node(t, ms).str_field("text"@) == Some(t),
        text_node(t, ms).field("marks"@).as_array() == Some(ms),
{
    lemma_literals_distinct();
    let m = text_node(t, ms)->Object_0;
    assert(is_first_key(m, "type"@, 0));
    lemma_first_key_unique(m, "type"@, 0);
    assert(is_first_key(m, "text"@, 1));
    lemma_first_key_unique(m, "text"@, 1);
    assert(is_first_key(m, "marks"@, 2));
    lemma_first_key_unique(m, "marks"@, 2);
}

/// A link mark wraps text as a Markdown link to its destination.
proof fn lemma_link_mark_wraps(h: Seq<char>, inner: Seq<char>)
    ensures
        wrap_mark(link_mark(h), inner) == "["@ + inner + "]("@ + h + ")"@,
{
    lemma_literals_distinct();
    reveal_strlit("link");
    reveal_strlit("bold");
    reveal_strlit("italic");
    reveal_strlit("code");
    reveal_strlit("strike");
    reveal_strlit("href");
    assert("link"@[0] != "bold"@[0]);
    assert("link"@[0] != "italic"@[0]);
    assert("link"@[0] != "code"@[0]);
    assert("link"@[0] != "strike"@[0]);
    let m = link_mark(h)->Object_0;
    assert(is_first_key(m, "type"@, 0));
    lemma_first_key_unique(m, "type"@, 0);
    assert(is_first_key(m, "attrs"@, 1));
    lemma_first_key_unique(m, "attrs"@, 1);
    let a = seq![str_member("href"@, h)];
    assert(is_first_key(a, "href"@, 0));
    lemma_first_key_unique(a, "href"@, 0);
}

/// Running one more event is one more step.
proof fn lemma_run_push(es: Seq<MdEvent>, e: MdEvent)
    ensures
        run(es.push(e)) == step(run(es), e),
{
    assert(es.push(e).drop_last() =~= es);
}

/// Law: a paragraph holding a link between two plain texts, converted to
/// Tiptap and rendered back, is the first text, the link in Markdown syntax,
/// then the second text unmarked, and a blank line: the link mark covers the
/// link's text only.
pub proof fn lemma_link_paragraph_round_trip(h: String, t: String, u: String, w: String)
    ensures
        node_md(
            tiptap_of_events(
                seq![
                    MdEvent::Start(MdTag::Paragraph),
                    MdEvent::Text(t),
                    MdEvent::Start(MdTag::Link(h)),
                    MdEvent::Text(u),
                    MdEvent::End(MdTagEnd::Link),
                    MdEvent::Text(w),
                    MdEvent::End(MdTagEnd::Other),
                ],
            ),
            seq![],
        ) == t@ + "["@ + u@ + "]("@ + h@ + ")"@ + w@ + "\n\n"@,
{
    lemma_literals_distinct();
    let e0 = MdEvent::Start(MdTag::Paragraph);
    let e1 = MdEvent::Text(t);
    let e2 = MdEvent::Start(MdTag::Link(h));
    let e3 = MdEvent::Text(u);
    let e4 = MdEvent::End(MdTagEnd::Link);
    let e5 = MdEvent::Text(w);
    let e6 = MdEvent::End(MdTagEnd::Other);
    let s0 = Seq::<MdEvent>::empty();
    let s1 = s0.push(e0);
    let s2 = s1.push(e1);
    let s3 = s2.push(e2);
    let s4 = s3.push(e3);
    let s5 = s4.push(e4);
    let s6 = s5.push(e5);
    let s7 = s6.push(e6);
    assert(s7 =~= seq![e0, e1, e2, e3, e4, e5, e6]);
    lemma_run_push(s0, e0);
    lemma_run_push(s1, e1);
    lemma_run_push(s2, e2);
    lemma_run_push(s3, e3);
    lemma_run_push(s4, e4);
    lemma_run_push(s5, e5);
    lemma_run_push(s6, e6);
    let lm = link_mark(h@);
    let doc0 = open_node("doc"@, None);
    let tn1 = text_node(t@, seq![]);
    let tn2 = text_node(u@, seq![lm]);
    let tn3 = text_node(w@, seq![]);
    assert(run(s1).stack =~= seq![doc0, open_node("paragraph"@, None)]);
    assert(run(s2).stack =~= seq![doc0, OpenNodeV { node_type: "paragraph"@, attrs: None, content: seq![tn1] }]);
    assert(run(s3).marks =~= seq![lm]);
    assert(run(s3).stack == run(s2).stack);
    assert(text_node(u@, run(s3).marks) == tn2);
    assert(run(s3).stack.last().content.push(tn2) =~= seq![tn1, tn2]);
    assert(run(s4).stack =~= seq![doc0, OpenNodeV { node_type: "paragraph"@, attrs: None, content: seq![tn1, tn2] }]);
    lemma_link_mark_wraps(h@, u@);
    let lm_v = lm;
    assert(lm_v.node_type() == Some("link"@)) by {
        let m = lm->Object_0;
        assert(is_first_key(m, "type"@, 0));
        lemma_first_key_unique(m, "type"@, 0);
    }
    assert(Seq::<JsonV>::empty().push(lm) =~= seq![lm]);
    crate::markdown::lemma_pop_last_mark(Seq::<JsonV>::empty(), lm, "link"@);
    assert(run(s5).marks =~= Seq::<JsonV>::empty());
    assert(run(s5).stack == run(s4).stack);
    assert(text_node(w@, run(s5).marks) == tn3);
    let p = OpenNodeV { node_type: "paragraph"@, attrs: None, content: seq![tn1, tn2, tn3] };
    assert(run(s5).stack.last().content.push(tn3) =~= seq![tn1, tn2, tn3]);
    assert(run(s6).stack =~= seq![doc0, p]);
    let d = OpenNodeV { node_type: "doc"@, attrs: None, content: seq![close(p)] };
    assert(run(s6).stack.drop_last() =~= seq![doc0]);
    assert(doc0.content.push(close(p)) =~= seq![close(p)]);
    assert(run(s7).stack =~= seq![d]);
    lemma_closed_node(p);
    lemma_closed_node(d);
    lemma_plain_text(t@);
    lemma_plain_text(w@);
    lemma_marked_text(u@, seq![lm]);
    assert(seq![lm].drop_first() =~= Seq::<JsonV>::empty());
    assert(apply_marks(Seq::<JsonV>::empty(), u@) == u@);
    assert(apply_marks(seq![lm], u@) == wrap_mark(seq![lm][0], apply_marks(seq![lm].drop_first(), u@)));
    assert(apply_marks(seq![lm], u@) == wrap_mark(lm, u@));
    assert(render_text(tn2) == "["@ + u@ + "]("@ + h@ + ")"@);
    let cs = seq![tn1, tn2, tn3];
    assert(cs.drop_last() =~= seq![tn1, tn2]);
    assert(seq![tn1, tn2].drop_last() =~= seq![tn1]);
    assert(seq![tn1].drop_last() =~= Seq::<JsonV>::empty());
    assert(inline_seq(seq![tn1]) == inline_seq(Seq::<JsonV>::empty()) + render_text(tn1));
    assert(inline_seq(seq![tn1]) =~= t@);
    assert(inline_seq(seq![tn1, tn2]) == inline_seq(seq![tn1]) + render_text(tn2));
    assert(inline_seq(cs) == inline_seq(seq![tn1, tn2]) + render_text(tn3));
    assert(inline_seq(cs) =~= t@ + ("["@ + u@ + "]("@ + h@ + ")"@) + w@);
    assert(inline_content(close(p)) == inline_seq(cs));
    assert(seq![close(p)].drop_last() =~= Seq::<JsonV>::empty());
    assert(children_md(seq![close(p)], seq![]) == children_md(Seq::<JsonV>::empty(), seq![])
        + node_md(close(p), seq![]));
    reveal_strlit("[");
    assert(inline_seq(cs).len() > 0);
    assert(node_md(close(p), seq![]) =~= seq![] + inline_seq(cs) + "\n\n"@);
    assert(node_md(close(d), seq![]) == children_md(seq![close(p)], seq![]));
    assert(node_md(close(d), seq![]) =~= t@ + "["@ + u@ + "]("@ + h@ + ")"@ + w@ + "\n\n"@);
}

} // verus!
