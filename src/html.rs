//! Renders document blocks as HTML.
use vstd::prelude::*;

use crate::documents::{
    Block, BlockView, CodeBlock, HeaderBlock, HeaderLevel, ImageBlock, InlineContent, InlineView, ListBlock,
    ListItem, ParagraphBlock, Style, StyleView, inline_views, list_items_view, opt_view, pairs_view, strings_view,
};
use crate::text::push_text;

verus! {

// ---------------------------------------------------------------------------
// Specification
// ---------------------------------------------------------------------------

/// The parts joined with `sep` between each two.
pub open spec fn join(parts: Seq<Seq<char>>, sep: Seq<char>) -> Seq<char>
    decreases parts.len(),
{
    if parts.len() == 0 {
        Seq::empty()
    } else if parts.len() == 1 {
        parts[0]
    } else {
        join(parts.drop_last(), sep) + sep + parts.last()
    }
}

/// Each declaration written `property: value`.
pub open spec fn declarations(m: Seq<(Seq<char>, Seq<char>)>) -> Seq<Seq<char>> {
    Seq::new(m.len(), |i: int| m[i].0 + ": "@ + m[i].1)
}

/// The attribute that a style adds to an element.
pub open spec fn style_html(st: StyleView) -> Seq<char> {
    match st {
        StyleView::Ref(c) => " class='"@ + join(c, " "@) + "'"@,
        StyleView::Custom(m) => " style='"@ + join(declarations(m), "; "@) + "'"@,
        StyleView::Default => Seq::empty(),
    }
}

pub open spec fn inline_html(c: InlineView) -> Seq<char> {
    match c {
        InlineView::Text(t) => t,
        InlineView::Span(t, st) => "<span"@ + style_html(st) + ">"@ + t + "</span>"@,
        InlineView::Link(t, url, st) => "<a href='"@ + url + "'"@ + style_html(st) + ">"@ + t + "</span>"@,
    }
}

/// The pieces of inline content rendered one after another.
pub open spec fn inlines_html(v: Seq<InlineView>) -> Seq<char>
    decreases v.len(),
{
    if v.len() == 0 {
        Seq::empty()
    } else {
        inlines_html(v.drop_last()) + inline_html(v.last())
    }
}

pub open spec fn header_tag(level: HeaderLevel) -> Seq<char> {
    match level {
        HeaderLevel::H1 => "h1"@,
        HeaderLevel::H2 => "h2"@,
        HeaderLevel::H3 => "h3"@,
        HeaderLevel::H4 => "h4"@,
        HeaderLevel::H5 => "h5"@,
        HeaderLevel::H6 => "h6"@,
    }
}

pub open spec fn list_item_html(item: (StyleView, Seq<InlineView>)) -> Seq<char> {
    "<li"@ + style_html(item.0) + ">"@ + inlines_html(item.1) + "</li>"@
}

pub open spec fn list_items_html(items: Seq<(StyleView, Seq<InlineView>)>) -> Seq<char>
    decreases items.len(),
{
    if items.len() == 0 {
        Seq::empty()
    } else {
        list_items_html(items.drop_last()) + list_item_html(items.last())
    }
}

/// `before + value + after` when there is a value, else nothing.
pub open spec fn attribute_html(before: Seq<char>, value: Option<Seq<char>>, after: Seq<char>) -> Seq<char> {
    match value {
        Some(v) => before + v + after,
        None => Seq::empty(),
    }
}

/// The HTML of one block.
pub open spec fn block_html(b: BlockView) -> Seq<char> {
    match b {
        BlockView::Header(st, level, content, _) => "<"@ + header_tag(level) + style_html(st) + ">"@ + inlines_html(content)
            + "</"@ + header_tag(level) + ">"@,
        BlockView::Paragraph(st, content) => "<p"@ + style_html(st) + ">"@ + inlines_html(content) + "</p>"@,
        BlockView::Code(_, content, language) => "<pre"@ + attribute_html(" class='language-"@, language, "'"@)
            + "><code>"@ + content + "</code></pre>"@,
        BlockView::List(ordered, st, items) => {
            let tag = if ordered {
                "ol"@
            } else {
                "ul"@
            };
            "<"@ + tag + style_html(st) + ">"@ + list_items_html(items) + "</"@ + tag + ">"@
        },
        BlockView::Image(_, source, title, alt_text, height, width) => "<img src='"@ + source + "' alt='"@ + alt_text
            + "' title='"@ + title + "'"@ + attribute_html(" height='"@, height, "'"@) + attribute_html(
            " width='"@,
            width,
            "'"@,
        ) + ">"@,
    }
}

// ---------------------------------------------------------------------------
// Rendering
// ---------------------------------------------------------------------------

fn push_joined(out: &mut String, parts: &Vec<String>, sep: &str)
    ensures
        final(out)@ == old(out)@ + join(strings_view(parts@), sep@),
{
    let ghost start = out@;
    let mut i: usize = 0;
    while i < parts.len()
        invariant
            0 <= i <= parts@.len(),
            out@ == start + join(strings_view(parts@.subrange(0, i as int)), sep@),
        decreases parts@.len() - i,
    {
        proof {
            assert(strings_view(parts@.subrange(0, i + 1)).drop_last() =~= strings_view(parts@.subrange(0, i as int)));
            assert(strings_view(parts@.subrange(0, i + 1)).last() == parts@[i as int]@);
        }
        if i > 0 {
            push_text(out, sep);
        }
        push_text(out, parts[i].as_str());
        proof {
            if i == 0 {
                assert(strings_view(parts@.subrange(0, 1)) =~= seq![parts@[0]@]);
            }
        }
        i = i + 1;
    }
    proof {
        assert(parts@.subrange(0, parts@.len() as int) =~= parts@);
    }
}

fn render_style(style: &Style) -> (r: String)
    ensures
        r@ == style_html(style@),
{
    let mut s = String::new();
    match style {
        Style::Ref(c) => {
            push_text(&mut s, " class='");
            push_joined(&mut s, c, " ");
            push_text(&mut s, "'");
        },
        Style::Custom(m) => {
            let mut decls: Vec<String> = Vec::new();
            let mut i: usize = 0;
            while i < m.len()
                invariant
                    0 <= i <= m@.len(),
                    decls@.len() == i,
                    forall|j: int| 0 <= j < i ==> (#[trigger] decls@[j])@ == m@[j].0@ + ": "@ + m@[j].1@,
                decreases m@.len() - i,
            {
                let mut d = String::new();
                push_text(&mut d, m[i].0.as_str());
                push_text(&mut d, ": ");
                push_text(&mut d, m[i].1.as_str());
                decls.push(d);
                i = i + 1;
            }
            assert(strings_view(decls@) =~= declarations(pairs_view(m@)));
            push_text(&mut s, " style='");
            push_joined(&mut s, &decls, "; ");
            push_text(&mut s, "'");
        },
        Style::Default => {},
    }
    s
}

fn render_inline_content(content: &Vec<InlineContent>) -> (r: String)
    ensures
        r@ == inlines_html(inline_views(content@)),
{
    let mut s = String::new();
    let mut i: usize = 0;
    while i < content.len()
        invariant
            0 <= i <= content@.len(),
            s@ == inlines_html(inline_views(content@.subrange(0, i as int))),
        decreases content@.len() - i,
    {
        proof {
            assert(inline_views(content@.subrange(0, i + 1)).drop_last() =~= inline_views(content@.subrange(0, i as int)));
        }
        match &content[i] {
            InlineContent::Text(t) => push_text(&mut s, t.content.as_str()),
            InlineContent::Span(sp) => {
                push_text(&mut s, "<span");
                push_text(&mut s, render_style(&sp.style).as_str());
                push_text(&mut s, ">");
                push_text(&mut s, sp.content.as_str());
                push_text(&mut s, "</span>");
            },
            InlineContent::Link(l) => {
                push_text(&mut s, "<a href='");
                push_text(&mut s, l.url.as_str());
                push_text(&mut s, "'");
                push_text(&mut s, render_style(&l.style).as_str());
                push_text(&mut s, ">");
                push_text(&mut s, l.content.as_str());
                push_text(&mut s, "</span>");
            },
        }
        i = i + 1;
    }
    proof {
        assert(content@.subrange(0, content@.len() as int) =~= content@);
    }
    s
}

fn render_header(block: &HeaderBlock) -> (r: String)
    ensures
        r@ == block_html(BlockView::Header(block.style@, block.level, inline_views(block.content@), block.indexed)),
{
    let tag = match block.level {
        HeaderLevel::H1 => "h1",
        HeaderLevel::H2 => "h2",
        HeaderLevel::H3 => "h3",
        HeaderLevel::H4 => "h4",
        HeaderLevel::H5 => "h5",
        HeaderLevel::H6 => "h6",
    };
    let mut s = String::new();
    push_text(&mut s, "<");
    push_text(&mut s, tag);
    push_text(&mut s, render_style(&block.style).as_str());
    push_text(&mut s, ">");
    push_text(&mut s, render_inline_content(&block.content).as_str());
    push_text(&mut s, "</");
    push_text(&mut s, tag);
    push_text(&mut s, ">");
    s
}

fn render_paragraph(block: &ParagraphBlock) -> (r: String)
    ensures
        r@ == block_html(BlockView::Paragraph(block.style@, inline_views(block.content@))),
{
    let mut s = String::new();
    push_text(&mut s, "<p");
    push_text(&mut s, render_style(&block.style).as_str());
    push_text(&mut s, ">");
    push_text(&mut s, render_inline_content(&block.content).as_str());
    push_text(&mut s, "</p>");
    s
}

fn render_code_block(block: &CodeBlock) -> (r: String)
    ensures
        r@ == block_html(BlockView::Code(block.style@, block.content@, opt_view(block.language))),
{
    let mut s = String::new();
    push_text(&mut s, "<pre");
    match &block.language {
        Some(l) => {
            push_text(&mut s, " class='language-");
            push_text(&mut s, l.as_str());
            push_text(&mut s, "'");
        },
        None => {},
    }
    push_text(&mut s, "><code>");
    push_text(&mut s, block.content.as_str());
    push_text(&mut s, "</code></pre>");
    s
}

fn render_list_item(item: &ListItem) -> (r: String)
    ensures
        r@ == list_item_html((item.style@, inline_views(item.content@))),
{
    let mut s = String::new();
    push_text(&mut s, "<li");
    push_text(&mut s, render_style(&item.style).as_str());
    push_text(&mut s, ">");
    push_text(&mut s, render_inline_content(&item.content).as_str());
    push_text(&mut s, "</li>");
    s
}

fn render_list_block(block: &ListBlock) -> (r: String)
    ensures
        r@ == block_html(BlockView::List(block.ordered, block.style@, list_items_view(block.items@))),
{
    let tag = if block.ordered {
        "ol"
    } else {
        "ul"
    };
    let mut s = String::new();
    push_text(&mut s, "<");
    push_text(&mut s, tag);
    push_text(&mut s, render_style(&block.style).as_str());
    push_text(&mut s, ">");
    let ghost start = s@;
    let mut i: usize = 0;
    while i < block.items.len()
        invariant
            0 <= i <= block.items@.len(),
            s@ == start + list_items_html(list_items_view(block.items@.subrange(0, i as int))),
        decreases block.items@.len() - i,
    {
        proof {
            assert(list_items_view(block.items@.subrange(0, i + 1)).drop_last() =~= list_items_view(
                block.items@.subrange(0, i as int),
            ));
        }
        push_text(&mut s, render_list_item(&block.items[i]).as_str());
        i = i + 1;
    }
    proof {
        assert(block.items@.subrange(0, block.items@.len() as int) =~= block.items@);
    }
    push_text(&mut s, "</");
    push_text(&mut s, tag);
    push_text(&mut s, ">");
    s
}

fn render_image_block(block: &ImageBlock) -> (r: String)
    ensures
        r@ == block_html(
            BlockView::Image(
                block.style@,
                block.source@,
                block.title@,
                block.alt_text@,
                opt_view(block.height),
                opt_view(block.width),
            ),
        ),
{
    let mut s = String::new();
    push_text(&mut s, "<img src='");
    push_text(&mut s, block.source.as_str());
    push_text(&mut s, "' alt='");
    push_text(&mut s, block.alt_text.as_str());
    push_text(&mut s, "' title='");
    push_text(&mut s, block.title.as_str());
    push_text(&mut s, "'");
    match &block.height {
        Some(h) => {
            push_text(&mut s, " height='");
            push_text(&mut s, h.as_str());
            push_text(&mut s, "'");
        },
        None => {},
    }
    match &block.width {
        Some(w) => {
            push_text(&mut s, " width='");
            push_text(&mut s, w.as_str());
            push_text(&mut s, "'");
        },
        None => {},
    }
    push_text(&mut s, ">");
    s
}

/// The HTML of each block, in order.
pub fn render(blocks: Vec<Block>) -> (r: Vec<String>)
    ensures
        r@.len() == blocks@.len(),
        forall|i: int| 0 <= i < blocks@.len() ==> (#[trigger] r@[i])@ == block_html(blocks@[i]@),
{
    let mut out: Vec<String> = Vec::new();
    let mut i: usize = 0;
    while i < blocks.len()
        invariant
            0 <= i <= blocks@.len(),
            out@.len() == i,
            forall|j: int| 0 <= j < i ==> (#[trigger] out@[j])@ == block_html(blocks@[j]@),
        decreases blocks@.len() - i,
    {
        let html = match &blocks[i] {
            Block::Header(h) => render_header(h),
            Block::Paragraph(p) => render_paragraph(p),
            Block::Code(c) => render_code_block(c),
            Block::List(l) => render_list_block(l),
            Block::Image(im) => render_image_block(im),
        };
        out.push(html);
        i = i + 1;
    }
    out
}

} // verus!
