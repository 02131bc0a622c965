use rdom::block_parser::{BlockToken, Input, LineType};
use rdom::documents::{
    Block, HeaderBlock, HeaderLevel, InlineContent, InlineLink, InlineSpan, InlineText, ListBlock, ListItem, Style,
};
use rdom::formatting::{Formatter, Formatters, RegexReplaceFormatter};
use rdom::html::render;
use rdom::inline_parser::{parse_inline_content, read_until_char};
use rdom::processing::process_tokens;

fn s(v: &str) -> String {
    v.to_string()
}

fn span(content: &str, classes: &[&str]) -> InlineContent {
    InlineContent::Span(InlineSpan::new(Style::create_ref(classes.iter().map(|c| s(c)).collect()), s(content)))
}

fn text(content: &str) -> InlineContent {
    InlineContent::Text(InlineText::new(s(content)))
}

#[test]
fn line_types() {
    assert_eq!(LineType::new(""), LineType::Empty);
    assert_eq!(LineType::new("ab"), LineType::Text);
    assert_eq!(LineType::new("# Title"), LineType::Header);
    assert_eq!(LineType::new("```rust"), LineType::CodeBlockDelimited);
    assert_eq!(LineType::new("* item"), LineType::UnorderedListItem);
    assert_eq!(LineType::new("1. item"), LineType::OrderedListItem);
    assert_eq!(LineType::new("12. item"), LineType::OrderedListItem);
    assert_eq!(LineType::new("![alt](x)"), LineType::Image);
    assert_eq!(LineType::new("plain text"), LineType::Text);
}

#[test]
fn input_lines_are_numbered_and_classified() {
    let input = Input::new(vec!["# a", "", "text"]);
    assert_eq!(input.line_count(), 3);
    assert!(input.in_bounds(2));
    assert!(!input.in_bounds(3));
    assert_eq!(input.get_line_type(0), LineType::Header);
    assert_eq!(input.get_line_type(1), LineType::Empty);
    assert_eq!(input.get_line_type(9), LineType::Empty);
    let line = input.try_get_line(2).unwrap();
    assert_eq!(line.number, 2);
    assert_eq!(line.text, s("text"));
    assert!(input.try_get_line(3).is_none());
}

#[test]
fn runs_of_lines() {
    let input = Input::new(vec!["a b", "c d", "", "e f"]);
    let (lines, next) = input.try_get_until_end_or_not_type(0, LineType::Text);
    assert_eq!(lines.len(), 2);
    assert_eq!(next, 2);
    let (lines, next) = input.try_get_until_end_or_type(0, LineType::Empty);
    assert_eq!(lines.len(), 2);
    assert_eq!(next, 2);
    let (lines, next) = input.try_get_until_end_or_type(7, LineType::Empty);
    assert_eq!(lines.len(), 0);
    assert_eq!(next, 7);
}

#[test]
fn parse_blocks_skips_the_line_after_a_header_or_paragraph() {
    let input = Input::new(vec!["# Title", "", "Some text", "more text", "* item", "1. first", "![alt](x)"]);
    let tokens = input.parse_blocks(&Formatters::default());
    assert_eq!(
        tokens,
        vec![
            BlockToken::Header(s("# Title")),
            BlockToken::Paragraph(s("Some text more text")),
            BlockToken::OrderedListItem(s("first")),
            BlockToken::Image(s("![alt](x)")),
        ]
    );
}

#[test]
fn parse_code_block() {
    let input = Input::new(vec!["``` rust", "let x = 1;", "```", "after this"]);
    let tokens = input.parse_blocks(&Formatters::default());
    assert_eq!(
        tokens,
        vec![
            BlockToken::CodeBlock(Some(s("rust")), s("let x = 1;")),
            BlockToken::Paragraph(s("after this")),
        ]
    );
}

#[test]
fn list_item_followed_by_text_takes_the_text() {
    let input = Input::new(vec!["* item", "continued here", "", "x y"]);
    let r = input.try_parse_unordered_list_item(0, &Formatters::default()).unwrap();
    assert_eq!(r, (BlockToken::UnorderedListItem(s("continued here")), 2));
}

#[test]
fn try_parse_block_advances_past_the_block() {
    let input = Input::new(vec!["# h", "text"]);
    let f = Formatters::default();
    assert_eq!(input.try_parse_block(0, &f), Some((BlockToken::Header(s("# h")), 2)));
    assert!(input.try_parse_block(5, &f).is_none());
    assert!(input.try_parse_header(1, &f).is_none());
    assert_eq!(input.try_parse_empty(3), Some((BlockToken::Empty, 3)));
}

#[test]
fn formatters_run_in_order() {
    assert_eq!(Formatter::Trim.run(s("  a b  ")), s("a b"));
    assert_eq!(Formatter::AddSpaceToLineEnd.run(s("a")), s("a "));
    let rr = Formatter::RegexReplace(RegexReplaceFormatter { pattern: "^(\\* )", replacement: "" });
    assert_eq!(rr.run(s("* item * x")), s("item * x"));
    let bad = Formatter::RegexReplace(RegexReplaceFormatter { pattern: "(", replacement: "" });
    assert_eq!(bad.run(s("(a)")), s("(a)"));
    let f = Formatters::default();
    assert_eq!(f.run_preprocessors(s("  12. x  ")), s("12. x "));
    assert_eq!(f.run(s(" 12. x ")), s("x"));
    assert_eq!(f.run(s("3. y")), s("y"));
    let e = Formatters::empty();
    assert_eq!(e.run(s(" keep ")), s(" keep "));
}

#[test]
fn read_until_char_cases() {
    assert_eq!(read_until_char(&s("abc*def"), '*', true, 0), (s("abc"), 4));
    assert_eq!(read_until_char(&s("abc*def"), '*', false, 1), (s("bc"), 3));
    assert_eq!(read_until_char(&s("abcdef"), 'z', false, 1), (s("bcde"), 5));
    assert_eq!(read_until_char(&s("abcdef"), 'z', true, 1), (s("bcde"), 6));
    assert_eq!(read_until_char(&s("ab"), 'z', true, 5), (s(""), 5));
}

#[test]
fn inline_bold_italic() {
    assert_eq!(
        parse_inline_content(s("Hello, ***World!***")),
        vec![text("Hello,"), span("World!", &["b", "i"])]
    );
}

#[test]
fn inline_bold_italic_code_and_link() {
    assert_eq!(parse_inline_content(s("**b**")), vec![span("b", &["b"])]);
    assert_eq!(parse_inline_content(s("*it*")), vec![span("it", &["i"])]);
    assert_eq!(
        parse_inline_content(s("a `code` b")),
        vec![text("a"), span("code", &["code"]), text(" b")]
    );
    assert_eq!(
        parse_inline_content(s("[site](http://x)")),
        vec![InlineContent::Link(InlineLink::new(Style::default(), s("http://x"), s("site")))]
    );
    assert_eq!(parse_inline_content(s("")), vec![]);
    assert_eq!(parse_inline_content(s("plain")), vec![text("plain")]);
}

#[test]
fn inline_underscore_does_not_stop_parsing() {
    assert_eq!(parse_inline_content(s("_a")), vec![text(""), text("a")]);
}

#[test]
fn process_groups_list_items() {
    let blocks = process_tokens(vec![
        BlockToken::UnorderedListItem(s("one")),
        BlockToken::UnorderedListItem(s("two")),
        BlockToken::Empty,
        BlockToken::OrderedListItem(s("three")),
        BlockToken::Unknown(s("?")),
    ]);
    assert_eq!(
        blocks,
        vec![
            Block::list(ListBlock::new_unordered(
                Style::default(),
                vec![
                    ListItem::new(Style::default(), vec![text("one")]),
                    ListItem::new(Style::default(), vec![text("two")]),
                ]
            )),
            Block::list(ListBlock::new_ordered(
                Style::default(),
                vec![ListItem::new(Style::default(), vec![text("three")])]
            )),
        ]
    );
}

#[test]
fn process_header_levels() {
    let blocks = process_tokens(vec![
        BlockToken::Header(s("# One")),
        BlockToken::Header(s("### Three")),
        BlockToken::Header(s("######## Many")),
    ]);
    assert_eq!(
        blocks,
        vec![
            Block::header(HeaderBlock::h1(Style::default(), vec![text("One")], true)),
            Block::header(HeaderBlock::h3(Style::default(), vec![text("Three")], false)),
            Block::header(HeaderBlock::new(Style::default(), HeaderLevel::H6, vec![text("Many")], false)),
        ]
    );
}

#[test]
fn render_blocks_as_html() {
    let blocks = process_tokens(vec![
        BlockToken::Header(s("## Hi *there*")),
        BlockToken::Paragraph(s("Hello, ***World!***")),
        BlockToken::CodeBlock(Some(s("rust")), s("fn main() {}")),
        BlockToken::CodeBlock(None, s("x")),
        BlockToken::UnorderedListItem(s("a")),
        BlockToken::OrderedListItem(s("b")),
        BlockToken::Image(s("![alt](src.png \"Title\"){height:100, width:50}")),
    ]);
    assert_eq!(
        render(blocks),
        vec![
            s("<h2>Hi<span class='i'>there</span></h2>"),
            s("<p>Hello,<span class='b i'>World!</span></p>"),
            s("<pre class='language-rust'><code>fn main() {}</code></pre>"),
            s("<pre><code>x</code></pre>"),
            s("<ul><li>a</li></ul>"),
            s("<ol><li>b</li></ol>"),
            s("<img src='src.png' alt='alt' title='Title' height='100' width='50'>"),
        ]
    );
}

#[test]
fn render_styles_and_links() {
    let p = rdom::documents::ParagraphBlock::new(
        Style::create_custom(vec![(s("color"), s("red")), (s("margin"), s("0"))]),
        vec![InlineContent::Link(InlineLink::new(Style::default(), s("u"), s("t")))],
    );
    assert_eq!(
        render(vec![Block::paragraph(p)]),
        vec![s("<p style='color: red; margin: 0'><a href='u'>t</span></p>")]
    );
}

#[test]
fn image_without_dimensions() {
    let blocks = process_tokens(vec![BlockToken::Image(s("![a](b \"c\")"))]);
    assert_eq!(render(blocks), vec![s("<img src='b' alt='a' title='c'>")]);
}
