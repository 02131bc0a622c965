//! The document model that the markdown parser produces and the HTML
//! renderer consumes.
use vstd::prelude::*;

verus! {

#[derive(Debug, PartialEq, Eq)]
pub enum Block {
    Header(HeaderBlock),
    Paragraph(ParagraphBlock),
    Code(CodeBlock),
    List(ListBlock),
    Image(ImageBlock),
}

#[derive(Clone, Copy, Debug, PartialEq, Eq, Structural)]
pub enum HeaderLevel {
    H1,
    H2,
    H3,
    H4,
    H5,
    H6,
}

#[derive(Debug, PartialEq, Eq)]
pub struct HeaderBlock {
    pub style: Style,
    pub level: HeaderLevel,
    pub content: Vec<InlineContent>,
    pub indexed: bool,
}

#[derive(Debug, PartialEq, Eq)]
pub struct ParagraphBlock {
    pub style: Style,
    pub content: Vec<InlineContent>,
}

#[derive(Debug, PartialEq, Eq)]
pub struct CodeBlock {
    pub style: Style,
    pub content: String,
    pub language: Option<String>,
}

#[derive(Debug, PartialEq, Eq)]
pub struct ListBlock {
    pub ordered: bool,
    pub style: Style,
    pub items: Vec<ListItem>,
}

#[derive(Debug, PartialEq, Eq)]
pub struct ListItem {
    pub style: Style,
    pub content: Vec<InlineContent>,
}

#[derive(Debug, PartialEq, Eq)]
pub struct ImageBlock {
    pub style: Style,
    pub source: String,
    pub title: String,
    pub alt_text: String,
    pub height: Option<String>,
    pub width: Option<String>,
}

/// How an element is styled: by class names, by inline declarations
/// (property, value), or not at all.
#[derive(Debug, PartialEq, Eq)]
pub enum Style {
    Ref(Vec<String>),
    Custom(Vec<(String, String)>),
    Default,
}

#[derive(Debug, PartialEq, Eq)]
pub enum InlineContent {
    Text(InlineText),
    Span(InlineSpan),
    Link(InlineLink),
}

#[derive(Debug, PartialEq, Eq)]
pub struct InlineText {
    pub content: String,
}

#[derive(Debug, PartialEq, Eq)]
pub struct InlineSpan {
    pub content: String,
    pub style: Style,
}

#[derive(Debug, PartialEq, Eq)]
pub struct InlineLink {
    pub content: String,
    pub url: String,
    pub style: Style,
}

// ---------------------------------------------------------------------------
// Views
// ---------------------------------------------------------------------------

pub enum StyleView {
    Ref(Seq<Seq<char>>),
    Custom(Seq<(Seq<char>, Seq<char>)>),
    Default,
}

pub open spec fn strings_view(v: Seq<String>) -> Seq<Seq<char>> {
    Seq::new(v.len(), |i: int| v[i]@)
}

pub open spec fn pairs_view(v: Seq<(String, String)>) -> Seq<(Seq<char>, Seq<char>)> {
    Seq::new(v.len(), |i: int| (v[i].0@, v[i].1@))
}

impl View for Style {
    type V = StyleView;

    open spec fn view(&self) -> StyleView {
        match self {
            Style::Ref(c) => StyleView::Ref(strings_view(c@)),
            Style::Custom(m) => StyleView::Custom(pairs_view(m@)),
            Style::Default => StyleView::Default,
        }
    }
}

pub enum InlineView {
    Text(Seq<char>),
    Span(Seq<char>, StyleView),
    Link(Seq<char>, Seq<char>, StyleView),
}

impl View for InlineContent {
    type V = InlineView;

    open spec fn view(&self) -> InlineView {
        match self {
            InlineContent::Text(t) => InlineView::Text(t.content@),
            InlineContent::Span(s) => InlineView::Span(s.content@, s.style@),
            InlineContent::Link(l) => InlineView::Link(l.content@, l.url@, l.style@),
        }
    }
}

pub open spec fn inline_views(v: Seq<InlineContent>) -> Seq<InlineView> {
    Seq::new(v.len(), |i: int| v[i]@)
}

pub open spec fn opt_view(o: Option<String>) -> Option<Seq<char>> {
    match o {
        Some(s) => Some(s@),
        None => None,
    }
}

pub enum BlockView {
    Header(StyleView, HeaderLevel, Seq<InlineView>, bool),
    Paragraph(StyleView, Seq<InlineView>),
    /// Style, content, language.
    Code(StyleView, Seq<char>, Option<Seq<char>>),
    /// Ordered, style, and each item's style and content.
    List(bool, StyleView, Seq<(StyleView, Seq<InlineView>)>),
    /// Style, source, title, alt text, height, width.
    Image(StyleView, Seq<char>, Seq<char>, Seq<char>, Option<Seq<char>>, Option<Seq<char>>),
}

pub open spec fn list_items_view(v: Seq<ListItem>) -> Seq<(StyleView, Seq<InlineView>)> {
    Seq::new(v.len(), |i: int| (v[i].style@, inline_views(v[i].content@)))
}

impl View for Block {
    type V = BlockView;

    open spec fn view(&self) -> BlockView {
        match self {
            Block::Header(h) => BlockView::Header(h.style@, h.level, inline_views(h.content@), h.indexed),
            Block::Paragraph(p) => BlockView::Paragraph(p.style@, inline_views(p.content@)),
            Block::Code(c) => BlockView::Code(c.style@, c.content@, opt_view(c.language)),
            Block::List(l) => BlockView::List(l.ordered, l.style@, list_items_view(l.items@)),
            Block::Image(i) => BlockView::Image(
                i.style@,
                i.source@,
                i.title@,
                i.alt_text@,
                opt_view(i.height),
                opt_view(i.width),
            ),
        }
    }
}

// ---------------------------------------------------------------------------
// Constructors
// ---------------------------------------------------------------------------

impl Block {
    pub fn header(block: HeaderBlock) -> (r: Block)
        ensures
            r == Block::Header(block),
    {
        Block::Header(block)
    }

    pub fn paragraph(block: ParagraphBlock) -> (r: Block)
        ensures
            r == Block::Paragraph(block),
    {
        Block::Paragraph(block)
    }

    pub fn code(block: CodeBlock) -> (r: Block)
        ensures
            r == Block::Code(block),
    {
        Block::Code(block)
    }

    pub fn list(block: ListBlock) -> (r: Block)
        ensures
            r == Block::List(block),
    {
        Block::List(block)
    }

    pub fn image(block: ImageBlock) -> (r: Block)
        ensures
            r == Block::Image(block),
    {
        Block::Image(block)
    }
}

impl HeaderBlock {
    pub fn new(style: Style, level: HeaderLevel, content: Vec<InlineContent>, indexed: bool) -> (r: HeaderBlock)
        ensures
            r == (HeaderBlock { style, level, content, indexed }),
    {
        HeaderBlock { style, level, content, indexed }
    }

    pub fn h1(style: Style, content: Vec<InlineContent>, indexed: bool) -> (r: HeaderBlock)
        ensures
            r == (HeaderBlock { style, level: HeaderLevel::H1, content, indexed }),
    {
        HeaderBlock::new(style, HeaderLevel::H1, content, indexed)
    }

    pub fn h2(style: Style, content: Vec<InlineContent>, indexed: bool) -> (r: HeaderBlock)
        ensures
            r == (HeaderBlock { style, level: HeaderLevel::H2, content, indexed }),
    {
        HeaderBlock::new(style, HeaderLevel::H2, content, indexed)
    }

    pub fn h3(style: Style, content: Vec<InlineContent>, indexed: bool) -> (r: HeaderBlock)
        ensures
            r == (HeaderBlock { style, level: HeaderLevel::H3, content, indexed }),
    {
        HeaderBlock::new(style, HeaderLevel::H3, content, indexed)
    }

    pub fn h4(style: Style, content: Vec<InlineContent>, indexed: bool) -> (r: HeaderBlock)
        ensures
            r == (HeaderBlock { style, level: HeaderLevel::H4, content, indexed }),
    {
        HeaderBlock::new(style, HeaderLevel::H4, content, indexed)
    }

    pub fn h5(style: Style, content: Vec<InlineContent>, indexed: bool) -> (r: HeaderBlock)
        ensures
            r == (HeaderBlock { style, level: HeaderLevel::H5, content, indexed }),
    {
        HeaderBlock::new(style, HeaderLevel::H5, content, indexed)
    }

    pub fn h6(style: Style, content: Vec<InlineContent>, indexed: bool) -> (r: HeaderBlock)
        ensures
            r == (HeaderBlock { style, level: HeaderLevel::H6, content, indexed }),
    {
        HeaderBlock::new(style, HeaderLevel::H6, content, indexed)
    }
}

impl ParagraphBlock {
    pub fn new(style: Style, content: Vec<InlineContent>) -> (r: ParagraphBlock)
        ensures
            r == (ParagraphBlock { style, content }),
    {
        ParagraphBlock { style, content }
    }
}

impl CodeBlock {
    pub fn new(style: Style, content: String, language: Option<String>) -> (r: CodeBlock)
        ensures
            r == (CodeBlock { style, content, language }),
    {
        CodeBlock { style, content, language }
    }
}

impl ListBlock {
    pub fn new(style: Style, ordered: bool, items: Vec<ListItem>) -> (r: ListBlock)
        ensures
            r == (ListBlock { ordered, style, items }),
    {
        ListBlock { ordered, style, items }
    }

    pub fn new_ordered(style: Style, items: Vec<ListItem>) -> (r: ListBlock)
        ensures
            r == (ListBlock { ordered: true, style, items }),
    {
        ListBlock::new(style, true, items)
    }

    pub fn new_unordered(style: Style, items: Vec<ListItem>) -> (r: ListBlock)
        ensures
            r == (ListBlock { ordered: false, style, items }),
    {
        ListBlock::new(style, false, items)
    }
}

impl ListItem {
    pub fn new(style: Style, content: Vec<InlineContent>) -> (r: ListItem)
        ensures
            r == (ListItem { style, content }),
    {
        ListItem { style, content }
    }
}

impl ImageBlock {
    pub fn new(
        style: Style,
        source: String,
        title: String,
        alt_text: String,
        height: Option<String>,
        width: Option<String>,
    ) -> (r: ImageBlock)
        ensures
            r == (ImageBlock { style, source, title, alt_text, height, width }),
    {
        ImageBlock { style, source, title, alt_text, height, width }
    }
}

impl InlineText {
    pub fn new(content: String) -> (r: InlineText)
        ensures
            r == (InlineText { content }),
    {
        InlineText { content }
    }
}

impl InlineSpan {
    pub fn new(style: Style, content: String) -> (r: InlineSpan)
        ensures
            r == (InlineSpan { content, style }),
    {
        InlineSpan { content, style }
    }
}

impl InlineLink {
    pub fn new(style: Style, url: String, content: String) -> (r: InlineLink)
        ensures
            r == (InlineLink { content, url, style }),
    {
        InlineLink { content, url, style }
    }
}

impl Style {
    pub fn create_ref(classes: Vec<String>) -> (r: Style)
        ensures
            r == Style::Ref(classes),
    {
        Style::Ref(classes)
    }

    pub fn create_custom(values: Vec<(String, String)>) -> (r: Style)
        ensures
            r == Style::Custom(values),
    {
        Style::Custom(values)
    }

    pub fn default() -> (r: Style)
        ensures
            r == Style::Default,
    {
        Style::Default
    }
}

} // verus!
