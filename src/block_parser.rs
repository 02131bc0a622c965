//! Classifies the lines of a markdown document and groups them into block
//! tokens.
use vstd::prelude::*;

use crate::formatting::{Formatters, format_all};
use crate::text::{chars_of, push_char, trim_text, trimmed};

verus! {

#[derive(Clone, Copy, Debug, PartialEq, Eq, Structural)]
pub enum LineType {
    Header,
    Text,
    OrderedListItem,
    UnorderedListItem,
    CodeBlockDelimited,
    Image,
    Empty,
}

/// One line of the document, with its index and its kind.
#[derive(Clone, Debug, PartialEq, Eq)]
pub struct Line {
    pub number: usize,
    pub text: String,
    pub line_type: LineType,
}

#[derive(Debug, PartialEq, Eq)]
pub enum BlockToken {
    Paragraph(String),
    Header(String),
    OrderedListItem(String),
    UnorderedListItem(String),
    CodeBlock(Option<String>, String),
    Image(String),
    Empty,
    Unknown(String),
}

pub enum BlockTokenView {
    Paragraph(Seq<char>),
    Header(Seq<char>),
    OrderedListItem(Seq<char>),
    UnorderedListItem(Seq<char>),
    CodeBlock(Option<Seq<char>>, Seq<char>),
    Image(Seq<char>),
    Empty,
    Unknown(Seq<char>),
}

impl View for BlockToken {
    type V = BlockTokenView;

    open spec fn view(&self) -> BlockTokenView {
        match self {
            BlockToken::Paragraph(s) => BlockTokenView::Paragraph(s@),
            BlockToken::Header(s) => BlockTokenView::Header(s@),
            BlockToken::OrderedListItem(s) => BlockTokenView::OrderedListItem(s@),
            BlockToken::UnorderedListItem(s) => BlockTokenView::UnorderedListItem(s@),
            BlockToken::CodeBlock(l, s) => BlockTokenView::CodeBlock(
                match l {
                    Some(x) => Some(x@),
                    None => None,
                },
                s@,
            ),
            BlockToken::Image(s) => BlockTokenView::Image(s@),
            BlockToken::Empty => BlockTokenView::Empty,
            BlockToken::Unknown(s) => BlockTokenView::Unknown(s@),
        }
    }
}

pub open spec fn block_token_views(v: Seq<BlockToken>) -> Seq<BlockTokenView> {
    Seq::new(v.len(), |i: int| v[i]@)
}

/// A parse result: a token and the index of the line that decides what comes
/// next.
pub open spec fn step_view(r: Option<(BlockToken, usize)>) -> Option<(BlockTokenView, int)> {
    match r {
        Some((t, n)) => Some((t@, n as int)),
        None => None,
    }
}

/// The lines of a document, classified.
#[derive(Debug, PartialEq, Eq)]
pub struct Input {
    lines: Vec<Line>,
}

// ---------------------------------------------------------------------------
// Specification
// ---------------------------------------------------------------------------

pub open spec fn is_digit(c: char) -> bool {
    '0' <= c <= '9'
}

/// The kind of a line, decided by how it starts.
pub open spec fn line_type_of(s: Seq<char>) -> LineType {
    if s.len() == 0 {
        LineType::Empty
    } else if s.len() < 3 {
        LineType::Text
    } else if s[0] == '#' {
        LineType::Header
    } else if s[0] == '`' && s[1] == '`' && s[2] == '`' {
        LineType::CodeBlockDelimited
    } else if s[0] == '*' && s[1] == ' ' {
        LineType::UnorderedListItem
    } else if is_digit(s[0]) && (s[1] == '.' || s[2] == '.') {
        LineType::OrderedListItem
    } else if s[0] == '!' {
        LineType::Image
    } else {
        LineType::Text
    }
}

/// The kind of line `i`; past the end, an empty line.
pub open spec fn type_at(ls: Seq<Line>, i: int) -> LineType {
    if 0 <= i < ls.len() {
        ls[i].line_type
    } else {
        LineType::Empty
    }
}

/// The end of the run of lines from `i` whose kind is `lt` (when `same`) or
/// is not `lt` (when not `same`).
pub open spec fn run_end(ls: Seq<Line>, i: int, lt: LineType, same: bool) -> int
    decreases ls.len() - i,
{
    if i < 0 || i >= ls.len() || (ls[i].line_type == lt) != same {
        i
    } else {
        run_end(ls, i + 1, lt, same)
    }
}

/// The lines `ls`, each run through the preprocessors, joined.
pub open spec fn joined_lines(fs: Formatters, ls: Seq<Line>) -> Seq<char>
    decreases ls.len(),
{
    if ls.len() == 0 {
        Seq::empty()
    } else {
        joined_lines(fs, ls.drop_last()) + format_all(fs.preprocessor_seq(), ls.last().text@)
    }
}

/// The text of a block made of the lines `ls`.
pub open spec fn block_text(fs: Formatters, ls: Seq<Line>) -> Seq<char> {
    format_all(fs.formatter_seq(), joined_lines(fs, ls))
}

/// `s` without any `c`.
pub open spec fn without_char(s: Seq<char>, c: char) -> Seq<char>
    decreases s.len(),
{
    if s.len() == 0 {
        Seq::empty()
    } else {
        without_char(s.drop_last(), c) + if s.last() == c {
            Seq::empty()
        } else {
            seq![s.last()]
        }
    }
}

pub open spec fn paragraph_spec(ls: Seq<Line>, fs: Formatters, curr: int) -> Option<(BlockTokenView, int)> {
    if type_at(ls, curr) == LineType::Text {
        let next = run_end(ls, curr, LineType::Text, true);
        Some((BlockTokenView::Paragraph(block_text(fs, ls.subrange(curr, next))), next))
    } else {
        None
    }
}

pub open spec fn header_spec(ls: Seq<Line>, fs: Formatters, curr: int) -> Option<(BlockTokenView, int)> {
    if type_at(ls, curr) == LineType::Header {
        Some((BlockTokenView::Header(block_text(fs, seq![ls[curr]])), curr + 1))
    } else {
        None
    }
}

/// A fenced code block: the language named after the opening fence, and the
/// lines up to the closing fence.
pub open spec fn code_block_spec(ls: Seq<Line>, fs: Formatters, curr: int) -> Option<(BlockTokenView, int)> {
    if type_at(ls, curr) == LineType::CodeBlockDelimited {
        let lang = trimmed(without_char(ls[curr].text@, '`'));
        let next = run_end(ls, curr + 1, LineType::CodeBlockDelimited, false);
        Some((BlockTokenView::CodeBlock(Some(lang), block_text(fs, ls.subrange(curr + 1, next))), next))
    } else {
        None
    }
}

/// A list item: its own line when no text line follows it, else the text
/// lines that follow it.
pub open spec fn list_item_text(ls: Seq<Line>, fs: Formatters, curr: int) -> (Seq<char>, int) {
    if type_at(ls, curr + 1) == LineType::Text {
        let next = run_end(ls, curr + 1, LineType::Text, true);
        (block_text(fs, ls.subrange(curr + 1, next)), next)
    } else {
        (block_text(fs, seq![ls[curr]]), curr)
    }
}

pub open spec fn ordered_item_spec(ls: Seq<Line>, fs: Formatters, curr: int) -> Option<(BlockTokenView, int)> {
    if type_at(ls, curr) == LineType::OrderedListItem {
        let (t, next) = list_item_text(ls, fs, curr);
        Some((BlockTokenView::OrderedListItem(t), next))
    } else {
        None
    }
}

pub open spec fn unordered_item_spec(ls: Seq<Line>, fs: Formatters, curr: int) -> Option<(BlockTokenView, int)> {
    if type_at(ls, curr) == LineType::UnorderedListItem {
        let (t, next) = list_item_text(ls, fs, curr);
        Some((BlockTokenView::UnorderedListItem(t), next))
    } else {
        None
    }
}

pub open spec fn image_spec(ls: Seq<Line>, curr: int) -> Option<(BlockTokenView, int)> {
    if type_at(ls, curr) == LineType::Image {
        Some((BlockTokenView::Image(ls[curr].text@), curr))
    } else {
        None
    }
}

pub open spec fn empty_spec(ls: Seq<Line>, curr: int) -> Option<(BlockTokenView, int)> {
    if type_at(ls, curr) == LineType::Empty {
        Some((BlockTokenView::Empty, curr))
    } else {
        None
    }
}

pub open spec fn or_else(a: Option<(BlockTokenView, int)>, b: Option<(BlockTokenView, int)>) -> Option<(BlockTokenView, int)> {
    if a is Some {
        a
    } else {
        b
    }
}

/// The block at line `curr`, tried as an ordered list item, an unordered
/// list item, a header, a code block, an image, a paragraph, then an empty
/// line; reading goes on one line past where that block says.
pub open spec fn block_spec(ls: Seq<Line>, fs: Formatters, curr: int) -> Option<(BlockTokenView, int)> {
    if 0 <= curr < ls.len() {
        let r = or_else(
            ordered_item_spec(ls, fs, curr),
            or_else(
                unordered_item_spec(ls, fs, curr),
                or_else(
                    header_spec(ls, fs, curr),
                    or_else(
                        code_block_spec(ls, fs, curr),
                        or_else(image_spec(ls, curr), or_else(paragraph_spec(ls, fs, curr), empty_spec(ls, curr))),
                    ),
                ),
            ),
        );
        match r {
            Some((t, n)) => Some((t, n + 1)),
            None => None,
        }
    } else {
        None
    }
}

/// The block tokens of the lines from `i` on.
pub open spec fn blocks_from(ls: Seq<Line>, fs: Formatters, i: int) -> Seq<BlockTokenView>
    decreases ls.len() + 1 - i,
    via blocks_from_decreases
{
    if i < 0 || i >= ls.len() {
        Seq::empty()
    } else {
        match block_spec(ls, fs, i) {
            Some((t, n)) => seq![t] + blocks_from(ls, fs, n),
            None => seq![BlockTokenView::Unknown(ls[i].text@)] + blocks_from(ls, fs, i + 1),
        }
    }
}

#[via_fn]
proof fn blocks_from_decreases(ls: Seq<Line>, fs: Formatters, i: int) {
    lemma_block_spec_advances(ls, fs, i);
}

proof fn lemma_run_end_bounds(ls: Seq<Line>, i: int, lt: LineType, same: bool)
    ensures
        i <= run_end(ls, i, lt, same),
        0 <= i <= ls.len() ==> run_end(ls, i, lt, same) <= ls.len(),
    decreases ls.len() - i,
{
    if !(i < 0 || i >= ls.len() || (ls[i].line_type == lt) != same) {
        lemma_run_end_bounds(ls, i + 1, lt, same);
    }
}

proof fn lemma_block_spec_advances(ls: Seq<Line>, fs: Formatters, curr: int)
    ensures
        block_spec(ls, fs, curr) matches Some((t, n)) ==> curr < n <= ls.len() + 1,
{
    lemma_run_end_bounds(ls, curr, LineType::Text, true);
    lemma_run_end_bounds(ls, curr + 1, LineType::Text, true);
    lemma_run_end_bounds(ls, curr + 1, LineType::CodeBlockDelimited, false);
}


// ---------------------------------------------------------------------------
// Parsing
// ---------------------------------------------------------------------------

impl LineType {
    pub fn new(line: &str) -> (r: LineType)
        ensures
            r == line_type_of(line@),
    {
        let s = chars_of(line);
        let n = s.len();
        if n == 0 {
            LineType::Empty
        } else if n < 3 {
            LineType::Text
        } else if s[0] == '#' {
            LineType::Header
        } else if s[0] == '`' && s[1] == '`' && s[2] == '`' {
            LineType::CodeBlockDelimited
        } else if s[0] == '*' && s[1] == ' ' {
            LineType::UnorderedListItem
        } else if '0' <= s[0] && s[0] <= '9' && (s[1] == '.' || s[2] == '.') {
            LineType::OrderedListItem
        } else if s[0] == '!' {
            LineType::Image
        } else {
            LineType::Text
        }
    }
}

fn copy_line(l: &Line) -> (r: Line)
    ensures
        r == *l,
{
    Line { number: l.number, text: l.text.clone(), line_type: l.line_type }
}

/// `s` without any `c`.
fn remove_char(s: &str, c: char) -> (r: String)
    ensures
        r@ == without_char(s@, c),
{
    let v = chars_of(s);
    let mut r = String::new();
    let mut i: usize = 0;
    while i < v.len()
        invariant
            v@ == s@,
            0 <= i <= v@.len(),
            r@ == without_char(v@.subrange(0, i as int), c),
        decreases v@.len() - i,
    {
        proof {
            assert(v@.subrange(0, i + 1).drop_last() =~= v@.subrange(0, i as int));
        }
        if v[i] != c {
            push_char(&mut r, v[i]);
        } else {
            assert(r@ + Seq::<char>::empty() =~= r@);
        }
        i = i + 1;
    }
    proof {
        assert(v@.subrange(0, v@.len() as int) =~= s@);
    }
    r
}

impl Input {
    /// The document's lines.
    pub closed spec fn line_seq(&self) -> Seq<Line> {
        self.lines@
    }

    /// Classifies each line, numbering them from zero.
    pub fn new(lines: Vec<&str>) -> (r: Input)
        ensures
            r.line_seq().len() == lines@.len(),
            forall|i: int| 0 <= i < lines@.len() ==> (#[trigger] r.line_seq()[i]).number == i
                && r.line_seq()[i].text@ == lines@[i]@ && r.line_seq()[i].line_type == line_type_of(lines@[i]@),
    {
        let mut ls: Vec<Line> = Vec::new();
        let mut i: usize = 0;
        while i < lines.len()
            invariant
                0 <= i <= lines@.len(),
                ls@.len() == i,
                forall|j: int| 0 <= j < i ==> (#[trigger] ls@[j]).number == j && ls@[j].text@ == lines@[j]@
                    && ls@[j].line_type == line_type_of(lines@[j]@),
            decreases lines@.len() - i,
        {
            let l = lines[i];
            ls.push(Line { number: i, text: String::from_str(l), line_type: LineType::new(l) });
            i = i + 1;
        }
        Input { lines: ls }
    }

    pub fn try_get_line(&self, index: usize) -> (r: Option<Line>)
        ensures
            r == (if index < self.line_seq().len() { Some(self.line_seq()[index as int]) } else { None::<Line> }),
    {
        if self.in_bounds(index) {
            Some(copy_line(&self.lines[index]))
        } else {
            None
        }
    }

    pub fn line_count(&self) -> (r: usize)
        ensures
            r == self.line_seq().len(),
    {
        self.lines.len()
    }

    pub fn in_bounds(&self, i: usize) -> (r: bool)
        ensures
            r == (i < self.line_seq().len()),
    {
        i < self.lines.len()
    }

    pub fn get_line_type(&self, i: usize) -> (r: LineType)
        ensures
            r == type_at(self.line_seq(), i as int),
    {
        if self.in_bounds(i) {
            self.lines[i].line_type
        } else {
            LineType::Empty
        }
    }

    /// The lines from `curr` up to the first one of kind `line_type`, and
    /// where that run ends.
    pub fn try_get_until_end_or_type(&self, curr: usize, line_type: LineType) -> (r: (Vec<Line>, usize))
        ensures
            r.1 == run_end(self.line_seq(), curr as int, line_type, false),
            r.0@ == (if curr <= self.line_seq().len() {
                self.line_seq().subrange(curr as int, r.1 as int)
            } else {
                Seq::<Line>::empty()
            }),
    {
        self.take_run(curr, line_type, false)
    }

    /// The lines from `curr` while they are of kind `line_type`, and where
    /// that run ends.
    pub fn try_get_until_end_or_not_type(&self, curr: usize, line_type: LineType) -> (r: (Vec<Line>, usize))
        ensures
            r.1 == run_end(self.line_seq(), curr as int, line_type, true),
            r.0@ == (if curr <= self.line_seq().len() {
                self.line_seq().subrange(curr as int, r.1 as int)
            } else {
                Seq::<Line>::empty()
            }),
    {
        self.take_run(curr, line_type, true)
    }

    fn take_run(&self, curr: usize, line_type: LineType, same: bool) -> (r: (Vec<Line>, usize))
        ensures
            r.1 == run_end(self.line_seq(), curr as int, line_type, same),
            r.0@ == (if curr <= self.line_seq().len() {
                self.line_seq().subrange(curr as int, r.1 as int)
            } else {
                Seq::<Line>::empty()
            }),
    {
        let ghost ls = self.line_seq();
        let mut i = curr;
        let mut lines: Vec<Line> = Vec::new();
        while i < self.lines.len() && (self.lines[i].line_type == line_type) == same
            invariant
                ls == self.line_seq(),
                curr <= i,
                curr < ls.len() ==> i <= ls.len(),
                curr >= ls.len() ==> i == curr,
                run_end(ls, curr as int, line_type, same) == run_end(ls, i as int, line_type, same),
                curr <= ls.len() ==> lines@ == ls.subrange(curr as int, i as int),
                curr > ls.len() ==> lines@ == Seq::<Line>::empty(),
            decreases ls.len() - i,
        {
            lines.push(copy_line(&self.lines[i]));
            proof {
                assert(ls.subrange(curr as int, i + 1) =~= ls.subrange(curr as int, i as int).push(ls[i as int]));
            }
            i = i + 1;
        }
        proof {
            if curr <= ls.len() && i == curr {
                assert(ls.subrange(curr as int, i as int) =~= Seq::<Line>::empty());
            }
        }
        (lines, i)
    }

    fn format_block_text(lines: Vec<Line>, formatters: &Formatters) -> (r: String)
        requires
            formatters.wf(),
        ensures
            r@ == block_text(*formatters, lines@),
    {
        let mut s = String::new();
        let mut i: usize = 0;
        while i < lines.len()
            invariant
                formatters.wf(),
                0 <= i <= lines@.len(),
                s@ == joined_lines(*formatters, lines@.subrange(0, i as int)),
            decreases lines@.len() - i,
        {
            let t = formatters.run_preprocessors(lines[i].text.clone());
            s.append(t.as_str());
            proof {
                let pre = lines@.subrange(0, i + 1);
                assert(pre.drop_last() =~= lines@.subrange(0, i as int));
            }
            i = i + 1;
        }
        proof {
            assert(lines@.subrange(0, lines@.len() as int) =~= lines@);
        }
        formatters.run(s)
    }

    fn single_line(&self, curr: usize) -> (r: Vec<Line>)
        requires
            curr < self.line_seq().len(),
        ensures
            r@ == seq![self.line_seq()[curr as int]],
    {
        let mut v: Vec<Line> = Vec::new();
        v.push(copy_line(&self.lines[curr]));
        assert(v@ =~= seq![self.line_seq()[curr as int]]);
        v
    }

    pub fn try_parse_paragraph(&self, curr: usize, formatters: &Formatters) -> (r: Option<(BlockToken, usize)>)
        requires
            formatters.wf(),
        ensures
            step_view(r) == paragraph_spec(self.line_seq(), *formatters, curr as int),
    {
        match self.get_line_type(curr) {
            LineType::Text => {
                let (lines, next) = self.try_get_until_end_or_not_type(curr, LineType::Text);
                Some((BlockToken::Paragraph(Input::format_block_text(lines, formatters)), next))
            },
            _ => None,
        }
    }

    pub fn try_parse_header(&self, curr: usize, formatters: &Formatters) -> (r: Option<(BlockToken, usize)>)
        requires
            formatters.wf(),
        ensures
            step_view(r) == header_spec(self.line_seq(), *formatters, curr as int),
    {
        let _n = self.line_count();
        match self.get_line_type(curr) {
            LineType::Header => {
                let lines = self.single_line(curr);
                Some((BlockToken::Header(Input::format_block_text(lines, formatters)), curr + 1))
            },
            _ => None,
        }
    }

    pub fn try_parse_code_block(&self, curr: usize, formatters: &Formatters) -> (r: Option<(BlockToken, usize)>)
        requires
            formatters.wf(),
        ensures
            step_view(r) == code_block_spec(self.line_seq(), *formatters, curr as int),
    {
        let _n = self.line_count();
        match self.get_line_type(curr) {
            LineType::CodeBlockDelimited => {
                let lang = match self.try_get_line(curr) {
                    Some(l) => Some(trim_text(remove_char(l.text.as_str(), '`').as_str())),
                    None => None,
                };
                let (lines, next) = self.try_get_until_end_or_type(curr + 1, LineType::CodeBlockDelimited);
                Some((BlockToken::CodeBlock(lang, Input::format_block_text(lines, formatters)), next))
            },
            _ => None,
        }
    }

    fn list_item_text(&self, curr: usize, formatters: &Formatters) -> (r: (String, usize))
        requires
            formatters.wf(),
            curr < self.line_seq().len(),
        ensures
            (r.0@, r.1 as int) == list_item_text(self.line_seq(), *formatters, curr as int),
    {
        let _n = self.line_count();
        match self.get_line_type(curr + 1) {
            LineType::Text => {
                let (lines, next) = self.try_get_until_end_or_not_type(curr + 1, LineType::Text);
                (Input::format_block_text(lines, formatters), next)
            },
            _ => {
                let lines = self.single_line(curr);
                (Input::format_block_text(lines, formatters), curr)
            },
        }
    }

    pub fn try_parse_ordered_list_item(&self, curr: usize, formatters: &Formatters) -> (r: Option<(BlockToken, usize)>)
        requires
            formatters.wf(),
        ensures
            step_view(r) == ordered_item_spec(self.line_seq(), *formatters, curr as int),
    {
        match self.get_line_type(curr) {
            LineType::OrderedListItem => {
                let (t, next) = self.list_item_text(curr, formatters);
                Some((BlockToken::OrderedListItem(t), next))
            },
            _ => None,
        }
    }

    pub fn try_parse_unordered_list_item(&self, curr: usize, formatters: &Formatters) -> (r: Option<(BlockToken, usize)>)
        requires
            formatters.wf(),
        ensures
            step_view(r) == unordered_item_spec(self.line_seq(), *formatters, curr as int),
    {
        match self.get_line_type(curr) {
            LineType::UnorderedListItem => {
                let (t, next) = self.list_item_text(curr, formatters);
                Some((BlockToken::UnorderedListItem(t), next))
            },
            _ => None,
        }
    }

    pub fn try_parse_image(&self, curr: usize, formatters: &Formatters) -> (r: Option<(BlockToken, usize)>)
        ensures
            step_view(r) == image_spec(self.line_seq(), curr as int),
    {
        match self.get_line_type(curr) {
            LineType::Image => Some((BlockToken::Image(self.lines[curr].text.clone()), curr)),
            _ => None,
        }
    }

    pub fn try_parse_empty(&self, curr: usize) -> (r: Option<(BlockToken, usize)>)
        ensures
            step_view(r) == empty_spec(self.line_seq(), curr as int),
    {
        match self.get_line_type(curr) {
            LineType::Empty => Some((BlockToken::Empty, curr)),
            _ => None,
        }
    }

    /// The block at line `curr` and the line after it.
    pub fn try_parse_block(&self, curr: usize, formatters: &Formatters) -> (r: Option<(BlockToken, usize)>)
        requires
            formatters.wf(),
            self.line_seq().len() < usize::MAX,
        ensures
            step_view(r) == block_spec(self.line_seq(), *formatters, curr as int),
    {
        if !self.in_bounds(curr) {
            return None;
        }
        let ghost ls = self.line_seq();
        proof {
            lemma_run_end_bounds(ls, curr as int, LineType::Text, true);
            lemma_run_end_bounds(ls, curr + 1, LineType::Text, true);
            lemma_run_end_bounds(ls, curr + 1, LineType::CodeBlockDelimited, false);
        }
        let found = match self.try_parse_ordered_list_item(curr, formatters) {
            Some(x) => Some(x),
            None => match self.try_parse_unordered_list_item(curr, formatters) {
                Some(x) => Some(x),
                None => match self.try_parse_header(curr, formatters) {
                    Some(x) => Some(x),
                    None => match self.try_parse_code_block(curr, formatters) {
                        Some(x) => Some(x),
                        None => match self.try_parse_image(curr, formatters) {
                            Some(x) => Some(x),
                            None => match self.try_parse_paragraph(curr, formatters) {
                                Some(x) => Some(x),
                                None => self.try_parse_empty(curr),
                            },
                        },
                    },
                },
            },
        };
        match found {
            Some((bt, n)) => Some((bt, n + 1)),
            None => None,
        }
    }

    /// The block tokens of the whole document.
    pub fn parse_blocks(&self, formatters: &Formatters) -> (r: Vec<BlockToken>)
        requires
            formatters.wf(),
            self.line_seq().len() < usize::MAX,
        ensures
            block_token_views(r@) == blocks_from(self.line_seq(), *formatters, 0),
    {
        let ghost ls = self.line_seq();
        let mut tokens = Vec::<BlockToken>::new();
        let mut i: usize = 0;
        while self.in_bounds(i)
            invariant
                formatters.wf(),
                ls == self.line_seq(),
                ls.len() < usize::MAX,
                0 <= i <= ls.len() + 1,
                block_token_views(tokens@) + blocks_from(ls, *formatters, i as int) == blocks_from(ls, *formatters, 0),
            decreases ls.len() + 1 - i,
        {
            proof {
                lemma_block_spec_advances(ls, *formatters, i as int);
            }
            let (token, next) = match self.try_parse_block(i, formatters) {
                Some(x) => x,
                None => (BlockToken::Unknown(self.lines[i].text.clone()), i + 1),
            };
            proof {
                assert(seq![token@] + blocks_from(ls, *formatters, next as int) == blocks_from(ls, *formatters, i as int));
                assert(block_token_views(tokens@.push(token)) =~= block_token_views(tokens@) + seq![token@]);
                assert(block_token_views(tokens@) + (seq![token@] + blocks_from(ls, *formatters, next as int))
                    =~= (block_token_views(tokens@) + seq![token@]) + blocks_from(ls, *formatters, next as int));
            }
            tokens.push(token);
            i = next;
        }
        proof {
            assert(block_token_views(tokens@) + Seq::<BlockTokenView>::empty() =~= block_token_views(tokens@));
        }
        tokens
    }
}

} // verus!
