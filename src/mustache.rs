//! A Mustache-style template engine: a delimiter scanner, a tokenizer, a
//! scope-tree builder and a renderer over a small value model.
use vstd::prelude::*;

use crate::text::{chars_of, push_char, push_text, string_from, trim_text, trimmed};

verus! {

// ---------------------------------------------------------------------------
// Data
// ---------------------------------------------------------------------------

/// A template feature that is recognised but not supported.
#[derive(Clone, Copy, Debug, PartialEq, Eq, Structural)]
pub enum Feature {
    SetDelimiter,
    Partial,
    Lambda,
}

/// Why compiling or rendering a template failed.
#[derive(Clone, Debug, PartialEq, Eq)]
pub enum TemplateError {
    /// A tag whose body is empty.
    MalformedTag,
    /// A section end tag with no open section of that name.
    UnmatchedSectionEnd(String),
    /// A section start tag that is never closed.
    UnclosedSection(String),
    /// A recognised but unsupported feature.
    UnsupportedFeature(Feature),
}

pub enum ErrorView {
    MalformedTag,
    UnmatchedSectionEnd(Seq<char>),
    UnclosedSection(Seq<char>),
    UnsupportedFeature(Feature),
}

impl View for TemplateError {
    type V = ErrorView;

    open spec fn view(&self) -> ErrorView {
        match self {
            TemplateError::MalformedTag => ErrorView::MalformedTag,
            TemplateError::UnmatchedSectionEnd(n) => ErrorView::UnmatchedSectionEnd(n@),
            TemplateError::UnclosedSection(n) => ErrorView::UnclosedSection(n@),
            TemplateError::UnsupportedFeature(f) => ErrorView::UnsupportedFeature(*f),
        }
    }
}

/// One token of a template, in source order.
#[derive(Clone, Debug, PartialEq, Eq)]
pub enum MustacheToken {
    Unmodified(String),
    EscapedVariable(String),
    NonEscapedVariable(String),
    SectionStart(String),
    InvertedSectionStart(String),
    SectionEnd(String),
    Comment(String),
    Partial(String),
    SetDelimiter(String, String),
}

pub enum TokenView {
    Unmodified(Seq<char>),
    EscapedVariable(Seq<char>),
    NonEscapedVariable(Seq<char>),
    SectionStart(Seq<char>),
    InvertedSectionStart(Seq<char>),
    SectionEnd(Seq<char>),
    Comment(Seq<char>),
    Partial(Seq<char>),
    SetDelimiter(Seq<char>, Seq<char>),
}

impl View for MustacheToken {
    type V = TokenView;

    open spec fn view(&self) -> TokenView {
        match self {
            MustacheToken::Unmodified(s) => TokenView::Unmodified(s@),
            MustacheToken::EscapedVariable(s) => TokenView::EscapedVariable(s@),
            MustacheToken::NonEscapedVariable(s) => TokenView::NonEscapedVariable(s@),
            MustacheToken::SectionStart(s) => TokenView::SectionStart(s@),
            MustacheToken::InvertedSectionStart(s) => TokenView::InvertedSectionStart(s@),
            MustacheToken::SectionEnd(s) => TokenView::SectionEnd(s@),
            MustacheToken::Comment(s) => TokenView::Comment(s@),
            MustacheToken::Partial(s) => TokenView::Partial(s@),
            MustacheToken::SetDelimiter(o, c) => TokenView::SetDelimiter(o@, c@),
        }
    }
}

/// A value that a template can be rendered against.
#[derive(Debug, PartialEq, Eq)]
pub enum MustacheValue {
    Scalar(String),
    Object(Vec<(String, MustacheValue)>),
    Array(Vec<Vec<(String, MustacheValue)>>),
    Lamba(),
}

/// The named values of one render pass. A name looks up its first binding;
/// where no two bindings share a name (`keys_unique`), that is the one
/// binding of the name, as in a map.
#[derive(Debug, PartialEq, Eq)]
pub struct MustacheData {
    values: Vec<(String, MustacheValue)>,
}

/// A node of the scope tree: a named section and what it holds.
#[derive(Debug, PartialEq, Eq)]
pub struct TokenCollection {
    name: String,
    inverted: bool,
    tokens: Vec<TokenCollectionItem>,
}

#[derive(Debug, PartialEq, Eq)]
pub enum TokenCollectionItem {
    Token(MustacheToken),
    InnerCollection(TokenCollection),
}

pub struct ScopeView {
    pub name: Seq<char>,
    pub inverted: bool,
    pub items: Seq<ItemView>,
}

pub enum ItemView {
    Token(TokenView),
    Scope(ScopeView),
}

/// The mathematical form of a scope tree.
pub closed spec fn scope_view(c: TokenCollection) -> ScopeView
    decreases c,
{
    ScopeView {
        name: c.name@,
        inverted: c.inverted,
        items: Seq::new(
            c.tokens@.len(),
            |j: int|
                if 0 <= j < c.tokens@.len() {
                    match c.tokens@[j] {
                        TokenCollectionItem::Token(t) => ItemView::Token(t@),
                        TokenCollectionItem::InnerCollection(ic) => ItemView::Scope(scope_view(ic)),
                    }
                } else {
                    ItemView::Token(TokenView::Comment(Seq::empty()))
                },
        ),
    }
}

pub closed spec fn item_view(it: TokenCollectionItem) -> ItemView {
    match it {
        TokenCollectionItem::Token(t) => ItemView::Token(t@),
        TokenCollectionItem::InnerCollection(ic) => ItemView::Scope(scope_view(ic)),
    }
}

pub closed spec fn items_view(v: Seq<TokenCollectionItem>) -> Seq<ItemView> {
    Seq::new(v.len(), |j: int| item_view(v[j]))
}

impl View for TokenCollection {
    type V = ScopeView;

    closed spec fn view(&self) -> ScopeView {
        scope_view(*self)
    }
}

proof fn lemma_scope_view_items(c: TokenCollection)
    ensures
        c@.items == items_view(c.tokens@),
        c@.name == c.name@,
        c@.inverted == c.inverted,
{
    assert(c@.items =~= items_view(c.tokens@));
}

/// A parsed template: its tokens in source order.
#[derive(Clone, Debug, PartialEq, Eq)]
pub struct MustacheTemplate {
    tokens: Vec<MustacheToken>,
}

// ---------------------------------------------------------------------------
// Delimiter scanner
// ---------------------------------------------------------------------------

/// An open delimiter `{{` starts at `i`.
pub open spec fn is_open_at(s: Seq<char>, i: int) -> bool {
    0 <= i && i + 1 < s.len() && s[i] == '{' && s[i + 1] == '{'
}

/// A close delimiter `}}` starts at `i`.
pub open spec fn is_close_at(s: Seq<char>, i: int) -> bool {
    0 <= i && i + 1 < s.len() && s[i] == '}' && s[i + 1] == '}'
}

/// The first open delimiter at or after `from`.
pub open spec fn find_next_open(s: Seq<char>, from: int) -> Option<int>
    decreases s.len() - from,
{
    if from < 0 || from >= s.len() {
        None
    } else if is_open_at(s, from) {
        Some(from)
    } else {
        find_next_open(s, from + 1)
    }
}

/// Scanning from `i` with `depth` open delimiters seen so far: every open
/// delimiter deepens the nesting, every close delimiter leaves one level, and
/// the close delimiter met at depth one is the match.
pub open spec fn matching_close(s: Seq<char>, i: int, depth: nat) -> Option<int>
    decreases s.len() - i,
{
    if i < 0 || i >= s.len() {
        None
    } else if is_open_at(s, i) {
        matching_close(s, i + 1, depth + 1)
    } else if is_close_at(s, i) {
        if depth == 1 {
            Some(i)
        } else {
            matching_close(s, i + 1, if depth == 0 { 0 } else { (depth - 1) as nat })
        }
    } else {
        matching_close(s, i + 1, depth)
    }
}

/// The close delimiter that balances the open delimiter at `open`.
pub open spec fn find_matching_close(s: Seq<char>, open: int) -> Option<int> {
    matching_close(s, open, 0)
}

proof fn lemma_matching_close_bounds(s: Seq<char>, i: int, depth: nat)
    ensures
        matching_close(s, i, depth) matches Some(e) ==> i <= e && is_close_at(s, e),
    decreases s.len() - i,
{
    if i < 0 || i >= s.len() {
    } else if is_open_at(s, i) {
        lemma_matching_close_bounds(s, i + 1, depth + 1);
    } else if is_close_at(s, i) {
        if depth != 1 {
            lemma_matching_close_bounds(s, i + 1, if depth == 0 { 0 } else { (depth - 1) as nat });
        }
    } else {
        lemma_matching_close_bounds(s, i + 1, depth);
    }
}

proof fn lemma_find_next_open_bounds(s: Seq<char>, from: int)
    requires
        0 <= from,
    ensures
        find_next_open(s, from) matches Some(p) ==> from <= p && is_open_at(s, p),
        find_next_open(s, from) is None ==> forall|k: int| from <= k < s.len() ==> !is_open_at(s, k),
    decreases s.len() - from,
{
    if from < 0 || from >= s.len() {
    } else if is_open_at(s, from) {
    } else {
        lemma_find_next_open_bounds(s, from + 1);
    }
}

struct ParsableInput {
    input: Vec<char>,
    position: usize,
}

impl ParsableInput {
    /// The characters being scanned.
    pub closed spec fn text(&self) -> Seq<char> {
        self.input@
    }

    /// The scanning position.
    pub closed spec fn pos(&self) -> int {
        self.position as int
    }

    pub fn set_position(&mut self, i: usize)
        ensures
            final(self).text() == old(self).text(),
            final(self).pos() == i,
    {
        self.position = i;
    }

    pub fn advance(&mut self)
        requires
            old(self).pos() < usize::MAX,
        ensures
            final(self).text() == old(self).text(),
            final(self).pos() == old(self).pos() + 1,
    {
        self.set_position(self.position + 1)
    }

    fn in_bounds(&self, i: usize) -> (r: bool)
        ensures
            r == (i < self.text().len()),
    {
        i < self.input.len()
    }

    fn is_in_bounds(&self) -> (r: bool)
        ensures
            r == (self.pos() < self.text().len()),
    {
        self.in_bounds(self.position)
    }

    fn get_char(&self, i: usize) -> (r: Option<char>)
        ensures
            r == (if i < self.text().len() { Some(self.text()[i as int]) } else { None::<char> }),
    {
        if i < self.input.len() {
            Some(self.input[i])
        } else {
            None
        }
    }

    fn check_char(&self, c: char, i: usize) -> (r: bool)
        ensures
            r == (i < self.text().len() && self.text()[i as int] == c),
    {
        match self.get_char(i) {
            Some(fc) => fc == c,
            None => false,
        }
    }

    fn is_two_chars(&self, c1: char, c2: char) -> (r: bool)
        requires
            self.pos() <= self.text().len(),
        ensures
            r == (self.pos() + 1 < self.text().len() && self.text()[self.pos()] == c1
                && self.text()[self.pos() + 1] == c2),
    {
        self.position < self.input.len() && self.check_char(c1, self.position) && self.check_char(
            c2,
            self.position + 1,
        )
    }

    /// Moves to the close delimiter that balances the open delimiter at the
    /// current position, or to the end of the input when there is none.
    fn next_non_nested(&mut self) -> (r: Option<usize>)
        requires
            old(self).pos() <= old(self).text().len(),
        ensures
            final(self).text() == old(self).text(),
            r matches Some(e) ==> find_matching_close(old(self).text(), old(self).pos() as int) == Some(e as int)
                && final(self).pos() == e,
            r is None ==> find_matching_close(old(self).text(), old(self).pos() as int) is None
                && final(self).pos() == old(self).text().len(),
    {
        let ghost s = self.text();
        let ghost start = self.pos();
        let mut depth: usize = 0;
        let n = self.input.len();
        loop
            invariant
                n == s.len(),
                self.text() == s,
                s == old(self).text(),
                start == old(self).pos(),
                start <= self.position <= s.len(),
                depth <= self.position - start,
                matching_close(s, start, 0) == matching_close(s, self.pos(), depth as nat),
            decreases s.len() - self.position,
        {
            if !self.is_in_bounds() {
                return None;
            }
            if self.is_two_chars('{', '{') {
                depth = depth + 1;
                self.advance();
            } else if self.is_two_chars('}', '}') {
                if depth == 1 {
                    return Some(self.position);
                }
                if depth > 0 {
                    depth = depth - 1;
                }
                self.advance();
            } else {
                self.advance();
            }
        }
    }

    pub fn len(&self) -> (r: usize)
        ensures
            r == self.text().len(),
    {
        self.input.len()
    }

    /// The text from `start_index` up to `end_index`, where that is a
    /// non-empty range of the input.
    pub fn get_slice(&self, start_index: usize, end_index: usize) -> (r: Option<String>)
        ensures
            start_index < end_index <= self.text().len() ==> (r matches Some(t) && t@
                == self.text().subrange(start_index as int, end_index as int)),
            !(start_index < end_index <= self.text().len()) ==> r is None,
    {
        if start_index < end_index && end_index <= self.input.len() {
            Some(string_from(&self.input, start_index, end_index))
        } else {
            None
        }
    }

    pub fn current_char(&self) -> (r: char)
        ensures
            r == (if self.pos() < self.text().len() { self.text()[self.pos()] } else { '\0' }),
    {
        match self.get_char(self.position) {
            Some(c) => c,
            None => '\0',
        }
    }
}


// ---------------------------------------------------------------------------
// Tokenizer
// ---------------------------------------------------------------------------

/// The name after a tag's leading sigil.
pub open spec fn token_name(t: Seq<char>) -> Seq<char> {
    trimmed(t.subrange(1, t.len() as int))
}

/// The token that a tag body stands for, classified by its first character
/// once trimmed.
pub open spec fn classify(body: Seq<char>) -> Result<TokenView, ErrorView> {
    let t = trimmed(body);
    if t.len() == 0 {
        Err(ErrorView::MalformedTag)
    } else if t[0] == '#' {
        Ok(TokenView::SectionStart(token_name(t)))
    } else if t[0] == '/' {
        Ok(TokenView::SectionEnd(token_name(t)))
    } else if t[0] == '^' {
        Ok(TokenView::InvertedSectionStart(token_name(t)))
    } else if t[0] == '!' {
        Ok(TokenView::Comment(token_name(t)))
    } else if t[0] == '>' {
        Ok(TokenView::Partial(token_name(t)))
    } else if t[0] == '=' {
        Err(ErrorView::UnsupportedFeature(Feature::SetDelimiter))
    } else if t[0] == '&' {
        Ok(TokenView::NonEscapedVariable(token_name(t)))
    } else if t[0] == '{' && t.len() >= 2 && t[t.len() - 1] == '}' {
        Ok(TokenView::NonEscapedVariable(trimmed(t.subrange(1, t.len() - 1))))
    } else {
        Ok(TokenView::EscapedVariable(t))
    }
}

/// Puts `prefix` before a successful result; an error passes through.
pub open spec fn prepend<T>(prefix: Seq<T>, rest: Result<Seq<T>, ErrorView>) -> Result<Seq<T>, ErrorView> {
    match rest {
        Ok(r) => Ok(prefix + r),
        Err(e) => Err(e),
    }
}

/// The tokens of `s` from the split point `last` on: the text before each
/// tag, then the tag's token; the text after the last tag, or from an open
/// delimiter that is never balanced, ends the sequence.
pub open spec fn tokens_from(s: Seq<char>, last: int) -> Result<Seq<TokenView>, ErrorView>
    decreases s.len() - last,
    via tokens_from_decreases
{
    if last < 0 || last > s.len() {
        Ok(Seq::empty())
    } else {
        match find_next_open(s, last) {
            None => Ok(seq![TokenView::Unmodified(s.subrange(last, s.len() as int))]),
            Some(p) => match find_matching_close(s, p) {
                None => Ok(seq![TokenView::Unmodified(s.subrange(last, s.len() as int))]),
                Some(e) => match classify(s.subrange(p + 2, e)) {
                    Err(err) => Err(err),
                    Ok(tok) => prepend(
                        seq![TokenView::Unmodified(s.subrange(last, p)), tok],
                        tokens_from(s, e + 2),
                    ),
                },
            },
        }
    }
}

#[via_fn]
proof fn tokens_from_decreases(s: Seq<char>, last: int) {
    if 0 <= last <= s.len() {
        if let Some(p) = find_next_open(s, last) {
            if let Some(e) = find_matching_close(s, p) {
                lemma_open_close_span(s, last, p);
            }
        }
    }
}

/// The close delimiter that balances an open delimiter lies after it, past
/// its second brace.
proof fn lemma_open_close_span(s: Seq<char>, last: int, p: int)
    requires
        0 <= last,
        find_next_open(s, last) == Some(p),
    ensures
        last <= p,
        is_open_at(s, p),
        find_matching_close(s, p) matches Some(e) ==> p + 2 <= e && e + 2 <= s.len(),
{
    lemma_find_next_open_bounds(s, last);
    lemma_matching_close_bounds(s, p + 1, 1);
}

proof fn lemma_prepend_assoc<T>(a: Seq<T>, b: Seq<T>, r: Result<Seq<T>, ErrorView>)
    ensures
        prepend(a, prepend(b, r)) == prepend(a + b, r),
{
    if let Ok(x) = r {
        assert(a + (b + x) =~= (a + b) + x);
    }
}

/// The tokens of a whole template.
pub open spec fn tokenize(s: Seq<char>) -> Result<Seq<TokenView>, ErrorView> {
    tokens_from(s, 0)
}

pub open spec fn token_views(v: Seq<MustacheToken>) -> Seq<TokenView> {
    Seq::new(v.len(), |i: int| v[i]@)
}

proof fn lemma_next_open_skip(s: Seq<char>, a: int, b: int)
    requires
        0 <= a <= b,
        forall|k: int| a <= k < b ==> !is_open_at(s, k),
    ensures
        find_next_open(s, a) == find_next_open(s, b),
    decreases b - a,
{
    if a < b && a < s.len() {
        lemma_next_open_skip(s, a + 1, b);
    } else if a < b {
        lemma_next_open_skip_end(s, a, b);
    }
}

proof fn lemma_next_open_skip_end(s: Seq<char>, a: int, b: int)
    requires
        s.len() <= a <= b,
    ensures
        find_next_open(s, a) == find_next_open(s, b),
{
}

impl MustacheToken {
    /// The token for a tag body.
    pub fn create(input: String) -> (r: Result<MustacheToken, TemplateError>)
        ensures
            r matches Ok(t) ==> classify(input@) == Ok::<TokenView, ErrorView>(t@),
            r matches Err(e) ==> classify(input@) == Err::<TokenView, ErrorView>(e@),
    {
        let t = trim_text(input.as_str());
        let chars = chars_of(t.as_str());
        let n = chars.len();
        if n == 0 {
            return Err(TemplateError::MalformedTag);
        }
        let c = chars[0];
        if c == '#' {
            Ok(MustacheToken::SectionStart(get_token_name(&chars)))
        } else if c == '/' {
            Ok(MustacheToken::SectionEnd(get_token_name(&chars)))
        } else if c == '^' {
            Ok(MustacheToken::InvertedSectionStart(get_token_name(&chars)))
        } else if c == '!' {
            Ok(MustacheToken::Comment(get_token_name(&chars)))
        } else if c == '>' {
            Ok(MustacheToken::Partial(get_token_name(&chars)))
        } else if c == '=' {
            Err(TemplateError::UnsupportedFeature(Feature::SetDelimiter))
        } else if c == '&' {
            Ok(MustacheToken::NonEscapedVariable(get_token_name(&chars)))
        } else if c == '{' && n >= 2 && chars[n - 1] == '}' {
            let inner = string_from(&chars, 1, n - 1);
            Ok(MustacheToken::NonEscapedVariable(trim_text(inner.as_str())))
        } else {
            Ok(MustacheToken::EscapedVariable(t))
        }
    }

    /// Whether the token is a block tag, which could stand alone on a line.
    pub fn can_have_leading_new_line(&self) -> (r: bool)
        ensures
            r == !(self is Unmodified || self is EscapedVariable || self is NonEscapedVariable),
    {
        match self {
            MustacheToken::SectionStart(_) => true,
            MustacheToken::InvertedSectionStart(_) => true,
            MustacheToken::Unmodified(_) => false,
            MustacheToken::Comment(_) => true,
            MustacheToken::Partial(_) => true,
            MustacheToken::SetDelimiter(_, _) => true,
            MustacheToken::EscapedVariable(_) => false,
            MustacheToken::NonEscapedVariable(_) => false,
            MustacheToken::SectionEnd(_) => true,
        }
    }
}

fn get_token_name(input: &Vec<char>) -> (r: String)
    requires
        input@.len() >= 1,
    ensures
        r@ == token_name(input@),
{
    let rest = string_from(input, 1, input.len());
    trim_text(rest.as_str())
}

/// Compiles template text into its token sequence.
pub struct MustacheParser {
    input: ParsableInput,
}

impl MustacheParser {
    /// The characters of the template.
    pub closed spec fn source(&self) -> Seq<char> {
        self.input.text()
    }

    /// Where the scan stands in the template.
    pub closed spec fn position(&self) -> int {
        self.input.pos()
    }

    pub fn new(input: String) -> (r: MustacheParser)
        ensures
            r.source() == input@,
            r.position() == 0,
    {
        MustacheParser { input: ParsableInput { input: chars_of(input.as_str()), position: 0 } }
    }

    /// Splits the template into literal text and tags.
    pub fn run(&mut self) -> (r: Result<MustacheTemplate, TemplateError>)
        ensures
            final(self).source() == old(self).source(),
            r matches Ok(t) ==> tokenize(old(self).source()) == Ok::<Seq<TokenView>, ErrorView>(t.token_seq()),
            r matches Err(e) ==> tokenize(old(self).source()) == Err::<Seq<TokenView>, ErrorView>(e@),
    {
        let ghost s = self.input.text();
        self.input.set_position(0);
        let mut tokens = Vec::<MustacheToken>::new();
        let mut last_split: usize = 0;
        let n = self.input.len();
        loop
            invariant
                s == old(self).source(),
                self.input.text() == s,
                n == s.len(),
                0 <= last_split <= self.input.pos() <= s.len(),
                forall|k: int| last_split <= k < self.input.pos() ==> !is_open_at(s, k),
                tokens_from(s, 0) == prepend(token_views(tokens@), tokens_from(s, last_split as int)),
            decreases s.len() - self.input.pos(),
        {
            if !self.input.is_in_bounds() {
                proof {
                    lemma_next_open_skip(s, last_split as int, self.input.pos());
                }
                let lit = string_from(&self.input.input, last_split, n);
                proof {
                    assert(token_views(tokens@.push(MustacheToken::Unmodified(lit))) =~= token_views(tokens@)
                        + seq![TokenView::Unmodified(s.subrange(last_split as int, s.len() as int))]);
                }
                tokens.push(MustacheToken::Unmodified(lit));
                return Ok(MustacheTemplate { tokens });
            }
            if self.input.is_two_chars('{', '{') {
                let pos = self.input.position;
                proof {
                    lemma_next_open_skip(s, last_split as int, pos as int);
                    lemma_open_close_span(s, last_split as int, pos as int);
                }
                match self.input.next_non_nested() {
                    Some(end_index) => {
                        let body = string_from(&self.input.input, pos + 2, end_index);
                        let token = match MustacheToken::create(body) {
                            Ok(t) => t,
                            Err(e) => {
                                return Err(e);
                            }
                        };
                        let lit = string_from(&self.input.input, last_split, pos);
                        proof {
                            assert(token_views(tokens@.push(MustacheToken::Unmodified(lit)).push(token))
                                =~= token_views(tokens@) + seq![TokenView::Unmodified(s.subrange(last_split as int, pos as int)), token@]);
                        }
                        proof {
                            let pre = seq![TokenView::Unmodified(s.subrange(last_split as int, pos as int)), token@];
                            assert(tokens_from(s, last_split as int) == prepend(pre, tokens_from(s, end_index + 2)));
                            lemma_prepend_assoc(token_views(tokens@), pre, tokens_from(s, end_index + 2));
                        }
                        tokens.push(MustacheToken::Unmodified(lit));
                        tokens.push(token);
                        last_split = end_index + 2;
                        self.input.set_position(last_split);
                    },
                    None => {
                        let lit = string_from(&self.input.input, last_split, n);
                        proof {
                            assert(token_views(tokens@.push(MustacheToken::Unmodified(lit))) =~= token_views(tokens@)
                                + seq![TokenView::Unmodified(s.subrange(last_split as int, s.len() as int))]);
                        }
                        tokens.push(MustacheToken::Unmodified(lit));
                        return Ok(MustacheTemplate { tokens });
                    },
                }
            } else {
                self.input.advance();
            }
        }
    }
}

impl MustacheTemplate {
    /// The template's tokens, in source order.
    pub closed spec fn token_seq(&self) -> Seq<TokenView> {
        token_views(self.tokens@)
    }
}


// ---------------------------------------------------------------------------
// Scope-tree builder
// ---------------------------------------------------------------------------

/// The name of the top-level scope.
pub open spec fn top_scope_name() -> Seq<char> {
    seq!['_', '_', 'm', 'a', 'i', 'n']
}

/// The first index in `[j, hi)` that holds a section end tag closing no
/// section opened after `j`, with `depth` sections opened and not yet closed
/// from where the search began; `hi` when there is none.
pub open spec fn find_end(toks: Seq<TokenView>, j: int, hi: int, depth: nat) -> int
    decreases hi - j,
{
    if j >= hi || j < 0 || j >= toks.len() {
        hi
    } else if opened_name(toks[j]) is Some {
        find_end(toks, j + 1, hi, depth + 1)
    } else if toks[j] is SectionEnd {
        if depth == 0 {
            j
        } else {
            find_end(toks, j + 1, hi, (depth - 1) as nat)
        }
    } else {
        find_end(toks, j + 1, hi, depth)
    }
}

proof fn lemma_find_end_bounds(toks: Seq<TokenView>, j: int, hi: int, depth: nat)
    requires
        0 <= j,
        hi <= toks.len(),
    ensures
        j <= find_end(toks, j, hi, depth) || find_end(toks, j, hi, depth) == hi,
        find_end(toks, j, hi, depth) <= hi || j > hi,
        find_end(toks, j, hi, depth) < hi ==> toks[find_end(toks, j, hi, depth)] is SectionEnd,
    decreases hi - j,
{
    if j < hi && j < toks.len() {
        if opened_name(toks[j]) is Some {
            lemma_find_end_bounds(toks, j + 1, hi, depth + 1);
        } else if toks[j] is SectionEnd {
            if depth != 0 {
                lemma_find_end_bounds(toks, j + 1, hi, (depth - 1) as nat);
            }
        } else {
            lemma_find_end_bounds(toks, j + 1, hi, depth);
        }
    }
}

/// The name that a section end tag closes.
pub open spec fn closed_name(t: TokenView) -> Seq<char> {
    match t {
        TokenView::SectionEnd(n) => n,
        _ => Seq::empty(),
    }
}

/// The section name that a token opens, if it opens one.
pub open spec fn opened_name(t: TokenView) -> Option<Seq<char>> {
    match t {
        TokenView::SectionStart(n) => Some(n),
        TokenView::InvertedSectionStart(n) => Some(n),
        _ => None,
    }
}

/// The scope items that the tokens `toks[lo..hi]` group into. Sections
/// nest: a section start and the end tag that closes it, the sections
/// opened between them being closed first, enclose a child scope built from
/// the tokens between them; that end tag must name the section. Every other
/// token stands for itself. An end tag that closes nothing or names another
/// section, or a start tag never closed, is an error.
pub open spec fn build_range(toks: Seq<TokenView>, lo: int, hi: int) -> Result<Seq<ItemView>, ErrorView>
    decreases hi - lo,
    via build_range_decreases
{
    if lo < 0 || lo >= hi || hi > toks.len() {
        Ok(Seq::empty())
    } else {
        match opened_name(toks[lo]) {
            Some(n) => {
                let k = find_end(toks, lo + 1, hi, 0);
                if k >= hi {
                    Err(ErrorView::UnclosedSection(n))
                } else if closed_name(toks[k]) != n {
                    Err(ErrorView::UnmatchedSectionEnd(closed_name(toks[k])))
                } else {
                    match build_range(toks, lo + 1, k) {
                        Err(e) => Err(e),
                        Ok(body) => prepend(
                            seq![ItemView::Scope(ScopeView { name: n, inverted: toks[lo] is InvertedSectionStart, items: body })],
                            build_range(toks, k + 1, hi),
                        ),
                    }
                }
            },
            None => match toks[lo] {
                TokenView::SectionEnd(n) => Err(ErrorView::UnmatchedSectionEnd(n)),
                _ => prepend(seq![ItemView::Token(toks[lo])], build_range(toks, lo + 1, hi)),
            },
        }
    }
}

#[via_fn]
proof fn build_range_decreases(toks: Seq<TokenView>, lo: int, hi: int) {
    if 0 <= lo < hi <= toks.len() {
        if let Some(n) = opened_name(toks[lo]) {
            lemma_find_end_bounds(toks, lo + 1, hi, 0);
        }
    }
}

/// The scope tree named `name` over a whole token sequence.
pub open spec fn build_tree(name: Seq<char>, toks: Seq<TokenView>, inverted: bool) -> Result<ScopeView, ErrorView> {
    match build_range(toks, 0, toks.len() as int) {
        Ok(items) => Ok(ScopeView { name, inverted, items }),
        Err(e) => Err(e),
    }
}

/// What compiling a template gives: its tokens grouped into the top-level scope.
pub open spec fn compile_spec(s: Seq<char>) -> Result<ScopeView, ErrorView> {
    match tokenize(s) {
        Ok(toks) => build_tree(top_scope_name(), toks, false),
        Err(e) => Err(e),
    }
}

fn clone_token(t: &MustacheToken) -> (r: MustacheToken)
    ensures
        r@ == t@,
{
    match t {
        MustacheToken::Unmodified(s) => MustacheToken::Unmodified(s.clone()),
        MustacheToken::EscapedVariable(s) => MustacheToken::EscapedVariable(s.clone()),
        MustacheToken::NonEscapedVariable(s) => MustacheToken::NonEscapedVariable(s.clone()),
        MustacheToken::SectionStart(s) => MustacheToken::SectionStart(s.clone()),
        MustacheToken::InvertedSectionStart(s) => MustacheToken::InvertedSectionStart(s.clone()),
        MustacheToken::SectionEnd(s) => MustacheToken::SectionEnd(s.clone()),
        MustacheToken::Comment(s) => MustacheToken::Comment(s.clone()),
        MustacheToken::Partial(s) => MustacheToken::Partial(s.clone()),
        MustacheToken::SetDelimiter(o, c) => MustacheToken::SetDelimiter(o.clone(), c.clone()),
    }
}

/// The index of the end tag in `toks[from..hi]` that closes a section
/// opened just before `from`, or `hi`.
fn find_section_end(toks: &Vec<MustacheToken>, from: usize, hi: usize) -> (r: usize)
    requires
        from <= hi <= toks@.len(),
    ensures
        r == find_end(token_views(toks@), from as int, hi as int, 0),
{
    let mut j = from;
    let mut depth: usize = 0;
    while j < hi
        invariant
            from <= j <= hi <= toks@.len(),
            depth <= j - from,
            find_end(token_views(toks@), from as int, hi as int, 0) == find_end(
                token_views(toks@),
                j as int,
                hi as int,
                depth as nat,
            ),
        decreases hi - j,
    {
        assert(token_views(toks@)[j as int] == toks@[j as int]@);
        match &toks[j] {
            MustacheToken::SectionStart(_) => {
                depth = depth + 1;
            },
            MustacheToken::InvertedSectionStart(_) => {
                depth = depth + 1;
            },
            MustacheToken::SectionEnd(_) => {
                if depth == 0 {
                    return j;
                }
                depth = depth - 1;
            },
            _ => {},
        }
        j = j + 1;
    }
    j
}

/// Groups `toks[lo..hi]` into scope items.
fn collect_range(toks: &Vec<MustacheToken>, lo: usize, hi: usize) -> (r: Result<Vec<TokenCollectionItem>, TemplateError>)
    requires
        lo <= hi <= toks@.len(),
    ensures
        r matches Ok(v) ==> build_range(token_views(toks@), lo as int, hi as int) == Ok::<Seq<ItemView>, ErrorView>(items_view(v@)),
        r matches Err(e) ==> build_range(token_views(toks@), lo as int, hi as int) == Err::<Seq<ItemView>, ErrorView>(e@),
    decreases hi - lo,
{
    let ghost tv = token_views(toks@);
    let mut collected = Vec::<TokenCollectionItem>::new();
    let mut i = lo;
    while i < hi
        invariant
            lo <= i <= hi <= toks@.len(),
            tv == token_views(toks@),
            build_range(tv, lo as int, hi as int) == prepend(items_view(collected@), build_range(tv, i as int, hi as int)),
        decreases hi - i,
    {
        let token = &toks[i];
        let opened: Option<(&String, bool)> = match token {
            MustacheToken::SectionStart(n) => Some((n, false)),
            MustacheToken::InvertedSectionStart(n) => Some((n, true)),
            _ => None,
        };
        match opened {
            Some((name, inverted)) => {
                let k = find_section_end(toks, i + 1, hi);
                proof {
                    lemma_find_end_bounds(tv, i + 1, hi as int, 0);
                }
                if k >= hi {
                    return Err(TemplateError::UnclosedSection(name.clone()));
                }
                assert(tv[k as int] == toks@[k as int]@);
                if let MustacheToken::SectionEnd(end_name) = &toks[k] {
                    if !end_name.eq(name) {
                        return Err(TemplateError::UnmatchedSectionEnd(end_name.clone()));
                    }
                }
                let body = match collect_range(toks, i + 1, k) {
                    Ok(b) => b,
                    Err(e) => {
                        return Err(e);
                    },
                };
                let node = TokenCollection { name: name.clone(), inverted, tokens: body };
                proof {
                    lemma_scope_view_items(node);
                    let pre = seq![ItemView::Scope(node@)];
                    assert(build_range(tv, i as int, hi as int) == prepend(pre, build_range(tv, k + 1, hi as int)));
                    lemma_prepend_assoc(items_view(collected@), pre, build_range(tv, k + 1, hi as int));
                    assert(items_view(collected@.push(TokenCollectionItem::InnerCollection(node))) =~= items_view(collected@) + pre);
                }
                collected.push(TokenCollectionItem::InnerCollection(node));
                i = k + 1;
            },
            None => {
                if let MustacheToken::SectionEnd(n) = token {
                    return Err(TemplateError::UnmatchedSectionEnd(n.clone()));
                }
                let t = clone_token(token);
                proof {
                    let pre = seq![ItemView::Token(t@)];
                    assert(build_range(tv, i as int, hi as int) == prepend(pre, build_range(tv, i + 1, hi as int)));
                    lemma_prepend_assoc(items_view(collected@), pre, build_range(tv, i + 1, hi as int));
                    assert(items_view(collected@.push(TokenCollectionItem::Token(t))) =~= items_view(collected@) + pre);
                }
                collected.push(TokenCollectionItem::Token(t));
                i = i + 1;
            },
        }
    }
    proof {
        assert(items_view(collected@) + Seq::<ItemView>::empty() =~= items_view(collected@));
    }
    Ok(collected)
}

/// Groups a token sequence into the scope tree named `name`.
pub fn collect_tokens(name: String, tokens: Vec<MustacheToken>, inverted: bool) -> (r: Result<TokenCollection, TemplateError>)
    ensures
        r matches Ok(c) ==> build_tree(name@, token_views(tokens@), inverted) == Ok::<ScopeView, ErrorView>(c@),
        r matches Err(e) ==> build_tree(name@, token_views(tokens@), inverted) == Err::<ScopeView, ErrorView>(e@),
{
    match collect_range(&tokens, 0, tokens.len()) {
        Ok(items) => {
            let c = TokenCollection { name, inverted, tokens: items };
            proof {
                lemma_scope_view_items(c);
            }
            Ok(c)
        },
        Err(e) => Err(e),
    }
}


// ---------------------------------------------------------------------------
// Renderer
// ---------------------------------------------------------------------------

/// The value bound to `key` in `env[i..]`: the first binding wins.
pub open spec fn lookup_from(env: Seq<(String, MustacheValue)>, key: Seq<char>, i: int) -> Option<MustacheValue>
    decreases env.len() - i,
{
    if i < 0 || i >= env.len() {
        None
    } else if env[i].0@ == key {
        Some(env[i].1)
    } else {
        lookup_from(env, key, i + 1)
    }
}

/// The value bound to `key` in `env`.
pub open spec fn lookup(env: Seq<(String, MustacheValue)>, key: Seq<char>) -> Option<MustacheValue> {
    lookup_from(env, key, 0)
}

/// No two bindings of `env` share a key.
pub open spec fn keys_unique(env: Seq<(String, MustacheValue)>) -> bool {
    forall|i: int, j: int| 0 <= i < j < env.len() ==> env[i].0@ != env[j].0@
}

proof fn lemma_lookup_from_first(env: Seq<(String, MustacheValue)>, k: int, i: int)
    requires
        0 <= k <= i < env.len(),
        forall|m: int| k <= m < i ==> env[m].0@ != env[i].0@,
    ensures
        lookup_from(env, env[i].0@, k) == Some(env[i].1),
    decreases i - k,
{
    if k < i {
        lemma_lookup_from_first(env, k + 1, i);
    }
}

/// Where keys are unique, as in a map, a key looks up the one value bound
/// to it.
pub proof fn lemma_lookup_unique(env: Seq<(String, MustacheValue)>, i: int)
    requires
        keys_unique(env),
        0 <= i < env.len(),
    ensures
        lookup(env, env[i].0@) == Some(env[i].1),
{
    lemma_lookup_from_first(env, 0, i);
}

/// The HTML entity that stands for `c`, or `c` itself.
pub open spec fn escape_char(c: char) -> Seq<char> {
    if c == '&' {
        seq!['&', 'a', 'm', 'p', ';']
    } else if c == '<' {
        seq!['&', 'l', 't', ';']
    } else if c == '>' {
        seq!['&', 'g', 't', ';']
    } else if c == '"' {
        seq!['&', 'q', 'u', 'o', 't', ';']
    } else if c == '\'' {
        seq!['&', '#', '3', '9', ';']
    } else {
        seq![c]
    }
}

/// `s` with each of `&`, `<`, `>`, `"`, `'` replaced by its entity.
pub open spec fn escape_html(s: Seq<char>) -> Seq<char>
    decreases s.len(),
{
    if s.len() == 0 {
        Seq::empty()
    } else {
        escape_html(s.drop_last()) + escape_char(s.last())
    }
}

/// Appends `extra` to a successful result; an error passes through.
pub open spec fn append_ok(r: Result<Seq<char>, ErrorView>, extra: Result<Seq<char>, ErrorView>) -> Result<Seq<char>, ErrorView> {
    match r {
        Err(e) => Err(e),
        Ok(a) => match extra {
            Err(e) => Err(e),
            Ok(b) => Ok(a + b),
        },
    }
}

/// What one token outputs against `env`.
pub open spec fn render_token(t: TokenView, env: Seq<(String, MustacheValue)>) -> Result<Seq<char>, ErrorView> {
    match t {
        TokenView::Unmodified(v) => Ok(v),
        TokenView::EscapedVariable(name) => match lookup(env, name) {
            Some(MustacheValue::Scalar(sv)) => Ok(escape_html(sv@)),
            _ => Ok(Seq::empty()),
        },
        TokenView::NonEscapedVariable(name) => match lookup(env, name) {
            Some(MustacheValue::Scalar(sv)) => Ok(sv@),
            _ => Ok(Seq::empty()),
        },
        TokenView::Partial(_) => Err(ErrorView::UnsupportedFeature(Feature::Partial)),
        TokenView::SetDelimiter(_, _) => Err(ErrorView::UnsupportedFeature(Feature::SetDelimiter)),
        _ => Ok(Seq::empty()),
    }
}

/// The output of the first `n` items of a scope against `env`, in order.
/// A section renders its body against the fields of an object bound to its
/// name, or once per element of an array, each against that element's
/// fields; an inverted section renders its body against no bindings when its
/// name is unbound; otherwise a section renders nothing.
pub open spec fn render_items(items: Seq<ItemView>, n: int, env: Seq<(String, MustacheValue)>) -> Result<Seq<char>, ErrorView>
    decreases items, 0int, n,
{
    if n <= 0 || n > items.len() {
        Ok(Seq::empty())
    } else {
        let pre = render_items(items, n - 1, env);
        match items[n - 1] {
            ItemView::Token(t) => append_ok(pre, render_token(t, env)),
            ItemView::Scope(sc) => {
                let body = sc.items;
                let this = if sc.inverted {
                    match lookup(env, sc.name) {
                        None => render_items(body, body.len() as int, Seq::empty()),
                        Some(_) => Ok(Seq::empty()),
                    }
                } else {
                    match lookup(env, sc.name) {
                        None => Ok(Seq::empty()),
                        Some(MustacheValue::Scalar(_)) => Ok(Seq::empty()),
                        Some(MustacheValue::Object(fields)) => render_items(body, body.len() as int, fields@),
                        Some(MustacheValue::Array(elems)) => render_each(body, elems@, elems@.len() as int),
                        Some(MustacheValue::Lamba()) => Err(ErrorView::UnsupportedFeature(Feature::Lambda)),
                    }
                };
                append_ok(pre, this)
            },
        }
    }
}

/// A section body rendered once for each of the first `k` elements, each
/// against that element's fields, concatenated in order.
pub open spec fn render_each(body: Seq<ItemView>, elems: Seq<Vec<(String, MustacheValue)>>, k: int) -> Result<Seq<char>, ErrorView>
    decreases body, 1int, k,
{
    if k <= 0 || k > elems.len() {
        Ok(Seq::empty())
    } else {
        append_ok(render_each(body, elems, k - 1), render_items(body, body.len() as int, elems[k - 1]@))
    }
}

/// What a scope tree renders to against `env`.
pub open spec fn render_spec(tree: ScopeView, env: Seq<(String, MustacheValue)>) -> Result<Seq<char>, ErrorView> {
    render_items(tree.items, tree.items.len() as int, env)
}


proof fn lemma_items_err_persists(items: Seq<ItemView>, a: int, b: int, env: Seq<(String, MustacheValue)>)
    requires
        0 < a <= b <= items.len(),
        render_items(items, a, env) is Err,
    ensures
        render_items(items, b, env) == render_items(items, a, env),
    decreases b - a,
{
    if a < b {
        lemma_items_err_persists(items, a, b - 1, env);
    }
}

proof fn lemma_each_err_persists(body: Seq<ItemView>, elems: Seq<Vec<(String, MustacheValue)>>, a: int, b: int)
    requires
        0 < a <= b <= elems.len(),
        render_each(body, elems, a) is Err,
    ensures
        render_each(body, elems, b) == render_each(body, elems, a),
    decreases b - a,
{
    if a < b {
        lemma_each_err_persists(body, elems, a, b - 1);
    }
}

/// The value bound to `key` in `env`, the first binding winning.
fn find_value<'a>(env: &'a Vec<(String, MustacheValue)>, key: &String) -> (r: Option<&'a MustacheValue>)
    ensures
        r matches Some(v) ==> lookup(env@, key@) == Some(*v),
        r is None ==> lookup(env@, key@) is None,
{
    let mut i: usize = 0;
    while i < env.len()
        invariant
            0 <= i <= env@.len(),
            lookup(env@, key@) == lookup_from(env@, key@, i as int),
        decreases env@.len() - i,
    {
        if env[i].0.eq(key) {
            return Some(&env[i].1);
        }
        i = i + 1;
    }
    None
}

/// Appends `v` to `out` with HTML metacharacters replaced by entities.
fn push_escaped(out: &mut String, v: &String)
    ensures
        final(out)@ == old(out)@ + escape_html(v@),
{
    let chars = chars_of(v.as_str());
    let mut i: usize = 0;
    while i < chars.len()
        invariant
            0 <= i <= chars@.len(),
            chars@ == v@,
            out@ == old(out)@ + escape_html(chars@.subrange(0, i as int)),
        decreases chars@.len() - i,
    {
        let c = chars[i];
        let ghost before = out@;
        proof {
            reveal_strlit("&amp;");
            reveal_strlit("&lt;");
            reveal_strlit("&gt;");
            reveal_strlit("&quot;");
            reveal_strlit("&#39;");
        }
        if c == '&' {
            push_text(out, "&amp;");
        } else if c == '<' {
            push_text(out, "&lt;");
        } else if c == '>' {
            push_text(out, "&gt;");
        } else if c == '"' {
            push_text(out, "&quot;");
        } else if c == '\'' {
            push_text(out, "&#39;");
        } else {
            push_char(out, c);
        }
        proof {
            let pre = chars@.subrange(0, i + 1);
            assert(pre.drop_last() =~= chars@.subrange(0, i as int));
            assert(out@ =~= before + escape_char(c));
        }
        i = i + 1;
    }
    proof {
        assert(chars@.subrange(0, chars@.len() as int) =~= v@);
    }
}

impl MustacheValue {
    pub fn is_array(&self) -> (r: bool)
        ensures
            r == self is Array,
    {
        match self {
            MustacheValue::Array(_) => true,
            _ => false,
        }
    }

    pub fn is_object(&self) -> (r: bool)
        ensures
            r == self is Object,
    {
        match self {
            MustacheValue::Object(_) => true,
            _ => false,
        }
    }

    pub fn is_scalar(&self) -> (r: bool)
        ensures
            r == self is Scalar,
    {
        match self {
            MustacheValue::Scalar(_) => true,
            _ => false,
        }
    }

    pub fn is_lamba(&self) -> (r: bool)
        ensures
            r == self is Lamba,
    {
        match self {
            MustacheValue::Lamba() => true,
            _ => false,
        }
    }
}

impl MustacheData {
    /// The bindings, in order.
    pub closed spec fn bindings(&self) -> Seq<(String, MustacheValue)> {
        self.values@
    }

    pub fn new(values: Vec<(String, MustacheValue)>) -> (r: MustacheData)
        ensures
            r.bindings() == values@,
    {
        MustacheData { values }
    }
}

impl TokenCollection {
    /// Renders this scope's items against `values`.
    pub fn process(&self, values: &Vec<(String, MustacheValue)>) -> (r: Result<String, TemplateError>)
        ensures
            r matches Ok(s) ==> render_spec(self@, values@) == Ok::<Seq<char>, ErrorView>(s@),
            r matches Err(e) ==> render_spec(self@, values@) == Err::<Seq<char>, ErrorView>(e@),
        decreases *self,
    {
        let mut result = String::new();
        let ghost items = self@.items;
        proof {
            lemma_scope_view_items(*self);
        }
        let mut i: usize = 0;
        while i < self.tokens.len()
            invariant
                0 <= i <= self.tokens@.len(),
                items == self@.items,
                items == items_view(self.tokens@),
                render_items(items, i as int, values@) == Ok::<Seq<char>, ErrorView>(result@),
            decreases self.tokens@.len() - i,
        {
            assert(items[i as int] == item_view(self.tokens@[i as int]));
            match &self.tokens[i] {
                TokenCollectionItem::Token(token) => match token {
                    MustacheToken::Unmodified(v) => push_text(&mut result, v.as_str()),
                    MustacheToken::EscapedVariable(v) => match find_value(values, v) {
                        Some(MustacheValue::Scalar(sv)) => push_escaped(&mut result, sv),
                        _ => {},
                    },
                    MustacheToken::NonEscapedVariable(v) => match find_value(values, v) {
                        Some(MustacheValue::Scalar(sv)) => push_text(&mut result, sv.as_str()),
                        _ => {},
                    },
                    MustacheToken::Partial(_) => {
                        proof { lemma_items_err_persists(items, i + 1, items.len() as int, values@); }
                        return Err(TemplateError::UnsupportedFeature(Feature::Partial));
                    },
                    MustacheToken::SetDelimiter(_, _) => {
                        proof { lemma_items_err_persists(items, i + 1, items.len() as int, values@); }
                        return Err(TemplateError::UnsupportedFeature(Feature::SetDelimiter));
                    },
                    _ => {},
                },
                TokenCollectionItem::InnerCollection(ic) => {
                    proof {
                        lemma_scope_view_items(*ic);
                        assert(decreases_to!(*self => self.tokens));
                        assert(decreases_to!(self.tokens => self.tokens@));
                        assert(decreases_to!(self.tokens@ => self.tokens@[i as int]));
                        assert(decreases_to!(*self => *ic));
                    }
                    match (ic.inverted, find_value(values, &ic.name)) {
                        (true, None) => {
                            let empty: Vec<(String, MustacheValue)> = Vec::new();
                            match ic.process(&empty) {
                                Ok(x) => push_text(&mut result, x.as_str()),
                                Err(e) => {
                                    proof { lemma_items_err_persists(items, i + 1, items.len() as int, values@); }
                                    return Err(e);
                                },
                            }
                        },
                        (false, Some(mv)) => match mv {
                            MustacheValue::Scalar(_) => {},
                            MustacheValue::Object(ov) => match ic.process(ov) {
                                Ok(x) => push_text(&mut result, x.as_str()),
                                Err(e) => {
                                    proof { lemma_items_err_persists(items, i + 1, items.len() as int, values@); }
                                    return Err(e);
                                },
                            },
                            MustacheValue::Array(av) => {
                                let ghost before = result@;
                                let mut k: usize = 0;
                                while k < av.len()
                                    invariant
                                        0 <= k <= av@.len(),
                                        render_each(ic@.items, av@, k as int) matches Ok(x) && result@ == before + x,
                                        decreases_to!(*self => *ic),
                                        render_items(items, i as int, values@) == Ok::<Seq<char>, ErrorView>(before),
                                        items == self@.items,
                                        0 <= i < items.len(),
                                        items[i as int] == ItemView::Scope(ic@),
                                        !ic.inverted,
                                        lookup(values@, ic.name@) == Some(*mv),
                                        *mv == MustacheValue::Array(*av),
                                    decreases av@.len() - k,
                                {
                                    match ic.process(&av[k]) {
                                        Ok(x) => push_text(&mut result, x.as_str()),
                                        Err(e) => {
                                            proof {
                                                lemma_each_err_persists(ic@.items, av@, k + 1, av@.len() as int);
                                                lemma_items_err_persists(items, i + 1, items.len() as int, values@);
                                            }
                                            return Err(e);
                                        },
                                    }
                                    k = k + 1;
                                }
                            },
                            MustacheValue::Lamba() => {
                                proof { lemma_items_err_persists(items, i + 1, items.len() as int, values@); }
                                return Err(TemplateError::UnsupportedFeature(Feature::Lambda));
                            },
                        },
                        (false, None) => {},
                        (true, Some(_)) => {},
                    }
                },
            }
            i = i + 1;
        }
        Ok(result)
    }
}


fn clone_tokens(v: &Vec<MustacheToken>) -> (r: Vec<MustacheToken>)
    ensures
        token_views(r@) == token_views(v@),
{
    let mut r: Vec<MustacheToken> = Vec::new();
    let mut i: usize = 0;
    while i < v.len()
        invariant
            0 <= i <= v@.len(),
            r@.len() == i,
            forall|j: int| 0 <= j < i ==> r@[j]@ == v@[j]@,
        decreases v@.len() - i,
    {
        r.push(clone_token(&v[i]));
        i = i + 1;
    }
    assert(token_views(r@) =~= token_views(v@));
    r
}

fn top_name() -> (r: String)
    ensures
        r@ == top_scope_name(),
{
    let r = String::from_str("__main");
    proof {
        reveal_strlit("__main");
    }
    assert(r@ =~= top_scope_name());
    r
}

impl MustacheTemplate {
    /// Groups the tokens into the top-level scope tree.
    pub fn collect(&self) -> (r: Result<TokenCollection, TemplateError>)
        ensures
            r matches Ok(c) ==> build_tree(top_scope_name(), self.token_seq(), false) == Ok::<ScopeView, ErrorView>(c@),
            r matches Err(e) ==> build_tree(top_scope_name(), self.token_seq(), false) == Err::<ScopeView, ErrorView>(e@),
    {
        collect_tokens(top_name(), clone_tokens(&self.tokens), false)
    }

    /// Renders the template against `data`.
    pub fn replace(&self, data: MustacheData) -> (r: Result<String, TemplateError>)
        ensures
            r matches Ok(s) ==> (build_tree(top_scope_name(), self.token_seq(), false) matches Ok(tree)
                && render_spec(tree, data.bindings()) == Ok::<Seq<char>, ErrorView>(s@)),
            r matches Err(e) ==> (build_tree(top_scope_name(), self.token_seq(), false) == Err::<ScopeView, ErrorView>(e@)
                || (build_tree(top_scope_name(), self.token_seq(), false) matches Ok(tree)
                && render_spec(tree, data.bindings()) == Err::<Seq<char>, ErrorView>(e@))),
    {
        let tc = match self.collect() {
            Ok(tc) => tc,
            Err(e) => {
                return Err(e);
            },
        };
        tc.process(&data.values)
    }
}

/// Compiles a template into its scope tree.
pub fn compile(template: &str) -> (r: Result<TokenCollection, TemplateError>)
    ensures
        r matches Ok(c) ==> compile_spec(template@) == Ok::<ScopeView, ErrorView>(c@),
        r matches Err(e) ==> compile_spec(template@) == Err::<ScopeView, ErrorView>(e@),
{
    let mut parser = MustacheParser::new(String::from_str(template));
    match parser.run() {
        Ok(t) => t.collect(),
        Err(e) => Err(e),
    }
}

/// Renders a compiled scope tree against `data`.
pub fn render(tree: &TokenCollection, data: &MustacheData) -> (r: Result<String, TemplateError>)
    ensures
        r matches Ok(s) ==> render_spec(tree@, data.bindings()) == Ok::<Seq<char>, ErrorView>(s@),
        r matches Err(e) ==> render_spec(tree@, data.bindings()) == Err::<Seq<char>, ErrorView>(e@),
{
    tree.process(&data.values)
}


// ---------------------------------------------------------------------------
// Laws
// ---------------------------------------------------------------------------

/// A template in which no open delimiter is ever balanced holds no tags: it
/// compiles, and rendering it against no bindings gives the template back.
pub proof fn lemma_literal_round_trip(t: Seq<char>)
    requires
        forall|i: int| #[trigger] is_open_at(t, i) ==> find_matching_close(t, i) is None,
    ensures
        compile_spec(t) matches Ok(tree) && render_spec(tree, Seq::empty()) == Ok::<Seq<char>, ErrorView>(t),
{
    lemma_find_next_open_bounds(t, 0);
    let toks = seq![TokenView::Unmodified(t.subrange(0, t.len() as int))];
    assert(tokenize(t) == Ok::<Seq<TokenView>, ErrorView>(toks));
    assert(build_range(toks, 1, 1) == Ok::<Seq<ItemView>, ErrorView>(Seq::empty()));
    let items = seq![ItemView::Token(toks[0])];
    assert(seq![ItemView::Token(toks[0])] + Seq::<ItemView>::empty() =~= items);
    assert(build_range(toks, 0, 1) == Ok::<Seq<ItemView>, ErrorView>(items));
    assert(t.subrange(0, t.len() as int) =~= t);
    assert(render_items(items, 0, Seq::empty()) == Ok::<Seq<char>, ErrorView>(Seq::empty()));
    assert(Seq::<char>::empty() + t =~= t);
}

/// Compiling is a function of the template text: equal texts give equal
/// trees, or equal errors.
pub proof fn lemma_compile_deterministic(a: Seq<char>, b: Seq<char>)
    requires
        a == b,
    ensures
        compile_spec(a) == compile_spec(b),
{
}

/// An inverted section renders nothing where its name is bound, to any kind
/// of value, and renders its body against no bindings where it is unbound.
pub proof fn lemma_inverted_section(name: Seq<char>, body: Seq<ItemView>, env: Seq<(String, MustacheValue)>)
    ensures
        lookup(env, name) is Some ==> render_items(
            seq![ItemView::Scope(ScopeView { name, inverted: true, items: body })],
            1,
            env,
        ) == Ok::<Seq<char>, ErrorView>(Seq::empty()),
        lookup(env, name) is None ==> render_items(
            seq![ItemView::Scope(ScopeView { name, inverted: true, items: body })],
            1,
            env,
        ) == render_items(body, body.len() as int, Seq::empty()),
{
    let items = seq![ItemView::Scope(ScopeView { name, inverted: true, items: body })];
    assert(render_items(items, 0, env) == Ok::<Seq<char>, ErrorView>(Seq::empty()));
    assert(Seq::<char>::empty() + Seq::<char>::empty() =~= Seq::<char>::empty());
    if let Ok(x) = render_items(body, body.len() as int, Seq::empty()) {
        assert(Seq::<char>::empty() + x =~= x);
    }
}

/// A section bound to an object renders its body against the object's own
/// fields alone: the bindings around it are not consulted.
pub proof fn lemma_object_scope_isolation(
    sc: ScopeView,
    env: Seq<(String, MustacheValue)>,
    fields: Vec<(String, MustacheValue)>,
)
    requires
        !sc.inverted,
        lookup(env, sc.name) == Some(MustacheValue::Object(fields)),
    ensures
        render_items(seq![ItemView::Scope(sc)], 1, env) == render_items(sc.items, sc.items.len() as int, fields@),
{
    let items = seq![ItemView::Scope(sc)];
    assert(render_items(items, 0, env) == Ok::<Seq<char>, ErrorView>(Seq::empty()));
    if let Ok(x) = render_items(sc.items, sc.items.len() as int, fields@) {
        assert(Seq::<char>::empty() + x =~= x);
    }
}

/// Inside a section bound to an object, a variable that the object's fields
/// do not bind renders nothing, whatever the bindings around it hold.
pub proof fn lemma_outer_binding_invisible(
    name: Seq<char>,
    var: Seq<char>,
    env: Seq<(String, MustacheValue)>,
    fields: Vec<(String, MustacheValue)>,
)
    requires
        lookup(env, name) == Some(MustacheValue::Object(fields)),
        lookup(fields@, var) is None,
    ensures
        render_items(
            seq![ItemView::Scope(ScopeView { name, inverted: false, items: seq![ItemView::Token(TokenView::EscapedVariable(var))] })],
            1,
            env,
        ) == Ok::<Seq<char>, ErrorView>(Seq::empty()),
        render_items(
            seq![ItemView::Scope(ScopeView { name, inverted: false, items: seq![ItemView::Token(TokenView::NonEscapedVariable(var))] })],
            1,
            env,
        ) == Ok::<Seq<char>, ErrorView>(Seq::empty()),
{
    let e = seq![ItemView::Token(TokenView::EscapedVariable(var))];
    let r = seq![ItemView::Token(TokenView::NonEscapedVariable(var))];
    lemma_object_scope_isolation(ScopeView { name, inverted: false, items: e }, env, fields);
    lemma_object_scope_isolation(ScopeView { name, inverted: false, items: r }, env, fields);
    assert(render_items(e, 0, fields@) == Ok::<Seq<char>, ErrorView>(Seq::empty()));
    assert(render_items(r, 0, fields@) == Ok::<Seq<char>, ErrorView>(Seq::empty()));
    assert(Seq::<char>::empty() + Seq::<char>::empty() =~= Seq::<char>::empty());
}


/// `{{^empty}}none{{/empty}}` compiles, renders `none` where `empty` is
/// unbound, and renders nothing where `empty` is bound to any value.
pub proof fn lemma_inverted_template(env: Seq<(String, MustacheValue)>)
    ensures
        compile_spec("{{^empty}}none{{/empty}}"@) matches Ok(tree) && render_spec(tree, env) == Ok::<
            Seq<char>,
            ErrorView,
        >(if lookup(env, "empty"@) is Some {
            Seq::empty()
        } else {
            "none"@
        }),
{
    let t = "{{^empty}}none{{/empty}}"@;
    reveal_strlit("{{^empty}}none{{/empty}}");
    reveal_strlit("empty");
    reveal_strlit("none");
    reveal_with_fuel(matching_close, 10);
    reveal_with_fuel(find_next_open, 5);
    let name = t.subrange(3, 8);
    assert(name =~= "empty"@);
    assert(t.subrange(2, 8).subrange(1, 6) =~= name);
    assert(t.subrange(16, 22).subrange(1, 6) =~= name);
    assert(classify(t.subrange(2, 8)) == Ok::<TokenView, ErrorView>(TokenView::InvertedSectionStart(name)));
    assert(classify(t.subrange(16, 22)) == Ok::<TokenView, ErrorView>(TokenView::SectionEnd(name)));
    let lit0 = TokenView::Unmodified(t.subrange(0, 0));
    let none = TokenView::Unmodified(t.subrange(10, 14));
    let lit14 = TokenView::Unmodified(t.subrange(14, 14));
    let lit24 = TokenView::Unmodified(t.subrange(24, 24));
    assert(find_next_open(t, 24) is None);
    assert(tokens_from(t, 24) == Ok::<Seq<TokenView>, ErrorView>(seq![lit24]));
    assert(find_next_open(t, 10) == Some(14int));
    assert(find_matching_close(t, 14) == Some(22int));
    assert(tokens_from(t, 10) == prepend(seq![none, TokenView::SectionEnd(name)], tokens_from(t, 24)));
    assert(find_next_open(t, 0) == Some(0int));
    assert(find_matching_close(t, 0) == Some(8int));
    assert(tokens_from(t, 0) == prepend(seq![lit0, TokenView::InvertedSectionStart(name)], tokens_from(t, 10)));
    let toks = seq![lit0, TokenView::InvertedSectionStart(name), none, TokenView::SectionEnd(name), lit24];
    assert(seq![lit0, TokenView::InvertedSectionStart(name)] + (seq![none, TokenView::SectionEnd(name)] + seq![lit24])
        =~= toks);
    assert(tokenize(t) == Ok::<Seq<TokenView>, ErrorView>(toks));
    let body = seq![ItemView::Token(none)];
    assert(build_range(toks, 3, 3) == Ok::<Seq<ItemView>, ErrorView>(Seq::empty()));
    assert(body + Seq::<ItemView>::empty() =~= body);
    assert(build_range(toks, 2, 3) == Ok::<Seq<ItemView>, ErrorView>(body));
    assert(build_range(toks, 5, 5) == Ok::<Seq<ItemView>, ErrorView>(Seq::empty()));
    assert(seq![ItemView::Token(lit24)] + Seq::<ItemView>::empty() =~= seq![ItemView::Token(lit24)]);
    assert(build_range(toks, 4, 5) == Ok::<Seq<ItemView>, ErrorView>(seq![ItemView::Token(lit24)]));
    assert(find_end(toks, 3, 5, 0) == 3);
    assert(find_end(toks, 2, 5, 0) == 3);
    let sc = ScopeView { name, inverted: true, items: body };
    assert(closed_name(toks[3]) == name);
    assert(seq![ItemView::Scope(sc)] + seq![ItemView::Token(lit24)] =~= seq![ItemView::Scope(sc), ItemView::Token(lit24)]);
    assert(build_range(toks, 1, 5) == Ok::<Seq<ItemView>, ErrorView>(seq![ItemView::Scope(sc), ItemView::Token(lit24)]));
    let items = seq![ItemView::Token(lit0), ItemView::Scope(sc), ItemView::Token(lit24)];
    assert(seq![ItemView::Token(lit0)] + seq![ItemView::Scope(sc), ItemView::Token(lit24)] =~= items);
    assert(build_range(toks, 0, 5) == Ok::<Seq<ItemView>, ErrorView>(items));
    let tree = ScopeView { name: top_scope_name(), inverted: false, items };
    assert(compile_spec(t) == Ok::<ScopeView, ErrorView>(tree));
    let e = Seq::<char>::empty();
    assert(render_items(items, 0, env) == Ok::<Seq<char>, ErrorView>(e));
    assert(e + e =~= e);
    assert(render_items(items, 1, env) == Ok::<Seq<char>, ErrorView>(e));
    assert(render_items(body, 0, Seq::empty()) == Ok::<Seq<char>, ErrorView>(e));
    assert(e + t.subrange(10, 14) =~= "none"@);
    assert(render_items(body, 1, Seq::empty()) == Ok::<Seq<char>, ErrorView>("none"@));
    let mid: Seq<char> = if lookup(env, "empty"@) is Some { e } else { "none"@ };
    assert(e + mid =~= mid);
    assert(render_items(items, 2, env) == Ok::<Seq<char>, ErrorView>(mid));
    assert(mid + e =~= mid);
    assert(render_items(items, 3, env) == Ok::<Seq<char>, ErrorView>(mid));
}

/// `{{#obj}}{{outer}}{{/obj}}` compiles; where `obj` is bound to an object,
/// `outer` is looked up in the object's fields alone, so a binding of
/// `outer` around the section is never seen.
pub proof fn lemma_object_template(env: Seq<(String, MustacheValue)>, fields: Vec<(String, MustacheValue)>)
    requires
        lookup(env, "obj"@) == Some(MustacheValue::Object(fields)),
    ensures
        compile_spec("{{#obj}}{{outer}}{{/obj}}"@) matches Ok(tree) && render_spec(tree, env) == Ok::<
            Seq<char>,
            ErrorView,
        >(match lookup(fields@, "outer"@) {
            Some(MustacheValue::Scalar(v)) => escape_html(v@),
            _ => Seq::empty(),
        }),
{
    let t = "{{#obj}}{{outer}}{{/obj}}"@;
    reveal_strlit("{{#obj}}{{outer}}{{/obj}}");
    reveal_strlit("obj");
    reveal_strlit("outer");
    reveal_with_fuel(matching_close, 10);
    reveal_with_fuel(find_next_open, 3);
    let name = t.subrange(3, 6);
    let var = t.subrange(10, 15);
    assert(name =~= "obj"@);
    assert(var =~= "outer"@);
    assert(t.subrange(2, 6).subrange(1, 4) =~= name);
    assert(t.subrange(19, 23).subrange(1, 4) =~= name);
    assert(classify(t.subrange(2, 6)) == Ok::<TokenView, ErrorView>(TokenView::SectionStart(name)));
    assert(classify(t.subrange(10, 15)) == Ok::<TokenView, ErrorView>(TokenView::EscapedVariable(var)));
    assert(classify(t.subrange(19, 23)) == Ok::<TokenView, ErrorView>(TokenView::SectionEnd(name)));
    let u0 = TokenView::Unmodified(t.subrange(0, 0));
    let u8 = TokenView::Unmodified(t.subrange(8, 8));
    let u17 = TokenView::Unmodified(t.subrange(17, 17));
    let u25 = TokenView::Unmodified(t.subrange(25, 25));
    let start = TokenView::SectionStart(name);
    let esc = TokenView::EscapedVariable(var);
    let end = TokenView::SectionEnd(name);
    assert(find_next_open(t, 25) is None);
    assert(tokens_from(t, 25) == Ok::<Seq<TokenView>, ErrorView>(seq![u25]));
    assert(find_next_open(t, 17) == Some(17int));
    assert(find_matching_close(t, 17) == Some(23int));
    assert(tokens_from(t, 17) == prepend(seq![u17, end], tokens_from(t, 25)));
    assert(find_next_open(t, 8) == Some(8int));
    assert(find_matching_close(t, 8) == Some(15int));
    assert(tokens_from(t, 8) == prepend(seq![u8, esc], tokens_from(t, 17)));
    assert(find_next_open(t, 0) == Some(0int));
    assert(find_matching_close(t, 0) == Some(6int));
    assert(tokens_from(t, 0) == prepend(seq![u0, start], tokens_from(t, 8)));
    let toks = seq![u0, start, u8, esc, u17, end, u25];
    assert(seq![u0, start] + (seq![u8, esc] + (seq![u17, end] + seq![u25])) =~= toks);
    assert(tokenize(t) == Ok::<Seq<TokenView>, ErrorView>(toks));
    let child = seq![ItemView::Token(u8), ItemView::Token(esc), ItemView::Token(u17)];
    assert(build_range(toks, 5, 5) == Ok::<Seq<ItemView>, ErrorView>(Seq::empty()));
    assert(seq![ItemView::Token(u17)] + Seq::<ItemView>::empty() =~= seq![ItemView::Token(u17)]);
    assert(build_range(toks, 4, 5) == Ok::<Seq<ItemView>, ErrorView>(seq![ItemView::Token(u17)]));
    assert(seq![ItemView::Token(esc)] + seq![ItemView::Token(u17)] =~= seq![ItemView::Token(esc), ItemView::Token(u17)]);
    assert(build_range(toks, 3, 5) == Ok::<Seq<ItemView>, ErrorView>(seq![ItemView::Token(esc), ItemView::Token(u17)]));
    assert(seq![ItemView::Token(u8)] + seq![ItemView::Token(esc), ItemView::Token(u17)] =~= child);
    assert(build_range(toks, 2, 5) == Ok::<Seq<ItemView>, ErrorView>(child));
    assert(build_range(toks, 7, 7) == Ok::<Seq<ItemView>, ErrorView>(Seq::empty()));
    assert(seq![ItemView::Token(u25)] + Seq::<ItemView>::empty() =~= seq![ItemView::Token(u25)]);
    assert(build_range(toks, 6, 7) == Ok::<Seq<ItemView>, ErrorView>(seq![ItemView::Token(u25)]));
    assert(find_end(toks, 5, 7, 0) == 5);
    assert(find_end(toks, 4, 7, 0) == 5);
    assert(find_end(toks, 3, 7, 0) == 5);
    assert(find_end(toks, 2, 7, 0) == 5);
    assert(closed_name(toks[5]) == name);
    let sc = ScopeView { name, inverted: false, items: child };
    assert(seq![ItemView::Scope(sc)] + seq![ItemView::Token(u25)] =~= seq![ItemView::Scope(sc), ItemView::Token(u25)]);
    assert(build_range(toks, 1, 7) == Ok::<Seq<ItemView>, ErrorView>(seq![ItemView::Scope(sc), ItemView::Token(u25)]));
    let items = seq![ItemView::Token(u0), ItemView::Scope(sc), ItemView::Token(u25)];
    assert(seq![ItemView::Token(u0)] + seq![ItemView::Scope(sc), ItemView::Token(u25)] =~= items);
    assert(build_range(toks, 0, 7) == Ok::<Seq<ItemView>, ErrorView>(items));
    let tree = ScopeView { name: top_scope_name(), inverted: false, items };
    assert(compile_spec(t) == Ok::<ScopeView, ErrorView>(tree));
    let e = Seq::<char>::empty();
    let out: Seq<char> = match lookup(fields@, "outer"@) {
        Some(MustacheValue::Scalar(v)) => escape_html(v@),
        _ => e,
    };
    assert(e + e =~= e);
    assert(e + out =~= out);
    assert(out + e =~= out);
    assert(t.subrange(0, 0) =~= e);
    assert(t.subrange(8, 8) =~= e);
    assert(t.subrange(17, 17) =~= e);
    assert(t.subrange(25, 25) =~= e);
    assert(render_items(child, 0, fields@) == Ok::<Seq<char>, ErrorView>(e));
    assert(render_items(child, 1, fields@) == Ok::<Seq<char>, ErrorView>(e));
    assert(render_items(child, 2, fields@) == Ok::<Seq<char>, ErrorView>(out));
    assert(render_items(child, 3, fields@) == Ok::<Seq<char>, ErrorView>(out));
    assert(render_items(items, 0, env) == Ok::<Seq<char>, ErrorView>(e));
    assert(render_items(items, 1, env) == Ok::<Seq<char>, ErrorView>(e));
    assert(render_items(items, 2, env) == Ok::<Seq<char>, ErrorView>(out));
    assert(render_items(items, 3, env) == Ok::<Seq<char>, ErrorView>(out));
}
} // verus!
