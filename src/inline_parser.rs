//! Splits a line of markdown text into plain text, styled spans and links.
use vstd::prelude::*;

use crate::text::{chars_of, string_from};
use crate::documents::{InlineContent, InlineLink, InlineSpan, InlineText, InlineView, Style, StyleView, inline_views};

verus! {

// ---------------------------------------------------------------------------
// Specification
// ---------------------------------------------------------------------------

/// The characters that start inline markup.
pub open spec fn is_control(c: char) -> bool {
    c == '_' || c == '*' || c == '`' || c == '['
}

/// The first index at or after `from` that holds `c`, or the length.
pub open spec fn find_char(s: Seq<char>, c: char, from: int) -> int
    decreases s.len() - from,
{
    if from < 0 || from >= s.len() {
        s.len() as int
    } else if s[from] == c {
        from
    } else {
        find_char(s, c, from + 1)
    }
}

/// The first index at or after `from` that holds a control character, or
/// the length.
pub open spec fn find_control(s: Seq<char>, from: int) -> int
    decreases s.len() - from,
{
    if from < 0 || from >= s.len() {
        s.len() as int
    } else if is_control(s[from]) {
        from
    } else {
        find_control(s, from + 1)
    }
}

/// `p` occurs in `s` at `i`.
pub open spec fn matches_at(s: Seq<char>, p: Seq<char>, i: int) -> bool {
    0 <= i && i + p.len() <= s.len() && s.subrange(i, i + p.len()) == p
}

/// The first index at or after `from` where `p` occurs, or the length.
pub open spec fn find_pattern(s: Seq<char>, p: Seq<char>, from: int) -> int
    decreases s.len() - from,
{
    if from < 0 || from >= s.len() {
        s.len() as int
    } else if matches_at(s, p, from) {
        from
    } else {
        find_pattern(s, p, from + 1)
    }
}

/// The text from `from` up to the next `c`, and where reading goes on: just
/// past the `c` when `inclusive`, else at it. When no `c` follows, the text
/// stops before the last character.
pub open spec fn read_until_char_spec(s: Seq<char>, c: char, inclusive: bool, from: int) -> (Seq<char>, int) {
    let inc: int = if inclusive { 1 } else { 0 };
    if from >= s.len() {
        (Seq::empty(), from)
    } else {
        let e = find_char(s, c, from);
        if e < s.len() {
            (s.subrange(from, e), e + inc)
        } else {
            (s.subrange(from, s.len() - 1), s.len() - 1 + inc)
        }
    }
}

/// The plain text from `from` on, and where reading goes on. The text stops
/// one character short of the next control character, where reading goes
/// on; a control character at `from` itself gives no text and is skipped;
/// with none ahead the text runs to the end.
pub open spec fn read_until_control_spec(s: Seq<char>, from: int) -> (Seq<char>, int) {
    let e = find_control(s, from);
    if e >= s.len() {
        (s.subrange(from, s.len() as int), s.len() as int)
    } else if e == from {
        (Seq::empty(), from + 1)
    } else {
        (s.subrange(from, e - 1), e)
    }
}

/// The text from `from` up to the next occurrence of `p`, and where reading
/// goes on: past `p` when `inclusive`, else at it; at the end when `p` does
/// not occur.
pub open spec fn read_until_string_spec(s: Seq<char>, p: Seq<char>, inclusive: bool, from: int) -> (Seq<char>, int) {
    if from > s.len() {
        (Seq::empty(), from)
    } else {
        let e = find_pattern(s, p, from);
        if e < s.len() {
            (s.subrange(from, e), if inclusive { e + p.len() } else { e })
        } else {
            (s.subrange(from, s.len() as int), s.len() as int)
        }
    }
}

pub open spec fn bold_italic() -> StyleView {
    StyleView::Ref(seq!["b"@, "i"@])
}

pub open spec fn bold() -> StyleView {
    StyleView::Ref(seq!["b"@])
}

pub open spec fn italic() -> StyleView {
    StyleView::Ref(seq!["i"@])
}

pub open spec fn code_style() -> StyleView {
    StyleView::Ref(seq!["code"@])
}

/// One piece of inline content read at `i`, and where reading goes on; or
/// `None` where reading stops: at the end, or at a `*` too close to the end
/// to open a span.
///
/// `***` opens a bold italic span closed by `***`, `**` a bold span closed
/// by `**`, `*` an italic span closed by `*`, a backtick a code span closed
/// by a backtick; `[text](url)` is a link; anything else is plain text.
pub open spec fn inline_step(s: Seq<char>, i: int) -> Option<(InlineView, int)> {
    if i < 0 || i >= s.len() {
        None
    } else if s[i] == '*' {
        if i + 2 >= s.len() {
            None
        } else if s[i + 1] == '*' && s[i + 2] == '*' {
            let (v, n) = read_until_string_spec(s, "***"@, true, i + 3);
            Some((InlineView::Span(v, bold_italic()), n))
        } else if s[i + 1] == '*' {
            let (v, n) = read_until_string_spec(s, "**"@, true, i + 2);
            Some((InlineView::Span(v, bold()), n))
        } else {
            let (v, n) = read_until_char_spec(s, '*', true, i + 1);
            Some((InlineView::Span(v, italic()), n))
        }
    } else if s[i] == '`' {
        let (v, n) = read_until_char_spec(s, '`', true, i + 1);
        Some((InlineView::Span(v, code_style()), n))
    } else if s[i] == '[' {
        let (text, n1) = read_until_char_spec(s, ']', true, i + 1);
        let (url, n2) = if n1 >= s.len() {
            (Seq::empty(), s.len() as int)
        } else {
            read_until_char_spec(s, ')', true, n1 + 1)
        };
        Some((InlineView::Link(text, url, StyleView::Default), n2))
    } else {
        let (v, n) = read_until_control_spec(s, i);
        Some((InlineView::Text(v), n))
    }
}

/// The inline content of `s` read from `i` on.
pub open spec fn parse_inline_from(s: Seq<char>, i: int) -> Seq<InlineView>
    decreases s.len() - i,
    via parse_inline_from_decreases
{
    match inline_step(s, i) {
        None => Seq::empty(),
        Some((v, n)) => seq![v] + parse_inline_from(s, n),
    }
}

#[via_fn]
proof fn parse_inline_from_decreases(s: Seq<char>, i: int) {
    lemma_inline_step_advances(s, i);
}

/// The inline content of a whole line.
pub open spec fn parse_inline_spec(s: Seq<char>) -> Seq<InlineView> {
    parse_inline_from(s, 0)
}

proof fn lemma_find_char_bounds(s: Seq<char>, c: char, from: int)
    requires
        0 <= from,
    ensures
        from <= s.len() ==> from <= find_char(s, c, from) <= s.len(),
        find_char(s, c, from) < s.len() ==> s[find_char(s, c, from)] == c,
    decreases s.len() - from,
{
    if from < s.len() && s[from] != c {
        lemma_find_char_bounds(s, c, from + 1);
    }
}

proof fn lemma_find_control_bounds(s: Seq<char>, from: int)
    requires
        0 <= from,
    ensures
        from <= s.len() ==> from <= find_control(s, from) <= s.len(),
        find_control(s, from) < s.len() ==> is_control(s[find_control(s, from)]),
    decreases s.len() - from,
{
    if from < s.len() && !is_control(s[from]) {
        lemma_find_control_bounds(s, from + 1);
    }
}

proof fn lemma_find_pattern_bounds(s: Seq<char>, p: Seq<char>, from: int)
    requires
        0 <= from,
    ensures
        from <= s.len() ==> from <= find_pattern(s, p, from) <= s.len(),
        find_pattern(s, p, from) < s.len() ==> matches_at(s, p, find_pattern(s, p, from)),
    decreases s.len() - from,
{
    if from < s.len() && !matches_at(s, p, from) {
        lemma_find_pattern_bounds(s, p, from + 1);
    }
}

proof fn lemma_inline_step_advances(s: Seq<char>, i: int)
    ensures
        inline_step(s, i) matches Some((v, n)) ==> i < n <= s.len(),
{
    reveal_strlit("***");
    reveal_strlit("**");
    if 0 <= i < s.len() {
        lemma_find_char_bounds(s, '*', i + 1);
        lemma_find_char_bounds(s, '`', i + 1);
        lemma_find_char_bounds(s, ']', i + 1);
        lemma_find_control_bounds(s, i);
        if i + 3 <= s.len() {
            lemma_find_pattern_bounds(s, "***"@, i + 3);
        }
        if i + 2 <= s.len() {
            lemma_find_pattern_bounds(s, "**"@, i + 2);
        }
        let (text, n1) = read_until_char_spec(s, ']', true, i + 1);
        if n1 < s.len() {
            lemma_find_char_bounds(s, ')', n1 + 1);
        }
    }
}


// ---------------------------------------------------------------------------
// Reading
// ---------------------------------------------------------------------------

fn in_bounds(s: &Vec<char>, i: usize) -> (r: bool)
    ensures
        r == (i < s@.len()),
{
    i < s.len()
}

fn get_char(s: &Vec<char>, i: usize) -> (r: Option<char>)
    ensures
        r == (if i < s@.len() { Some(s@[i as int]) } else { None::<char> }),
{
    if in_bounds(s, i) {
        Some(s[i])
    } else {
        None
    }
}

fn look_ahead(s: &Vec<char>, i: usize) -> (r: Option<char>)
    ensures
        r == (if i < s@.len() { Some(s@[i as int]) } else { None::<char> }),
{
    get_char(s, i)
}

/// The character before `i`, if there is one.
fn look_back(s: &Vec<char>, i: usize) -> (r: Option<char>)
    ensures
        r == (if 0 < i <= s@.len() { Some(s@[i - 1]) } else { None::<char> }),
{
    if i == 0 {
        None
    } else {
        get_char(s, i - 1)
    }
}

fn is_control_char(c: char) -> (r: bool)
    ensures
        r == is_control(c),
{
    c == '_' || c == '*' || c == '`' || c == '['
}

fn compare_look_ahead(s: &Vec<char>, pattern: &Vec<char>, i: usize) -> (r: bool)
    ensures
        r == matches_at(s@, pattern@, i as int),
{
    if pattern.len() > s.len() || i > s.len() - pattern.len() {
        return false;
    }
    let n = s.len();
    let mut k: usize = 0;
    while k < pattern.len()
        invariant
            n == s@.len(),
            i + pattern@.len() <= s@.len(),
            0 <= k <= pattern@.len(),
            forall|j: int| 0 <= j < k ==> s@[i + j] == pattern@[j],
        decreases pattern@.len() - k,
    {
        if s[i + k] != pattern[k] {
            assert(s@.subrange(i as int, i + pattern@.len())[k as int] != pattern@[k as int]);
            return false;
        }
        k = k + 1;
    }
    assert(s@.subrange(i as int, i + pattern@.len()) =~= pattern@);
    true
}

fn read_until_char_in(s: &Vec<char>, c: char, inclusive: bool, from: usize) -> (r: (String, usize))
    ensures
        (r.0@, r.1 as int) == read_until_char_spec(s@, c, inclusive, from as int),
{
    let n = s.len();
    if from >= n {
        return (String::new(), from);
    }
    let mut i = from;
    while i < n && s[i] != c
        invariant
            n == s@.len(),
            from <= i <= n,
            find_char(s@, c, from as int) == find_char(s@, c, i as int),
        decreases n - i,
    {
        i = i + 1;
    }
    if i < n {
        (string_from(s, from, i), if inclusive { i + 1 } else { i })
    } else {
        (string_from(s, from, n - 1), if inclusive { n } else { n - 1 })
    }
}

/// The text from `from` up to the next `c`, and where reading goes on (see
/// `read_until_char_spec`).
pub fn read_until_char(s: &String, c: char, inclusive: bool, from: usize) -> (r: (String, usize))
    ensures
        (r.0@, r.1 as int) == read_until_char_spec(s@, c, inclusive, from as int),
{
    let v = chars_of(s.as_str());
    read_until_char_in(&v, c, inclusive, from)
}

fn read_until_control_char(s: &Vec<char>, from: usize) -> (r: (String, usize))
    requires
        from < s@.len(),
    ensures
        (r.0@, r.1 as int) == read_until_control_spec(s@, from as int),
{
    let n = s.len();
    let mut i = from;
    while i < n && !is_control_char(s[i])
        invariant
            n == s@.len(),
            from <= i <= n,
            find_control(s@, from as int) == find_control(s@, i as int),
        decreases n - i,
    {
        i = i + 1;
    }
    if i >= n {
        (string_from(s, from, n), n)
    } else if i == from {
        (String::new(), from + 1)
    } else {
        (string_from(s, from, i - 1), i)
    }
}

fn read_until_string(s: &Vec<char>, pattern: &Vec<char>, inclusive: bool, from: usize) -> (r: (String, usize))
    ensures
        (r.0@, r.1 as int) == read_until_string_spec(s@, pattern@, inclusive, from as int),
{
    let n = s.len();
    if from > n {
        return (String::new(), from);
    }
    let mut i = from;
    let mut found = false;
    while i < n && !found
        invariant
            n == s@.len(),
            from <= i <= n,
            find_pattern(s@, pattern@, from as int) == find_pattern(s@, pattern@, i as int),
            found ==> i < n && matches_at(s@, pattern@, i as int),
        decreases n - i, if found { 0int } else { 1int },
    {
        if compare_look_ahead(s, pattern, i) {
            found = true;
        } else {
            i = i + 1;
        }
    }
    if i < n {
        (string_from(s, from, i), if inclusive { i + pattern.len() } else { i })
    } else {
        (string_from(s, from, n), n)
    }
}

fn class_style(a: &str) -> (r: Style)
    ensures
        r@ == StyleView::Ref(seq![a@]),
{
    let mut v: Vec<String> = Vec::new();
    v.push(String::from_str(a));
    let r = Style::Ref(v);
    assert(r@ == StyleView::Ref(seq![a@])) by {
        assert(crate::documents::strings_view(v@) =~= seq![a@]);
    }
    r
}

fn class_style2(a: &str, b: &str) -> (r: Style)
    ensures
        r@ == StyleView::Ref(seq![a@, b@]),
{
    let mut v: Vec<String> = Vec::new();
    v.push(String::from_str(a));
    v.push(String::from_str(b));
    let r = Style::Ref(v);
    assert(r@ == StyleView::Ref(seq![a@, b@])) by {
        assert(crate::documents::strings_view(v@) =~= seq![a@, b@]);
    }
    r
}

/// Splits a line into plain text, styled spans and links.
pub fn parse_inline_content(input: String) -> (r: Vec<InlineContent>)
    ensures
        inline_views(r@) == parse_inline_spec(input@),
{
    let s = chars_of(input.as_str());
    let n = s.len();
    let three = chars_of("***");
    let two = chars_of("**");
    proof {
        reveal_strlit("***");
        reveal_strlit("**");
    }
    let mut content = Vec::<InlineContent>::new();
    let mut i: usize = 0;
    loop
        invariant
            s@ == input@,
            n == s@.len(),
            three@ == "***"@,
            two@ == "**"@,
            0 <= i <= n,
            inline_views(content@) + parse_inline_from(s@, i as int) == parse_inline_spec(s@),
        decreases n - i,
    {
        proof {
            lemma_inline_step_advances(s@, i as int);
        }
        let step: Option<(InlineContent, usize)> = match get_char(&s, i) {
            Some(c) if c == '*' => match look_ahead(&s, i + 1) {
                None => None,
                Some(c1) => match look_ahead(&s, i + 2) {
                None => None,
                Some(c2) if c1 == '*' && c2 == '*' => {
                    let (v, next) = read_until_string(&s, &three, true, i + 3);
                    Some((InlineContent::Span(InlineSpan { content: v, style: class_style2("b", "i") }), next))
                },
                Some(_) if c1 == '*' => {
                    let (v, next) = read_until_string(&s, &two, true, i + 2);
                    Some((InlineContent::Span(InlineSpan { content: v, style: class_style("b") }), next))
                },
                Some(_) => {
                    let (v, next) = read_until_char_in(&s, '*', true, i + 1);
                    Some((InlineContent::Span(InlineSpan { content: v, style: class_style("i") }), next))
                },
                },
            },
            Some(c) if c == '`' => {
                let (v, next) = read_until_char_in(&s, '`', true, i + 1);
                Some((InlineContent::Span(InlineSpan { content: v, style: class_style("code") }), next))
            },
            Some(c) if c == '[' => {
                let (text, next1) = read_until_char_in(&s, ']', true, i + 1);
                let (url, next2) = if next1 >= n {
                    (String::new(), n)
                } else {
                    read_until_char_in(&s, ')', true, next1 + 1)
                };
                Some((InlineContent::Link(InlineLink::new(Style::Default, url, text)), next2))
            },
            Some(_) => {
                let (v, next) = read_until_control_char(&s, i);
                Some((InlineContent::Text(InlineText { content: v }), next))
            },
            None => None,
        };
        match step {
            None => {
                proof {
                    assert(inline_views(content@) + Seq::<InlineView>::empty() =~= inline_views(content@));
                }
                return content;
            },
            Some((item, next)) => {
                proof {
                    assert(inline_step(s@, i as int) == Some((item@, next as int)));
                    assert(inline_views(content@.push(item)) =~= inline_views(content@) + seq![item@]);
                    assert(seq![item@] + parse_inline_from(s@, next as int) == parse_inline_from(s@, i as int));
                    assert(inline_views(content@) + (seq![item@] + parse_inline_from(s@, next as int))
                        =~= (inline_views(content@) + seq![item@]) + parse_inline_from(s@, next as int));
                }
                content.push(item);
                i = next;
            },
        }
    }
}

} // verus!
