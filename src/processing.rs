//! Turns block tokens into document blocks.
use vstd::prelude::*;

use crate::block_parser::{BlockToken, BlockTokenView, block_token_views};
use crate::documents::{
    Block, BlockView, CodeBlock, HeaderBlock, HeaderLevel, ImageBlock, InlineView, ListBlock, ListItem,
    ParagraphBlock, Style, StyleView, inline_views, list_items_view, opt_view, strings_view,
};
use crate::inline_parser::{parse_inline_content, parse_inline_spec, read_until_char, read_until_char_spec};
use crate::text::{chars_of, push_char, string_from, trim_text, trimmed};

verus! {

// ---------------------------------------------------------------------------
// Specification
// ---------------------------------------------------------------------------

/// The number of `#` characters that `s` starts with, counted from `i`.
pub open spec fn leading_hashes(s: Seq<char>, i: int) -> int
    decreases s.len() - i,
{
    if i < 0 || i >= s.len() || s[i] != '#' {
        i
    } else {
        leading_hashes(s, i + 1)
    }
}

/// The level of a header opened by `n` hashes; more than six, or none, is
/// the sixth level.
pub open spec fn level_of(n: int) -> HeaderLevel {
    if n == 1 {
        HeaderLevel::H1
    } else if n == 2 {
        HeaderLevel::H2
    } else if n == 3 {
        HeaderLevel::H3
    } else if n == 4 {
        HeaderLevel::H4
    } else if n == 5 {
        HeaderLevel::H5
    } else {
        HeaderLevel::H6
    }
}

/// The pieces of `s` between occurrences of `sep`.
pub open spec fn split_on(s: Seq<char>, sep: char) -> Seq<Seq<char>>
    decreases s.len(),
{
    if s.len() == 0 {
        seq![Seq::empty()]
    } else {
        let rest = split_on(s.drop_last(), sep);
        if s.last() == sep {
            rest.push(Seq::empty())
        } else {
            rest.update(rest.len() - 1, rest.last().push(s.last()))
        }
    }
}

/// `a + b`, held at `usize::MAX`.
pub open spec fn sat_add(a: int, b: int) -> int {
    if a + b > usize::MAX {
        usize::MAX as int
    } else {
        a + b
    }
}

/// The height and width that the first `k` `key:value` pieces set, the
/// last setting of each winning.
pub open spec fn dimensions(pieces: Seq<Seq<char>>, k: int) -> (Option<Seq<char>>, Option<Seq<char>>)
    decreases k,
{
    if k <= 0 || k > pieces.len() {
        (None, None)
    } else {
        let (h, w) = dimensions(pieces, k - 1);
        let parts = split_on(trimmed(pieces[k - 1]), ':');
        let value = if parts.len() > 1 {
            Some(parts[1])
        } else {
            None
        };
        if parts[0] == "height"@ {
            (value, w)
        } else if parts[0] == "width"@ {
            (h, value)
        } else {
            (h, w)
        }
    }
}

/// An image line `![alt](source "title"){height:h, width:w}`, read as the
/// alt text, the source up to a space, the title up to a quote, and the
/// attributes up to a closing brace.
pub open spec fn image_view(s: Seq<char>) -> BlockView {
    let (alt_text, next1) = read_until_char_spec(s, ']', false, 2);
    let (source, next2) = read_until_char_spec(s, ' ', false, sat_add(next1, 2));
    let (title, next3) = read_until_char_spec(s, '"', false, sat_add(next2, 2));
    let (hw, _) = read_until_char_spec(s, '}', false, sat_add(next3, 3));
    let pieces = split_on(trimmed(hw), ',');
    let (h, w) = dimensions(pieces, pieces.len() as int);
    BlockView::Image(StyleView::Default, source, title, alt_text, h, w)
}

pub open spec fn header_view(s: Seq<char>) -> BlockView {
    let n = leading_hashes(s, 0);
    BlockView::Header(
        StyleView::Default,
        level_of(n),
        parse_inline_spec(trimmed(s.subrange(n, s.len() as int))),
        n == 1 || n == 2,
    )
}

/// The text of a list item token of the given kind.
pub open spec fn item_text(t: BlockTokenView, ordered: bool) -> Option<Seq<char>> {
    match t {
        BlockTokenView::OrderedListItem(s) => if ordered {
            Some(s)
        } else {
            None
        },
        BlockTokenView::UnorderedListItem(s) => if ordered {
            None
        } else {
            Some(s)
        },
        _ => None,
    }
}

/// The end of the run of list item tokens of one kind from `i`.
pub open spec fn item_run_end(toks: Seq<BlockTokenView>, i: int, ordered: bool) -> int
    decreases toks.len() - i,
{
    if i < 0 || i >= toks.len() || item_text(toks[i], ordered) is None {
        i
    } else {
        item_run_end(toks, i + 1, ordered)
    }
}

/// The list items that the tokens `toks[i..j]` stand for.
pub open spec fn list_items(toks: Seq<BlockTokenView>, i: int, j: int, ordered: bool) -> Seq<(StyleView, Seq<InlineView>)> {
    Seq::new(
        (j - i) as nat,
        |k: int| (StyleView::Default, parse_inline_spec(item_text(toks[i + k], ordered).unwrap())),
    )
}

/// The blocks that the tokens from `i` on make: each header, paragraph,
/// code block and image token one block, each run of list items of one kind
/// one list; empty and unknown tokens make none.
pub open spec fn blocks_of(toks: Seq<BlockTokenView>, i: int) -> Seq<BlockView>
    decreases toks.len() - i,
    via blocks_of_decreases
{
    if i < 0 || i >= toks.len() {
        Seq::empty()
    } else {
        match toks[i] {
            BlockTokenView::Header(s) => seq![header_view(s)] + blocks_of(toks, i + 1),
            BlockTokenView::Paragraph(s) => seq![BlockView::Paragraph(StyleView::Default, parse_inline_spec(s))]
                + blocks_of(toks, i + 1),
            BlockTokenView::CodeBlock(l, s) => seq![BlockView::Code(StyleView::Default, s, l)] + blocks_of(toks, i + 1),
            BlockTokenView::Image(s) => seq![image_view(s)] + blocks_of(toks, i + 1),
            BlockTokenView::OrderedListItem(_) => {
                let j = item_run_end(toks, i, true);
                seq![BlockView::List(true, StyleView::Default, list_items(toks, i, j, true))] + blocks_of(toks, j)
            },
            BlockTokenView::UnorderedListItem(_) => {
                let j = item_run_end(toks, i, false);
                seq![BlockView::List(false, StyleView::Default, list_items(toks, i, j, false))] + blocks_of(toks, j)
            },
            _ => blocks_of(toks, i + 1),
        }
    }
}

#[via_fn]
proof fn blocks_of_decreases(toks: Seq<BlockTokenView>, i: int) {
    if 0 <= i < toks.len() {
        lemma_item_run_end(toks, i + 1, true);
        lemma_item_run_end(toks, i + 1, false);
    }
}

proof fn lemma_item_run_end(toks: Seq<BlockTokenView>, i: int, ordered: bool)
    ensures
        i <= item_run_end(toks, i, ordered),
        0 <= i <= toks.len() ==> item_run_end(toks, i, ordered) <= toks.len(),
        forall|k: int| i <= k < item_run_end(toks, i, ordered) ==> item_text(toks[k], ordered) is Some,
    decreases toks.len() - i,
{
    if !(i < 0 || i >= toks.len() || item_text(toks[i], ordered) is None) {
        lemma_item_run_end(toks, i + 1, ordered);
    }
}

pub open spec fn blocks_view(v: Seq<Block>) -> Seq<BlockView> {
    Seq::new(v.len(), |i: int| v[i]@)
}


// ---------------------------------------------------------------------------
// Building blocks
// ---------------------------------------------------------------------------

/// The pieces of `s` between occurrences of `sep`.
fn split_char(s: &str, sep: char) -> (r: Vec<String>)
    ensures
        strings_view(r@) == split_on(s@, sep),
{
    let v = chars_of(s);
    let mut pieces: Vec<String> = Vec::new();
    let mut cur = String::new();
    let mut i: usize = 0;
    proof {
        assert(strings_view(pieces@).push(cur@) =~= split_on(v@.subrange(0, 0), sep));
    }
    while i < v.len()
        invariant
            v@ == s@,
            0 <= i <= v@.len(),
            strings_view(pieces@).push(cur@) == split_on(v@.subrange(0, i as int), sep),
        decreases v@.len() - i,
    {
        proof {
            assert(v@.subrange(0, i + 1).drop_last() =~= v@.subrange(0, i as int));
        }
        let ghost before = strings_view(pieces@).push(cur@);
        if v[i] == sep {
            let done = cur;
            pieces.push(done);
            cur = String::new();
            proof {
                assert(strings_view(pieces@).push(cur@) =~= before.push(Seq::empty()));
            }
        } else {
            push_char(&mut cur, v[i]);
            proof {
                assert(strings_view(pieces@).push(cur@) =~= before.update(
                    before.len() - 1,
                    before.last().push(v@[i as int]),
                ));
            }
        }
        i = i + 1;
    }
    pieces.push(cur);
    proof {
        assert(v@.subrange(0, v@.len() as int) =~= s@);
    }
    pieces
}

fn create_header_block(s: String, style: Style) -> (r: HeaderBlock)
    ensures
        r.style == style,
        r.level == level_of(leading_hashes(s@, 0)),
        r.indexed == (leading_hashes(s@, 0) == 1 || leading_hashes(s@, 0) == 2),
        inline_views(r.content@) == parse_inline_spec(trimmed(s@.subrange(leading_hashes(s@, 0), s@.len() as int))),
{
    let v = chars_of(s.as_str());
    let mut i: usize = 0;
    while i < v.len() && v[i] == '#'
        invariant
            v@ == s@,
            0 <= i <= v@.len(),
            leading_hashes(v@, 0) == leading_hashes(v@, i as int),
        decreases v@.len() - i,
    {
        i = i + 1;
    }
    let (level, indexed) = if i == 1 {
        (HeaderLevel::H1, true)
    } else if i == 2 {
        (HeaderLevel::H2, true)
    } else if i == 3 {
        (HeaderLevel::H3, false)
    } else if i == 4 {
        (HeaderLevel::H4, false)
    } else if i == 5 {
        (HeaderLevel::H5, false)
    } else {
        (HeaderLevel::H6, false)
    };
    let rest = string_from(&v, i, v.len());
    let content = parse_inline_content(trim_text(rest.as_str()));
    HeaderBlock::new(style, level, content, indexed)
}

fn create_paragraph_block(s: String, style: Style) -> (r: ParagraphBlock)
    ensures
        r.style == style,
        inline_views(r.content@) == parse_inline_spec(s@),
{
    ParagraphBlock::new(style, parse_inline_content(s))
}

fn create_code_block(s: String, language: Option<String>, style: Style) -> (r: CodeBlock)
    ensures
        r == (CodeBlock { style, content: s, language }),
{
    CodeBlock::new(style, s, language)
}

fn create_image_block(s: String, style: Style) -> (r: ImageBlock)
    ensures
        r.style == style,
        image_view(s@) == BlockView::Image(StyleView::Default, r.source@, r.title@, r.alt_text@, opt_view(r.height), opt_view(r.width)),
{
    let (alt_text, next1) = read_until_char(&s, ']', false, 2);
    let (source, next2) = read_until_char(&s, ' ', false, next1.saturating_add(2));
    let (title, next3) = read_until_char(&s, '"', false, next2.saturating_add(2));
    let (hw, _) = read_until_char(&s, '}', false, next3.saturating_add(3));
    let pieces = split_char(trim_text(hw.as_str()).as_str(), ',');
    let ghost pv = strings_view(pieces@);
    let height_key = String::from_str("height");
    let width_key = String::from_str("width");
    let mut height: Option<String> = None;
    let mut width: Option<String> = None;
    let mut k: usize = 0;
    while k < pieces.len()
        invariant
            pv == strings_view(pieces@),
            0 <= k <= pieces@.len(),
            height_key@ == "height"@,
            width_key@ == "width"@,
            dimensions(pv, k as int) == (opt_view(height), opt_view(width)),
        decreases pieces@.len() - k,
    {
        let parts = split_char(trim_text(pieces[k].as_str()).as_str(), ':');
        proof {
            lemma_split_nonempty(trimmed(pv[k as int]), ':');
        }
        let value = if parts.len() > 1 {
            Some(parts[1].clone())
        } else {
            None
        };
        if parts[0].eq(&height_key) {
            height = value;
        } else if parts[0].eq(&width_key) {
            width = value;
        }
        k = k + 1;
    }
    ImageBlock::new(style, source, title, alt_text, height, width)
}

proof fn lemma_split_nonempty(s: Seq<char>, sep: char)
    ensures
        split_on(s, sep).len() >= 1,
    decreases s.len(),
{
    if s.len() > 0 {
        lemma_split_nonempty(s.drop_last(), sep);
    }
}

fn create_list_item(s: String, style: Style) -> (r: ListItem)
    ensures
        r.style == style,
        inline_views(r.content@) == parse_inline_spec(s@),
{
    ListItem::new(style, parse_inline_content(s))
}


/// The list made of the run of list item tokens of one kind from `i`, and
/// the index after the run.
fn collect_list(tokens: &Vec<BlockToken>, i: usize, ordered: bool) -> (r: (ListBlock, usize))
    requires
        i <= tokens@.len(),
    ensures
        r.1 == item_run_end(block_token_views(tokens@), i as int, ordered),
        BlockView::List(r.0.ordered, r.0.style@, list_items_view(r.0.items@)) == BlockView::List(
            ordered,
            StyleView::Default,
            list_items(block_token_views(tokens@), i as int, r.1 as int, ordered),
        ),
{
    let ghost tv = block_token_views(tokens@);
    let mut items: Vec<ListItem> = Vec::new();
    let mut j = i;
    loop
        invariant
            tv == block_token_views(tokens@),
            i <= j <= tokens@.len(),
            item_run_end(tv, i as int, ordered) == item_run_end(tv, j as int, ordered),
            items@.len() == j - i,
            forall|k: int| 0 <= k < j - i ==> item_text(#[trigger] tv[i + k], ordered) is Some,
            forall|k: int| 0 <= k < j - i ==> (#[trigger] items@[k]).style@ == StyleView::Default
                && inline_views(items@[k].content@) == parse_inline_spec(item_text(tv[i + k], ordered).unwrap()),
        ensures
            j == item_run_end(tv, i as int, ordered),
        decreases tokens@.len() - j,
    {
        if j >= tokens.len() {
            break;
        }
        let text: Option<&String> = match &tokens[j] {
            BlockToken::OrderedListItem(s) => if ordered {
                Some(s)
            } else {
                None
            },
            BlockToken::UnorderedListItem(s) => if ordered {
                None
            } else {
                Some(s)
            },
            _ => None,
        };
        match text {
            Some(s) => {
                assert(tv[j as int] == tokens@[j as int]@);
                items.push(create_list_item(s.clone(), Style::Default));
                j = j + 1;
            },
            None => {
                assert(tv[j as int] == tokens@[j as int]@);
                break;
            },
        }
    }
    let list = ListBlock::new(Style::Default, ordered, items);
    assert(list_items_view(list.items@) =~= list_items(tv, i as int, j as int, ordered));
    (list, j)
}

/// Turns block tokens into document blocks: runs of list items of one kind
/// become one list; empty and unknown tokens are dropped.
pub fn process_tokens(tokens: Vec<BlockToken>) -> (r: Vec<Block>)
    ensures
        blocks_view(r@) == blocks_of(block_token_views(tokens@), 0),
{
    let ghost tv = block_token_views(tokens@);
    let mut blocks = Vec::<Block>::new();
    let mut i: usize = 0;
    while i < tokens.len()
        invariant
            tv == block_token_views(tokens@),
            0 <= i <= tokens@.len(),
            blocks_view(blocks@) + blocks_of(tv, i as int) == blocks_of(tv, 0),
        decreases tokens@.len() - i,
    {
        assert(tv[i as int] == tokens@[i as int]@);
        let ghost before = blocks@;
        let next: usize;
        let mut made: Option<Block> = None;
        match &tokens[i] {
            BlockToken::Header(s) => {
                made = Some(Block::header(create_header_block(s.clone(), Style::Default)));
                next = i + 1;
            },
            BlockToken::Paragraph(s) => {
                made = Some(Block::paragraph(create_paragraph_block(s.clone(), Style::Default)));
                next = i + 1;
            },
            BlockToken::CodeBlock(l, s) => {
                made = Some(Block::code(create_code_block(s.clone(), l.clone(), Style::Default)));
                next = i + 1;
            },
            BlockToken::Image(s) => {
                made = Some(Block::image(create_image_block(s.clone(), Style::Default)));
                next = i + 1;
            },
            BlockToken::OrderedListItem(_) => {
                proof {
                    lemma_item_run_end(tv, i + 1, true);
                }
                let (list, j) = collect_list(&tokens, i, true);
                made = Some(Block::list(list));
                next = j;
            },
            BlockToken::UnorderedListItem(_) => {
                proof {
                    lemma_item_run_end(tv, i + 1, false);
                }
                let (list, j) = collect_list(&tokens, i, false);
                made = Some(Block::list(list));
                next = j;
            },
            BlockToken::Empty => {
                next = i + 1;
            },
            BlockToken::Unknown(_) => {
                next = i + 1;
            },
        }
        match made {
            Some(b) => {
                proof {
                    assert(blocks_of(tv, i as int) == seq![b@] + blocks_of(tv, next as int));
                    assert(blocks_view(blocks@.push(b)) =~= blocks_view(blocks@) + seq![b@]);
                    assert(blocks_view(blocks@) + (seq![b@] + blocks_of(tv, next as int)) =~= (blocks_view(blocks@)
                        + seq![b@]) + blocks_of(tv, next as int));
                }
                blocks.push(b);
            },
            None => {
                assert(blocks_of(tv, i as int) == blocks_of(tv, next as int));
            },
        }
        i = next;
    }
    proof {
        assert(blocks_view(blocks@) + Seq::<BlockView>::empty() =~= blocks_view(blocks@));
    }
    blocks
}

} // verus!
