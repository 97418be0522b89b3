//! Recognising and cutting out inline images and links.
use vstd::prelude::*;
use crate::pattern::{image_shape, link_shape, pattern_matches};
use crate::span::{SpanField, SpanKind, SpanType};
use crate::text::{
    find_char, find_char_from, skip_first, skip_until, str_chars, string_of, take_until,
};

verus! {

/// A line cut around one inline element: the text before it, the element,
/// and the text after it.
#[derive(Debug, PartialEq)]
pub struct Parsed {
    pub left: String,
    pub span: SpanField,
    pub right: String,
}

/// The four pieces that cutting out an image gives: text before the first `!`,
/// the alt text, the source and the text after the source.
///
/// Each piece is found from the first `!`: then the first `[` after it, the
/// text up to the next `]`, the first `(` after that `]`, the text up to the
/// next `)`, and what follows that `)`.
pub open spec fn image_parts(s: Seq<char>) -> (Seq<char>, Seq<char>, Seq<char>, Seq<char>) {
    let at_open = skip_until(skip_until(s, '!'), '[');
    let at_paren = skip_until(skip_until(at_open, ']'), '(');
    (
        take_until(s, '!'),
        take_until(skip_first(at_open), ']'),
        take_until(skip_first(at_paren), ')'),
        skip_first(skip_until(at_paren, ')')),
    )
}

/// The four pieces that cutting out a link gives: text before the first `[`,
/// the link text, the target and the text after the target.
pub open spec fn link_parts(s: Seq<char>) -> (Seq<char>, Seq<char>, Seq<char>, Seq<char>) {
    let at_open = skip_until(s, '[');
    let at_paren = skip_until(skip_until(at_open, ']'), '(');
    (
        take_until(s, '['),
        take_until(skip_first(at_open), ']'),
        take_until(skip_first(at_paren), ')'),
        skip_first(skip_until(at_paren, ')')),
    )
}

/// `s.skip(p).skip(k)` is `s.skip(p + k)`.
proof fn lemma_skip_skip(s: Seq<char>, p: int, k: int)
    requires
        0 <= p,
        0 <= k,
        p + k <= s.len(),
    ensures
        s.skip(p).skip(k) == s.skip(p + k),
{
    assert(s.skip(p).skip(k) =~= s.skip(p + k));
}

/// Index form of the spec chains: skipping to `c` from position `p`.
proof fn lemma_skip_until_at(s: Seq<char>, p: int, c: char)
    requires
        0 <= p <= s.len(),
    ensures
        skip_until(s.skip(p), c) == s.skip(p + find_char(s.skip(p), c)),
        take_until(s.skip(p), c) == s.subrange(p, p + find_char(s.skip(p), c)),
        p + find_char(s.skip(p), c) <= s.len(),
{
    crate::text::lemma_find_char_bounds(s.skip(p), c);
    lemma_skip_skip(s, p, find_char(s.skip(p), c) as int);
    assert(s.skip(p).take(find_char(s.skip(p), c) as int) =~= s.subrange(
        p,
        p + find_char(s.skip(p), c),
    ));
}

/// Index form of `skip(1)` from position `p`.
proof fn lemma_skip_first_at(s: Seq<char>, p: int)
    requires
        0 <= p <= s.len(),
    ensures
        skip_first(s.skip(p)) == s.skip(if p < s.len() { p + 1 } else { p }),
{
    if p < s.len() {
        assert(s.skip(p).drop_first() =~= s.skip(p + 1));
    }
}

/// The position after `p`, or `p` at the end.
fn step(v: &Vec<char>, p: usize) -> (q: usize)
    requires
        p <= v.len(),
    ensures
        q == if p < v.len() { p + 1 } else { p as int },
{
    if p < v.len() {
        p + 1
    } else {
        p
    }
}

/// Whether `input` holds an inline image `![alt](src)` (a regex test).
pub fn is_image(input: &str) -> (res: bool)
    ensures
        res == image_shape(input@),
{
    pattern_matches(r"!\[.*\]\(.*\)", input)
}

/// Whether `input` holds an inline link `[text](href)` (a regex test).
pub fn is_link(input: &str) -> (res: bool)
    ensures
        res == link_shape(input@),
{
    pattern_matches(r"\[.*\]\(.*\)", input)
}

/// Cuts the first image out of `input`.
pub fn strip_image(input: &str) -> (res: Parsed)
    ensures
        res.left@ == image_parts(input@).0,
        res.right@ == image_parts(input@).3,
        res.span.child is None,
        res.span.span_type@ == (SpanKind::Image {
            alt: image_parts(input@).1,
            src: image_parts(input@).2,
        }),
{
    let v = str_chars(input);
    let n = v.len();
    let bang = find_char_from(&v, 0, '!');
    let open = find_char_from(&v, bang, '[');
    let alt_start = step(&v, open);
    let alt_end = find_char_from(&v, alt_start, ']');
    let close = find_char_from(&v, open, ']');
    let paren = find_char_from(&v, close, '(');
    let src_start = step(&v, paren);
    let src_end = find_char_from(&v, src_start, ')');
    let end = find_char_from(&v, paren, ')');
    let right_start = step(&v, end);
    proof {
        let s = v@;
        assert(s.skip(0) =~= s);
        lemma_skip_until_at(s, 0, '!');
        lemma_skip_until_at(s, bang as int, '[');
        lemma_skip_first_at(s, open as int);
        lemma_skip_until_at(s, alt_start as int, ']');
        lemma_skip_until_at(s, open as int, ']');
        lemma_skip_until_at(s, close as int, '(');
        lemma_skip_first_at(s, paren as int);
        lemma_skip_until_at(s, src_start as int, ')');
        lemma_skip_until_at(s, paren as int, ')');
        lemma_skip_first_at(s, end as int);
        assert(s.subrange(right_start as int, n as int) =~= s.skip(right_start as int));
    }
    let left = string_of(&v, 0, bang);
    let alt = string_of(&v, alt_start, alt_end);
    let src = string_of(&v, src_start, src_end);
    let right = string_of(&v, right_start, n);
    Parsed {
        left,
        span: SpanField { child: None, span_type: SpanType::Image { alt, src } },
        right,
    }
}

/// Cuts the first link out of `input`.
pub fn strip_link(input: &str) -> (res: Parsed)
    ensures
        res.left@ == link_parts(input@).0,
        res.right@ == link_parts(input@).3,
        res.span.child is None,
        res.span.span_type@ == (SpanKind::Link {
            text: link_parts(input@).1,
            href: link_parts(input@).2,
        }),
{
    let v = str_chars(input);
    let n = v.len();
    let open = find_char_from(&v, 0, '[');
    let text_start = step(&v, open);
    let text_end = find_char_from(&v, text_start, ']');
    let close = find_char_from(&v, open, ']');
    let paren = find_char_from(&v, close, '(');
    let href_start = step(&v, paren);
    let href_end = find_char_from(&v, href_start, ')');
    let end = find_char_from(&v, paren, ')');
    let right_start = step(&v, end);
    proof {
        let s = v@;
        assert(s.skip(0) =~= s);
        lemma_skip_until_at(s, 0, '[');
        lemma_skip_first_at(s, open as int);
        lemma_skip_until_at(s, text_start as int, ']');
        lemma_skip_until_at(s, open as int, ']');
        lemma_skip_until_at(s, close as int, '(');
        lemma_skip_first_at(s, paren as int);
        lemma_skip_until_at(s, href_start as int, ')');
        lemma_skip_until_at(s, paren as int, ')');
        lemma_skip_first_at(s, end as int);
        assert(s.subrange(right_start as int, n as int) =~= s.skip(right_start as int));
    }
    let left = string_of(&v, 0, open);
    let text = string_of(&v, text_start, text_end);
    let href = string_of(&v, href_start, href_end);
    let right = string_of(&v, right_start, n);
    Parsed {
        left,
        span: SpanField { child: None, span_type: SpanType::Link { text, href } },
        right,
    }
}

} // verus!
