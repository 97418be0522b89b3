//! Inline elements of a markdown line, kept as a chain of spans.
use vstd::prelude::*;
use crate::parser::{image_parts, is_image, is_link, link_parts, strip_image, strip_link};
use crate::pattern::{image_shape, link_shape};
use crate::text::{has_char, skip_first, skip_until, take_until};

verus! {

/// The kind of an inline element, with its text.
#[derive(Debug, PartialEq, Clone)]
pub enum SpanType {
    Root,
    Decoration { text: String, is_strong: bool, is_italic: bool },
    Image { alt: String, src: String },
    Link { text: String, href: String },
    InlineCode(String),
    StrikeThrough(String),
    Highlight(String),
    FootnoteReference { id: String },
    InlineHTML(String),
    PlainText(String),
}

/// The mathematical value of a [`SpanType`]: its kind and its text as character sequences.
pub enum SpanKind {
    Root,
    Decoration { text: Seq<char>, is_strong: bool, is_italic: bool },
    Image { alt: Seq<char>, src: Seq<char> },
    Link { text: Seq<char>, href: Seq<char> },
    InlineCode(Seq<char>),
    StrikeThrough(Seq<char>),
    Highlight(Seq<char>),
    FootnoteReference { id: Seq<char> },
    InlineHTML(Seq<char>),
    PlainText(Seq<char>),
}

impl View for SpanType {
    type V = SpanKind;

    open spec fn view(&self) -> SpanKind {
        match self {
            SpanType::Root => SpanKind::Root,
            SpanType::Decoration { text, is_strong, is_italic } => SpanKind::Decoration {
                text: text@,
                is_strong: *is_strong,
                is_italic: *is_italic,
            },
            SpanType::Image { alt, src } => SpanKind::Image { alt: alt@, src: src@ },
            SpanType::Link { text, href } => SpanKind::Link { text: text@, href: href@ },
            SpanType::InlineCode(t) => SpanKind::InlineCode(t@),
            SpanType::StrikeThrough(t) => SpanKind::StrikeThrough(t@),
            SpanType::Highlight(t) => SpanKind::Highlight(t@),
            SpanType::FootnoteReference { id } => SpanKind::FootnoteReference { id: id@ },
            SpanType::InlineHTML(t) => SpanKind::InlineHTML(t@),
            SpanType::PlainText(t) => SpanKind::PlainText(t@),
        }
    }
}

/// A span and the spans that follow it: a singly linked chain of inline elements.
#[derive(Debug, PartialEq)]
pub struct SpanField {
    pub span_type: SpanType,
    pub child: Option<Box<SpanField>>,
}

impl SpanField {
    /// The kinds along the chain, starting with this span.
    pub open spec fn chain(&self) -> Seq<SpanKind>
        decreases self,
    {
        match self.child {
            Some(c) => seq![self.span_type@] + c.chain(),
            None => seq![self.span_type@],
        }
    }
}

impl View for SpanField {
    type V = Seq<SpanKind>;

    open spec fn view(&self) -> Seq<SpanKind> {
        self.chain()
    }
}

/// What appending `child` adds to a chain: its spans, less a leading `Root`.
pub open spec fn attached(child: Seq<SpanKind>) -> Seq<SpanKind> {
    if child.len() > 0 && child[0] is Root {
        child.drop_first()
    } else {
        child
    }
}

/// A chain holds at least its own span, first.
pub proof fn lemma_chain_nonempty(s: &SpanField)
    ensures
        s@.len() >= 1,
        s@[0] == s.span_type@,
{
    match s.child {
        Some(c) => {},
        None => {},
    }
}

impl SpanType {
    /// A copy of this span type.
    pub fn copy(&self) -> (r: SpanType)
        ensures
            r == *self,
    {
        match self {
            SpanType::Root => SpanType::Root,
            SpanType::Decoration { text, is_strong, is_italic } => SpanType::Decoration {
                text: text.clone(),
                is_strong: *is_strong,
                is_italic: *is_italic,
            },
            SpanType::Image { alt, src } => SpanType::Image { alt: alt.clone(), src: src.clone() },
            SpanType::Link { text, href } => SpanType::Link {
                text: text.clone(),
                href: href.clone(),
            },
            SpanType::InlineCode(t) => SpanType::InlineCode(t.clone()),
            SpanType::StrikeThrough(t) => SpanType::StrikeThrough(t.clone()),
            SpanType::Highlight(t) => SpanType::Highlight(t.clone()),
            SpanType::FootnoteReference { id } => SpanType::FootnoteReference { id: id.clone() },
            SpanType::InlineHTML(t) => SpanType::InlineHTML(t.clone()),
            SpanType::PlainText(t) => SpanType::PlainText(t.clone()),
        }
    }
}

impl SpanField {
    /// A copy of this chain.
    pub fn copy(&self) -> (r: SpanField)
        ensures
            r == *self,
        decreases self,
    {
        let child = match &self.child {
            Some(c) => Some(Box::new(c.copy())),
            None => None,
        };
        SpanField { span_type: self.span_type.copy(), child }
    }

    /// Appends `child` at the end of the chain. A `Root` at the head of `child`
    /// is dropped, so that nested parses do not leave empty roots in the chain.
    /// Returns a copy of the chain after the append.
    pub fn append_child(&mut self, child: SpanField) -> (res: SpanField)
        ensures
            final(self)@ == old(self)@ + attached(child@),
            res == *final(self),
        decreases old(self)@.len(),
    {
        proof {
            lemma_chain_nonempty(&child);
        }
        match self.child.take() {
            Some(mut c) => {
                proof {
                    lemma_chain_nonempty(&*c);
                }
                c.append_child(child);
                self.child = Some(c);
            },
            None => {
                if matches!(child.span_type, SpanType::Root) {
                    self.child = child.child;
                } else {
                    self.child = Some(Box::new(child));
                }
            },
        }
        self.copy()
    }
}

/// The chain that parsing `text` gives: a `Root`, then the spans of the
/// text before the first image (or, failing an image, the first link), the
/// image or link itself, and the spans of the text after it; text with
/// neither becomes one plain-text span.
pub open spec fn span_chain(text: Seq<char>) -> Seq<SpanKind>
    decreases text.len(),
    via span_chain_decreases
{
    if text.len() == 0 {
        seq![SpanKind::Root]
    } else if image_shape(text) {
        let p = image_parts(text);
        seq![SpanKind::Root] + attached(span_chain(p.0)) + seq![
            SpanKind::Image { alt: p.1, src: p.2 },
        ] + attached(span_chain(p.3))
    } else if link_shape(text) {
        let p = link_parts(text);
        seq![SpanKind::Root] + attached(span_chain(p.0)) + seq![
            SpanKind::Link { text: p.1, href: p.2 },
        ] + attached(span_chain(p.3))
    } else {
        seq![SpanKind::Root, SpanKind::PlainText(text)]
    }
}

/// A suffix-taking step never lengthens the text.
proof fn lemma_suffix_steps(s: Seq<char>, c: char)
    ensures
        skip_until(s, c).len() <= s.len(),
        take_until(s, c).len() <= s.len(),
        skip_first(s).len() <= s.len(),
        s.len() > 0 ==> skip_first(s).len() < s.len(),
        has_char(s, c) ==> take_until(s, c).len() < s.len(),
        has_char(s, c) ==> skip_until(s, c).len() > 0,
{
    crate::text::lemma_find_char_bounds(s, c);
}

/// Cutting out the element at `opener` leaves a shorter text on either side.
proof fn lemma_parts_shorter(s: Seq<char>, opener: char)
    requires
        has_char(s, opener),
    ensures
        ({
            let at_open = skip_until(skip_until(s, opener), '[');
            let at_paren = skip_until(skip_until(at_open, ']'), '(');
            &&& take_until(s, opener).len() < s.len()
            &&& skip_first(skip_until(at_paren, ')')).len() < s.len()
        }),
{
    let a = skip_until(s, opener);
    let b = skip_until(a, '[');
    let c = skip_until(b, ']');
    let d = skip_until(c, '(');
    let e = skip_until(d, ')');
    lemma_suffix_steps(s, opener);
    lemma_suffix_steps(a, '[');
    lemma_suffix_steps(b, ']');
    lemma_suffix_steps(c, '(');
    lemma_suffix_steps(d, ')');
    lemma_suffix_steps(e, ')');
}

/// Cutting out an image, or a link, leaves shorter texts on both sides.
pub proof fn lemma_cut_shorter(text: Seq<char>)
    ensures
        image_shape(text) ==> image_parts(text).0.len() < text.len() && image_parts(text).3.len()
            < text.len(),
        link_shape(text) ==> link_parts(text).0.len() < text.len() && link_parts(text).3.len()
            < text.len(),
{
    if image_shape(text) {
        let (i, j, k) = choose|i: int, j: int, k: int|
            #![trigger text[i], text[j], text[k]]
            0 <= i && i + 2 <= j && j + 2 <= k && k < text.len() && text[i] == '!' && text[i + 1]
                == '[' && text[j] == ']' && text[j + 1] == '(' && text[k] == ')'
                && crate::pattern::line_free(text, i + 2, j) && crate::pattern::line_free(
                text,
                j + 2,
                k,
            );
        assert(has_char(text, '!'));
        lemma_parts_shorter(text, '!');
    }
    if link_shape(text) {
        let (i, j, k) = choose|i: int, j: int, k: int|
            #![trigger text[i], text[j], text[k]]
            0 <= i && i + 1 <= j && j + 2 <= k && k < text.len() && text[i] == '[' && text[j]
                == ']' && text[j + 1] == '(' && text[k] == ')' && crate::pattern::line_free(
                text,
                i + 1,
                j,
            ) && crate::pattern::line_free(text, j + 2, k);
        assert(has_char(text, '['));
        lemma_parts_shorter(text, '[');
        assert(skip_until(skip_until(text, '['), '[') == skip_until(text, '[')) by {
            crate::text::lemma_find_char_bounds(text, '[');
            let a = skip_until(text, '[');
            crate::text::lemma_find_char_is(a, '[', 0);
            assert(a.skip(0) =~= a);
        }
    }
}

#[via_fn]
proof fn span_chain_decreases(text: Seq<char>) {
    lemma_cut_shorter(text);
}

/// The chain begins with `Root`, and `Root` occurs nowhere else in it.
pub open spec fn single_root(c: Seq<SpanKind>) -> bool {
    &&& c.len() >= 1
    &&& c[0] is Root
    &&& forall|i: int| 1 <= i < c.len() ==> !(#[trigger] c[i] is Root)
}

/// Parsing a line gives one `Root` at the head of the chain and no other:
/// the roots of the nested parses of the text around an image or link are
/// dropped when their chains are appended.
pub proof fn lemma_span_chain_single_root(text: Seq<char>)
    ensures
        single_root(span_chain(text)),
    decreases text.len(),
{
    lemma_cut_shorter(text);
    if text.len() == 0 {
    } else if image_shape(text) {
        let p = image_parts(text);
        lemma_span_chain_single_root(p.0);
        lemma_span_chain_single_root(p.3);
        let l = attached(span_chain(p.0));
        let r = attached(span_chain(p.3));
        let c = seq![SpanKind::Root] + l + seq![SpanKind::Image { alt: p.1, src: p.2 }] + r;
        assert forall|i: int| 1 <= i < c.len() implies !(#[trigger] c[i] is Root) by {
            if i < 1 + l.len() {
                assert(c[i] == span_chain(p.0)[i]);
            } else if i > 1 + l.len() {
                assert(c[i] == span_chain(p.3)[i - 1 - l.len()]);
            }
        }
    } else if link_shape(text) {
        let p = link_parts(text);
        lemma_span_chain_single_root(p.0);
        lemma_span_chain_single_root(p.3);
        let l = attached(span_chain(p.0));
        let r = attached(span_chain(p.3));
        let c = seq![SpanKind::Root] + l + seq![SpanKind::Link { text: p.1, href: p.2 }] + r;
        assert forall|i: int| 1 <= i < c.len() implies !(#[trigger] c[i] is Root) by {
            if i < 1 + l.len() {
                assert(c[i] == span_chain(p.0)[i]);
            } else if i > 1 + l.len() {
                assert(c[i] == span_chain(p.3)[i - 1 - l.len()]);
            }
        }
    }
}

/// Whether no span of the chain is a footnote reference.
pub open spec fn no_footnote_ref(c: Seq<SpanKind>) -> bool {
    forall|i: int| 0 <= i < c.len() ==> !(#[trigger] c[i] is FootnoteReference)
}

/// Parsing a line never gives a footnote reference.
pub proof fn lemma_span_chain_no_footnote(text: Seq<char>)
    ensures
        no_footnote_ref(span_chain(text)),
    decreases text.len(),
{
    lemma_cut_shorter(text);
    if text.len() == 0 {
    } else if image_shape(text) || link_shape(text) {
        let p = if image_shape(text) {
            image_parts(text)
        } else {
            link_parts(text)
        };
        lemma_span_chain_no_footnote(p.0);
        lemma_span_chain_no_footnote(p.3);
        let l = attached(span_chain(p.0));
        let r = attached(span_chain(p.3));
        let c = span_chain(text);
        assert forall|i: int| 0 <= i < c.len() implies !(#[trigger] c[i] is FootnoteReference) by {
            if 1 <= i < 1 + l.len() {
                assert(c[i] == l[i - 1]);
                if span_chain(p.0).len() > 0 && span_chain(p.0)[0] is Root {
                    assert(l[i - 1] == span_chain(p.0)[i]);
                } else {
                    assert(l[i - 1] == span_chain(p.0)[i - 1]);
                }
            } else if i > 1 + l.len() {
                assert(c[i] == r[i - 2 - l.len()]);
                if span_chain(p.3).len() > 0 && span_chain(p.3)[0] is Root {
                    assert(r[i - 2 - l.len()] == span_chain(p.3)[i - 1 - l.len()]);
                } else {
                    assert(r[i - 2 - l.len()] == span_chain(p.3)[i - 2 - l.len()]);
                }
            }
        }
    }
}

/// Text without `[` holds neither an image nor a link.
pub proof fn lemma_no_bracket_no_markup(s: Seq<char>)
    requires
        !has_char(s, '['),
    ensures
        !image_shape(s),
        !link_shape(s),
{
    if image_shape(s) {
        let (i, j, k) = choose|i: int, j: int, k: int|
            #![trigger s[i], s[j], s[k]]
            0 <= i && i + 2 <= j && j + 2 <= k && k < s.len() && s[i] == '!' && s[i + 1] == '['
                && s[j] == ']' && s[j + 1] == '(' && s[k] == ')' && crate::pattern::line_free(
                s,
                i + 2,
                j,
            ) && crate::pattern::line_free(s, j + 2, k);
        assert(s[i + 1] == '[');
    }
    if link_shape(s) {
        let (i, j, k) = choose|i: int, j: int, k: int|
            #![trigger s[i], s[j], s[k]]
            0 <= i && i + 1 <= j && j + 2 <= k && k < s.len() && s[i] == '[' && s[j] == ']'
                && s[j + 1] == '(' && s[k] == ')' && crate::pattern::line_free(s, i + 1, j)
                && crate::pattern::line_free(s, j + 2, k);
        assert(s[i] == '[');
    }
}

/// A non-empty text without `[` parses into `Root` then that whole text as plain text.
pub proof fn lemma_plain_chain(s: Seq<char>)
    requires
        !has_char(s, '['),
        s.len() > 0,
    ensures
        span_chain(s) == seq![SpanKind::Root, SpanKind::PlainText(s)],
        attached(span_chain(s)) == seq![SpanKind::PlainText(s)],
{
    lemma_no_bracket_no_markup(s);
    assert(seq![SpanKind::Root, SpanKind::PlainText(s)].drop_first() =~= seq![
        SpanKind::PlainText(s),
    ]);
}

/// The text before the first `c` does not hold `c`.
proof fn lemma_take_until_free(s: Seq<char>, c: char)
    ensures
        !has_char(take_until(s, c), c),
{
    crate::text::lemma_find_char_bounds(s, c);
    let t = take_until(s, c);
    if has_char(t, c) {
        let i = choose|i: int| 0 <= i < t.len() && t[i] == c;
        assert(t[i] == s[i]);
    }
}

/// Parsing keeps the text in front of the first image or link: when that text
/// is not empty and holds no `[`, the span right after `Root` is that text as
/// plain text, whatever follows the image or link. (For a link, the text in
/// front is everything before the first `[`.)
pub proof fn lemma_span_chain_keeps_left(text: Seq<char>)
    ensures
        image_shape(text) && image_parts(text).0.len() > 0 && !has_char(image_parts(text).0, '[')
            ==> span_chain(text).len() > 1 && span_chain(text)[1] == SpanKind::PlainText(
            image_parts(text).0,
        ),
        !image_shape(text) && link_shape(text) && link_parts(text).0.len() > 0 ==> span_chain(
            text,
        ).len() > 1 && span_chain(text)[1] == SpanKind::PlainText(link_parts(text).0),
{
    lemma_cut_shorter(text);
    if text.len() > 0 && image_shape(text) && image_parts(text).0.len() > 0 && !has_char(
        image_parts(text).0,
        '[',
    ) {
        let p = image_parts(text);
        lemma_plain_chain(p.0);
        let c = span_chain(text);
        assert(c[1] == attached(span_chain(p.0))[0]);
    }
    if text.len() > 0 && !image_shape(text) && link_shape(text) && link_parts(text).0.len() > 0 {
        let p = link_parts(text);
        lemma_take_until_free(text, '[');
        lemma_plain_chain(p.0);
        let c = span_chain(text);
        assert(c[1] == attached(span_chain(p.0))[0]);
    }
}

/// Parsing keeps the text after the first image or link: when that text is
/// not empty and holds no `[`, the chain ends with it as plain text.
pub proof fn lemma_span_chain_keeps_right(text: Seq<char>)
    ensures
        image_shape(text) && image_parts(text).3.len() > 0 && !has_char(image_parts(text).3, '[')
            ==> span_chain(text).last() == SpanKind::PlainText(image_parts(text).3),
        !image_shape(text) && link_shape(text) && link_parts(text).3.len() > 0 && !has_char(
            link_parts(text).3,
            '[',
        ) ==> span_chain(text).last() == SpanKind::PlainText(link_parts(text).3),
{
    lemma_cut_shorter(text);
    if text.len() > 0 && image_shape(text) && image_parts(text).3.len() > 0 && !has_char(
        image_parts(text).3,
        '[',
    ) {
        lemma_plain_chain(image_parts(text).3);
    }
    if text.len() > 0 && !image_shape(text) && link_shape(text) && link_parts(text).3.len() > 0
        && !has_char(link_parts(text).3, '[') {
        lemma_plain_chain(link_parts(text).3);
    }
}

impl SpanField {
    /// Parses one line of markdown into a chain of inline spans, headed by `Root`.
    pub fn from(text: String) -> (res: SpanField)
        ensures
            res@ == span_chain(text@),
        decreases text@.len(),
    {
        let mut root_span = SpanField { span_type: SpanType::Root, child: None };
        if text.as_str().is_empty() {
            return root_span;
        } else if is_image(text.as_str()) {
            let parsed = strip_image(text.as_str());
            proof {
                lemma_cut_shorter(text@);
            }
            let left = SpanField::from(parsed.left);
            let span = parsed.span;
            let right = parsed.right;
            let child = SpanField::from(right);
            root_span.append_child(left);
            root_span.append_child(span);
            root_span.append_child(child);
        } else if is_link(text.as_str()) {
            let parsed = strip_link(text.as_str());
            proof {
                lemma_cut_shorter(text@);
            }
            let left = SpanField::from(parsed.left);
            let span = parsed.span;
            let right = parsed.right;
            let child = SpanField::from(right);
            root_span.append_child(left);
            root_span.append_child(span);
            root_span.append_child(child);
        } else {
            let span = SpanField { span_type: SpanType::PlainText(text), child: None };
            root_span.append_child(span);
        }
        root_span
    }
}

} // verus!
