//! An HTML tree, its rendering to text, and the rendering of markdown blocks into it.
use vstd::prelude::*;
use crate::block::{Block, BlockElm};
use crate::span::{SpanField, SpanKind, SpanType};
use crate::text::{lemma_occurs_middle, lemma_occurs_trans, occurs_in, push_char};

verus! {

/// A child of an HTML element.
#[derive(Debug)]
pub enum HtmlContent {
    Text(String),
    Html(Html),
    Empty,
}

/// An HTML element: its tag, its children and its attributes in order.
#[derive(Debug)]
pub struct Html {
    pub tag: String,
    pub child: Vec<HtmlContent>,
    pub attrs: Vec<(String, String)>,
}

/// The value of an [`HtmlContent`].
#[verifier::ext_equal]
pub enum Node {
    Text(Seq<char>),
    Element(Element),
    Empty,
}

/// The value of an [`Html`].
#[verifier::ext_equal]
pub struct Element {
    pub tag: Seq<char>,
    pub children: Seq<Node>,
    pub attrs: Seq<(Seq<char>, Seq<char>)>,
}

/// The value of a list of attributes.
pub open spec fn attrs_value(a: Seq<(String, String)>) -> Seq<(Seq<char>, Seq<char>)> {
    a.map_values(|p: (String, String)| (p.0@, p.1@))
}

pub open spec fn content_value(c: &HtmlContent) -> Node
    decreases c, 0int,
{
    match c {
        HtmlContent::Text(t) => Node::Text(t@),
        HtmlContent::Html(h) => Node::Element(html_value(h)),
        HtmlContent::Empty => Node::Empty,
    }
}

pub open spec fn html_value(h: &Html) -> Element
    decreases h, 1int,
{
    Element { tag: h.tag@, children: contents_value(h.child@), attrs: attrs_value(h.attrs@) }
}

pub open spec fn contents_value(s: Seq<HtmlContent>) -> Seq<Node>
    decreases s, 2int,
{
    if s.len() == 0 {
        seq![]
    } else {
        contents_value(s.drop_last()).push(content_value(&s.last()))
    }
}

impl View for HtmlContent {
    type V = Node;

    open spec fn view(&self) -> Node {
        content_value(self)
    }
}

impl View for Html {
    type V = Element;

    open spec fn view(&self) -> Element {
        html_value(self)
    }
}

/// ` key="value"` for each attribute, in order.
pub open spec fn attrs_text(a: Seq<(Seq<char>, Seq<char>)>) -> Seq<char>
    decreases a.len(),
{
    if a.len() == 0 {
        seq![]
    } else {
        attrs_text(a.drop_last()) + seq![' '] + a.last().0 + seq!['=', '"'] + a.last().1 + seq![
            '"',
        ]
    }
}

/// The text of an element: `<tag attrs>children</tag>`.
pub open spec fn element_text(e: Element) -> Seq<char>
    decreases e, 1int,
{
    seq!['<'] + e.tag + attrs_text(e.attrs) + seq!['>'] + nodes_text(e.children) + seq![
        '<',
        '/',
    ] + e.tag + seq!['>']
}

/// The text of a child: a text child is its text, an element its element text.
pub open spec fn node_text(n: Node) -> Seq<char>
    decreases n, 0int,
{
    match n {
        Node::Text(t) => t,
        Node::Element(e) => element_text(e),
        Node::Empty => seq![],
    }
}

/// The texts of the children, one after the other.
pub open spec fn nodes_text(ns: Seq<Node>) -> Seq<char>
    decreases ns, 2int,
{
    if ns.len() == 0 {
        seq![]
    } else {
        nodes_text(ns.drop_last()) + node_text(ns.last())
    }
}

/// The attributes whose key is not `key`, in their order.
pub open spec fn without_key(a: Seq<(Seq<char>, Seq<char>)>, key: Seq<char>) -> Seq<
    (Seq<char>, Seq<char>),
>
    decreases a.len(),
{
    if a.len() == 0 {
        seq![]
    } else if a.last().0 == key {
        without_key(a.drop_last(), key)
    } else {
        without_key(a.drop_last(), key).push(a.last())
    }
}

/// The attributes, with ` value` added to the value of each whose key is `key`.
pub open spec fn extend_value(
    a: Seq<(Seq<char>, Seq<char>)>,
    key: Seq<char>,
    value: Seq<char>,
) -> Seq<(Seq<char>, Seq<char>)> {
    Seq::new(
        a.len(),
        |i: int|
            if a[i].0 == key {
                (a[i].0, a[i].1 + seq![' '] + value)
            } else {
                a[i]
            },
    )
}

impl Html {
    /// An element with an empty tag, no children and no attributes.
    pub fn new() -> (h: Html)
        ensures
            h@.tag == Seq::<char>::empty(),
            h@.children == Seq::<Node>::empty(),
            h@.attrs == Seq::<(Seq<char>, Seq<char>)>::empty(),
    {
        let h = Html { child: Vec::new(), tag: String::new(), attrs: Vec::new() };
        assert(attrs_value(h.attrs@) =~= Seq::<(Seq<char>, Seq<char>)>::empty());
        h
    }

    /// Sets attribute `key` to `value`: any attribute with that key is removed
    /// and the pair is added at the end.
    pub fn set_attr(&mut self, key: String, value: String)
        ensures
            final(self)@.tag == old(self)@.tag,
            final(self)@.children == old(self)@.children,
            final(self)@.attrs == without_key(old(self)@.attrs, key@).push((key@, value@)),
    {
        let mut kept: Vec<(String, String)> = Vec::new();
        let mut i: usize = 0;
        while i < self.attrs.len()
            invariant
                i <= self.attrs.len(),
                attrs_value(kept@) == without_key(attrs_value(self.attrs@.take(i as int)), key@),
            decreases self.attrs.len() - i,
        {
            let same = self.attrs[i].0 == key;
            let ghost prev = kept@;
            if !same {
                kept.push((self.attrs[i].0.clone(), self.attrs[i].1.clone()));
                assert(kept@.drop_last() =~= prev);
            }
            proof {
                let t = attrs_value(self.attrs@.take(i + 1));
                assert(t.drop_last() =~= attrs_value(self.attrs@.take(i as int)));
                assert(attrs_value(kept@) =~= without_key(t, key@));
            }
            i += 1;
        }
        assert(self.attrs@.take(i as int) =~= self.attrs@);
        let ghost prev = kept@;
        kept.push((key, value));
        assert(kept@.drop_last() =~= prev);
        assert(attrs_value(kept@) =~= attrs_value(prev).push((key@, value@)));
        self.attrs = kept;
    }

    /// Adds ` value` to the value of every attribute whose key is `key`;
    /// the other attributes are kept as they are.
    pub fn add_attr(&mut self, key: String, value: String)
        ensures
            final(self)@.tag == old(self)@.tag,
            final(self)@.children == old(self)@.children,
            final(self)@.attrs == extend_value(old(self)@.attrs, key@, value@),
    {
        let mut updated: Vec<(String, String)> = Vec::new();
        let mut i: usize = 0;
        while i < self.attrs.len()
            invariant
                i <= self.attrs.len(),
                updated@.len() == i,
                attrs_value(updated@) == extend_value(
                    attrs_value(self.attrs@.take(i as int)),
                    key@,
                    value@,
                ),
            decreases self.attrs.len() - i,
        {
            let ghost prev = updated@;
            if self.attrs[i].0 == key {
                let mut v = self.attrs[i].1.clone();
                push_char(&mut v, ' ');
                v.append(value.as_str());
                assert(v@ =~= self.attrs@[i as int].1@ + seq![' '] + value@);
                updated.push((self.attrs[i].0.clone(), v));
            } else {
                updated.push((self.attrs[i].0.clone(), self.attrs[i].1.clone()));
            }
            assert(updated@.drop_last() =~= prev);
            proof {
                let a = attrs_value(self.attrs@.take(i + 1));
                let b = attrs_value(self.attrs@.take(i as int));
                assert forall|k: int| 0 <= k < i implies a[k] == b[k] by {
                    assert(self.attrs@.take(i + 1)[k] == self.attrs@.take(i as int)[k]);
                }
                assert(a[i as int] == (self.attrs@[i as int].0@, self.attrs@[i as int].1@));
                let u = attrs_value(updated@);
                let e = extend_value(a, key@, value@);
                let eb = extend_value(b, key@, value@);
                assert forall|k: int| 0 <= k < i implies u[k] == e[k] by {
                    assert(updated@[k] == prev[k]);
                    assert(u[k] == attrs_value(prev)[k]);
                    assert(attrs_value(prev)[k] == eb[k]);
                }
                assert(u[i as int] == e[i as int]);
                assert(u.len() == e.len());
            }
            assert(attrs_value(updated@) =~= extend_value(
                attrs_value(self.attrs@.take(i + 1)),
                key@,
                value@,
            ));
            i += 1;
        }
        assert(self.attrs@.take(i as int) =~= self.attrs@);
        self.attrs = updated;
    }

    /// Appends a child.
    pub fn append_child(&mut self, child: HtmlContent)
        ensures
            final(self)@.tag == old(self)@.tag,
            final(self)@.attrs == old(self)@.attrs,
            final(self)@.children == old(self)@.children.push(child@),
    {
        let ghost old_child = self.child@;
        self.child.push(child);
        assert(self.child@.drop_last() =~= old_child);
    }

    /// The HTML text of the element.
    pub fn render(&self) -> (res: String)
        ensures
            res@ == element_text(self@),
        decreases self,
    {
        let mut html = String::new();
        push_char(&mut html, '<');
        html.append(self.tag.as_str());
        let mut i: usize = 0;
        while i < self.attrs.len()
            invariant
                i <= self.attrs.len(),
                html@ == seq!['<'] + self.tag@ + attrs_text(attrs_value(self.attrs@.take(i as int))),
            decreases self.attrs.len() - i,
        {
            let ghost before = html@;
            push_char(&mut html, ' ');
            html.append(self.attrs[i].0.as_str());
            push_char(&mut html, '=');
            push_char(&mut html, '"');
            html.append(self.attrs[i].1.as_str());
            push_char(&mut html, '"');
            proof {
                let a = attrs_value(self.attrs@.take(i + 1));
                assert(a.drop_last() =~= attrs_value(self.attrs@.take(i as int)));
                assert(html@ =~= seq!['<'] + self.tag@ + attrs_text(a));
            }
            i += 1;
        }
        assert(self.attrs@.take(i as int) =~= self.attrs@);
        push_char(&mut html, '>');
        let ghost head = html@;
        let mut j: usize = 0;
        while j < self.child.len()
            invariant
                j <= self.child.len(),
                html@ == head + nodes_text(contents_value(self.child@.take(j as int))),
            decreases self.child.len() - j,
        {
            match &self.child[j] {
                HtmlContent::Text(t) => {
                    html.append(t.as_str());
                },
                HtmlContent::Html(h) => {
                    let inner = h.render();
                    html.append(inner.as_str());
                },
                HtmlContent::Empty => {},
            }
            proof {
                let s = self.child@.take(j + 1);
                let prev = contents_value(self.child@.take(j as int));
                assert(s.drop_last() =~= self.child@.take(j as int));
                assert(s.last() == self.child@[j as int]);
                let cv = contents_value(s);
                assert(cv == prev.push(content_value(&self.child@[j as int])));
                assert(cv.drop_last() =~= prev);
                assert(nodes_text(cv) == nodes_text(prev) + node_text(
                    content_value(&self.child@[j as int]),
                ));
                assert(html@ =~= head + nodes_text(cv));
            }
            j += 1;
        }
        assert(self.child@.take(j as int) =~= self.child@);
        push_char(&mut html, '<');
        push_char(&mut html, '/');
        html.append(self.tag.as_str());
        push_char(&mut html, '>');
        assert(html@ =~= element_text(self@));
        html
    }
}

/// An element with the given tag, children and attributes.
pub open spec fn elem(
    tag: Seq<char>,
    children: Seq<Node>,
    attrs: Seq<(Seq<char>, Seq<char>)>,
) -> Element {
    Element { tag, children, attrs }
}

/// An element with an empty tag, no children and no attributes.
pub open spec fn blank() -> Element {
    elem(seq![], seq![], seq![])
}

/// The element of one span, without the spans that follow it.
pub open spec fn kind_element(k: SpanKind) -> Element {
    match k {
        SpanKind::Root => blank(),
        SpanKind::Decoration { text, is_strong, is_italic } => elem(
            if is_strong || is_italic {
                "span"@
            } else {
                seq![]
            },
            seq![Node::Text(text)],
            if is_italic {
                seq![("class"@, "italic"@)]
            } else if is_strong {
                seq![("class"@, "bold"@)]
            } else {
                seq![]
            },
        ),
        SpanKind::Image { alt, src } => elem(
            seq![],
            seq![Node::Element(elem("img"@, seq![], seq![("src"@, src), ("alt"@, alt)]))],
            seq![],
        ),
        SpanKind::Link { text, href } => elem(
            seq![],
            seq![Node::Element(elem("a"@, seq![Node::Text(text)], seq![("href"@, href)]))],
            seq![],
        ),
        SpanKind::InlineCode(t) => elem(
            seq![],
            seq![Node::Element(elem("code"@, seq![Node::Text(t)], seq![]))],
            seq![],
        ),
        SpanKind::StrikeThrough(t) => elem(
            seq![],
            seq![
                Node::Element(
                    elem("span"@, seq![Node::Text(t)], seq![("class"@, "strike-through"@)]),
                ),
            ],
            seq![],
        ),
        SpanKind::Highlight(t) => elem(
            seq![],
            seq![
                Node::Element(
                    elem("span"@, seq![Node::Text(t)], seq![("style"@, "color:#FF6542"@)]),
                ),
            ],
            seq![],
        ),
        SpanKind::FootnoteReference { .. } => blank(),
        SpanKind::InlineHTML(t) => elem(
            seq![],
            seq![Node::Element(elem("span"@, seq![Node::Text(t)], seq![]))],
            seq![],
        ),
        SpanKind::PlainText(t) => elem(
            seq![],
            seq![Node::Element(elem("p"@, seq![Node::Text(t)], seq![("class"@, "main-txt"@)]))],
            seq![],
        ),
    }
}

/// The element of a chain of spans: the element of its first span, with the
/// element of the rest of the chain as a last child.
pub open spec fn span_element(c: Seq<SpanKind>) -> Element
    decreases c.len(),
{
    if c.len() == 0 {
        blank()
    } else if c.len() == 1 {
        kind_element(c[0])
    } else {
        let e = kind_element(c[0]);
        elem(e.tag, e.children.push(Node::Element(span_element(c.drop_first()))), e.attrs)
    }
}

/// Whether a chain holds a footnote reference, which has no rendering.
pub open spec fn has_footnote_ref(c: Seq<SpanKind>) -> bool {
    exists|i: int| 0 <= i < c.len() && c[i] is FootnoteReference
}

/// Removing a key from no attributes, or from one, by the definition.
pub proof fn lemma_without_key_short(a: Seq<char>, b: Seq<char>, key: Seq<char>)
    ensures
        without_key(seq![], key) == Seq::<(Seq<char>, Seq<char>)>::empty(),
        without_key(seq![(a, b)], key) == if a == key {
            Seq::<(Seq<char>, Seq<char>)>::empty()
        } else {
            seq![(a, b)]
        },
{
    let one = seq![(a, b)];
    assert(one.drop_last() =~= Seq::<(Seq<char>, Seq<char>)>::empty());
    assert(without_key(seq![], key) =~= Seq::<(Seq<char>, Seq<char>)>::empty());
    if a != key {
        assert(Seq::<(Seq<char>, Seq<char>)>::empty().push((a, b)) =~= one);
    }
}

/// Renders a chain of spans.
pub fn render_span(spanfield: SpanField) -> (res: Html)
    requires
        !has_footnote_ref(spanfield@),
    ensures
        res@ == span_element(spanfield@),
    decreases spanfield@.len(),
{
    proof {
        reveal_strlit("src");
        reveal_strlit("alt");
        crate::span::lemma_chain_nonempty(&spanfield);
        assert(spanfield@[0] == spanfield.span_type@);
    }
    let mut html = Html::new();
    proof {
        lemma_without_key_short(seq![], seq![], seq![]);
    }
    match spanfield.span_type {
        SpanType::Root => {},
        SpanType::Decoration { text, is_strong, is_italic } => {
            if is_strong {
                html.tag = String::from_str("span");
                html.set_attr(String::from_str("class"), String::from_str("bold"));
            }
            proof {
                lemma_without_key_short("class"@, "bold"@, "class"@);
            }
            if is_italic {
                html.tag = String::from_str("span");
                html.set_attr(String::from_str("class"), String::from_str("italic"));
            }
            html.append_child(HtmlContent::Text(text));
        },
        SpanType::Image { alt, src } => {
            let mut img = Html::new();
            img.tag = String::from_str("img");
            img.set_attr(String::from_str("src"), src);
            proof {
                lemma_without_key_short("src"@, src@, "alt"@);
                assert("src"@[0] != "alt"@[0]);
            }
            img.set_attr(String::from_str("alt"), alt);
            assert(img@.attrs =~~= seq![("src"@, src@), ("alt"@, alt@)]);
            assert(img@ =~~= elem("img"@, seq![], seq![("src"@, src@), ("alt"@, alt@)]));
            html.append_child(HtmlContent::Html(img));
        },
        SpanType::Link { text, href } => {
            let mut link = Html::new();
            link.tag = String::from_str("a");
            link.set_attr(String::from_str("href"), href);
            link.append_child(HtmlContent::Text(text));
            html.append_child(HtmlContent::Html(link));
        },
        SpanType::InlineCode(ctx) => {
            let mut code = Html::new();
            code.tag = String::from_str("code");
            code.append_child(HtmlContent::Text(ctx));
            html.append_child(HtmlContent::Html(code));
        },
        SpanType::StrikeThrough(ctx) => {
            let mut strike = Html::new();
            strike.tag = String::from_str("span");
            strike.set_attr(String::from_str("class"), String::from_str("strike-through"));
            strike.append_child(HtmlContent::Text(ctx));
            html.append_child(HtmlContent::Html(strike));
        },
        SpanType::Highlight(ctx) => {
            let mut highlight = Html::new();
            highlight.tag = String::from_str("span");
            highlight.set_attr(String::from_str("style"), String::from_str("color:#FF6542"));
            highlight.append_child(HtmlContent::Text(ctx));
            html.append_child(HtmlContent::Html(highlight));
        },
        SpanType::FootnoteReference { id } => {
            assert(false);
        },
        SpanType::InlineHTML(ctx) => {
            let mut inline_html = Html::new();
            inline_html.tag = String::from_str("span");
            inline_html.append_child(HtmlContent::Text(ctx));
            html.append_child(HtmlContent::Html(inline_html));
        },
        SpanType::PlainText(text) => {
            let mut plain_text = Html::new();
            plain_text.tag = String::from_str("p");
            plain_text.set_attr(String::from_str("class"), String::from_str("main-txt"));
            plain_text.append_child(HtmlContent::Text(text));
            html.append_child(HtmlContent::Html(plain_text));
        },
    }
    assert(html@ =~~= kind_element(spanfield@[0]));
    if let Some(child) = spanfield.child {
        proof {
            assert(spanfield@ == seq![spanfield.span_type@] + child@);
            assert(spanfield@.drop_first() =~= child@);
            assert forall|i: int| 0 <= i < child@.len() implies !(child@[i] is FootnoteReference) by {
                assert(child@[i] == spanfield@[i + 1]);
            }
            crate::span::lemma_chain_nonempty(&*child);
        }
        let child_html = render_span(*child);
        html.append_child(HtmlContent::Html(child_html));
    }
    html
}

/// `n` copies of `c`.
pub open spec fn repeat_char(c: char, n: nat) -> Seq<char> {
    Seq::new(n, |i: int| c)
}

/// The element of a list item or quote, holding the element of its span.
pub open spec fn wrap_span(tag: Seq<char>, span: Seq<SpanKind>, attrs: Seq<(Seq<char>, Seq<char>)>) -> Node {
    Node::Element(elem(tag, seq![Node::Element(span_element(span))], attrs))
}

/// The element of a code block: a copy button, a title with the language
/// (and the file name, when there is one), and the code.
pub open spec fn code_block_element(lang: Seq<char>, filename: Option<Seq<char>>, code: Seq<char>) -> Element {
    elem(
        "div"@,
        seq![
            Node::Element(
                elem("button"@, seq![Node::Text("copy"@)], seq![("class"@, "code-copy_button"@)]),
            ),
            Node::Element(
                elem(
                    "div"@,
                    match filename {
                        Some(f) => seq![Node::Text(lang), Node::Text(f)],
                        None => seq![Node::Text(lang)],
                    },
                    seq![("class"@, "code-title"@)],
                ),
            ),
            Node::Element(elem("pre"@, seq![Node::Text(code)], seq![("class"@, "pt-2"@)])),
        ],
        seq![("class"@, "code-bg"@)],
    )
}

/// What one block contributes to the rendered document: one child, or none
/// for footnote definitions, tables and empty blocks.
pub open spec fn block_nodes(b: Block) -> Seq<Node> {
    match b {
        Block::Span(c) => seq![Node::Element(span_element(c))],
        Block::Heading { depth, text } => seq![
            Node::Element(
                elem(
                    "h2"@,
                    seq![Node::Text(repeat_char('#', depth as nat) + text)],
                    seq![("class"@, "text-2xl border-spacing-2"@)],
                ),
            ),
        ],
        Block::OrderedList { span, .. } => seq![wrap_span("ol"@, span, seq![])],
        Block::UnorderedList { span, .. } => seq![wrap_span("ul"@, span, seq![])],
        Block::TaskList { span, .. } => seq![wrap_span("ul"@, span, seq![])],
        Block::BlockQuote(span) => seq![wrap_span("div"@, span, seq![("class"@, "block-quote"@)])],
        Block::BlockCode { lang, filename, code } => seq![
            Node::Element(code_block_element(lang, filename, code)),
        ],
        Block::LineBreak => seq![Node::Text("<br/>"@)],
        _ => seq![],
    }
}

/// The children that a sequence of blocks renders to, in order.
pub open spec fn blocks_nodes(bs: Seq<Block>) -> Seq<Node>
    decreases bs.len(),
{
    if bs.len() == 0 {
        seq![]
    } else {
        blocks_nodes(bs.drop_last()) + block_nodes(bs.last())
    }
}

/// A block can be rendered: no span of it that is rendered holds a footnote reference.
pub open spec fn renderable(b: Block) -> bool {
    match b {
        Block::Span(c) => !has_footnote_ref(c),
        Block::OrderedList { span, .. } => !has_footnote_ref(span),
        Block::UnorderedList { span, .. } => !has_footnote_ref(span),
        Block::TaskList { span, .. } => !has_footnote_ref(span),
        Block::BlockQuote(span) => !has_footnote_ref(span),
        _ => true,
    }
}

/// A string of `n` copies of `#` followed by `text`.
fn heading_text(depth: u8, text: &String) -> (res: String)
    ensures
        res@ == repeat_char('#', depth as nat) + text@,
{
    let mut res = String::new();
    let mut i: u8 = 0;
    while i < depth
        invariant
            i <= depth,
            res@ == repeat_char('#', i as nat),
        decreases depth - i,
    {
        push_char(&mut res, '#');
        i += 1;
        assert(res@ =~= repeat_char('#', i as nat));
    }
    res.append(text.as_str());
    res
}

/// An element holding the rendering of `span`.
fn span_wrapper(tag: &str, span: SpanField) -> (res: Html)
    requires
        !has_footnote_ref(span@),
    ensures
        Node::Element(res@) == wrap_span(tag@, span@, seq![]),
{
    let mut h = Html::new();
    h.tag = String::from_str(tag);
    h.append_child(HtmlContent::Html(render_span(span)));
    assert(h@ =~~= elem(tag@, seq![Node::Element(span_element(span@))], seq![]));
    h
}

/// Renders one block and appends what it renders to, if anything, to `html`.
fn render_block(ast: BlockElm, html: &mut Html)
    requires
        renderable(ast@),
    ensures
        final(html)@.tag == old(html)@.tag,
        final(html)@.attrs == old(html)@.attrs,
        final(html)@.children == old(html)@.children + block_nodes(ast@),
{
    let ghost b = ast@;
    let ghost before = html@.children;
    proof {
        lemma_without_key_short(seq![], seq![], seq![]);
    }
    match ast {
        BlockElm::Span(span_field) => {
            let span_html = render_span(span_field);
            html.append_child(HtmlContent::Html(span_html));
        },
        BlockElm::Heading { depth, text } => {
            let mut heading = Html::new();
            heading.tag = String::from_str("h2");
            heading.append_child(HtmlContent::Text(heading_text(depth, &text)));
            heading.set_attr(
                String::from_str("class"),
                String::from_str("text-2xl border-spacing-2"),
            );
            html.append_child(HtmlContent::Html(heading));
        },
        BlockElm::OrderedList { indent_depth, span } => {
            html.append_child(HtmlContent::Html(span_wrapper("ol", *span)));
        },
        BlockElm::UnorderedList { indent_depth, span } => {
            html.append_child(HtmlContent::Html(span_wrapper("ul", *span)));
        },
        BlockElm::TaskList { indent_depth, checked, span } => {
            html.append_child(HtmlContent::Html(span_wrapper("ul", *span)));
        },
        BlockElm::BlockQuote(span) => {
            let mut block_quote = Html::new();
            block_quote.tag = String::from_str("div");
            block_quote.set_attr(String::from_str("class"), String::from_str("block-quote"));
            block_quote.append_child(HtmlContent::Html(render_span(*span)));
            html.append_child(HtmlContent::Html(block_quote));
        },
        BlockElm::BlockCode { lang, filename, code } => {
            let ghost lang_v = lang@;
            let ghost code_v = code@;
            let ghost file_v = match &filename {
                Some(f) => Some(f@),
                None => None,
            };
            let mut code_bg = Html::new();
            code_bg.tag = String::from_str("div");
            code_bg.set_attr(String::from_str("class"), String::from_str("code-bg"));
            let mut copy_button = Html::new();
            copy_button.tag = String::from_str("button");
            copy_button.set_attr(String::from_str("class"), String::from_str("code-copy_button"));
            copy_button.append_child(HtmlContent::Text(String::from_str("copy")));
            assert(copy_button@ =~~= elem(
                "button"@,
                seq![Node::Text("copy"@)],
                seq![("class"@, "code-copy_button"@)],
            ));
            let ghost cb = copy_button@;
            code_bg.append_child(HtmlContent::Html(copy_button));
            assert(code_bg@.children =~= seq![Node::Element(cb)]);

            let mut code_title = Html::new();
            code_title.tag = String::from_str("div");
            code_title.set_attr(String::from_str("class"), String::from_str("code-title"));
            code_title.append_child(HtmlContent::Text(lang));
            match filename {
                Some(filename) => {
                    assert(file_v == Some(filename@));
                    code_title.append_child(HtmlContent::Text(filename));
                    assert(code_title@.children =~~= seq![Node::Text(lang_v), Node::Text(filename@)]);
                },
                None => {
                    assert(code_title@.children =~~= seq![Node::Text(lang_v)]);
                },
            }
            assert(code_title@ =~~= elem(
                "div"@,
                match file_v {
                    Some(f) => seq![Node::Text(lang_v), Node::Text(f)],
                    None => seq![Node::Text(lang_v)],
                },
                seq![("class"@, "code-title"@)],
            ));
            let ghost ct = code_title@;
            code_bg.append_child(HtmlContent::Html(code_title));
            assert(code_bg@.children =~= seq![Node::Element(cb), Node::Element(ct)]);

            let mut code_ctx = Html::new();
            code_ctx.tag = String::from_str("pre");
            code_ctx.set_attr(String::from_str("class"), String::from_str("pt-2"));
            code_ctx.append_child(HtmlContent::Text(code));
            assert(code_ctx@ =~~= elem("pre"@, seq![Node::Text(code_v)], seq![("class"@, "pt-2"@)]));
            let ghost cc = code_ctx@;
            code_bg.append_child(HtmlContent::Html(code_ctx));
            assert(code_bg@.children =~= seq![
                Node::Element(cb),
                Node::Element(ct),
                Node::Element(cc),
            ]);
            let ghost cbe = code_block_element(lang_v, file_v, code_v);
            assert(cbe.children =~= seq![Node::Element(cb), Node::Element(ct), Node::Element(cc)]);
            assert(code_bg@ == cbe);
            html.append_child(HtmlContent::Html(code_bg));
        },
        BlockElm::LineBreak => {
            html.append_child(HtmlContent::Text(String::from_str("<br/>")));
        },
        _ => {},
    }
    assert(html@.children =~~= before + block_nodes(b));
}

/// Renders a document's blocks as the children of one element with an empty tag.
pub fn render(asts: Vec<BlockElm>) -> (html: Html)
    requires
        forall|i: int| 0 <= i < asts.len() ==> renderable(#[trigger] asts@[i]@),
    ensures
        html@ == elem(seq![], blocks_nodes(crate::block::blocks_value(asts@)), seq![]),
{
    let mut html = Html::new();
    let ghost all = asts@;
    for ast in it: asts
        invariant
            it.seq() == all,
            forall|i: int| 0 <= i < all.len() ==> renderable(#[trigger] all[i]@),
            html@ == elem(
                seq![],
                blocks_nodes(crate::block::blocks_value(all.take(it.index() as int))),
                seq![],
            ),
    {
        let ghost k = it.index();
        proof {
            let t = crate::block::blocks_value(all.take(k + 1));
            assert(t.drop_last() =~= crate::block::blocks_value(all.take(k as int)));
            assert(t.last() == all[k as int]@);
        }
        render_block(ast, &mut html);
    }
    assert(all.take(all.len() as int) =~= all);
    html
}

/// Every block that a document parses into can be rendered.
pub proof fn lemma_document_renderable(text: Seq<char>)
    ensures
        forall|i: int|
            0 <= i < crate::block::document_blocks(text).len() ==> renderable(
                #[trigger] crate::block::document_blocks(text)[i],
            ),
{
    lemma_lines_renderable(crate::text::lines_of(text));
}

/// Every block of a sequence of lines can be rendered.
proof fn lemma_lines_renderable(ls: Seq<Seq<char>>)
    ensures
        forall|i: int|
            0 <= i < crate::block::lines_blocks(ls).len() ==> renderable(
                #[trigger] crate::block::lines_blocks(ls)[i],
            ),
    decreases ls.len(),
{
    if ls.len() > 0 {
        lemma_lines_renderable(ls.drop_last());
        let line = ls.last();
        crate::span::lemma_span_chain_no_footnote(line);
        crate::span::lemma_span_chain_no_footnote(
            crate::text::replace_all(line, "> "@, ""@),
        );
        let a = crate::block::lines_blocks(ls.drop_last());
        let b = crate::block::line_blocks(line);
        assert forall|i: int| 0 <= i < b.len() implies renderable(#[trigger] b[i]) by {
            match b[i] {
                Block::OrderedList { span, .. } => {
                    assert(span == crate::span::span_chain(line));
                },
                Block::UnorderedList { span, .. } => {
                    assert(!(span[0] is FootnoteReference));
                },
                _ => {},
            }
        }
        assert forall|i: int| 0 <= i < (a + b).len() implies renderable(#[trigger] (a + b)[i]) by {
            if i >= a.len() {
                assert((a + b)[i] == b[i - a.len()]);
            }
        }
    }
}

/// Removing a key leaves no attribute with that key, keeps a list without
/// that key as it is, and removing it again changes nothing.
pub proof fn lemma_without_key(a: Seq<(Seq<char>, Seq<char>)>, key: Seq<char>)
    ensures
        forall|i: int|
            0 <= i < without_key(a, key).len() ==> (#[trigger] without_key(a, key)[i]).0 != key,
        (forall|i: int| 0 <= i < a.len() ==> (#[trigger] a[i]).0 != key) ==> without_key(a, key)
            == a,
        without_key(without_key(a, key), key) == without_key(a, key),
        without_key(a, key).len() <= a.len(),
    decreases a.len(),
{
    if a.len() > 0 {
        lemma_without_key(a.drop_last(), key);
        let w = without_key(a.drop_last(), key);
        if a.last().0 != key {
            assert(w.push(a.last()).drop_last() =~= w);
            if forall|i: int| 0 <= i < a.len() ==> (#[trigger] a[i]).0 != key {
                assert forall|i: int| 0 <= i < a.drop_last().len() implies (
                #[trigger] a.drop_last()[i]).0 != key by {
                    assert(a.drop_last()[i] == a[i]);
                }
                assert(a.drop_last().push(a.last()) =~= a);
            }
        } else {
            if forall|i: int| 0 <= i < a.len() ==> (#[trigger] a[i]).0 != key {
                assert(a[a.len() - 1].0 != key);
            }
        }
    }
}

/// After `set_attr(key, value)` the last attribute is `key` with `value`, and
/// no other attribute has that key.
pub proof fn lemma_set_attr_unique(a: Seq<(Seq<char>, Seq<char>)>, key: Seq<char>, value: Seq<char>)
    ensures
        ({
            let r = without_key(a, key).push((key, value));
            &&& r.last() == (key, value)
            &&& forall|i: int| 0 <= i < r.len() - 1 ==> (#[trigger] r[i]).0 != key
        }),
{
    lemma_without_key(a, key);
    let w = without_key(a, key);
    assert forall|i: int| 0 <= i < w.push((key, value)).len() - 1 implies (#[trigger] w.push(
        (key, value),
    )[i]).0 != key by {
        assert(w.push((key, value))[i] == w[i]);
    }
}

/// Setting the same key twice leaves what setting it once to the second
/// value leaves: the last value set wins.
pub proof fn lemma_set_attr_last_wins(
    a: Seq<(Seq<char>, Seq<char>)>,
    key: Seq<char>,
    v1: Seq<char>,
    v2: Seq<char>,
)
    ensures
        without_key(without_key(a, key).push((key, v1)), key).push((key, v2)) == without_key(
            a,
            key,
        ).push((key, v2)),
{
    lemma_without_key(a, key);
    let w = without_key(a, key);
    assert(w.push((key, v1)).drop_last() =~= w);
}

/// `add_attr` keeps every key in place and changes only the values of the
/// given key; on a key that is absent it changes nothing.
pub proof fn lemma_add_attr_keys(a: Seq<(Seq<char>, Seq<char>)>, key: Seq<char>, value: Seq<char>)
    ensures
        extend_value(a, key, value).len() == a.len(),
        forall|i: int|
            0 <= i < a.len() ==> (#[trigger] extend_value(a, key, value)[i]).0 == a[i].0,
        forall|i: int|
            0 <= i < a.len() && a[i].0 != key ==> #[trigger] extend_value(a, key, value)[i]
                == a[i],
        (forall|i: int| 0 <= i < a.len() ==> (#[trigger] a[i]).0 != key) ==> extend_value(
            a,
            key,
            value,
        ) == a,
{
    if forall|i: int| 0 <= i < a.len() ==> (#[trigger] a[i]).0 != key {
        assert(extend_value(a, key, value) =~= a);
    }
}

/// The opening tag of an element, with its attributes.
pub open spec fn open_tag(e: Element) -> Seq<char> {
    seq!['<'] + e.tag + attrs_text(e.attrs) + seq!['>']
}

/// The closing tag of an element.
pub open spec fn close_tag(tag: Seq<char>) -> Seq<char> {
    seq!['<', '/'] + tag + seq!['>']
}

/// Appending a child to an element adds the child's text just before the
/// closing tag, and leaves the rest of the element's text as it was.
pub proof fn lemma_append_child_text(e: Element, n: Node)
    ensures
        element_text(e) == open_tag(e) + nodes_text(e.children) + close_tag(e.tag),
        element_text(elem(e.tag, e.children.push(n), e.attrs)) == open_tag(e) + nodes_text(
            e.children,
        ) + node_text(n) + close_tag(e.tag),
{
    let cs = e.children.push(n);
    assert(cs.drop_last() =~= e.children);
    assert(element_text(e) =~= open_tag(e) + nodes_text(e.children) + close_tag(e.tag));
    assert(element_text(elem(e.tag, cs, e.attrs)) =~= open_tag(e) + nodes_text(e.children)
        + node_text(n) + close_tag(e.tag));
}

/// Whether no span of the chain is a footnote reference.
pub fn span_renderable(span: &SpanField) -> (b: bool)
    ensures
        b == !has_footnote_ref(span@),
    decreases span@.len(),
{
    proof {
        crate::span::lemma_chain_nonempty(span);
    }
    if matches!(span.span_type, SpanType::FootnoteReference { .. }) {
        assert(span@[0] is FootnoteReference);
        return false;
    }
    match &span.child {
        Some(c) => {
            proof {
                crate::span::lemma_chain_nonempty(&**c);
            }
            let b = span_renderable(&**c);
            proof {
                assert(span@ == seq![span.span_type@] + c@);
                if has_footnote_ref(c@) {
                    let i = choose|i: int| 0 <= i < c@.len() && c@[i] is FootnoteReference;
                    assert(span@[i + 1] == c@[i]);
                }
                if has_footnote_ref(span@) {
                    let i = choose|i: int| 0 <= i < span@.len() && span@[i] is FootnoteReference;
                    assert(i > 0);
                    assert(span@[i] == c@[i - 1]);
                }
            }
            b
        },
        None => {
            assert(span@ == seq![span.span_type@]);
            true
        },
    }
}

/// Whether a block can be rendered.
pub fn block_renderable(block: &BlockElm) -> (b: bool)
    ensures
        b == renderable(block@),
{
    match block {
        BlockElm::Span(s) => span_renderable(s),
        BlockElm::OrderedList { span, .. } => span_renderable(span),
        BlockElm::UnorderedList { span, .. } => span_renderable(span),
        BlockElm::TaskList { span, .. } => span_renderable(span),
        BlockElm::BlockQuote(span) => span_renderable(span),
        _ => true,
    }
}

/// Whether every block of a list can be rendered.
pub fn blocks_renderable(blocks: &Vec<BlockElm>) -> (b: bool)
    ensures
        b == forall|i: int| 0 <= i < blocks.len() ==> renderable(#[trigger] blocks@[i]@),
{
    let mut i: usize = 0;
    while i < blocks.len()
        invariant
            i <= blocks.len(),
            forall|k: int| 0 <= k < i ==> renderable(#[trigger] blocks@[k]@),
        decreases blocks.len() - i,
    {
        if !block_renderable(&blocks[i]) {
            return false;
        }
        i += 1;
    }
    true
}

/// The text of each child occurs in the texts of the children.
pub proof fn lemma_child_text_occurs(ns: Seq<Node>, k: int)
    requires
        0 <= k < ns.len(),
    ensures
        occurs_in(node_text(ns[k]), nodes_text(ns)),
    decreases ns.len(),
{
    if k == ns.len() - 1 {
        lemma_occurs_middle(nodes_text(ns.drop_last()), node_text(ns[k]), seq![]);
        assert(nodes_text(ns.drop_last()) + node_text(ns[k]) + seq![] =~= nodes_text(ns));
    } else {
        lemma_child_text_occurs(ns.drop_last(), k);
        assert(ns.drop_last()[k] == ns[k]);
        lemma_occurs_middle(seq![], nodes_text(ns.drop_last()), node_text(ns.last()));
        assert(seq![] + nodes_text(ns.drop_last()) + node_text(ns.last()) =~= nodes_text(ns));
        lemma_occurs_trans(node_text(ns[k]), nodes_text(ns.drop_last()), nodes_text(ns));
    }
}

/// The text of each child of an element occurs in the element's text.
pub proof fn lemma_child_occurs(e: Element, k: int)
    requires
        0 <= k < e.children.len(),
    ensures
        occurs_in(node_text(e.children[k]), element_text(e)),
{
    lemma_child_text_occurs(e.children, k);
    lemma_occurs_middle(open_tag(e), nodes_text(e.children), close_tag(e.tag));
    assert(element_text(e) =~= open_tag(e) + nodes_text(e.children) + close_tag(e.tag));
    lemma_occurs_trans(node_text(e.children[k]), nodes_text(e.children), element_text(e));
}

/// An ordered-list block renders to one `<ol>` element holding the rendering
/// of its span, and an unordered-list block to one `<ul>` element; the two
/// tags differ.
pub proof fn lemma_list_tags(span: Seq<SpanKind>, depth: u8)
    ensures
        block_nodes(Block::OrderedList { indent_depth: depth, span }) == seq![
            Node::Element(elem("ol"@, seq![Node::Element(span_element(span))], seq![])),
        ],
        block_nodes(Block::UnorderedList { indent_depth: depth, span }) == seq![
            Node::Element(elem("ul"@, seq![Node::Element(span_element(span))], seq![])),
        ],
        element_text(elem("ol"@, seq![Node::Element(span_element(span))], seq![])).take(4)
            == seq!['<', 'o', 'l', '>'],
        "ol"@ != "ul"@,
{
    reveal_strlit("ol");
    reveal_strlit("ul");
    assert("ol"@[0] != "ul"@[0]);
    let e = elem("ol"@, seq![Node::Element(span_element(span))], seq![]);
    assert(attrs_text(e.attrs) =~= Seq::<char>::empty());
    assert(element_text(e).take(4) =~= seq!['<', 'o', 'l', '>']);
}

/// Rendering a chain renders every span of it: the text of the rendering of
/// each tail of the chain occurs in the text of the rendering of the whole
/// chain, and so does the text of every plain-text span.
pub proof fn lemma_span_element_covers(c: Seq<SpanKind>, i: int)
    requires
        0 <= i < c.len(),
    ensures
        occurs_in(element_text(span_element(c.skip(i))), element_text(span_element(c))),
        c[i] matches SpanKind::PlainText(t) ==> occurs_in(t, element_text(span_element(c))),
    decreases c.len(),
{
    if i == 0 {
        assert(c.skip(0) =~= c);
        lemma_occurs_middle(seq![], element_text(span_element(c)), seq![]);
        assert(seq![] + element_text(span_element(c)) + seq![] =~= element_text(span_element(c)));
        if let SpanKind::PlainText(t) = c[0] {
            let k = kind_element(c[0]);
            let p = elem("p"@, seq![Node::Text(t)], seq![("class"@, "main-txt"@)]);
            lemma_child_occurs(p, 0);
            let e = span_element(c);
            assert(e.children[0] == Node::Element(p));
            lemma_child_occurs(e, 0);
            lemma_occurs_trans(t, element_text(p), element_text(e));
        }
    } else {
        let rest = c.drop_first();
        lemma_span_element_covers(rest, i - 1);
        assert(rest.skip(i - 1) =~= c.skip(i));
        assert(rest[i - 1] == c[i]);
        let e = span_element(c);
        let n = kind_element(c[0]).children.len();
        assert(e.children[n as int] == Node::Element(span_element(rest)));
        lemma_child_occurs(e, n as int);
        lemma_occurs_trans(
            element_text(span_element(c.skip(i))),
            element_text(span_element(rest)),
            element_text(e),
        );
        if let SpanKind::PlainText(t) = c[i] {
            lemma_occurs_trans(t, element_text(span_element(rest)), element_text(e));
        }
    }
}

} // verus!
