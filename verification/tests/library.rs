use mdblog::block::BlockElm;
use mdblog::blog::Blog;
use mdblog::date::Date;
use mdblog::parser::{is_image, is_link, strip_image, strip_link};
use mdblog::render::{blocks_renderable, render, render_span, Html, HtmlContent};
use mdblog::span::{SpanField, SpanType};
use mdblog::text::{lines, replace, split, trim_str};

fn s(x: &str) -> String {
    x.to_string()
}

fn chain(kinds: Vec<SpanType>) -> SpanField {
    let mut kinds = kinds;
    let mut next: Option<Box<SpanField>> = None;
    while let Some(k) = kinds.pop() {
        next = Some(Box::new(SpanField { span_type: k, child: next }));
    }
    *next.unwrap()
}

#[test]
fn strip_image_cuts_at_first_bang() {
    let p = strip_image("pre ![alt](src) post");
    assert_eq!(p.left, "pre ");
    assert_eq!(p.right, " post");
    assert_eq!(p.span, SpanField { span_type: SpanType::Image { alt: s("alt"), src: s("src") }, child: None });
}

#[test]
fn strip_image_without_brackets_gives_empty_pieces() {
    let p = strip_image("ab!x");
    assert_eq!(p.left, "ab");
    assert_eq!(p.right, "");
    assert_eq!(p.span.span_type, SpanType::Image { alt: s(""), src: s("") });
}

#[test]
fn strip_link_cuts_at_first_bracket() {
    let p = strip_link("a [t](h) b");
    assert_eq!(p.left, "a ");
    assert_eq!(p.right, " b");
    assert_eq!(p.span.span_type, SpanType::Link { text: s("t"), href: s("h") });
}

#[test]
fn image_and_link_patterns() {
    assert!(is_image("x ![a](b) y"));
    assert!(!is_image("![a\nb](c)"));
    assert!(!is_image("[a](b)"));
    assert!(is_image("![](b)"));
    assert!(is_link("[a](b)"));
    assert!(is_link("![a](b)"));
    assert!(!is_link("[a](b"));
    assert!(!is_link("[a]\n(b)"));
}

#[test]
fn span_from_empty_and_plain() {
    assert_eq!(SpanField::from(s("")), SpanField { span_type: SpanType::Root, child: None });
    assert_eq!(SpanField::from(s("hello")), chain(vec![SpanType::Root, SpanType::PlainText(s("hello"))]));
}

#[test]
fn span_from_has_one_root() {
    let span = SpanField::from(s("a [l](h) b ![i](s) c"));
    assert_eq!(
        span,
        chain(vec![
            SpanType::Root,
            SpanType::PlainText(s("a ")),
            SpanType::Link { text: s("l"), href: s("h") },
            SpanType::PlainText(s(" b ")),
            SpanType::Image { alt: s("i"), src: s("s") },
            SpanType::PlainText(s(" c")),
        ])
    );
    let mut roots = 0;
    let mut cur = Some(&span);
    while let Some(c) = cur {
        if c.span_type == SpanType::Root {
            roots += 1;
        }
        cur = c.child.as_deref();
    }
    assert_eq!(roots, 1);
}

#[test]
fn append_child_drops_leading_root_and_returns_copy() {
    let mut span = chain(vec![SpanType::PlainText(s("a"))]);
    let other = chain(vec![SpanType::Root, SpanType::PlainText(s("b")), SpanType::InlineCode(s("c"))]);
    let copy = span.append_child(other);
    let expected = chain(vec![
        SpanType::PlainText(s("a")),
        SpanType::PlainText(s("b")),
        SpanType::InlineCode(s("c")),
    ]);
    assert_eq!(span, expected);
    assert_eq!(copy, expected);
    let lone_root = SpanField { span_type: SpanType::Root, child: None };
    span.append_child(lone_root);
    assert_eq!(span, expected);
}

#[test]
fn set_attr_replaces_and_moves_to_end() {
    let mut h = Html::new();
    h.tag = s("div");
    h.set_attr(s("class"), s("a"));
    h.set_attr(s("id"), s("x"));
    h.set_attr(s("class"), s("b"));
    assert_eq!(h.attrs, vec![(s("id"), s("x")), (s("class"), s("b"))]);
    assert_eq!(h.render(), "<div id=\"x\" class=\"b\"></div>");
}

#[test]
fn set_attr_last_value_wins() {
    let mut one = Html::new();
    one.set_attr(s("k"), s("v2"));
    let mut two = Html::new();
    two.set_attr(s("k"), s("v1"));
    two.set_attr(s("k"), s("v2"));
    assert_eq!(one.attrs, two.attrs);
}

#[test]
fn add_attr_extends_matching_values() {
    let mut h = Html::new();
    h.set_attr(s("class"), s("a"));
    h.set_attr(s("id"), s("x"));
    h.add_attr(s("class"), s("b"));
    assert_eq!(h.attrs, vec![(s("class"), s("a b")), (s("id"), s("x"))]);
    h.add_attr(s("style"), s("c"));
    assert_eq!(h.attrs, vec![(s("class"), s("a b")), (s("id"), s("x"))]);
}

#[test]
fn render_nested_tree() {
    let mut inner = Html::new();
    inner.tag = s("b");
    inner.append_child(HtmlContent::Text(s("x")));
    let mut outer = Html::new();
    outer.tag = s("p");
    outer.append_child(HtmlContent::Text(s("a")));
    outer.append_child(HtmlContent::Html(inner));
    outer.append_child(HtmlContent::Empty);
    assert_eq!(outer.render(), "<p>a<b>x</b></p>");
    assert_eq!(Html::new().render(), "<></>");
}

#[test]
fn render_span_kinds() {
    let one = |k: SpanType| render_span(SpanField { span_type: k, child: None }).render();
    assert_eq!(one(SpanType::Root), "<></>");
    assert_eq!(one(SpanType::PlainText(s("hi"))), "<><p class=\"main-txt\">hi</p></>");
    assert_eq!(
        one(SpanType::Decoration { text: s("t"), is_strong: true, is_italic: true }),
        "<span class=\"italic\">t</span>"
    );
    assert_eq!(
        one(SpanType::Decoration { text: s("t"), is_strong: true, is_italic: false }),
        "<span class=\"bold\">t</span>"
    );
    assert_eq!(one(SpanType::Decoration { text: s("t"), is_strong: false, is_italic: false }), "<>t</>");
    assert_eq!(one(SpanType::Image { alt: s("a"), src: s("s") }), "<><img src=\"s\" alt=\"a\"></img></>");
    assert_eq!(one(SpanType::Link { text: s("t"), href: s("h") }), "<><a href=\"h\">t</a></>");
    assert_eq!(one(SpanType::InlineCode(s("c"))), "<><code>c</code></>");
    assert_eq!(one(SpanType::StrikeThrough(s("c"))), "<><span class=\"strike-through\">c</span></>");
    assert_eq!(one(SpanType::Highlight(s("c"))), "<><span style=\"color:#FF6542\">c</span></>");
    assert_eq!(one(SpanType::InlineHTML(s("c"))), "<><span>c</span></>");
    let two = render_span(chain(vec![SpanType::Root, SpanType::PlainText(s("x"))]));
    assert_eq!(two.render(), "<><><p class=\"main-txt\">x</p></></>");
}

#[test]
fn block_from_lists_and_quotes() {
    let blocks = BlockElm::from(s("1. item\n* bullet\n> a > b\nplain\n٣. arabic"));
    assert_eq!(
        blocks,
        vec![
            BlockElm::OrderedList {
                indent_depth: 0,
                span: Box::new(chain(vec![SpanType::Root, SpanType::PlainText(s("1. item"))])),
            },
            BlockElm::UnorderedList {
                indent_depth: 0,
                span: Box::new(SpanField { span_type: SpanType::PlainText(s("* bullet")), child: None }),
            },
            BlockElm::BlockQuote(Box::new(chain(vec![SpanType::Root, SpanType::PlainText(s("a b"))]))),
            BlockElm::OrderedList {
                indent_depth: 0,
                span: Box::new(chain(vec![SpanType::Root, SpanType::PlainText(s("٣. arabic"))])),
            },
        ]
    );
}

#[test]
fn heading_depth_wraps_at_256() {
    let line = format!("{}x", "#".repeat(300));
    let blocks = BlockElm::from(line);
    assert_eq!(blocks, vec![BlockElm::Heading { depth: 44, text: s("x") }]);
}

#[test]
fn render_blocks_of_each_kind() {
    let blocks = vec![
        BlockElm::BlockCode { lang: s("rs"), filename: Some(s("a.rs")), code: s("fn f() {}") },
        BlockElm::LineBreak,
        BlockElm::Nothing,
        BlockElm::Table { header: vec![s("h")], rows: vec![] },
        BlockElm::FootnoteDefinition { id: s("1"), span: Box::new(SpanField { span_type: SpanType::Root, child: None }) },
        BlockElm::BlockQuote(Box::new(SpanField { span_type: SpanType::PlainText(s("q")), child: None })),
        BlockElm::TaskList {
            indent_depth: 0,
            checked: true,
            span: Box::new(SpanField { span_type: SpanType::PlainText(s("t")), child: None }),
        },
    ];
    assert!(blocks_renderable(&blocks));
    let html = render(blocks);
    assert_eq!(
        html.render(),
        "<><div class=\"code-bg\"><button class=\"code-copy_button\">copy</button><div class=\"code-title\">rsa.rs</div><pre class=\"pt-2\">fn f() {}</pre></div><br/><div class=\"block-quote\"><><p class=\"main-txt\">q</p></></div><ul><><p class=\"main-txt\">t</p></></ul></>"
    );
}

#[test]
fn footnote_reference_is_not_renderable() {
    let blocks = vec![BlockElm::Span(SpanField {
        span_type: SpanType::Root,
        child: Some(Box::new(SpanField { span_type: SpanType::FootnoteReference { id: s("1") }, child: None })),
    })];
    assert!(!blocks_renderable(&blocks));
}

#[test]
fn text_helpers_follow_std() {
    let ls: Vec<String> = lines("a\r\nb\n\nc");
    assert_eq!(ls, vec![s("a"), s("b"), s(""), s("c")]);
    assert_eq!(lines("x\r"), vec![s("x\r")]);
    assert_eq!(lines("x\n"), vec![s("x")]);
    assert!(lines("").is_empty());
    assert_eq!(trim_str("\u{a0} a b \t"), "a b");
    assert_eq!(split("a:b:c", ':'), vec![s("a"), s("b"), s("c")]);
    assert_eq!(split("", ':'), vec![s("")]);
    assert_eq!(replace("aaa", "aa", "b"), "ba");
    assert_eq!(replace("<><p></p></>", "<>", ""), "<p></p></>");
}

#[test]
fn dates_parse_and_format() {
    let d = Date::parse("\"1999-12-31\"", "\"%Y-%m-%d\"").unwrap();
    assert_eq!((d.year(), d.month(), d.day()), (1999, 12, 31));
    assert_eq!(d.iso_text(), "1999-12-31");
    let small = Date::parse("0099-1-2", "%Y-%m-%d").unwrap();
    assert_eq!(small.iso_text(), "0099-01-02");
    assert!(Date::parse("2023-02-30", "%Y-%m-%d").is_none());
    assert!(Date::parse("x", "%Y-%m-%d").is_none());
    assert_eq!(Date::epoch().iso_text(), "1970-01-01");
}

const POST: &str = "---\ntitle: My Post\ncreated: \"2023-04-05\"\nmodified: \"2023-4-6\"\ntags: [\"rust\", \"verus\"]\nauthor: me\n---\n# Hi\n";

#[test]
fn blog_reads_front_matter() {
    let blog = Blog::try_from(POST).unwrap();
    assert_eq!(blog.title, "My Post");
    assert_eq!((blog.created.year(), blog.created.month(), blog.created.day()), (2023, 4, 5));
    assert_eq!((blog.modified.year(), blog.modified.month(), blog.modified.day()), (2023, 4, 6));
    assert_eq!(blog.tags, vec![s("rust"), s("verus")]);
    assert_eq!(blog.content, vec![BlockElm::Heading { depth: 1, text: s(" Hi") }]);
}

#[test]
fn blog_without_front_matter_keeps_defaults() {
    let blog = Blog::from("plain\n> q");
    assert_eq!(blog.title, "");
    assert_eq!(blog.created.iso_text(), "1970-01-01");
    assert!(blog.tags.is_empty());
    assert_eq!(blog.content.len(), 1);
}

#[test]
fn blog_rejects_unreadable_front_matter() {
    assert!(Blog::try_from("---\nno colon here\n---\n").is_none());
    assert!(Blog::try_from("---\ncreated: \"not a date\"\n---\n").is_none());
    assert!(Blog::try_from("---\nother: x\n---\n").is_some());
}

#[test]
fn test_blog_build() {
    let mut blog = Blog::try_from(POST).unwrap();
    let page = blog.html_text();
    assert!(page.starts_with("<head><meta charset=\"UTF-8\">"));
    assert!(page.contains("<title>My Post</title>"));
    assert!(page.contains("<div>created: 2023-04-05</div><div>modified: 2023-04-06</div>"));
    assert!(page.contains(
        "<div>tags: [<a href=\"https://blog.bido.dev/tags/rust\">'#rust'</a>,<a href=\"https://blog.bido.dev/tags/verus\">'#verus'</a>]</div>"
    ));
    assert!(page.contains("<h2 class=\"text-2xl border-spacing-2\"># Hi</h2>"));
    assert!(page.ends_with("</footer></body>"));
    assert!(!page.contains("<>"));
    let tree = blog.build();
    assert_eq!(tree.tag, "");
    assert_eq!(tree.child.len(), 2);
}
