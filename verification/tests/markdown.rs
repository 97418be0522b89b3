use mdblog::block::BlockElm;
use mdblog::render::{render, HtmlContent};
use mdblog::span::{SpanField, SpanType};

fn plain(text: &str) -> SpanType {
    SpanType::PlainText(text.to_string())
}

fn chain(kinds: Vec<SpanType>) -> SpanField {
    let mut kinds = kinds;
    let mut next: Option<Box<SpanField>> = None;
    while let Some(k) = kinds.pop() {
        next = Some(Box::new(SpanField { span_type: k, child: next }));
    }
    *next.unwrap()
}

#[test]
fn it_works() {
    let readed_file_ctx = r#"# Hello World
## 2nd
### 3rd
#### 4th
> Quote
Quote2

[Link](https://www.example .com)

**Strong**
![Image](https://www.example.com)


Plain

Plain2"#
        .to_string();

    let ast = BlockElm::from(readed_file_ctx);
    println!("{:#?}", ast);

    let expected = vec![
        BlockElm::Heading { depth: 1, text: " Hello World".to_string() },
        BlockElm::Heading { depth: 2, text: " 2nd".to_string() },
        BlockElm::Heading { depth: 3, text: " 3rd".to_string() },
        BlockElm::Heading { depth: 4, text: " 4th".to_string() },
        BlockElm::BlockQuote(Box::new(chain(vec![SpanType::Root, plain("Quote")]))),
    ];
    assert_eq!(ast, expected);
}

#[test]
fn is_work_span_field_from() {
    let text = "!Hello [aa](asdf) ![alt](https://img.example.com)[aa](bb)[aa](asdf)".to_string();
    let span = SpanField::from(text.to_string());
    println!("{:#?}", span);

    let expected = chain(vec![
        SpanType::Root,
        SpanType::Image { alt: "aa".to_string(), src: "asdf".to_string() },
        plain(" "),
        SpanType::Image { alt: "alt".to_string(), src: "https://img.example.com".to_string() },
        SpanType::Link { text: "aa".to_string(), href: "bb".to_string() },
        SpanType::Link { text: "aa".to_string(), href: "asdf".to_string() },
    ]);
    assert_eq!(span, expected);
}

#[test]
fn append_child_test() {
    let mut span = SpanField { child: None, span_type: SpanType::Root };
    let child = SpanField { child: None, span_type: SpanType::PlainText("strong".to_string()) };
    let child2 = SpanField {
        child: None,
        span_type: SpanType::Link { text: "text".to_string(), href: "href".to_string() },
    };
    span.append_child(child);
    span.append_child(child2);

    let result = SpanField {
        span_type: SpanType::Root,
        child: Some(Box::new(SpanField {
            span_type: SpanType::PlainText("strong".to_string()),
            child: Some(Box::new(SpanField {
                child: None,
                span_type: SpanType::Link { text: "text".to_string(), href: "href".to_string() },
            })),
        })),
    };

    println!("{:#?}", span);

    assert_eq!(span, result);
}

#[test]
fn test_render() {
    let text = "# Hello";
    let asts = BlockElm::from(text.to_string());
    println!("{:?}", asts);

    let html = render(asts);
    println!("{}", html.render());
    assert_eq!(html.render(), "<><h2 class=\"text-2xl border-spacing-2\"># Hello</h2></>");
    assert_eq!(html.child.len(), 1);
    assert!(matches!(&html.child[0], HtmlContent::Html(h) if h.tag == "h2"));
}
