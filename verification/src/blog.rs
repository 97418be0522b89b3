//! A blog post: front matter and markdown body, and the page that shows it.
use vstd::prelude::*;
use crate::block::{blocks_value, copy_blocks, document_blocks, Block, BlockElm};
use crate::text::{lemma_occurs_middle, lemma_occurs_trans, occurs_in};
use crate::render::{
    blocks_nodes, elem, element_text, render, renderable, Element, Html, HtmlContent, Node,
};
use crate::date::{chrono_parse_date, date_text, Date};
use crate::text::{
    lines, lines_of, push_char, replace, replace_all, split, split_on, strings_value, trim,
    trim_str,
};

verus! {

/// A blog post.
pub struct Blog {
    pub title: String,
    pub content: Vec<BlockElm>,
    pub created: Date,
    pub modified: Date,
    pub tags: Vec<String>,
}

/// The value of a [`Blog`].
pub struct Post {
    pub title: Seq<char>,
    pub content: Seq<Block>,
    pub created: (i32, u32, u32),
    pub modified: (i32, u32, u32),
    pub tags: Seq<Seq<char>>,
}

impl View for Blog {
    type V = Post;

    open spec fn view(&self) -> Post {
        Post {
            title: self.title@,
            content: blocks_value(self.content@),
            created: self.created.ymd(),
            modified: self.modified.ymd(),
            tags: strings_value(self.tags@),
        }
    }
}

/// The line that opens and closes the front matter.
pub open spec fn fence() -> Seq<char> {
    "---"@
}

/// Reading the lines of a file in order: whether the reader is inside front
/// matter (each fence line turns it on or off), the front-matter lines so
/// far, and the other lines so far, each followed by a new line.
pub open spec fn scan_lines(ls: Seq<Seq<char>>) -> (bool, Seq<Seq<char>>, Seq<char>)
    decreases ls.len(),
{
    if ls.len() == 0 {
        (false, seq![], seq![])
    } else {
        let (in_front, entries, body) = scan_lines(ls.drop_last());
        let line = ls.last();
        if line == fence() {
            (!in_front, entries, body)
        } else if in_front {
            (in_front, entries.push(line), body)
        } else {
            (in_front, entries, body + line + seq!['\n'])
        }
    }
}

/// The front-matter lines of a file.
pub open spec fn front_entries(file: Seq<char>) -> Seq<Seq<char>> {
    scan_lines(lines_of(file)).1
}

/// The markdown body of a file: its lines outside the front matter.
pub open spec fn body_text(file: Seq<char>) -> Seq<char> {
    scan_lines(lines_of(file)).2
}

/// The key of a front-matter line: the text before its first `:`, trimmed.
pub open spec fn entry_key(entry: Seq<char>) -> Seq<char> {
    trim(split_on(entry, ':')[0])
}

/// The value of a front-matter line: the text between its first and second `:`, trimmed.
pub open spec fn entry_value(entry: Seq<char>) -> Seq<char> {
    trim(split_on(entry, ':')[1])
}

/// The format of the dates in the front matter, quotes included.
pub open spec fn date_format() -> Seq<char> {
    "\"%Y-%m-%d\""@
}

/// The tags of a `tags` value: brackets and quotes removed, split at commas, trimmed.
pub open spec fn tag_list(value: Seq<char>) -> Seq<Seq<char>> {
    split_on(
        replace_all(replace_all(replace_all(value, "["@, ""@), "]"@, ""@), "\""@, ""@),
        ',',
    ).map_values(|t: Seq<char>| trim(t))
}

/// A front-matter line that can be read: it has a `:`, and a `created` or
/// `modified` value is a date.
pub open spec fn entry_ok(entry: Seq<char>) -> bool {
    &&& split_on(entry, ':').len() >= 2
    &&& (entry_key(entry) == "created"@ || entry_key(entry) == "modified"@) ==> chrono_parse_date(
        entry_value(entry),
        date_format(),
    ) is Some
}

/// Every front-matter line of the file can be read.
pub open spec fn front_matter_ok(file: Seq<char>) -> bool {
    forall|i: int|
        0 <= i < front_entries(file).len() ==> entry_ok(#[trigger] front_entries(file)[i])
}

/// The post before any front-matter line is read: no title, no tags, both dates 1970-01-01.
pub open spec fn empty_post(content: Seq<Block>) -> Post {
    Post {
        title: seq![],
        content,
        created: (1970i32, 1u32, 1u32),
        modified: (1970i32, 1u32, 1u32),
        tags: seq![],
    }
}

/// What one front-matter line sets: `title`, `created`, `modified` or `tags`;
/// a line with another key sets nothing.
pub open spec fn apply_entry(p: Post, entry: Seq<char>) -> Post {
    let key = entry_key(entry);
    let value = entry_value(entry);
    if key == "title"@ {
        Post { title: value, ..p }
    } else if key == "created"@ {
        Post { created: chrono_parse_date(value, date_format()).unwrap(), ..p }
    } else if key == "modified"@ {
        Post { modified: chrono_parse_date(value, date_format()).unwrap(), ..p }
    } else if key == "tags"@ {
        Post { tags: tag_list(value), ..p }
    } else {
        p
    }
}

/// The post after reading the front-matter lines in order.
pub open spec fn apply_entries(p: Post, entries: Seq<Seq<char>>) -> Post
    decreases entries.len(),
{
    if entries.len() == 0 {
        p
    } else {
        apply_entry(apply_entries(p, entries.drop_last()), entries.last())
    }
}

/// The post that a file holds.
pub open spec fn post_of(file: Seq<char>) -> Post {
    apply_entries(empty_post(document_blocks(body_text(file))), front_entries(file))
}

/// The front-matter lines and the body of a file.
fn scan_file(file: &str) -> (res: (Vec<String>, String))
    ensures
        strings_value(res.0@) == front_entries(file@),
        res.1@ == body_text(file@),
{
    let ls = lines(file);
    let fence_line = String::from_str("---");
    let mut entries: Vec<String> = Vec::new();
    let mut body = String::new();
    let mut in_front = false;
    let mut i: usize = 0;
    assert(strings_value(ls@).take(0) =~= Seq::<Seq<char>>::empty());
    assert(strings_value(entries@) =~= Seq::<Seq<char>>::empty());
    while i < ls.len()
        invariant
            i <= ls.len(),
            fence_line@ == fence(),
            strings_value(ls@) == lines_of(file@),
            scan_lines(strings_value(ls@).take(i as int)) == (
                in_front,
                strings_value(entries@),
                body@,
            ),
        decreases ls.len() - i,
    {
        let ghost before = strings_value(entries@);
        proof {
            let t = strings_value(ls@).take(i + 1);
            assert(t.drop_last() =~= strings_value(ls@).take(i as int));
            assert(t.last() == ls@[i as int]@);
        }
        if ls[i] == fence_line {
            in_front = !in_front;
        } else if in_front {
            entries.push(ls[i].clone());
            assert(strings_value(entries@) =~= before.push(ls@[i as int]@));
        } else {
            body.append(ls[i].as_str());
            push_char(&mut body, '\n');
        }
        i += 1;
    }
    assert(strings_value(ls@).take(i as int) =~= strings_value(ls@));
    (entries, body)
}

/// The key and the value of a front-matter line, or `None` when it has no `:`.
fn entry_parts(entry: &String) -> (res: Option<(String, String)>)
    ensures
        match res {
            Some((k, v)) => split_on(entry@, ':').len() >= 2 && k@ == entry_key(entry@) && v@
                == entry_value(entry@),
            None => split_on(entry@, ':').len() < 2,
        },
{
    let parts = split(entry.as_str(), ':');
    if parts.len() < 2 {
        return None;
    }
    let key = trim_str(parts[0].as_str());
    let value = trim_str(parts[1].as_str());
    Some((key, value))
}

/// The tags of a `tags` value.
fn parse_tags(value: &String) -> (res: Vec<String>)
    ensures
        strings_value(res@) == tag_list(value@),
{
    proof {
        reveal_strlit("[");
        reveal_strlit("]");
        reveal_strlit("\"");
    }
    let a = replace(value.as_str(), "[", "");
    let b = replace(a.as_str(), "]", "");
    let c = replace(b.as_str(), "\"", "");
    let pieces = split(c.as_str(), ',');
    let mut tags: Vec<String> = Vec::new();
    let mut i: usize = 0;
    while i < pieces.len()
        invariant
            i <= pieces.len(),
            strings_value(pieces@) == split_on(c@, ','),
            c@ == replace_all(replace_all(replace_all(value@, "["@, ""@), "]"@, ""@), "\""@, ""@),
            tags@.len() == i,
            strings_value(tags@) == strings_value(pieces@).take(i as int).map_values(
                |t: Seq<char>| trim(t),
            ),
        decreases pieces.len() - i,
    {
        let ghost before = strings_value(tags@);
        tags.push(trim_str(pieces[i].as_str()));
        proof {
            let goal = strings_value(pieces@).take(i + 1).map_values(|t: Seq<char>| trim(t));
            assert forall|k: int| 0 <= k < i + 1 implies strings_value(tags@)[k] == goal[k] by {
                if k < i {
                    assert(strings_value(tags@)[k] == before[k]);
                    assert(strings_value(pieces@).take(i + 1)[k] == strings_value(pieces@).take(
                        i as int,
                    )[k]);
                }
            }
        }
        assert(strings_value(tags@) =~= strings_value(pieces@).take(i + 1).map_values(
            |t: Seq<char>| trim(t),
        ));
        i += 1;
    }
    assert(strings_value(pieces@).take(i as int) =~= strings_value(pieces@));
    tags
}

impl Blog {
    /// Reads a post from the text of its file: front matter between `---`
    /// lines, with `key: value` lines for the title, the dates and the tags,
    /// and a markdown body in the other lines.
    pub fn from(file: &str) -> (blog: Blog)
        requires
            front_matter_ok(file@),
        ensures
            blog@ == post_of(file@),
            forall|i: int| 0 <= i < blog@.content.len() ==> renderable(#[trigger] blog@.content[i]),
    {
        let (entries, body) = scan_file(file);
        let mut blog = Blog {
            title: String::new(),
            content: Vec::new(),
            created: Date::epoch(),
            modified: Date::epoch(),
            tags: Vec::new(),
        };
        let title_key = String::from_str("title");
        let created_key = String::from_str("created");
        let modified_key = String::from_str("modified");
        let tags_key = String::from_str("tags");
        let mut i: usize = 0;
        assert(strings_value(entries@).take(0) =~= Seq::<Seq<char>>::empty());
        assert(strings_value(blog.tags@) =~= Seq::<Seq<char>>::empty());
        assert(blocks_value(blog.content@) =~= Seq::<Block>::empty());
        while i < entries.len()
            invariant
                i <= entries.len(),
                front_matter_ok(file@),
                strings_value(entries@) == front_entries(file@),
                title_key@ == "title"@,
                created_key@ == "created"@,
                modified_key@ == "modified"@,
                tags_key@ == "tags"@,
                blog@ == apply_entries(
                    empty_post(Seq::<Block>::empty()),
                    strings_value(entries@).take(i as int),
                ),
            decreases entries.len() - i,
        {
            let ghost before = blog@;
            proof {
                let t = strings_value(entries@).take(i + 1);
                assert(t.drop_last() =~= strings_value(entries@).take(i as int));
                assert(t.last() == entries@[i as int]@);
                assert(entry_ok(front_entries(file@)[i as int]));
            }
            let (key, value) = match entry_parts(&entries[i]) {
                Some(kv) => kv,
                None => {
                    assert(false);
                    (String::new(), String::new())
                },
            };
            if key == title_key {
                blog.title = value;
            } else if key == created_key {
                blog.created = Date::parse(value.as_str(), "\"%Y-%m-%d\"").unwrap();
            } else if key == modified_key {
                blog.modified = Date::parse(value.as_str(), "\"%Y-%m-%d\"").unwrap();
            } else if key == tags_key {
                blog.tags = parse_tags(&value);
            }
            assert(blog@ == apply_entry(before, entries@[i as int]@));
            i += 1;
        }
        assert(strings_value(entries@).take(i as int) =~= strings_value(entries@));
        blog.content = BlockElm::from(body);
        proof {
            lemma_apply_entries_content(
                empty_post(Seq::<Block>::empty()),
                front_entries(file@),
                blocks_value(blog.content@),
            );
            crate::render::lemma_document_renderable(body_text(file@));
        }
        blog
    }
}

/// Front-matter lines never touch the content of a post.
proof fn lemma_apply_entries_content(p: Post, entries: Seq<Seq<char>>, content: Seq<Block>)
    ensures
        apply_entries((Post { content, ..p }), entries) == (Post {
            content,
            ..apply_entries(p, entries)
        }),
        apply_entries(p, entries).content == p.content,
    decreases entries.len(),
{
    if entries.len() > 0 {
        lemma_apply_entries_content(p, entries.drop_last(), content);
    }
}

impl Blog {
    /// Reads a post from the text of its file when every front-matter line
    /// can be read, and gives `None` otherwise.
    pub fn try_from(file: &str) -> (res: Option<Blog>)
        ensures
            res is Some <==> front_matter_ok(file@),
            res matches Some(b) ==> b@ == post_of(file@),
            res matches Some(b) ==> forall|i: int|
                0 <= i < b@.content.len() ==> renderable(#[trigger] b@.content[i]),
    {
        let (entries, _body) = scan_file(file);
        let created_key = String::from_str("created");
        let modified_key = String::from_str("modified");
        let mut i: usize = 0;
        while i < entries.len()
            invariant
                i <= entries.len(),
                strings_value(entries@) == front_entries(file@),
                created_key@ == "created"@,
                modified_key@ == "modified"@,
                forall|k: int| 0 <= k < i ==> entry_ok(#[trigger] front_entries(file@)[k]),
            decreases entries.len() - i,
        {
            assert(front_entries(file@)[i as int] == entries@[i as int]@);
            match entry_parts(&entries[i]) {
                None => {
                    return None;
                },
                Some((key, value)) => {
                    if key == created_key || key == modified_key {
                        if Date::parse(value.as_str(), "\"%Y-%m-%d\"").is_none() {
                            return None;
                        }
                    }
                },
            }
            i += 1;
        }
        Some(Blog::from(file))
    }
}

/// The `<head>` of the page, with the post's title.
pub open spec fn head_element(title: Seq<char>) -> Element {
    elem(
        "head"@,
        seq![
            Node::Text("<meta charset=\"UTF-8\">"@),
            Node::Text("<meta name=\"viewport\" content=\"width=device-width, initial-scale=1.0\">"@),
            Node::Element(elem("title"@, seq![Node::Text(title)], seq![])),
            Node::Text("<link rel=\"stylesheet\" href=\"./output.css\">"@),
            Node::Text("<link rel=\"preconnect\" href=\"https://fonts.googleapis.com\">"@),
            Node::Text("<link rel=\"preconnect\" href=\"https://fonts.gstatic.com\" crossorigin>"@),
            Node::Text(
                "<link rel=\"stylesheet\" href=\"https://fonts.googleapis.com/css2?family=Source+Code+Pro:ital,wght@0,200..900;1,200..900&family=Ubuntu+Mono&display=swap\">"@,
            ),
        ],
        seq![],
    )
}

/// The link back to the blog at the top of the page.
pub open spec fn home_link_element() -> Element {
    elem(
        "a"@,
        seq![Node::Text("blog.bido.dev;"@)],
        seq![
            ("href"@, "https://blog.bido.dev"@),
            ("class"@, "text-4xl font-bold m-6 sourceCodePro inline-block text-black"@),
        ],
    )
}

/// The footer of the page.
pub open spec fn footer_element() -> Element {
    elem(
        "footer"@,
        seq![
            Node::Element(
                elem(
                    "p"@,
                    seq![
                        Node::Element(
                            elem(
                                "span"@,
                                seq![
                                    Node::Text("Copyright\u{a9} "@),
                                    Node::Element(
                                        elem(
                                            "a"@,
                                            seq![Node::Text("bido"@)],
                                            seq![("href"@, "https://bido.dev/"@)],
                                        ),
                                    ),
                                    Node::Text(" 2023.\nAll rights reserved.\n See "@),
                                    Node::Element(
                                        elem(
                                            "a"@,
                                            seq![Node::Text("site policy"@)],
                                            seq![("href"@, "https://blog.bido.dev/policies/site"@)],
                                        ),
                                    ),
                                ],
                                seq![("class"@, "italic"@)],
                            ),
                        ),
                        Node::Element(
                            elem(
                                "a"@,
                                seq![Node::Text("humans.txt"@)],
                                seq![("href"@, "https://blog.bido.dev/humans.txt"@)],
                            ),
                        ),
                    ],
                    seq![("class"@, "flex space-x-8"@)],
                ),
            ),
        ],
        seq![],
    )
}

/// The link of one tag, followed by a comma unless it is the last.
pub open spec fn tag_link(tag: Seq<char>, last: bool) -> Seq<char> {
    "<a href=\"https://blog.bido.dev/tags/"@ + tag + "\">'#"@ + tag + "'</a>"@ + if last {
        seq![]
    } else {
        seq![',']
    }
}

/// The links of the first `k` tags.
pub open spec fn tag_links(tags: Seq<Seq<char>>, k: nat) -> Seq<char>
    decreases k,
{
    if k == 0 || k > tags.len() {
        seq![]
    } else {
        tag_links(tags, (k - 1) as nat) + tag_link(tags[k - 1], k == tags.len())
    }
}

/// The tag line of the page: `tags: [` then the tag links, then `]`.
pub open spec fn tags_text(tags: Seq<Seq<char>>) -> Seq<char> {
    "tags: ["@ + tag_links(tags, tags.len()) + seq![']']
}

/// The title and the dates and tags of the post.
pub open spec fn metadata_element(p: Post) -> Element {
    elem(
        seq![],
        seq![
            Node::Element(
                elem(
                    "h1"@,
                    seq![Node::Text(p.title)],
                    seq![("class"@, "text-3xl font-bold text-center sourceCodePro mt-2"@)],
                ),
            ),
            Node::Element(
                elem(
                    "div"@,
                    seq![
                        Node::Element(
                            elem(
                                "div"@,
                                seq![
                                    Node::Text(
                                        "created: "@ + date_text(
                                            p.created.0,
                                            p.created.1,
                                            p.created.2,
                                        ),
                                    ),
                                ],
                                seq![],
                            ),
                        ),
                        Node::Element(
                            elem(
                                "div"@,
                                seq![
                                    Node::Text(
                                        "modified: "@ + date_text(
                                            p.modified.0,
                                            p.modified.1,
                                            p.modified.2,
                                        ),
                                    ),
                                ],
                                seq![],
                            ),
                        ),
                        Node::Element(elem("div"@, seq![Node::Text(tags_text(p.tags))], seq![])),
                    ],
                    seq![("class"@, "sourceCodePro text-center text-gray-600 font-bold"@)],
                ),
            ),
        ],
        seq![],
    )
}

/// The whole page of a post: the head, and a body with the link home, the
/// metadata and the rendered content, and the footer.
pub open spec fn page_element(p: Post) -> Element {
    elem(
        seq![],
        seq![
            Node::Element(head_element(p.title)),
            Node::Element(
                elem(
                    "body"@,
                    seq![
                        Node::Element(home_link_element()),
                        Node::Element(
                            elem(
                                "div"@,
                                seq![
                                    Node::Element(metadata_element(p)),
                                    Node::Element(elem(seq![], blocks_nodes(p.content), seq![])),
                                ],
                                seq![("class"@, "mx-40"@)],
                            ),
                        ),
                        Node::Element(footer_element()),
                    ],
                    seq![],
                ),
            ),
        ],
        seq![],
    )
}

/// The text of the page, with the empty-tag markers `<>` and `</>` removed.
pub open spec fn page_text(p: Post) -> Seq<char> {
    replace_all(replace_all(element_text(page_element(p)), "<>"@, ""@), "</>"@, ""@)
}

/// An element with the given tag and nothing else.
fn tagged(tag: &str) -> (h: Html)
    ensures
        h@ == elem(tag@, seq![], seq![]),
{
    let mut h = Html::new();
    h.tag = String::from_str(tag);
    assert(h@ =~= elem(tag@, seq![], seq![]));
    h
}

/// A text child.
fn text_node(t: &str) -> (c: HtmlContent)
    ensures
        c@ == Node::Text(t@),
{
    HtmlContent::Text(String::from_str(t))
}

/// A link element to `href` with the given text.
fn link(href: &str, text: &str) -> (h: Html)
    ensures
        h@ == elem("a"@, seq![Node::Text(text@)], seq![("href"@, href@)]),
{
    let mut h = tagged("a");
    h.set_attr(String::from_str("href"), String::from_str(href));
    h.append_child(text_node(text));
    assert(h@ =~~= elem("a"@, seq![Node::Text(text@)], seq![("href"@, href@)]));
    h
}

/// An element with the given tag, holding one text.
fn text_element(tag: &str, text: String) -> (h: Html)
    ensures
        h@ == elem(tag@, seq![Node::Text(text@)], seq![]),
{
    let mut h = tagged(tag);
    h.append_child(HtmlContent::Text(text));
    assert(h@ =~~= elem(tag@, seq![Node::Text(text@)], seq![]));
    h
}

impl Blog {
    /// The `<body>` element, with the link home.
    fn render_base(&self) -> (body: Html)
        ensures
            body@ == elem("body"@, seq![Node::Element(home_link_element())], seq![]),
    {
        let mut body = tagged("body");
        let mut blog_link_icon = tagged("a");
        blog_link_icon.set_attr(String::from_str("href"), String::from_str("https://blog.bido.dev"));
        proof {
            reveal_strlit("href");
            reveal_strlit("class");
            assert("href"@[0] != "class"@[0]);
            crate::render::lemma_without_key_short("href"@, "https://blog.bido.dev"@, "class"@);
        }
        blog_link_icon.set_attr(
            String::from_str("class"),
            String::from_str("text-4xl font-bold m-6 sourceCodePro inline-block text-black"),
        );
        blog_link_icon.append_child(text_node("blog.bido.dev;"));
        assert(blog_link_icon@ =~~= home_link_element());
        let ghost icon = blog_link_icon@;
        body.append_child(HtmlContent::Html(blog_link_icon));
        assert(body@ =~~= elem("body"@, seq![Node::Element(icon)], seq![]));
        body
    }

    /// The footer.
    fn render_footer(&self) -> (footer: Html)
        ensures
            footer@ == footer_element(),
    {
        let mut footer = tagged("footer");
        let mut footer_content = tagged("p");
        footer_content.set_attr(String::from_str("class"), String::from_str("flex space-x-8"));
        let mut rights_reserved = tagged("span");
        rights_reserved.set_attr(String::from_str("class"), String::from_str("italic"));
        rights_reserved.append_child(text_node("Copyright\u{a9} "));
        let bido = link("https://bido.dev/", "bido");
        let ghost bido_v = bido@;
        rights_reserved.append_child(HtmlContent::Html(bido));
        rights_reserved.append_child(text_node(" 2023.\nAll rights reserved.\n See "));
        let policy = link("https://blog.bido.dev/policies/site", "site policy");
        let ghost policy_v = policy@;
        rights_reserved.append_child(HtmlContent::Html(policy));
        let ghost rights_v = rights_reserved@;
        assert(rights_v.children =~= seq![
            Node::Text("Copyright\u{a9} "@),
            Node::Element(bido_v),
            Node::Text(" 2023.\nAll rights reserved.\n See "@),
            Node::Element(policy_v),
        ]);
        assert(rights_v.attrs =~= seq![("class"@, "italic"@)]);
        footer_content.append_child(HtmlContent::Html(rights_reserved));
        let humans = link("https://blog.bido.dev/humans.txt", "humans.txt");
        let ghost humans_v = humans@;
        footer_content.append_child(HtmlContent::Html(humans));
        let ghost content_v = footer_content@;
        assert(content_v.children =~= seq![Node::Element(rights_v), Node::Element(humans_v)]);
        assert(content_v.attrs =~= seq![("class"@, "flex space-x-8"@)]);
        footer.append_child(HtmlContent::Html(footer_content));
        assert(footer@.children =~= seq![Node::Element(content_v)]);
        assert(footer@ == footer_element());
        footer
    }

    /// The `<head>` element.
    fn render_head(&self) -> (head: Html)
        ensures
            head@ == head_element(self.title@),
    {
        let mut head = tagged("head");
        head.append_child(text_node("<meta charset=\"UTF-8\">"));
        head.append_child(
            text_node("<meta name=\"viewport\" content=\"width=device-width, initial-scale=1.0\">"),
        );
        let title = text_element("title", self.title.clone());
        let ghost title_v = title@;
        head.append_child(HtmlContent::Html(title));
        head.append_child(text_node("<link rel=\"stylesheet\" href=\"./output.css\">"));
        head.append_child(
            text_node("<link rel=\"preconnect\" href=\"https://fonts.googleapis.com\">"),
        );
        head.append_child(
            text_node("<link rel=\"preconnect\" href=\"https://fonts.gstatic.com\" crossorigin>"),
        );
        head.append_child(
            text_node(
                "<link rel=\"stylesheet\" href=\"https://fonts.googleapis.com/css2?family=Source+Code+Pro:ital,wght@0,200..900;1,200..900&family=Ubuntu+Mono&display=swap\">",
            ),
        );
        assert(head@.children =~= head_element(self.title@).children);
        assert(head@ == head_element(self.title@));
        head
    }
}

/// The tag line of the page.
fn tags_line(tags: &Vec<String>) -> (res: String)
    ensures
        res@ == tags_text(strings_value(tags@)),
{
    let ghost sv = strings_value(tags@);
    let mut res = String::from_str("tags: [");
    let mut i: usize = 0;
    while i < tags.len()
        invariant
            i <= tags.len(),
            sv == strings_value(tags@),
            res@ == "tags: ["@ + tag_links(sv, i as nat),
        decreases tags.len() - i,
    {
        let ghost before = res@;
        res.append("<a href=\"https://blog.bido.dev/tags/");
        res.append(tags[i].as_str());
        res.append("\">'#");
        res.append(tags[i].as_str());
        res.append("'</a>");
        if i + 1 != tags.len() {
            push_char(&mut res, ',');
        }
        proof {
            assert(sv[i as int] == tags@[i as int]@);
            assert(res@ =~= before + tag_link(sv[i as int], i + 1 == sv.len()));
        }
        i += 1;
    }
    push_char(&mut res, ']');
    res
}

impl Blog {
    /// The page of the post as an HTML tree.
    pub fn build(&mut self) -> (html: Html)
        requires
            forall|i: int|
                0 <= i < old(self)@.content.len() ==> renderable(#[trigger] old(self)@.content[i]),
        ensures
            final(self)@ == old(self)@,
            html@ == page_element(old(self)@),
    {
        let mut html = Html::new();
        let head = self.render_head();
        let ghost head_v = head@;
        html.append_child(HtmlContent::Html(head));

        let mut body = self.render_base();
        let mut wrapper = tagged("div");
        wrapper.set_attr(String::from_str("class"), String::from_str("mx-40"));

        let mut metadata = Html::new();
        let mut title = tagged("h1");
        title.set_attr(
            String::from_str("class"),
            String::from_str("text-3xl font-bold text-center sourceCodePro mt-2"),
        );
        title.append_child(HtmlContent::Text(self.title.clone()));
        let ghost title_v = title@;
        metadata.append_child(HtmlContent::Html(title));

        let mut date_container = tagged("div");
        date_container.set_attr(
            String::from_str("class"),
            String::from_str("sourceCodePro text-center text-gray-600 font-bold"),
        );
        let mut created_text = String::from_str("created: ");
        created_text.append(self.created.iso_text().as_str());
        let created = text_element("div", created_text);
        let ghost created_v = created@;
        date_container.append_child(HtmlContent::Html(created));
        let mut modified_text = String::from_str("modified: ");
        modified_text.append(self.modified.iso_text().as_str());
        let modified = text_element("div", modified_text);
        let ghost modified_v = modified@;
        date_container.append_child(HtmlContent::Html(modified));
        let tags = text_element("div", tags_line(&self.tags));
        let ghost tags_v = tags@;
        date_container.append_child(HtmlContent::Html(tags));
        let ghost dates_v = date_container@;
        metadata.append_child(HtmlContent::Html(date_container));
        let ghost metadata_v = metadata@;
        assert(metadata_v.children =~= seq![Node::Element(title_v), Node::Element(dates_v)]);
        assert(dates_v.children =~= seq![
            Node::Element(created_v),
            Node::Element(modified_v),
            Node::Element(tags_v),
        ]);
        assert(title_v =~~= metadata_element(self@).children[0]->Element_0);
        assert(dates_v =~~= metadata_element(self@).children[1]->Element_0);
        assert(metadata_v =~~= metadata_element(self@));
        wrapper.append_child(HtmlContent::Html(metadata));

        let copied = copy_blocks(&self.content);
        assert forall|i: int| 0 <= i < copied.len() implies renderable(#[trigger] copied@[i]@) by {
            assert(copied@[i]@ == blocks_value(copied@)[i]);
            assert(blocks_value(copied@)[i] == old(self)@.content[i]);
        }
        let content = render(copied);
        let ghost content_v = content@;
        wrapper.append_child(HtmlContent::Html(content));
        let ghost wrapper_v = wrapper@;
        assert(wrapper_v.children =~= seq![Node::Element(metadata_v), Node::Element(content_v)]);
        body.append_child(HtmlContent::Html(wrapper));
        let footer = self.render_footer();
        let ghost footer_v = footer@;
        body.append_child(HtmlContent::Html(footer));
        let ghost body_v = body@;
        assert(body_v.children =~= seq![
            Node::Element(home_link_element()),
            Node::Element(wrapper_v),
            Node::Element(footer_v),
        ]);
        html.append_child(HtmlContent::Html(body));
        assert(html@.children =~= seq![Node::Element(head_v), Node::Element(body_v)]);
        assert(html@ =~~= page_element(self@));
        html
    }

    /// The HTML text of the page, with the markers of empty tags, `<>` and
    /// `</>`, removed.
    pub fn html_text(&mut self) -> (res: String)
        requires
            forall|i: int|
                0 <= i < old(self)@.content.len() ==> renderable(#[trigger] old(self)@.content[i]),
        ensures
            final(self)@ == old(self)@,
            res@ == page_text(old(self)@),
    {
        let html = self.build().render();
        proof {
            reveal_strlit("<>");
            reveal_strlit("</>");
        }
        let html = replace(html.as_str(), "<>", "");
        replace(html.as_str(), "</>", "")
    }
}

/// The text of an element whose only child is the text `t`: its opening tag, `t`, its closing tag.
proof fn lemma_text_element_text(tag: Seq<char>, t: Seq<char>, attrs: Seq<(Seq<char>, Seq<char>)>)
    ensures
        element_text(elem(tag, seq![Node::Text(t)], attrs)) == crate::render::open_tag(
            elem(tag, seq![Node::Text(t)], attrs),
        ) + t + crate::render::close_tag(tag),
{
    let e = elem(tag, seq![Node::Text(t)], attrs);
    crate::render::lemma_append_child_text(elem(tag, seq![], attrs), Node::Text(t));
    assert(seq![].push(Node::Text(t)) =~= seq![Node::Text(t)]);
    assert(crate::render::nodes_text(Seq::<Node>::empty()) =~= Seq::<char>::empty());
    assert(element_text(e) =~= crate::render::open_tag(e) + t + crate::render::close_tag(tag));
}

/// The page shows the post's title twice: in the `<title>` of its head, and
/// in its `<h1>` heading: the page's text holds `<title>` + title +
/// `</title>` and `>` + title + `</h1>`.
pub proof fn lemma_page_shows_title(p: Post)
    ensures
        occurs_in("<title>"@ + p.title + "</title>"@, element_text(page_element(p))),
        occurs_in(">"@ + p.title + "</h1>"@, element_text(page_element(p))),
{
    let page = page_element(p);
    // the head and its title
    let head = head_element(p.title);
    let title = elem("title"@, seq![Node::Text(p.title)], seq![]);
    lemma_text_element_text("title"@, p.title, seq![]);
    reveal_strlit("title");
    reveal_strlit("<title>");
    reveal_strlit("</title>");
    assert(crate::render::attrs_text(Seq::<(Seq<char>, Seq<char>)>::empty()) =~= Seq::<char>::empty());
    assert(element_text(title) =~= "<title>"@ + p.title + "</title>"@);
    assert(head.children[2] == Node::Element(title));
    crate::render::lemma_child_occurs(head, 2);
    assert(page.children[0] == Node::Element(head));
    crate::render::lemma_child_occurs(page, 0);
    lemma_occurs_trans(element_text(title), element_text(head), element_text(page));
    // the body, the wrapper, the metadata and the heading
    let h1_attrs = seq![("class"@, "text-3xl font-bold text-center sourceCodePro mt-2"@)];
    let h1 = elem("h1"@, seq![Node::Text(p.title)], h1_attrs);
    lemma_text_element_text("h1"@, p.title, h1_attrs);
    reveal_strlit("h1");
    reveal_strlit("</h1>");
    let open = crate::render::open_tag(h1);
    reveal_strlit(">");
    assert(">"@ =~= seq!['>']);
    assert(open =~= open.drop_last() + ">"@);
    assert(crate::render::close_tag("h1"@) =~= "</h1>"@);
    lemma_occurs_middle(open.drop_last(), ">"@ + p.title + "</h1>"@, seq![]);
    assert(open.drop_last() + (">"@ + p.title + "</h1>"@) + seq![] =~= element_text(h1));
    let meta = metadata_element(p);
    assert(meta.children[0] == Node::Element(h1));
    crate::render::lemma_child_occurs(meta, 0);
    let body = page.children[1]->Element_0;
    let wrapper = body.children[1]->Element_0;
    assert(wrapper.children[0] == Node::Element(meta));
    crate::render::lemma_child_occurs(wrapper, 0);
    crate::render::lemma_child_occurs(body, 1);
    crate::render::lemma_child_occurs(page, 1);
    lemma_occurs_trans(">"@ + p.title + "</h1>"@, element_text(h1), element_text(meta));
    lemma_occurs_trans(">"@ + p.title + "</h1>"@, element_text(meta), element_text(wrapper));
    lemma_occurs_trans(">"@ + p.title + "</h1>"@, element_text(wrapper), element_text(body));
    lemma_occurs_trans(">"@ + p.title + "</h1>"@, element_text(body), element_text(page));
}

} // verus!
