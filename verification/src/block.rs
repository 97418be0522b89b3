//! Block-level elements of a markdown document, one per classified line.
use vstd::prelude::*;
use crate::pattern::{ascii_numbered, ordered_pattern, pattern_matches, regex_match};
use crate::span::{span_chain, SpanField, SpanKind, SpanType};
use crate::text::{
    has_prefix, leading, leading_from, lines, lines_of, replace, replace_all, skip_leading,
    starts_with, str_chars, string_of, strings_value,
};

verus! {

/// A block of a markdown document.
#[derive(Debug, PartialEq)]
pub enum BlockElm {
    Span(SpanField),
    Heading { depth: u8, text: String },
    OrderedList { indent_depth: u8, span: Box<SpanField> },
    UnorderedList { indent_depth: u8, span: Box<SpanField> },
    TaskList { indent_depth: u8, checked: bool, span: Box<SpanField> },
    BlockQuote(Box<SpanField>),
    BlockCode { lang: String, filename: Option<String>, code: String },
    FootnoteDefinition { id: String, span: Box<SpanField> },
    Table { header: Vec<String>, rows: Vec<Vec<String>> },
    LineBreak,
    Nothing,
}

/// The value of a [`BlockElm`]: spans as chains, strings as character sequences.
pub enum Block {
    Span(Seq<SpanKind>),
    Heading { depth: u8, text: Seq<char> },
    OrderedList { indent_depth: u8, span: Seq<SpanKind> },
    UnorderedList { indent_depth: u8, span: Seq<SpanKind> },
    TaskList { indent_depth: u8, checked: bool, span: Seq<SpanKind> },
    BlockQuote(Seq<SpanKind>),
    BlockCode { lang: Seq<char>, filename: Option<Seq<char>>, code: Seq<char> },
    FootnoteDefinition { id: Seq<char>, span: Seq<SpanKind> },
    Table { header: Seq<Seq<char>>, rows: Seq<Seq<Seq<char>>> },
    LineBreak,
    Nothing,
}

impl View for BlockElm {
    type V = Block;

    open spec fn view(&self) -> Block {
        match self {
            BlockElm::Span(s) => Block::Span(s@),
            BlockElm::Heading { depth, text } => Block::Heading { depth: *depth, text: text@ },
            BlockElm::OrderedList { indent_depth, span } => Block::OrderedList {
                indent_depth: *indent_depth,
                span: span@,
            },
            BlockElm::UnorderedList { indent_depth, span } => Block::UnorderedList {
                indent_depth: *indent_depth,
                span: span@,
            },
            BlockElm::TaskList { indent_depth, checked, span } => Block::TaskList {
                indent_depth: *indent_depth,
                checked: *checked,
                span: span@,
            },
            BlockElm::BlockQuote(s) => Block::BlockQuote(s@),
            BlockElm::BlockCode { lang, filename, code } => Block::BlockCode {
                lang: lang@,
                filename: match filename {
                    Some(f) => Some(f@),
                    None => None,
                },
                code: code@,
            },
            BlockElm::FootnoteDefinition { id, span } => Block::FootnoteDefinition {
                id: id@,
                span: span@,
            },
            BlockElm::Table { header, rows } => Block::Table {
                header: strings_value(header@),
                rows: rows@.map_values(|r: Vec<String>| strings_value(r@)),
            },
            BlockElm::LineBreak => Block::LineBreak,
            BlockElm::Nothing => Block::Nothing,
        }
    }
}

/// The values of a sequence of blocks.
pub open spec fn blocks_value(v: Seq<BlockElm>) -> Seq<Block> {
    v.map_values(|b: BlockElm| b@)
}

/// The block that one line of a document gives, if any, where `ordered` says
/// whether the ordered-list pattern matches the line: a heading for a line
/// that starts with `#`, an ordered list item for one that the pattern
/// matches, an unordered list item for one that starts with `* `, a quote for
/// one that starts with `> `; other lines give none.
pub open spec fn classified_blocks(line: Seq<char>, ordered: bool) -> Seq<Block> {
    if has_prefix(line, "#"@) {
        seq![
            Block::Heading {
                depth: (leading(line, '#') % 256) as u8,
                text: skip_leading(line, '#'),
            },
        ]
    } else if ordered {
        seq![
            Block::OrderedList {
                indent_depth: (leading(line, ' ') % 256) as u8,
                span: span_chain(line),
            },
        ]
    } else if has_prefix(line, "* "@) {
        seq![
            Block::UnorderedList {
                indent_depth: (leading(line, ' ') % 256) as u8,
                span: seq![SpanKind::PlainText(skip_leading(line, ' '))],
            },
        ]
    } else if has_prefix(line, "> "@) {
        seq![Block::BlockQuote(span_chain(replace_all(line, "> "@, ""@)))]
    } else {
        seq![]
    }
}

/// Whether the ordered-list pattern `^\d+\. ` matches a line: it does for
/// every line that begins with ASCII digits, a dot and a space.
pub open spec fn ordered_item(line: Seq<char>) -> bool {
    ascii_numbered(line) || regex_match(ordered_pattern(), line) == Some(true)
}

/// The block that one line of a document gives, if any.
pub open spec fn line_blocks(line: Seq<char>) -> Seq<Block> {
    classified_blocks(line, ordered_item(line))
}

/// The blocks of a sequence of lines, in order.
pub open spec fn lines_blocks(ls: Seq<Seq<char>>) -> Seq<Block>
    decreases ls.len(),
{
    if ls.len() == 0 {
        seq![]
    } else {
        lines_blocks(ls.drop_last()) + line_blocks(ls.last())
    }
}

/// The blocks of a document.
pub open spec fn document_blocks(text: Seq<char>) -> Seq<Block> {
    lines_blocks(lines_of(text))
}

/// The block of one line, if any.
fn line_block(line: &str) -> (res: Option<BlockElm>)
    ensures
        line_blocks(line@) == match res {
            Some(b) => seq![b@],
            None => Seq::<Block>::empty(),
        },
{
    let ordered = pattern_matches(r"^\d+\. ", line);
    assert(ordered == ordered_item(line@));
    classify_line(line, ordered)
}

/// The block of one line, if any, given whether the ordered-list pattern
/// matches it.
pub fn classify_line(line: &str, ordered: bool) -> (res: Option<BlockElm>)
    ensures
        classified_blocks(line@, ordered) == match res {
            Some(b) => seq![b@],
            None => Seq::<Block>::empty(),
        },
{
    let v = str_chars(line);
    assert(v@.skip(0) =~= v@);
    proof {
        reveal_strlit("* ");
        assert("* "@ =~= seq!['*', ' ']);
    }
    if starts_with(line, "#") {
        let n = leading_from(&v, 0, '#');
        let depth = (n % 256) as u8;
        let text = string_of(&v, n, v.len());
        assert(v@.subrange(n as int, v.len() as int) =~= v@.skip(n as int));
        Some(BlockElm::Heading { depth, text })
    } else if ordered {
        let n = leading_from(&v, 0, ' ');
        let indent_depth = (n % 256) as u8;
        let span = Box::new(SpanField::from(String::from_str(line)));
        Some(BlockElm::OrderedList { indent_depth, span })
    } else if pattern_matches(r"^\* ", line) {
        let n = leading_from(&v, 0, ' ');
        let indent_depth = (n % 256) as u8;
        let text = string_of(&v, n, v.len());
        assert(v@.subrange(n as int, v.len() as int) =~= v@.skip(n as int));
        let span = Box::new(SpanField { child: None, span_type: SpanType::PlainText(text) });
        Some(BlockElm::UnorderedList { indent_depth, span })
    } else if starts_with(line, "> ") {
        proof {
            reveal_strlit("> ");
        }
        let span = Box::new(SpanField::from(replace(line, "> ", "")));
        Some(BlockElm::BlockQuote(span))
    } else {
        None
    }
}

impl BlockElm {
    /// Splits a document into lines and classifies each into a block.
    pub fn from(text: String) -> (ast: Vec<BlockElm>)
        ensures
            blocks_value(ast@) == document_blocks(text@),
    {
        let mut ast: Vec<BlockElm> = Vec::new();
        let ls = lines(text.as_str());
        let mut i: usize = 0;
        assert(strings_value(ls@).take(0) =~= Seq::<Seq<char>>::empty());
        assert(blocks_value(ast@) =~= Seq::<Block>::empty());
        while i < ls.len()
            invariant
                i <= ls.len(),
                strings_value(ls@) == lines_of(text@),
                blocks_value(ast@) == lines_blocks(strings_value(ls@).take(i as int)),
            decreases ls.len() - i,
        {
            let ghost before = ast@;
            let b = line_block(ls[i].as_str());
            match b {
                Some(b) => {
                    ast.push(b);
                },
                None => {},
            }
            proof {
                let t = strings_value(ls@).take(i + 1);
                assert(t.drop_last() =~= strings_value(ls@).take(i as int));
                assert(t.last() == ls@[i as int]@);
                assert(blocks_value(ast@) =~= blocks_value(before) + line_blocks(ls@[i as int]@));
            }
            i += 1;
        }
        assert(strings_value(ls@).take(i as int) =~= strings_value(ls@));
        ast
    }
}

/// A copy of a list of strings.
pub fn copy_strings(v: &Vec<String>) -> (r: Vec<String>)
    ensures
        strings_value(r@) == strings_value(v@),
{
    let mut r: Vec<String> = Vec::new();
    let mut i: usize = 0;
    while i < v.len()
        invariant
            i <= v.len(),
            r@.len() == i,
            strings_value(r@) == strings_value(v@.take(i as int)),
        decreases v.len() - i,
    {
        let ghost before = r@;
        r.push(v[i].clone());
        assert forall|k: int| 0 <= k < i implies r@[k]@ == v@.take(i + 1)[k]@ by {
            assert(r@[k] == before[k]);
            assert(strings_value(before)[k] == strings_value(v@.take(i as int))[k]);
        }
        assert(strings_value(r@) =~= strings_value(v@.take(i + 1)));
        i += 1;
    }
    assert(v@.take(i as int) =~= v@);
    r
}

impl BlockElm {
    /// A copy of this block.
    pub fn copy(&self) -> (r: BlockElm)
        ensures
            r@ == self@,
    {
        match self {
            BlockElm::Span(s) => BlockElm::Span(s.copy()),
            BlockElm::Heading { depth, text } => BlockElm::Heading {
                depth: *depth,
                text: text.clone(),
            },
            BlockElm::OrderedList { indent_depth, span } => BlockElm::OrderedList {
                indent_depth: *indent_depth,
                span: Box::new(span.copy()),
            },
            BlockElm::UnorderedList { indent_depth, span } => BlockElm::UnorderedList {
                indent_depth: *indent_depth,
                span: Box::new(span.copy()),
            },
            BlockElm::TaskList { indent_depth, checked, span } => BlockElm::TaskList {
                indent_depth: *indent_depth,
                checked: *checked,
                span: Box::new(span.copy()),
            },
            BlockElm::BlockQuote(s) => BlockElm::BlockQuote(Box::new(s.copy())),
            BlockElm::BlockCode { lang, filename, code } => BlockElm::BlockCode {
                lang: lang.clone(),
                filename: match filename {
                    Some(f) => Some(f.clone()),
                    None => None,
                },
                code: code.clone(),
            },
            BlockElm::FootnoteDefinition { id, span } => BlockElm::FootnoteDefinition {
                id: id.clone(),
                span: Box::new(span.copy()),
            },
            BlockElm::Table { header, rows } => {
                let h = copy_strings(header);
                let mut r: Vec<Vec<String>> = Vec::new();
                let mut i: usize = 0;
                while i < rows.len()
                    invariant
                        i <= rows.len(),
                        r@.len() == i,
                        r@.map_values(|x: Vec<String>| strings_value(x@)) == rows@.take(
                            i as int,
                        ).map_values(|x: Vec<String>| strings_value(x@)),
                    decreases rows.len() - i,
                {
                    let ghost before = r@;
                    r.push(copy_strings(&rows[i]));
                    assert forall|k: int| 0 <= k < i implies strings_value(r@[k]@)
                        == strings_value(rows@.take(i + 1)[k]@) by {
                        assert(r@[k] == before[k]);
                        assert(before.map_values(|x: Vec<String>| strings_value(x@))[k]
                            == rows@.take(i as int).map_values(
                            |x: Vec<String>| strings_value(x@),
                        )[k]);
                    }
                    assert(r@.map_values(|x: Vec<String>| strings_value(x@)) =~= rows@.take(
                        i + 1,
                    ).map_values(|x: Vec<String>| strings_value(x@)));
                    i += 1;
                }
                assert(rows@.take(i as int) =~= rows@);
                BlockElm::Table { header: h, rows: r }
            },
            BlockElm::LineBreak => BlockElm::LineBreak,
            BlockElm::Nothing => BlockElm::Nothing,
        }
    }
}

/// A copy of a list of blocks.
pub fn copy_blocks(v: &Vec<BlockElm>) -> (r: Vec<BlockElm>)
    ensures
        blocks_value(r@) == blocks_value(v@),
{
    let mut r: Vec<BlockElm> = Vec::new();
    let mut i: usize = 0;
    while i < v.len()
        invariant
            i <= v.len(),
            r@.len() == i,
            blocks_value(r@) == blocks_value(v@.take(i as int)),
        decreases v.len() - i,
    {
        let ghost before = r@;
        r.push(v[i].copy());
        assert forall|k: int| 0 <= k < i implies r@[k]@ == v@.take(i + 1)[k]@ by {
            assert(r@[k] == before[k]);
            assert(blocks_value(before)[k] == blocks_value(v@.take(i as int))[k]);
        }
        assert(blocks_value(r@) =~= blocks_value(v@.take(i + 1)));
        i += 1;
    }
    assert(v@.take(i as int) =~= v@);
    r
}

/// A line of one or more ASCII digits, a dot and a space, then anything
/// without a new line, is a document of one ordered-list item, whose span is
/// the parse of the whole line and whose indent is 0.
pub proof fn lemma_numbered_line_is_ordered_item(line: Seq<char>)
    requires
        ascii_numbered(line),
        !crate::text::has_char(line, '\n'),
    ensures
        document_blocks(line) == seq![
            Block::OrderedList { indent_depth: 0, span: span_chain(line) },
        ],
{
    let k = choose|k: int|
        #![trigger line[k]]
        1 <= k && k + 2 <= line.len() && (forall|i: int| 0 <= i < k ==> '0' <= #[trigger] line[i] <= '9')
            && line[k] == '.' && line[k + 1] == ' ';
    assert('0' <= line[0] <= '9');
    crate::text::lemma_find_char_bounds(line, '\n');
    assert(lines_of(line) == seq![line]);
    assert(seq![line].drop_last() =~= Seq::<Seq<char>>::empty());
    reveal_strlit("#");
    assert(!has_prefix(line, "#"@)) by {
        if has_prefix(line, "#"@) {
            assert(line.take(1)[0] == "#"@[0]);
        }
    }
    crate::text::lemma_leading_is(line, ' ', 0);
    assert(lines_blocks(seq![line]) =~= lines_blocks(Seq::<Seq<char>>::empty()) + line_blocks(
        line,
    ));
}

} // verus!
