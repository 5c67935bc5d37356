use comrak::nodes::{AstNode, ListType, NodeValue, TableAlignment};
use comrak::{parse_document, Arena, Options};
use mdcanon::document::render_document;
use mdcanon::node::{AlertKind, Alignment, ListKind, Node, NodeKind};

fn chars(s: &str) -> Vec<char> {
    s.chars().collect()
}

fn options() -> Options<'static> {
    let mut o = Options::default();
    o.extension.table = true;
    o.extension.footnotes = true;
    o.extension.description_lists = true;
    o.extension.alerts = true;
    o.extension.front_matter_delimiter = Some("---".into());
    o
}

fn convert<'a>(n: &'a AstNode<'a>) -> Node {
    let data = n.data.borrow();
    let kind = match &data.value {
        NodeValue::Document => NodeKind::Document,
        NodeValue::FrontMatter(t) => NodeKind::FrontMatter(chars(t)),
        NodeValue::Heading(h) => NodeKind::Heading(h.level),
        NodeValue::Paragraph => NodeKind::Paragraph,
        NodeValue::BlockQuote => NodeKind::BlockQuote,
        NodeValue::Alert(a) => NodeKind::Alert(match a.alert_type {
            comrak::nodes::AlertType::Note => AlertKind::Note,
            comrak::nodes::AlertType::Tip => AlertKind::Tip,
            comrak::nodes::AlertType::Important => AlertKind::Important,
            comrak::nodes::AlertType::Warning => AlertKind::Warning,
            comrak::nodes::AlertType::Caution => AlertKind::Caution,
        }),
        NodeValue::Table(t) => NodeKind::Table(
            t.alignments
                .iter()
                .map(|a| match a {
                    TableAlignment::None => Alignment::Unaligned,
                    TableAlignment::Left => Alignment::Left,
                    TableAlignment::Center => Alignment::Center,
                    TableAlignment::Right => Alignment::Right,
                })
                .collect(),
        ),
        NodeValue::TableRow(h) => NodeKind::TableRow(*h),
        NodeValue::TableCell => NodeKind::TableCell,
        NodeValue::List(l) => NodeKind::List(match l.list_type {
            ListType::Bullet => ListKind::Bullet,
            ListType::Ordered => ListKind::Ordered,
        }),
        NodeValue::Item(_) => NodeKind::Item,
        NodeValue::DescriptionList => NodeKind::DescriptionList,
        NodeValue::DescriptionItem(_) => NodeKind::DescriptionItem,
        NodeValue::DescriptionTerm => NodeKind::DescriptionTerm,
        NodeValue::DescriptionDetails => NodeKind::DescriptionDetails,
        NodeValue::CodeBlock(c) => NodeKind::CodeBlock(chars(&c.info), chars(&c.literal)),
        NodeValue::HtmlBlock(h) => NodeKind::HtmlBlock(chars(&h.literal)),
        NodeValue::FootnoteDefinition(d) => NodeKind::FootnoteDefinition(chars(&d.name)),
        NodeValue::FootnoteReference(r) => NodeKind::FootnoteReference(chars(&r.name)),
        NodeValue::ThematicBreak => NodeKind::ThematicBreak,
        NodeValue::Text(t) => NodeKind::Text(chars(t)),
        NodeValue::Code(c) => NodeKind::Code(chars(&c.literal)),
        NodeValue::Emph => NodeKind::Emph,
        NodeValue::Strong => NodeKind::Strong,
        NodeValue::Link(l) => NodeKind::Link(chars(&l.url)),
        NodeValue::Image(l) => NodeKind::Image(chars(&l.url)),
        NodeValue::SoftBreak => NodeKind::SoftBreak,
        NodeValue::LineBreak => NodeKind::LineBreak,
        _ => NodeKind::Paragraph,
    };
    let children = n.children().map(convert).collect();
    Node::with_span(
        kind,
        children,
        data.sourcepos.start.line,
        data.sourcepos.end.line,
    )
}

fn render(doc: &str, width: usize) -> String {
    let arena = Arena::new();
    let root = parse_document(&arena, doc, &options());
    let tree = convert(root);
    let source: Vec<Vec<char>> = doc.lines().map(|l| l.chars().collect()).collect();
    let (out, _) = render_document(&tree, source, width);
    out.iter().collect()
}

fn assert_fixed_point(doc: &str) {
    let once = render(doc, 80);
    let twice = render(&once, 80);
    assert_eq!(once, twice, "render is not a fixed point for {:?}", doc);
}

#[test]
fn idempotent_heading_and_paragraph() {
    assert_fixed_point("# Title\n\nSome short paragraph of text.\n");
}

#[test]
fn idempotent_wrapped_paragraph() {
    assert_fixed_point(
        "A somewhat longer paragraph that the canonical renderer will rewrap at the \
         configured width and which should then be stable under a second pass.\n",
    );
}

#[test]
fn idempotent_table() {
    assert_fixed_point("| A | B |\n| - | - |\n| 1 | 22 |\n");
}

#[test]
fn idempotent_block_quote() {
    assert_fixed_point("> quoted text\n>\n> more quoted text\n");
}

#[test]
fn idempotent_list() {
    assert_fixed_point("- one\n\n- two\n\n- three\n");
}

#[test]
fn idempotent_code_block() {
    assert_fixed_point("```rust\nlet x = 1;\n```\n");
}

#[test]
fn parsed_heading_renders_setext() {
    let out = render("# Title\n", 80);
    assert_eq!(out, "Title\n=====\n");
}
