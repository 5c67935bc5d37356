use mdcanon::directive::Directive;
use mdcanon::document::render_document;
use mdcanon::node::{Node, NodeKind};

fn chars(s: &str) -> Vec<char> {
    s.chars().collect()
}

fn text(s: &str) -> Node {
    Node::new(NodeKind::Text(chars(s)), vec![])
}

fn string_of(v: &[char]) -> String {
    v.iter().collect()
}

fn lines(doc: &str) -> Vec<Vec<char>> {
    doc.lines().map(|l| l.chars().collect()).collect()
}

fn html(s: &str) -> Node {
    Node::new(NodeKind::HtmlBlock(chars(s)), vec![])
}

#[test]
fn recognizer_matches_all_five_markers() {
    assert_eq!(
        Directive::parse(&chars("<!-- format:disable-file -->")),
        Some(Directive::DisableFile)
    );
    assert_eq!(
        Directive::parse(&chars("<!-- format:disable-next-line -->")),
        Some(Directive::DisableNextLine)
    );
    assert_eq!(
        Directive::parse(&chars("<!-- format:disable-next-section -->")),
        Some(Directive::DisableNextSection)
    );
    assert_eq!(
        Directive::parse(&chars("<!-- format:disable -->")),
        Some(Directive::Disable)
    );
    assert_eq!(
        Directive::parse(&chars("<!-- format:enable -->")),
        Some(Directive::Enable)
    );
}

#[test]
fn recognizer_trims_surrounding_blanks() {
    assert_eq!(
        Directive::parse(&chars("  <!-- format:disable -->\n")),
        Some(Directive::Disable)
    );
}

#[test]
fn recognizer_rejects_other_comments() {
    assert_eq!(Directive::parse(&chars("<!-- just a note -->")), None);
    assert_eq!(Directive::parse(&chars("<!-- format:disable-later -->")), None);
    assert_eq!(Directive::parse(&chars("")), None);
}

#[test]
fn disable_next_line_skips_exactly_one_block() {
    // The first paragraph keeps its ragged source; the second is rewrapped.
    let source = "<!-- format:disable-next-line -->\nkeep   me   raw\nformat    me";
    let doc = Node::new(
        NodeKind::Document,
        vec![
            html("<!-- format:disable-next-line -->"),
            Node::with_span(NodeKind::Paragraph, vec![text("keep me raw")], 2, 2),
            Node::with_span(NodeKind::Paragraph, vec![text("format me")], 3, 3),
        ],
    );
    let (out, _) = render_document(&doc, lines(source), 80);
    let s = string_of(&out);
    assert!(s.contains("keep   me   raw"), "got: {:?}", s);
    assert!(s.contains("format me"), "got: {:?}", s);
    assert!(!s.contains("format    me"), "got: {:?}", s);
}

#[test]
fn disable_until_section_ends_at_level_two_heading() {
    let source = "<!-- format:disable-next-section -->\nraw    one\nraw    two\n## Next\nafter    scope";
    let doc = Node::new(
        NodeKind::Document,
        vec![
            html("<!-- format:disable-next-section -->"),
            Node::with_span(NodeKind::Paragraph, vec![text("raw one")], 2, 2),
            Node::with_span(NodeKind::Paragraph, vec![text("raw two")], 3, 3),
            Node::with_span(NodeKind::Heading(2), vec![text("Next")], 4, 4),
            Node::with_span(NodeKind::Paragraph, vec![text("after scope")], 5, 5),
        ],
    );
    let (out, _) = render_document(&doc, lines(source), 80);
    let s = string_of(&out);
    assert!(s.contains("raw    one"), "got: {:?}", s);
    assert!(s.contains("raw    two"), "got: {:?}", s);
    // The boundary heading itself is rendered canonically (setext).
    assert!(s.contains("Next\n----"), "got: {:?}", s);
    assert!(s.contains("after scope"), "got: {:?}", s);
    assert!(!s.contains("after    scope"), "got: {:?}", s);
}

#[test]
fn disable_file_affects_every_remaining_block() {
    let source = "<!-- format:disable-file -->\nraw    a\n## Raw  Heading\nraw    b";
    let doc = Node::new(
        NodeKind::Document,
        vec![
            html("<!-- format:disable-file -->"),
            Node::with_span(NodeKind::Paragraph, vec![text("raw a")], 2, 2),
            Node::with_span(NodeKind::Heading(2), vec![text("Raw Heading")], 3, 3),
            Node::with_span(NodeKind::Paragraph, vec![text("raw b")], 4, 4),
        ],
    );
    let (out, _) = render_document(&doc, lines(source), 80);
    let s = string_of(&out);
    assert!(s.contains("raw    a"), "got: {:?}", s);
    assert!(s.contains("## Raw  Heading"), "got: {:?}", s);
    assert!(s.contains("raw    b"), "got: {:?}", s);
    assert!(!s.contains("----"), "got: {:?}", s);
}

#[test]
fn disable_holds_until_enable() {
    let source = "one    raw\n<!-- format:disable -->\ntwo    raw\n<!-- format:enable -->\nthree    raw";
    let doc = Node::new(
        NodeKind::Document,
        vec![
            Node::with_span(NodeKind::Paragraph, vec![text("one raw")], 1, 1),
            html("<!-- format:disable -->"),
            Node::with_span(NodeKind::Paragraph, vec![text("two raw")], 3, 3),
            html("<!-- format:enable -->"),
            Node::with_span(NodeKind::Paragraph, vec![text("three raw")], 5, 5),
        ],
    );
    let (out, _) = render_document(&doc, lines(source), 80);
    let s = string_of(&out);
    assert!(s.contains("one raw"), "got: {:?}", s);
    assert!(s.contains("two    raw"), "got: {:?}", s);
    assert!(s.contains("three raw"), "got: {:?}", s);
    assert!(!s.contains("three    raw"), "got: {:?}", s);
}

#[test]
fn directive_marker_itself_is_emitted() {
    let source = "<!-- format:disable -->\nraw    text";
    let doc = Node::new(
        NodeKind::Document,
        vec![
            html("<!-- format:disable -->"),
            Node::with_span(NodeKind::Paragraph, vec![text("raw text")], 2, 2),
        ],
    );
    let (out, _) = render_document(&doc, lines(source), 80);
    let s = string_of(&out);
    assert!(s.contains("<!-- format:disable -->"), "got: {:?}", s);
}

#[test]
fn section_scope_also_ends_at_level_one_heading() {
    let source = "<!-- format:disable-next-section -->\nraw    x\n# Top\ntail    y";
    let doc = Node::new(
        NodeKind::Document,
        vec![
            html("<!-- format:disable-next-section -->"),
            Node::with_span(NodeKind::Paragraph, vec![text("raw x")], 2, 2),
            Node::with_span(NodeKind::Heading(1), vec![text("Top")], 3, 3),
            Node::with_span(NodeKind::Paragraph, vec![text("tail y")], 4, 4),
        ],
    );
    let (out, _) = render_document(&doc, lines(source), 80);
    let s = string_of(&out);
    assert!(s.contains("raw    x"), "got: {:?}", s);
    assert!(s.contains("Top\n==="), "got: {:?}", s);
    assert!(s.contains("tail y"), "got: {:?}", s);
}

#[test]
fn block_without_span_falls_back_to_canonical_rendering() {
    // A skipped block with no usable source span is rendered canonically
    // rather than dropped.
    let doc = Node::new(
        NodeKind::Document,
        vec![
            html("<!-- format:disable-next-line -->"),
            Node::new(NodeKind::Paragraph, vec![text("no span here")]),
        ],
    );
    let (out, _) = render_document(&doc, vec![], 80);
    let s = string_of(&out);
    assert!(s.contains("no span here"), "got: {:?}", s);
}
