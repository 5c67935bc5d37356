use mdcanon::document::render_document;
use mdcanon::node::{Node, NodeKind};

fn chars(s: &str) -> Vec<char> {
    s.chars().collect()
}

fn text(s: &str) -> Node {
    Node::new(NodeKind::Text(chars(s)), vec![])
}

fn string_of(v: &[char]) -> String {
    v.iter().collect()
}

#[test]
fn footnote_flushed_at_section_boundary() {
    // A footnote referenced in section one and defined at the end of the
    // document is emitted after section one's content, before section two.
    let reference = Node::with_span(NodeKind::FootnoteReference(chars("a")), vec![], 3, 3);
    let doc = Node::new(
        NodeKind::Document,
        vec![
            Node::with_span(NodeKind::Heading(2), vec![text("One")], 1, 1),
            Node::with_span(
                NodeKind::Paragraph,
                vec![text("body"), reference],
                3,
                3,
            ),
            Node::with_span(NodeKind::Heading(2), vec![text("Two")], 10, 10),
            Node::with_span(NodeKind::Paragraph, vec![text("later")], 12, 12),
            Node::with_span(
                NodeKind::FootnoteDefinition(chars("a")),
                vec![Node::new(NodeKind::Paragraph, vec![text("note body")])],
                20,
                20,
            ),
        ],
    );
    let (out, _) = render_document(&doc, vec![], 80);
    let s = string_of(&out);
    let note = s.find("[^a]: note body").expect("note missing");
    let two = s.find("Two\n---").expect("heading missing");
    assert!(note < two, "footnote after second section: {:?}", s);
    assert!(s.find("body[^a]").unwrap() < note);
}

#[test]
fn footnotes_flushed_in_reference_order() {
    // Definitions appear in document order b, a, but a is referenced first.
    let ref_a = Node::with_span(NodeKind::FootnoteReference(chars("a")), vec![], 2, 2);
    let ref_b = Node::with_span(NodeKind::FootnoteReference(chars("b")), vec![], 4, 4);
    let doc = Node::new(
        NodeKind::Document,
        vec![
            Node::with_span(NodeKind::Paragraph, vec![text("first"), ref_a], 2, 2),
            Node::with_span(NodeKind::Paragraph, vec![text("second"), ref_b], 4, 4),
            Node::with_span(
                NodeKind::FootnoteDefinition(chars("b")),
                vec![Node::new(NodeKind::Paragraph, vec![text("note b")])],
                10,
                10,
            ),
            Node::with_span(
                NodeKind::FootnoteDefinition(chars("a")),
                vec![Node::new(NodeKind::Paragraph, vec![text("note a")])],
                12,
                12,
            ),
        ],
    );
    let (out, _) = render_document(&doc, vec![], 80);
    let s = string_of(&out);
    let pos_a = s.find("[^a]: note a").expect("note a missing");
    let pos_b = s.find("[^b]: note b").expect("note b missing");
    assert!(pos_a < pos_b, "notes out of reference order: {:?}", s);
}

#[test]
fn unreferenced_footnote_still_emitted_at_end() {
    let doc = Node::new(
        NodeKind::Document,
        vec![
            Node::with_span(NodeKind::Paragraph, vec![text("content")], 1, 1),
            Node::with_span(
                NodeKind::FootnoteDefinition(chars("ghostly")),
                vec![Node::new(NodeKind::Paragraph, vec![text("orphan")])],
                5,
                5,
            ),
        ],
    );
    let (out, _) = render_document(&doc, vec![], 80);
    let s = string_of(&out);
    assert!(s.contains("[^ghostly]: orphan"), "got: {:?}", s);
    assert!(s.find("content").unwrap() < s.find("[^ghostly]").unwrap());
}

#[test]
fn definition_never_rendered_in_place() {
    let reference = Node::with_span(NodeKind::FootnoteReference(chars("x")), vec![], 5, 5);
    let doc = Node::new(
        NodeKind::Document,
        vec![
            Node::with_span(
                NodeKind::FootnoteDefinition(chars("x")),
                vec![Node::new(NodeKind::Paragraph, vec![text("early def")])],
                1,
                1,
            ),
            Node::with_span(NodeKind::Paragraph, vec![text("middle"), reference], 5, 5),
        ],
    );
    let (out, _) = render_document(&doc, vec![], 80);
    let s = string_of(&out);
    let def = s.find("[^x]: early def").expect("definition missing");
    let middle = s.find("middle").expect("paragraph missing");
    assert!(middle < def, "definition not deferred: {:?}", s);
}
