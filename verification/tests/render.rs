use mdcanon::document::render_document;
use mdcanon::node::{AlertKind, Alignment, ListKind, Node, NodeKind};
use mdcanon::state::Serializer;

fn chars(s: &str) -> Vec<char> {
    s.chars().collect()
}

fn text(s: &str) -> Node {
    Node::new(NodeKind::Text(chars(s)), vec![])
}

fn string_of(v: &[char]) -> String {
    v.iter().collect()
}

fn lines(doc: &str) -> Vec<Vec<char>> {
    doc.lines().map(|l| l.chars().collect()).collect()
}

#[test]
fn heading_level_one_setext() {
    let mut s = Serializer::new(vec![], 80);
    let h = Node::new(NodeKind::Heading(1), vec![text("Title")]);
    s.serialize_heading(&h, 1);
    assert_eq!(string_of(&s.output), "Title\n=====\n");
}

#[test]
fn heading_level_two_setext() {
    let mut s = Serializer::new(vec![], 80);
    let h = Node::new(NodeKind::Heading(2), vec![text("Sub")]);
    s.serialize_heading(&h, 2);
    assert_eq!(string_of(&s.output), "Sub\n---\n");
}

#[test]
fn heading_level_three_atx() {
    let mut s = Serializer::new(vec![], 80);
    let h = Node::new(NodeKind::Heading(3), vec![text("Deep")]);
    s.serialize_heading(&h, 3);
    assert_eq!(string_of(&s.output), "### Deep\n");
}

#[test]
fn paragraph_wraps_at_width() {
    let mut s = Serializer::new(vec![], 40);
    let body = "one two three four five six seven eight nine ten eleven twelve thirteen four";
    assert_eq!(body.chars().count(), 76);
    let p = Node::new(NodeKind::Paragraph, vec![text(body)]);
    s.serialize_paragraph(&p);
    let out = string_of(&s.output);
    let ls: Vec<&str> = out.trim_end().split('\n').collect();
    assert!(ls.len() >= 2);
    for l in &ls {
        assert!(l.chars().count() <= 40, "line too long: {:?}", l);
    }
    let rejoined = ls.join(" ");
    assert_eq!(rejoined, body);
}

#[test]
fn paragraph_never_splits_long_word() {
    let mut s = Serializer::new(vec![], 10);
    let p = Node::new(
        NodeKind::Paragraph,
        vec![text("a extraordinarily b")],
    );
    s.serialize_paragraph(&p);
    let out = string_of(&s.output);
    assert!(out.contains("extraordinarily"));
}

#[test]
fn paragraph_in_quote_gets_prefix() {
    let mut s = Serializer::new(vec![], 80);
    let q = Node::new(
        NodeKind::BlockQuote,
        vec![Node::new(NodeKind::Paragraph, vec![text("quoted words")])],
    );
    s.serialize_block_quote(&q);
    assert_eq!(string_of(&s.output), "> quoted words\n");
}

#[test]
fn quote_children_separated_by_bare_quote_line() {
    let mut s = Serializer::new(vec![], 80);
    let q = Node::new(
        NodeKind::BlockQuote,
        vec![
            Node::new(NodeKind::Paragraph, vec![text("first")]),
            Node::new(NodeKind::Paragraph, vec![text("second")]),
        ],
    );
    s.serialize_block_quote(&q);
    assert_eq!(string_of(&s.output), "> first\n>\n> second\n");
}

#[test]
fn quote_restores_list_state() {
    let mut s = Serializer::new(vec![], 80);
    s.list_depth = 2;
    s.list_type = Some(ListKind::Bullet);
    s.list_item_indent = chars("    ");
    let q = Node::new(
        NodeKind::BlockQuote,
        vec![Node::new(NodeKind::Paragraph, vec![text("inside")])],
    );
    s.serialize_block_quote(&q);
    assert_eq!(s.list_depth, 2);
    assert_eq!(s.list_type, Some(ListKind::Bullet));
    assert_eq!(string_of(&s.list_item_indent), "    ");
    assert!(!s.in_block_quote);
    assert_eq!(string_of(&s.blockquote_prefix), "");
}

#[test]
fn alert_warning_with_blank_line_after_header() {
    let mut s = Serializer::new(vec![], 80);
    let body = Node::with_span(NodeKind::Paragraph, vec![text("Careful.")], 3, 3);
    let a = Node::with_span(NodeKind::Alert(AlertKind::Warning), vec![body], 1, 3);
    s.serialize_alert(&a, AlertKind::Warning);
    let out = string_of(&s.output);
    assert!(out.starts_with("> [!WARNING]\n>\n"), "got: {:?}", out);
    assert_eq!(out, "> [!WARNING]\n>\n> Careful.\n");
}

#[test]
fn alert_without_gap_has_no_blank_line() {
    let mut s = Serializer::new(vec![], 80);
    let body = Node::with_span(NodeKind::Paragraph, vec![text("Tip here.")], 2, 2);
    let a = Node::with_span(NodeKind::Alert(AlertKind::Tip), vec![body], 1, 2);
    s.serialize_alert(&a, AlertKind::Tip);
    assert_eq!(string_of(&s.output), "> [!TIP]\n> Tip here.\n");
}

#[test]
fn table_minimum_width_three() {
    let mut s = Serializer::new(vec![], 80);
    let cell = |t: &str| Node::new(NodeKind::TableCell, vec![text(t)]);
    let header = Node::new(NodeKind::TableRow(true), vec![cell("A"), cell("B")]);
    let row = Node::new(NodeKind::TableRow(false), vec![cell("1"), cell("22")]);
    let aligns = vec![Alignment::Unaligned, Alignment::Unaligned];
    let t = Node::new(NodeKind::Table(aligns.clone()), vec![header, row]);
    s.serialize_table(&t, &aligns);
    let out = string_of(&s.output);
    assert_eq!(out, "| A   | B   |\n| --- | --- |\n| 1   | 22  |\n");
}

#[test]
fn table_alignment_markers() {
    let mut s = Serializer::new(vec![], 80);
    let cell = |t: &str| Node::new(NodeKind::TableCell, vec![text(t)]);
    let header = Node::new(
        NodeKind::TableRow(true),
        vec![cell("l"), cell("c"), cell("r")],
    );
    let aligns = vec![Alignment::Left, Alignment::Center, Alignment::Right];
    let t = Node::new(NodeKind::Table(aligns.clone()), vec![header]);
    s.serialize_table(&t, &aligns);
    let out = string_of(&s.output);
    assert_eq!(out, "| l   | c   | r   |\n| :-- | :-: | --: |\n");
}

#[test]
fn table_cell_pipe_is_escaped() {
    let mut s = Serializer::new(vec![], 80);
    let cell = Node::new(NodeKind::TableCell, vec![text("a|b")]);
    let header = Node::new(NodeKind::TableRow(true), vec![cell]);
    let aligns = vec![Alignment::Unaligned];
    let t = Node::new(NodeKind::Table(aligns.clone()), vec![header]);
    s.serialize_table(&t, &aligns);
    let out = string_of(&s.output);
    assert!(out.contains("a\\|b"), "got: {:?}", out);
}

#[test]
fn table_source_mismatch_warns_with_line() {
    let source = "| a | b |\n| - | - |\n| 1 | 2 | 3 |";
    let mut s = Serializer::new(lines(source), 80);
    let cell = |t: &str| Node::new(NodeKind::TableCell, vec![text(t)]);
    let header = Node::new(NodeKind::TableRow(true), vec![cell("a"), cell("b")]);
    let row = Node::new(NodeKind::TableRow(false), vec![cell("1"), cell("2")]);
    let aligns = vec![Alignment::Unaligned, Alignment::Unaligned];
    let t = Node::with_span(NodeKind::Table(aligns.clone()), vec![header, row], 1, 3);
    s.serialize_table(&t, &aligns);
    assert_eq!(s.warnings.len(), 1);
    assert_eq!(s.warnings[0].line, 3);
    let msg = string_of(&s.warnings[0].message);
    assert_eq!(
        msg,
        "table row has 4 pipe characters, expected 3 for 2 columns; \
         unescaped `|` in cell content? (table starts at line 1)"
    );
}

#[test]
fn count_unescaped_pipes_ignores_escaped() {
    let l = chars("| a \\| b | c |");
    assert_eq!(mdcanon::table::count_unescaped_pipes(&l), 3);
    let l2 = chars("no pipes here");
    assert_eq!(mdcanon::table::count_unescaped_pipes(&l2), 0);
    let l3 = chars("|||");
    assert_eq!(mdcanon::table::count_unescaped_pipes(&l3), 3);
}

#[test]
fn front_matter_keeps_delimiters_and_blank_line() {
    let mut s = Serializer::new(vec![], 80);
    s.serialize_front_matter(&chars("---\ntitle: x\n---\n"));
    assert_eq!(string_of(&s.output), "---\ntitle: x\n---\n\n");
}

#[test]
fn code_block_fenced_with_info() {
    let mut s = Serializer::new(vec![], 80);
    s.serialize_code_block(&chars("rust"), &chars("let x = 1;\n"));
    assert_eq!(string_of(&s.output), "```rust\nlet x = 1;\n```\n");
}

#[test]
fn bullet_list_items() {
    let mut s = Serializer::new(vec![], 80);
    let item = |t: &str| {
        Node::new(
            NodeKind::Item,
            vec![Node::new(NodeKind::Paragraph, vec![text(t)])],
        )
    };
    let l = Node::new(NodeKind::List(ListKind::Bullet), vec![item("one"), item("two")]);
    s.serialize_list(&l, ListKind::Bullet);
    assert_eq!(string_of(&s.output), "- one\n\n- two\n");
    assert_eq!(s.list_depth, 0);
    assert_eq!(s.list_type, None);
}

#[test]
fn ordered_list_numbers_from_one() {
    let mut s = Serializer::new(vec![], 80);
    let item = |t: &str| {
        Node::new(
            NodeKind::Item,
            vec![Node::new(NodeKind::Paragraph, vec![text(t)])],
        )
    };
    let l = Node::new(
        NodeKind::List(ListKind::Ordered),
        vec![item("a"), item("b"), item("c")],
    );
    s.serialize_list(&l, ListKind::Ordered);
    assert_eq!(string_of(&s.output), "1. a\n\n2. b\n\n3. c\n");
}

#[test]
fn document_blank_lines_between_blocks() {
    let doc = Node::new(
        NodeKind::Document,
        vec![
            Node::new(NodeKind::Paragraph, vec![text("one")]),
            Node::new(NodeKind::Paragraph, vec![text("two")]),
        ],
    );
    let (out, warnings) = render_document(&doc, vec![], 80);
    assert_eq!(string_of(&out), "one\n\ntwo\n");
    assert!(warnings.is_empty());
}

#[test]
fn document_two_blank_lines_before_level_two_heading() {
    let doc = Node::new(
        NodeKind::Document,
        vec![
            Node::new(NodeKind::Paragraph, vec![text("intro")]),
            Node::new(NodeKind::Heading(2), vec![text("Sect")]),
        ],
    );
    let (out, _) = render_document(&doc, vec![], 80);
    assert_eq!(string_of(&out), "intro\n\n\nSect\n----\n");
}

#[test]
fn document_one_blank_line_between_consecutive_headings() {
    let doc = Node::new(
        NodeKind::Document,
        vec![
            Node::new(NodeKind::Heading(1), vec![text("Top")]),
            Node::new(NodeKind::Heading(2), vec![text("Sect")]),
        ],
    );
    let (out, _) = render_document(&doc, vec![], 80);
    assert_eq!(string_of(&out), "Top\n===\n\nSect\n----\n");
}

#[test]
fn description_details_marker_and_indent() {
    let mut s = Serializer::new(vec![], 80);
    let d = Node::new(
        NodeKind::DescriptionDetails,
        vec![
            Node::new(NodeKind::Paragraph, vec![text("first part")]),
            Node::new(NodeKind::Paragraph, vec![text("second part")]),
        ],
    );
    s.serialize_description_details(&d);
    assert_eq!(string_of(&s.output), ":   first part\n\n    second part\n");
    assert!(!s.in_description_details);
}

#[test]
fn abbreviation_definition_paragraph_passes_through() {
    let source = "*[HTML]: HyperText Markup Language";
    let mut s = Serializer::new(lines(source), 80);
    let p = Node::with_span(NodeKind::Paragraph, vec![text("HTML : HyperText")], 1, 1);
    s.serialize_paragraph(&p);
    assert_eq!(string_of(&s.output), "*[HTML]: HyperText Markup Language\n");
}

#[test]
fn nested_quote_keeps_single_paragraph_prefix_and_restores() {
    // Paragraph lines carry one quote marker whatever the nesting depth;
    // the accumulated prefix serves the separator and alert header lines.
    let mut s = Serializer::new(vec![], 80);
    let inner = Node::new(
        NodeKind::BlockQuote,
        vec![Node::new(NodeKind::Paragraph, vec![text("deep")])],
    );
    let outer = Node::new(NodeKind::BlockQuote, vec![inner]);
    s.serialize_block_quote(&outer);
    assert_eq!(string_of(&s.output), "> deep\n");
    assert!(!s.in_block_quote);
    assert_eq!(string_of(&s.blockquote_prefix), "");
}

#[test]
fn table_inside_quote_carries_prefix() {
    let mut s = Serializer::new(vec![], 80);
    let cell = |t: &str| Node::new(NodeKind::TableCell, vec![text(t)]);
    let header = Node::new(NodeKind::TableRow(true), vec![cell("x")]);
    let aligns = vec![Alignment::Unaligned];
    let table = Node::new(NodeKind::Table(aligns), vec![header]);
    let quote = Node::new(NodeKind::BlockQuote, vec![table]);
    s.serialize_block_quote(&quote);
    assert_eq!(string_of(&s.output), "> | x   |\n> | --- |\n");
}

#[test]
fn footnote_reference_renders_inline() {
    let mut s = Serializer::new(vec![], 80);
    let p = Node::new(
        NodeKind::Paragraph,
        vec![
            text("see"),
            Node::new(NodeKind::FootnoteReference(chars("n1")), vec![]),
        ],
    );
    s.serialize_paragraph(&p);
    assert_eq!(string_of(&s.output), "see[^n1]\n");
}

#[test]
fn no_extra_blank_line_after_front_matter() {
    let doc = Node::new(
        NodeKind::Document,
        vec![
            Node::new(
                NodeKind::FrontMatter(chars("---\ntitle: x\n---\n")),
                vec![],
            ),
            Node::new(NodeKind::Paragraph, vec![text("para")]),
        ],
    );
    let (out, _) = render_document(&doc, vec![], 80);
    assert_eq!(string_of(&out), "---\ntitle: x\n---\n\npara\n");
}
