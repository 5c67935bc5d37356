use mdcanon::document::render_document;
use mdcanon::node::{Node, NodeKind};
use mdcanon::state::Serializer;
use mdcanon::wrap::{append_wrapped, append_wrapped_first_line};

fn chars(s: &str) -> Vec<char> {
    s.chars().collect()
}

fn text(s: &str) -> Node {
    Node::new(NodeKind::Text(chars(s)), vec![])
}

fn string_of(v: &[char]) -> String {
    v.iter().collect()
}

#[test]
fn wrap_eighty_chars_at_forty_makes_two_lines() {
    // An eighty-character sentence at width forty wraps to lines within the
    // width, word boundaries kept.
    let body = "the quick brown fox jumps over a lazy dog and then naps in the warm sun all day";
    assert_eq!(body.chars().count(), 79);
    let mut out: Vec<char> = Vec::new();
    append_wrapped(&mut out, &chars(body), &[], 40);
    let s = string_of(&out);
    let ls: Vec<&str> = s.split('\n').collect();
    assert!(ls.len() >= 2);
    for l in &ls {
        assert!(l.chars().count() <= 40, "too long: {:?}", l);
    }
    assert_eq!(ls.join(" "), body);
}

#[test]
fn wrap_keeps_prefix_on_every_line() {
    let body = "alpha beta gamma delta epsilon zeta eta theta iota kappa";
    let mut out: Vec<char> = Vec::new();
    append_wrapped(&mut out, &chars(body), &chars("> "), 20);
    let s = string_of(&out);
    for l in s.split('\n') {
        assert!(l.starts_with("> "), "missing prefix: {:?}", l);
    }
}

#[test]
fn wrap_first_line_prefix_differs() {
    let body = "one two three four five six seven eight nine";
    let mut out: Vec<char> = Vec::new();
    append_wrapped_first_line(&mut out, &chars(body), &[], &chars("    "), 20);
    let s = string_of(&out);
    let ls: Vec<&str> = s.split('\n').collect();
    assert!(!ls[0].starts_with(' '));
    for l in &ls[1..] {
        assert!(l.starts_with("    "), "missing indent: {:?}", l);
    }
}

#[test]
fn wrap_single_long_word_is_not_split() {
    let body = "pneumonoultramicroscopicsilicovolcanoconiosis";
    let mut out: Vec<char> = Vec::new();
    append_wrapped(&mut out, &chars(body), &[], 10);
    assert_eq!(string_of(&out), body);
}

#[test]
fn wrap_collapses_runs_of_spaces() {
    let mut out: Vec<char> = Vec::new();
    append_wrapped(&mut out, &chars("a    b  c"), &[], 40);
    assert_eq!(string_of(&out), "a b c");
}

#[test]
fn list_paragraph_continuation_indent() {
    let mut s = Serializer::new(vec![], 20);
    let item = Node::new(
        NodeKind::Item,
        vec![Node::new(
            NodeKind::Paragraph,
            vec![text("alpha beta gamma delta epsilon")],
        )],
    );
    let l = Node::new(NodeKind::List(mdcanon::node::ListKind::Bullet), vec![item]);
    s.serialize_list(&l, mdcanon::node::ListKind::Bullet);
    let out = string_of(&s.output);
    let ls: Vec<&str> = out.trim_end().split('\n').collect();
    assert!(ls.len() >= 2, "expected wrapping: {:?}", out);
    assert!(ls[0].starts_with("- alpha"));
    for l in &ls[1..] {
        assert!(l.starts_with("    "), "continuation not indented: {:?}", l);
    }
}

#[test]
fn too_few_pipes_warning_message() {
    let source = "| a | b |\n| - | - |\nonly one";
    let src: Vec<Vec<char>> = source.lines().map(|l| l.chars().collect()).collect();
    let mut s = Serializer::new(src, 80);
    let cell = |t: &str| Node::new(NodeKind::TableCell, vec![text(t)]);
    let header = Node::new(NodeKind::TableRow(true), vec![cell("a"), cell("b")]);
    let aligns = vec![
        mdcanon::node::Alignment::Unaligned,
        mdcanon::node::Alignment::Unaligned,
    ];
    let t = Node::with_span(NodeKind::Table(aligns.clone()), vec![header], 1, 3);
    s.serialize_table(&t, &aligns);
    assert_eq!(s.warnings.len(), 1);
    assert_eq!(s.warnings[0].line, 3);
    let msg: String = s.warnings[0].message.iter().collect();
    assert_eq!(
        msg,
        "table row has 0 pipe characters, expected at least 2 for 2 columns \
         (table starts at line 1)"
    );
}

#[test]
fn inline_markers_preserved_in_paragraph() {
    let em = Node::new(NodeKind::Emph, vec![text("em")]);
    let strong = Node::new(NodeKind::Strong, vec![text("st")]);
    let link = Node::new(NodeKind::Link(chars("https://e.x")), vec![text("lnk")]);
    let code = Node::new(NodeKind::Code(chars("c()")), vec![]);
    let doc = Node::new(
        NodeKind::Document,
        vec![Node::new(
            NodeKind::Paragraph,
            vec![em, text(" "), strong, text(" "), link, text(" "), code],
        )],
    );
    let (out, _) = render_document(&doc, vec![], 80);
    let s = string_of(&out);
    assert_eq!(s, "*em* **st** [lnk](https://e.x) `c()`\n");
}

#[test]
fn thematic_break_renders_dashes() {
    let doc = Node::new(
        NodeKind::Document,
        vec![
            Node::new(NodeKind::Paragraph, vec![text("a")]),
            Node::new(NodeKind::ThematicBreak, vec![]),
        ],
    );
    let (out, _) = render_document(&doc, vec![], 80);
    assert_eq!(string_of(&out), "a\n\n---\n");
}
