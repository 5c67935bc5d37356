//! The document tree consumed by the serializer.
//!
//! The serializer never parses raw Markdown itself: it walks a tree of typed
//! nodes that an external parser produced.  Every payload is held as plain
//! characters, and source positions are plain line numbers (`0` meaning that
//! no source position is available).

use vstd::prelude::*;

verus! {

/// Column alignment of a table, as the parser reported it.
#[derive(Clone, Copy, PartialEq, Eq, Structural, Debug)]
pub enum Alignment {
    Unaligned,
    Left,
    Center,
    Right,
}

/// The five alert callout kinds.
#[derive(Clone, Copy, PartialEq, Eq, Structural, Debug)]
pub enum AlertKind {
    Note,
    Tip,
    Important,
    Warning,
    Caution,
}

/// Whether a list is bulleted or numbered.
#[derive(Clone, Copy, PartialEq, Eq, Structural, Debug)]
pub enum ListKind {
    Bullet,
    Ordered,
}

/// The kind of a document node, with its payload.
pub enum NodeKind {
    Document,
    /// Front matter, verbatim, delimiters included.
    FrontMatter(Vec<char>),
    /// A heading with its level.
    Heading(u8),
    Paragraph,
    BlockQuote,
    /// A typed alert callout; rendered as a blockquote with a header line.
    Alert(AlertKind),
    /// A table, with one alignment per expected column.
    Table(Vec<Alignment>),
    /// A table row; `true` for the header row.
    TableRow(bool),
    TableCell,
    List(ListKind),
    Item,
    DescriptionList,
    DescriptionItem,
    DescriptionTerm,
    DescriptionDetails,
    /// A code block: the info string and the literal code.
    CodeBlock(Vec<char>, Vec<char>),
    /// A raw HTML block, verbatim.
    HtmlBlock(Vec<char>),
    /// A footnote definition, with the footnote's name.
    FootnoteDefinition(Vec<char>),
    /// A reference to a footnote by name.
    FootnoteReference(Vec<char>),
    ThematicBreak,
    /// Inline literal text.
    Text(Vec<char>),
    /// Inline code span.
    Code(Vec<char>),
    Emph,
    Strong,
    /// A link with its destination URL; the children are the link text.
    Link(Vec<char>),
    /// An image with its source URL; the children are the alt text.
    Image(Vec<char>),
    SoftBreak,
    LineBreak,
}

/// One node of the document tree.
pub struct Node {
    pub kind: NodeKind,
    pub children: Vec<Node>,
    /// First source line of the node, 1-based; 0 when unknown.
    pub start_line: usize,
    /// Last source line of the node, 1-based; 0 when unknown.
    pub end_line: usize,
}

/// The canonical inline rendering of a node: literal text with emphasis,
/// code spans, links and footnote references re-spelled in canonical form.
pub open spec fn inline_text(n: Node) -> Seq<char>
    decreases n, 1int, 0int,
{
    match n.kind {
        NodeKind::Text(t) => t@,
        NodeKind::Code(t) => seq!['`'] + t@ + seq!['`'],
        NodeKind::Emph => seq!['*'] + inline_children(n.children@, 0) + seq!['*'],
        NodeKind::Strong => seq!['*', '*'] + inline_children(n.children@, 0) + seq!['*', '*'],
        NodeKind::Link(url) => seq!['['] + inline_children(n.children@, 0) + seq![']', '('] + url@
            + seq![')'],
        NodeKind::Image(url) => seq!['!', '['] + inline_children(n.children@, 0) + seq![']', '(']
            + url@ + seq![')'],
        NodeKind::FootnoteReference(name) => seq!['[', '^'] + name@ + seq![']'],
        NodeKind::SoftBreak => seq![' '],
        NodeKind::LineBreak => seq![' '],
        _ => inline_children(n.children@, 0),
    }
}

/// The concatenated inline rendering of `s[i..]`.
pub open spec fn inline_children(s: Seq<Node>, i: int) -> Seq<char>
    decreases s, 0int, s.len() - i,
{
    if i < 0 || i >= s.len() {
        Seq::empty()
    } else {
        inline_text(s[i]) + inline_children(s, i + 1)
    }
}

/// The plain text of a node: literal text and code contents only, with no
/// markers around them.  Used for heading rules, whose length must equal the
/// visible text length.
pub open spec fn plain_text(n: Node) -> Seq<char>
    decreases n, 1int, 0int,
{
    match n.kind {
        NodeKind::Text(t) => t@,
        NodeKind::Code(t) => t@,
        _ => plain_children(n.children@, 0),
    }
}

/// The concatenated plain text of `s[i..]`.
pub open spec fn plain_children(s: Seq<Node>, i: int) -> Seq<char>
    decreases s, 0int, s.len() - i,
{
    if i < 0 || i >= s.len() {
        Seq::empty()
    } else {
        plain_text(s[i]) + plain_children(s, i + 1)
    }
}

impl Node {
    /// A node with no source position.
    pub fn new(kind: NodeKind, children: Vec<Node>) -> (n: Node)
        ensures
            n.kind == kind,
            n.children == children,
            n.start_line == 0,
            n.end_line == 0,
    {
        Node { kind, children, start_line: 0, end_line: 0 }
    }

    /// A node with a source line span.
    pub fn with_span(kind: NodeKind, children: Vec<Node>, start_line: usize, end_line: usize) -> (
        n: Node)
        ensures
            n.kind == kind,
            n.children == children,
            n.start_line == start_line,
            n.end_line == end_line,
    {
        Node { kind, children, start_line, end_line }
    }
}

/// Append the canonical inline rendering of `n` to `out`.
pub fn collect_inline_content(n: &Node, out: &mut Vec<char>)
    ensures
        final(out)@ == old(out)@ + inline_text(*n),
    decreases *n,
{
    match &n.kind {
        NodeKind::Text(t) => {
            crate::text::append_chars(out, t.as_slice());
        },
        NodeKind::Code(t) => {
            out.push('`');
            crate::text::append_chars(out, t.as_slice());
            out.push('`');
            proof {
                assert(out@ =~= old(out)@ + inline_text(*n));
            }
        },
        NodeKind::Emph => {
            out.push('*');
            collect_inline_children(n, out);
            out.push('*');
            proof {
                assert(out@ =~= old(out)@ + inline_text(*n));
            }
        },
        NodeKind::Strong => {
            out.push('*');
            out.push('*');
            collect_inline_children(n, out);
            out.push('*');
            out.push('*');
            proof {
                assert(out@ =~= old(out)@ + inline_text(*n));
            }
        },
        NodeKind::Link(url) => {
            out.push('[');
            collect_inline_children(n, out);
            out.push(']');
            out.push('(');
            crate::text::append_chars(out, url.as_slice());
            out.push(')');
            proof {
                assert(out@ =~= old(out)@ + inline_text(*n));
            }
        },
        NodeKind::Image(url) => {
            out.push('!');
            out.push('[');
            collect_inline_children(n, out);
            out.push(']');
            out.push('(');
            crate::text::append_chars(out, url.as_slice());
            out.push(')');
            proof {
                assert(out@ =~= old(out)@ + inline_text(*n));
            }
        },
        NodeKind::FootnoteReference(name) => {
            out.push('[');
            out.push('^');
            crate::text::append_chars(out, name.as_slice());
            out.push(']');
            proof {
                assert(out@ =~= old(out)@ + inline_text(*n));
            }
        },
        NodeKind::SoftBreak => {
            out.push(' ');
            proof {
                assert(out@ =~= old(out)@ + inline_text(*n));
            }
        },
        NodeKind::LineBreak => {
            out.push(' ');
            proof {
                assert(out@ =~= old(out)@ + inline_text(*n));
            }
        },
        _ => {
            collect_inline_children(n, out);
            proof {
                assert(out@ =~= old(out)@ + inline_text(*n));
            }
        },
    }
}

/// Append the inline rendering of every child of `n` to `out`.
fn collect_inline_children(n: &Node, out: &mut Vec<char>)
    ensures
        final(out)@ == old(out)@ + inline_children(n.children@, 0),
    decreases *n, 0int,
{
    let ghost cs = n.children@;
    let mut i: usize = 0;
    while i < n.children.len()
        invariant
            i <= cs.len(),
            n.children@ == cs,
            old(out)@ + inline_children(cs, 0) == out@ + inline_children(cs, i as int),
        decreases cs.len() - i,
    {
        let ghost prev = out@;
        collect_inline_content(&n.children[i], out);
        proof {
            assert(inline_children(cs, i as int) == inline_text(cs[i as int]) + inline_children(
                cs,
                i as int + 1,
            ));
            assert(out@ + inline_children(cs, i as int + 1) =~= prev + inline_children(
                cs,
                i as int,
            ));
        }
        i = i + 1;
    }
    proof {
        assert(inline_children(cs, cs.len() as int) =~= Seq::<char>::empty());
        assert(out@ + inline_children(cs, cs.len() as int) =~= out@);
    }
}

/// Append the plain text of `n` to `out`.
pub fn collect_text(n: &Node, out: &mut Vec<char>)
    ensures
        final(out)@ == old(out)@ + plain_text(*n),
    decreases *n,
{
    match &n.kind {
        NodeKind::Text(t) => {
            crate::text::append_chars(out, t.as_slice());
        },
        NodeKind::Code(t) => {
            crate::text::append_chars(out, t.as_slice());
        },
        _ => {
            collect_plain_children(n, out);
            proof {
                assert(out@ =~= old(out)@ + plain_text(*n));
            }
        },
    }
}

/// Append the plain text of every child of `n` to `out`.
fn collect_plain_children(n: &Node, out: &mut Vec<char>)
    ensures
        final(out)@ == old(out)@ + plain_children(n.children@, 0),
    decreases *n, 0int,
{
    let ghost cs = n.children@;
    let mut i: usize = 0;
    while i < n.children.len()
        invariant
            i <= cs.len(),
            n.children@ == cs,
            old(out)@ + plain_children(cs, 0) == out@ + plain_children(cs, i as int),
        decreases cs.len() - i,
    {
        let ghost prev = out@;
        collect_text(&n.children[i], out);
        proof {
            assert(plain_children(cs, i as int) == plain_text(cs[i as int]) + plain_children(
                cs,
                i as int + 1,
            ));
            assert(out@ + plain_children(cs, i as int + 1) =~= prev + plain_children(
                cs,
                i as int,
            ));
        }
        i = i + 1;
    }
    proof {
        assert(plain_children(cs, cs.len() as int) =~= Seq::<char>::empty());
        assert(out@ + plain_children(cs, cs.len() as int) =~= out@);
    }
}

} // verus!
