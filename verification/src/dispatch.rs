//! The node dispatcher: a total switch over node kinds, routing each node to
//! its handler.  Unhandled kinds fall back to rendering their children.
//!
//! Every handler obeys the walk contract: the nesting context is restored
//! before returning, the output is only appended to, the directive flags and
//! the pending-footnote queue are untouched, and warnings are only appended.

use vstd::prelude::*;

verus! {

use crate::node::{Node, NodeKind};
use crate::state::{Serializer, same_config, same_context, same_flags};

/// A sequence is a prefix of itself.
pub proof fn lemma_prefix_refl(a: Seq<char>)
    ensures
        a.is_prefix_of(a),
{
    assert(a =~= a.subrange(0, a.len() as int));
}

/// Appending only extends: the original is a prefix of the result.
pub proof fn lemma_append_prefix(a: Seq<char>, b: Seq<char>)
    ensures
        a.is_prefix_of(a + b),
{
    assert(a =~= (a + b).subrange(0, a.len() as int));
}

/// Prefixes chain.
pub proof fn lemma_prefix_trans(a: Seq<char>, b: Seq<char>, c: Seq<char>)
    requires
        a.is_prefix_of(b),
        b.is_prefix_of(c),
    ensures
        a.is_prefix_of(c),
{
    assert forall|i: int| 0 <= i < a.len() implies a[i] == c[i] by {
        assert(a[i] == b.subrange(0, a.len() as int)[i]);
        assert(b[i] == c.subrange(0, b.len() as int)[i]);
    }
    assert(a =~= c.subrange(0, a.len() as int));
}

/// When a combined prefix `a + b` starts `c`, the part after `a` starts with
/// `b`.
pub proof fn lemma_prefix_skip(a: Seq<char>, b: Seq<char>, c: Seq<char>)
    requires
        (a + b).is_prefix_of(c),
    ensures
        b.is_prefix_of(c.skip(a.len() as int)),
{
    let t = c.skip(a.len() as int);
    assert forall|i: int| 0 <= i < b.len() implies b[i] == t[i] by {
        assert((a + b)[a.len() + i] == c.subrange(0, (a + b).len() as int)[a.len() + i]);
    }
    assert(b =~= t.subrange(0, b.len() as int));
}

/// The canonical rendering of an HTML block: the literal, with one line
/// break appended when the literal does not already end in one.
pub open spec fn html_render(lit: Seq<char>) -> Seq<char> {
    if lit.len() > 0 && lit.last() == '\n' {
        lit
    } else {
        lit + seq!['\n']
    }
}


/// The rendering context: the parts of the render state that decide what a
/// node's canonical text looks like, as plain mathematical values.
#[verifier::ext_equal]
pub struct RenderCtx {
    pub in_block_quote: bool,
    pub blockquote_prefix: Seq<char>,
    pub list_item_indent: Seq<char>,
    pub list_active: bool,
    pub list_depth: int,
    pub in_description_details: bool,
    pub line_width: int,
    pub source_lines: Seq<Vec<char>>,
}

/// The rendering context a serializer state stands in.
pub open spec fn ctx_of(s: Serializer) -> RenderCtx {
    RenderCtx {
        in_block_quote: s.in_block_quote,
        blockquote_prefix: s.blockquote_prefix@,
        list_item_indent: s.list_item_indent@,
        list_active: s.list_type is Some,
        list_depth: s.list_depth as int,
        in_description_details: s.in_description_details,
        line_width: s.line_width as int,
        source_lines: s.source_lines@,
    }
}

/// The context inside a freshly entered quote: one more prefix unit, list
/// nesting reset.
pub open spec fn quote_inner_ctx(c: RenderCtx) -> RenderCtx {
    RenderCtx {
        in_block_quote: true,
        blockquote_prefix: c.blockquote_prefix + seq!['>', ' '],
        list_item_indent: Seq::empty(),
        list_active: false,
        list_depth: 0,
        ..c
    }
}

/// The bare quote-continuation line that separates a quote's children.
pub open spec fn quote_sep(c: RenderCtx) -> Seq<char> {
    c.list_item_indent + c.blockquote_prefix + seq!['>', '\n']
}

/// The quote prefix a paragraph line carries.
pub open spec fn qp(c: RenderCtx) -> Seq<char> {
    if c.in_block_quote {
        seq!['>', ' ']
    } else {
        Seq::<char>::empty()
    }
}

/// The continuation-line prefix of a wrapped paragraph inside a list.
pub open spec fn list_cont(c: RenderCtx) -> Seq<char> {
    qp(c) + (if c.in_description_details {
        crate::text::repeat_char(' ', 5)
    } else {
        Seq::<char>::empty()
    }) + crate::text::repeat_char(' ', (4 * c.list_depth) as nat)
}

/// Whether the paragraph takes the abbreviation-definition fast path.
pub open spec fn para_abbrev(n: Node, c: RenderCtx) -> bool {
    crate::state::source_span_ok(c.source_lines, n.start_line as int, n.end_line as int)
        && crate::document::is_abbrev_def(
        crate::text::trimmed(
            crate::state::source_text(c.source_lines, n.start_line as int, n.end_line as int + 1),
        ),
    )
}

/// The canonical text of a paragraph under the given context.
pub open spec fn para_render(n: Node, c: RenderCtx) -> Seq<char> {
    if para_abbrev(n, c) {
        crate::text::trimmed(
            crate::state::source_text(c.source_lines, n.start_line as int, n.end_line as int + 1),
        ) + seq!['\n']
    } else if c.list_active {
        crate::wrap::wrapped(
            crate::node::inline_text(n),
            Seq::empty(),
            list_cont(c),
            c.line_width,
        )
    } else {
        crate::wrap::wrapped(crate::node::inline_text(n), qp(c), qp(c), c.line_width)
            + seq!['\n']
    }
}

/// The header line of an alert.
pub open spec fn alert_head(c: RenderCtx, kind: crate::node::AlertKind) -> Seq<char> {
    c.list_item_indent + c.blockquote_prefix + seq!['>', ' ', '[', '!']
        + crate::block::alert_label(kind) + seq![']', '\n']
}

/// Whether the alert's source shows a blank line between its header and its
/// first child.
pub open spec fn alert_gap(n: Node) -> bool {
    n.children@.len() > 0 && n.start_line < usize::MAX && n.children@[0].start_line
        > n.start_line + 1
}

/// The marker indent of a list entered from context `c`.
pub open spec fn list_marker_indent(c: RenderCtx) -> Seq<char> {
    (if c.in_description_details {
        crate::text::repeat_char(' ', 5)
    } else {
        Seq::<char>::empty()
    }) + crate::text::repeat_char(' ', (4 * (list_inner_depth(c) - 1)) as nat)
}

/// The list depth inside a list entered from context `c`.
pub open spec fn list_inner_depth(c: RenderCtx) -> int {
    if c.list_depth < usize::MAX as int {
        c.list_depth + 1
    } else {
        c.list_depth
    }
}

/// The context inside a list entered from `c`.
pub open spec fn list_inner_ctx(c: RenderCtx, kind: crate::node::ListKind) -> RenderCtx {
    RenderCtx {
        list_active: true,
        list_depth: list_inner_depth(c),
        list_item_indent: list_marker_indent(c),
        ..c
    }
}

/// The marker of list item number `i` (zero-based).
pub open spec fn list_marker(kind: crate::node::ListKind, i: int) -> Seq<char> {
    match kind {
        crate::node::ListKind::Bullet => seq!['-', ' '],
        crate::node::ListKind::Ordered => crate::text::dec_digits((i + 1) as nat) + seq!['.', ' '],
    }
}

/// The canonical text of one node under context `c`.
pub open spec fn node_render(n: Node, c: RenderCtx) -> Seq<char>
    decreases n, 3int, 0int,
{
    match n.kind {
        NodeKind::FrontMatter(t) => crate::text::trimmed(t@) + seq!['\n', '\n'],
        NodeKind::Heading(level) => crate::document::heading_render(level, crate::node::plain_text(n)),
        NodeKind::Paragraph => para_render(n, c),
        NodeKind::BlockQuote => quote_render(n, c),
        NodeKind::Alert(kind) => alert_head(c, kind) + (if alert_gap(n) {
            quote_sep(c)
        } else {
            Seq::<char>::empty()
        }) + quote_render(n, c),
        NodeKind::Table(aligns) => if n.children@.len() == 0 {
            Seq::<char>::empty()
        } else {
            crate::table::table_render(
                crate::table::table_cells(n),
                aligns@,
                crate::table::widths_of(crate::table::table_cells(n), aligns@.len()),
                c.in_block_quote,
            )
        },
        NodeKind::TableRow(_) => Seq::empty(),
        NodeKind::TableCell => Seq::empty(),
        NodeKind::FootnoteDefinition(_) => Seq::empty(),
        NodeKind::List(kind) => list_items(n.children@, 0, kind, list_inner_ctx(c, kind)),
        NodeKind::CodeBlock(info, lit) => crate::document::code_render(info@, lit@),
        NodeKind::HtmlBlock(lit) => html_render(lit@),
        NodeKind::ThematicBreak => "---\n"@,
        NodeKind::DescriptionDetails => details_body(
            n.children@,
            0,
            (RenderCtx { in_description_details: true, ..c }),
        ),
        NodeKind::DescriptionTerm => crate::node::inline_text(n) + seq!['\n'],
        NodeKind::Text(_) => crate::node::inline_text(n),
        NodeKind::Code(_) => crate::node::inline_text(n),
        NodeKind::Emph => crate::node::inline_text(n),
        NodeKind::Strong => crate::node::inline_text(n),
        NodeKind::Link(_) => crate::node::inline_text(n),
        NodeKind::Image(_) => crate::node::inline_text(n),
        NodeKind::FootnoteReference(_) => crate::node::inline_text(n),
        NodeKind::SoftBreak => crate::node::inline_text(n),
        NodeKind::LineBreak => crate::node::inline_text(n),
        _ => children_render(n.children@, 0, c),
    }
}

/// The canonical text of `s[i..]`, rendered in order with no separators.
pub open spec fn children_render(s: Seq<Node>, i: int, c: RenderCtx) -> Seq<char>
    decreases s, 2int, s.len() - i,
{
    if i < 0 || i >= s.len() {
        Seq::empty()
    } else {
        node_render(s[i], c) + children_render(s, i + 1, c)
    }
}

/// The body of a quote: its children under the inner context, consecutive
/// children parted by one bare quote-continuation line.
pub open spec fn quote_body(s: Seq<Node>, i: int, inner: RenderCtx, sep: Seq<char>) -> Seq<char>
    decreases s, 2int, s.len() - i,
{
    if i < 0 || i >= s.len() {
        Seq::empty()
    } else {
        (if i > 0 {
            sep
        } else {
            Seq::<char>::empty()
        }) + node_render(s[i], inner) + quote_body(s, i + 1, inner, sep)
    }
}

/// The canonical text of a block quote under context `c`.
pub open spec fn quote_render(n: Node, c: RenderCtx) -> Seq<char>
    decreases n, 2int, 0int,
{
    quote_body(n.children@, 0, quote_inner_ctx(c), quote_sep(c))
}

/// The items of a list from item `i` on: a blank line between items, then
/// the ambient quote prefix, the marker indent, the item marker, the item's
/// content, and a line break.
pub open spec fn list_items(
    s: Seq<Node>,
    i: int,
    kind: crate::node::ListKind,
    inner: RenderCtx,
) -> Seq<char>
    decreases s, 2int, s.len() - i,
{
    if i < 0 || i >= s.len() {
        Seq::empty()
    } else {
        (if i > 0 {
            seq!['\n']
        } else {
            Seq::<char>::empty()
        }) + (if inner.in_block_quote {
            inner.blockquote_prefix
        } else {
            Seq::<char>::empty()
        }) + inner.list_item_indent + list_marker(kind, i) + children_render(s[i].children@, 0, inner)
            + seq!['\n'] + list_items(s, i + 1, kind, inner)
    }
}

/// The wrapped text of one details paragraph: trimmed content with a
/// four-space hanging indent and a line break.
pub open spec fn details_para(n: Node, width: int) -> Seq<char> {
    crate::wrap::wrapped(
        crate::text::trimmed(crate::node::inline_text(n)),
        Seq::empty(),
        seq![' ', ' ', ' ', ' '],
        width,
    ) + seq!['\n']
}

/// A fenced code block re-indented by four spaces: the indent, then the
/// block with four more spaces after every inner line break.
pub open spec fn details_code(info: Seq<char>, lit: Seq<char>) -> Seq<char> {
    seq![' ', ' ', ' ', ' '] + indent_breaks(crate::document::code_render(info, lit), 0)
}

/// `s[i..]` with four spaces inserted after every line break that is not
/// the final character.
pub open spec fn indent_breaks(s: Seq<char>, i: int) -> Seq<char>
    decreases s.len() - i,
{
    if i < 0 || i >= s.len() {
        Seq::empty()
    } else if s[i] == '\n' && i + 1 < s.len() {
        seq!['\n', ' ', ' ', ' ', ' '] + indent_breaks(s, i + 1)
    } else {
        seq![s[i]] + indent_breaks(s, i + 1)
    }
}

/// The body of a description-details block from child `i` on: the `:   `
/// marker forms before the first child, blank lines and four-space indents
/// before and around the rest.
pub open spec fn details_body(s: Seq<Node>, i: int, inner: RenderCtx) -> Seq<char>
    decreases s, 2int, s.len() - i,
{
    if i < 0 || i >= s.len() {
        Seq::empty()
    } else {
        let lead = if i == 0 {
            match s[i].kind {
                NodeKind::Paragraph => ":   "@,
                NodeKind::CodeBlock(_, _) => ":   \n"@,
                NodeKind::List(_) => ":\n"@,
                _ => ":   "@,
            }
        } else {
            seq!['\n'] + (match s[i].kind {
                NodeKind::Paragraph => "    "@,
                NodeKind::CodeBlock(_, _) => Seq::<char>::empty(),
                NodeKind::List(_) => Seq::<char>::empty(),
                _ => "    "@,
            })
        };
        let body = match s[i].kind {
            NodeKind::Paragraph => details_para(s[i], inner.line_width),
            NodeKind::CodeBlock(info, lit) => details_code(info@, lit@),
            _ => node_render(s[i], inner),
        };
        lead + body + details_body(s, i + 1, inner)
    }
}

/// Render one node into the output, dispatching on its kind.
pub fn serialize_node(s: &mut Serializer, node: &Node)
    ensures
        same_context(*old(s), *final(s)),
        same_config(*old(s), *final(s)),
        same_flags(*old(s), *final(s)),
        old(s).output@.is_prefix_of(final(s).output@),
        final(s).output@ == old(s).output@ + node_render(*node, ctx_of(*old(s))),
        final(s).pending_footnotes == old(s).pending_footnotes,
        old(s).warnings@.is_prefix_of(final(s).warnings@),
    decreases *node, 2int,
{
    let ghost c = ctx_of(*old(s));
    match &node.kind {
        NodeKind::FrontMatter(t) => {
            let ghost base = s.output@;
            s.serialize_front_matter(t.as_slice());
            proof {
                reveal(crate::dispatch::node_render);
                lemma_append_prefix(
                    base,
                    crate::text::trimmed(t@) + seq!['\n', '\n'],
                );
                assert(s.output@ =~= base + node_render(*node, c));
            }
        },
        NodeKind::Heading(level) => {
            let lv: u8 = *level;
            let ghost base = s.output@;
            s.serialize_heading(node, lv);
            proof {
                reveal(crate::dispatch::node_render);
                lemma_append_prefix(base, final(s).output@.skip(base.len() as int));
                assert(base + final(s).output@.skip(base.len() as int) =~= final(s).output@);
                assert(s.output@ == base + node_render(*node, c));
            }
        },
        NodeKind::Paragraph => {
            let ghost base = s.output@;
            s.serialize_paragraph(node);
            proof {
                reveal(crate::dispatch::node_render);
                assert(para_abbrev(*node, c) == crate::document::paragraph_is_abbrev(
                    *old(s),
                    *node,
                ));
                assert(qp(c) == crate::document::para_prefix(*old(s)));
                assert(list_cont(c) =~= crate::document::list_continuation(*old(s)));
                assert(s.output@ == base + node_render(*node, c));
            }
        },
        NodeKind::BlockQuote => {
            let ghost base = s.output@;
            s.serialize_block_quote(node);
            proof {
                reveal(crate::dispatch::node_render);
                assert(s.output@ == base + node_render(*node, c));
            }
        },
        NodeKind::Alert(kind) => {
            let k = *kind;
            let ghost base = s.output@;
            s.serialize_alert(node, k);
            proof {
                reveal(crate::dispatch::node_render);
                assert(s.output@ =~= base + node_render(*node, c));
            }
        },
        NodeKind::Table(aligns) => {
            let ghost base = s.output@;
            s.serialize_table(node, aligns);
            proof {
                reveal(crate::dispatch::node_render);
                assert(s.output@ =~= base + node_render(*node, c));
            }
        },
        NodeKind::TableRow(is_header) => {
            let h = *is_header;
            let ghost base = s.output@;
            s.serialize_table_row(node, h);
            proof {
                reveal(crate::dispatch::node_render);
                assert(s.output@ =~= base + node_render(*node, c));
                lemma_prefix_refl(s.output@);
                lemma_prefix_refl_w(s.warnings@);
            }
        },
        NodeKind::TableCell => {
            proof {
                reveal(crate::dispatch::node_render);
                lemma_prefix_refl(s.output@);
                lemma_prefix_refl_w(s.warnings@);
                assert(s.output@ =~= s.output@ + node_render(*node, c));
            }
        },
        NodeKind::List(kind) => {
            let k = *kind;
            let ghost base = s.output@;
            s.serialize_list(node, k);
            proof {
                reveal(crate::dispatch::node_render);
                assert(s.output@ == base + node_render(*node, c));
            }
        },
        NodeKind::CodeBlock(info, lit) => {
            let ghost base = s.output@;
            s.serialize_code_block(info.as_slice(), lit.as_slice());
            proof {
                reveal(crate::dispatch::node_render);
                lemma_append_prefix(base, final(s).output@.skip(base.len() as int));
                assert(base + final(s).output@.skip(base.len() as int) =~= final(s).output@);
                assert(s.output@ == base + node_render(*node, c));
            }
        },
        NodeKind::HtmlBlock(lit) => {
            let ghost base = s.output@;
            s.serialize_html_block(lit.as_slice());
            proof {
                reveal(crate::dispatch::node_render);
                lemma_append_prefix(base, html_render(lit@));
                assert(s.output@ == base + node_render(*node, c));
            }
        },
        NodeKind::FootnoteDefinition(_) => {
            proof {
                reveal(crate::dispatch::node_render);
                lemma_prefix_refl(s.output@);
                lemma_prefix_refl_w(s.warnings@);
                assert(s.output@ =~= s.output@ + node_render(*node, c));
            }
        },
        NodeKind::ThematicBreak => {
            let ghost base = s.output@;
            crate::text::append_str(&mut s.output, "---\n");
            proof {
                reveal(crate::dispatch::node_render);
                lemma_append_prefix(base, "---\n"@);
                assert(s.output@ == base + node_render(*node, c));
            }
        },
        NodeKind::DescriptionDetails => {
            let ghost base = s.output@;
            s.serialize_description_details(node);
            proof {
                reveal(crate::dispatch::node_render);
                assert(s.output@ == base + node_render(*node, c));
            }
        },
        NodeKind::DescriptionTerm => {
            let ghost base = s.output@;
            let mut content: Vec<char> = Vec::new();
            crate::node::collect_inline_content(node, &mut content);
            crate::text::append_chars(&mut s.output, content.as_slice());
            s.output.push('\n');
            proof {
                reveal(crate::dispatch::node_render);
                lemma_append_prefix(base, crate::node::inline_text(*node) + seq!['\n']);
                assert(base + (crate::node::inline_text(*node) + seq!['\n']) =~= s.output@);
                assert(s.output@ == base + node_render(*node, c));
            }
        },
        NodeKind::Text(_) | NodeKind::Code(_) | NodeKind::Emph | NodeKind::Strong
            | NodeKind::Link(_) | NodeKind::Image(_) | NodeKind::FootnoteReference(_)
            | NodeKind::SoftBreak | NodeKind::LineBreak => {
            let ghost base = s.output@;
            let mut content: Vec<char> = Vec::new();
            crate::node::collect_inline_content(node, &mut content);
            crate::text::append_chars(&mut s.output, content.as_slice());
            proof {
                reveal(crate::dispatch::node_render);
                lemma_append_prefix(base, crate::node::inline_text(*node));
                assert(s.output@ =~= base + node_render(*node, c));
            }
        },
        _ => {
            let ghost base = s.output@;
            serialize_children(s, node);
            proof {
                reveal(crate::dispatch::node_render);
                assert(s.output@ == base + node_render(*node, c));
            }
        },
    }
}

/// Render every child of `node` in order, with no separators.
pub fn serialize_children(s: &mut Serializer, node: &Node)
    ensures
        same_context(*old(s), *final(s)),
        same_config(*old(s), *final(s)),
        same_flags(*old(s), *final(s)),
        old(s).output@.is_prefix_of(final(s).output@),
        final(s).output@ == old(s).output@ + children_render(
            node.children@,
            0,
            ctx_of(*old(s)),
        ),
        final(s).pending_footnotes == old(s).pending_footnotes,
        old(s).warnings@.is_prefix_of(final(s).warnings@),
    decreases *node, 1int,
{
    let ghost c = ctx_of(*old(s));
    let ghost cs = node.children@;
    proof {
        lemma_prefix_refl(s.output@);
        lemma_prefix_refl_w(s.warnings@);
    }
    let mut i: usize = 0;
    while i < node.children.len()
        invariant
            i <= cs.len(),
            cs == node.children@,
            c == ctx_of(*old(s)),
            same_context(*old(s), *s),
            same_config(*old(s), *s),
            same_flags(*old(s), *s),
            old(s).output@.is_prefix_of(s.output@),
            old(s).output@ + children_render(cs, 0, c) == s.output@ + children_render(
                cs,
                i as int,
                c,
            ),
            s.pending_footnotes == old(s).pending_footnotes,
            old(s).warnings@.is_prefix_of(s.warnings@),
        decreases node.children.len() - i,
    {
        let ghost mid_out = s.output@;
        let ghost mid_warn = s.warnings@;
        proof {
            assert(ctx_of(*s) =~= c);
        }
        serialize_node(s, &node.children[i]);
        proof {
            reveal(crate::dispatch::node_render);
            reveal(crate::dispatch::children_render);
            lemma_prefix_trans(old(s).output@, mid_out, s.output@);
            lemma_prefix_trans_w(old(s).warnings@, mid_warn, s.warnings@);
            assert(children_render(cs, i as int, c) == node_render(cs[i as int], c)
                + children_render(cs, i as int + 1, c));
            assert(s.output@ + children_render(cs, i as int + 1, c) =~= mid_out
                + children_render(cs, i as int, c));
        }
        i = i + 1;
    }
    proof {
        reveal(crate::dispatch::children_render);
        assert(children_render(cs, cs.len() as int, c) =~= Seq::<char>::empty());
        assert(s.output@ =~= s.output@ + children_render(cs, cs.len() as int, c));
    }
}

/// A warning list is a prefix of itself.
pub proof fn lemma_prefix_refl_w(a: Seq<crate::state::Warning>)
    ensures
        a.is_prefix_of(a),
{
    assert(a =~= a.subrange(0, a.len() as int));
}

/// Warning-list prefixes chain.
pub proof fn lemma_prefix_trans_w(
    a: Seq<crate::state::Warning>,
    b: Seq<crate::state::Warning>,
    c: Seq<crate::state::Warning>,
)
    requires
        a.is_prefix_of(b),
        b.is_prefix_of(c),
    ensures
        a.is_prefix_of(c),
{
    assert forall|i: int| 0 <= i < a.len() implies a[i] == c[i] by {
        assert(a[i] == b.subrange(0, a.len() as int)[i]);
        assert(b[i] == c.subrange(0, b.len() as int)[i]);
    }
    assert(a =~= c.subrange(0, a.len() as int));
}

} // verus!
