//! Document-level rendering: headings, paragraphs, code, lists, description
//! details, and the top-level orchestration with directive handling,
//! section-boundary footnote flushing and inter-block spacing.

use vstd::prelude::*;

verus! {

use crate::directive::Directive;
use crate::node::{ListKind, Node, NodeKind, inline_text, plain_text};
use crate::state::{
    Serializer,
    pending_sorted,
    same_config,
    same_context,
    same_flags,
    source_span_ok,
    source_text,
};
use crate::text::{repeat_char, trimmed};
use crate::wrap::wrapped;
use crate::dispatch::{
    lemma_append_prefix,
    lemma_prefix_refl,
    lemma_prefix_refl_w,
    lemma_prefix_trans,
    lemma_prefix_trans_w,
    serialize_node,
};

/// The canonical rendering of a heading: setext underlines for levels one
/// and two (as long as the text, in characters), ATX hashes deeper.
pub open spec fn heading_render(level: u8, text: Seq<char>) -> Seq<char> {
    if level == 1 {
        text + seq!['\n'] + repeat_char('=', text.len()) + seq!['\n']
    } else if level == 2 {
        text + seq!['\n'] + repeat_char('-', text.len()) + seq!['\n']
    } else {
        repeat_char('#', level as nat) + seq![' '] + text + seq!['\n']
    }
}

/// The canonical rendering of a fenced code block.
pub open spec fn code_render(info: Seq<char>, lit: Seq<char>) -> Seq<char> {
    seq!['`', '`', '`'] + info + seq!['\n'] + lit + (if lit.len() > 0 && lit.last() == '\n' {
        Seq::<char>::empty()
    } else {
        seq!['\n']
    }) + seq!['`', '`', '`', '\n']
}

/// Whether a paragraph's trimmed source spells an abbreviation definition:
/// it begins with `*[` and holds `]:` somewhere.
pub open spec fn is_abbrev_def(t: Seq<char>) -> bool {
    t.len() >= 2 && t[0] == '*' && t[1] == '[' && (exists|i: int|
        0 <= i && i + 1 < t.len() && #[trigger] t[i] == ']' && t[i + 1] == ':')
}

/// The continuation-line prefix of a wrapped paragraph inside a list: the
/// quote prefix if any, an extra five-space unit inside description
/// details, and four spaces per list-nesting level.
pub open spec fn list_continuation(s: Serializer) -> Seq<char> {
    (if s.in_block_quote {
        seq!['>', ' ']
    } else {
        Seq::<char>::empty()
    }) + (if s.in_description_details {
        repeat_char(' ', 5)
    } else {
        Seq::<char>::empty()
    }) + repeat_char(' ', 4 * s.list_depth as nat)
}

/// The quote prefix of a paragraph outside a list.
pub open spec fn para_prefix(s: Serializer) -> Seq<char> {
    if s.in_block_quote {
        seq!['>', ' ']
    } else {
        Seq::<char>::empty()
    }
}

impl Serializer {
    /// Emit front matter verbatim (trimmed), followed by one blank line.
    pub fn serialize_front_matter(&mut self, content: &[char])
        ensures
            final(self).output@ == old(self).output@ + trimmed(content@) + seq!['\n', '\n'],
            *final(self) == (Serializer { output: final(self).output, ..*old(self) }),
    {
        let t = crate::text::trim_blanks(content);
        crate::text::append_chars(&mut self.output, t.as_slice());
        self.output.push('\n');
        self.output.push('\n');
        proof {
            assert(self.output@ =~= old(self).output@ + trimmed(content@) + seq!['\n', '\n']);
        }
    }

    /// Emit a heading: setext for levels one and two, ATX deeper.  The
    /// underline's length is the heading text's character count.
    pub fn serialize_heading(&mut self, node: &Node, level: u8)
        ensures
            final(self).output@ == old(self).output@ + heading_render(level, plain_text(*node)),
            *final(self) == (Serializer { output: final(self).output, ..*old(self) }),
        decreases *node, 1int,
    {
        let mut text: Vec<char> = Vec::new();
        crate::node::collect_text(node, &mut text);
        if level == 1 {
            crate::text::append_chars(&mut self.output, text.as_slice());
            self.output.push('\n');
            crate::text::append_repeat(&mut self.output, '=', text.len());
            self.output.push('\n');
        } else if level == 2 {
            crate::text::append_chars(&mut self.output, text.as_slice());
            self.output.push('\n');
            crate::text::append_repeat(&mut self.output, '-', text.len());
            self.output.push('\n');
        } else {
            crate::text::append_repeat(&mut self.output, '#', level as usize);
            self.output.push(' ');
            crate::text::append_chars(&mut self.output, text.as_slice());
            self.output.push('\n');
        }
        proof {
            assert(self.output@ =~= old(self).output@ + heading_render(level, plain_text(*node)));
        }
    }

    /// Emit a paragraph.  An abbreviation definition (`*[` ... `]:`) is
    /// passed through from source untouched; inside a list the content is
    /// wrapped with a bare first line and an indented continuation; outside,
    /// every line carries the quote prefix when inside a quote.
    pub fn serialize_paragraph(&mut self, node: &Node)
        ensures
            same_context(*old(self), *final(self)),
            same_config(*old(self), *final(self)),
            same_flags(*old(self), *final(self)),
            old(self).output@.is_prefix_of(final(self).output@),
            final(self).pending_footnotes == old(self).pending_footnotes,
            final(self).warnings == old(self).warnings,
            (if paragraph_is_abbrev(*old(self), *node) {
                final(self).output@ == old(self).output@ + trimmed(
                    source_text(
                        old(self).source_lines@,
                        node.start_line as int,
                        node.end_line as int + 1,
                    ),
                ) + seq!['\n']
            } else if old(self).list_type is Some {
                final(self).output@ == old(self).output@ + wrapped(
                    inline_text(*node),
                    Seq::empty(),
                    list_continuation(*old(self)),
                    old(self).line_width as int,
                )
            } else {
                final(self).output@ == old(self).output@ + wrapped(
                    inline_text(*node),
                    para_prefix(*old(self)),
                    para_prefix(*old(self)),
                    old(self).line_width as int,
                ) + seq!['\n']
            }),
        decreases *node, 1int,
    {
        let src = self.extract_source(node.start_line, node.end_line);
        let mut handled = false;
        match src {
            Some(source) => {
                let t = crate::text::trim_blanks(source.as_slice());
                if is_abbrev(t.as_slice()) {
                    crate::text::append_chars(&mut self.output, t.as_slice());
                    self.output.push('\n');
                    handled = true;
                    proof {
                        assert(paragraph_is_abbrev(*old(self), *node));
                        assert(self.output@ =~= old(self).output@ + trimmed(
                            source_text(
                                old(self).source_lines@,
                                node.start_line as int,
                                node.end_line as int + 1,
                            ),
                        ) + seq!['\n']);
                        lemma_append_prefix(
                            old(self).output@,
                            self.output@.skip(old(self).output@.len() as int),
                        );
                        assert(old(self).output@ + self.output@.skip(
                            old(self).output@.len() as int,
                        ) =~= self.output@);
                    }
                }
            },
            None => {},
        }
        if handled {
            return;
        }
        proof {
            assert(!paragraph_is_abbrev(*old(self), *node));
        }
        let mut content: Vec<char> = Vec::new();
        crate::node::collect_inline_content(node, &mut content);
        if self.list_type.is_some() {
            let mut cont: Vec<char> = Vec::new();
            if self.in_block_quote {
                cont.push('>');
                cont.push(' ');
            }
            if self.in_description_details {
                crate::text::append_repeat(&mut cont, ' ', 5);
            }
            let mut l: usize = 0;
            while l < self.list_depth
                invariant
                    l <= self.list_depth,
                    *self == *old(self),
                    cont@ == (if self.in_block_quote {
                        seq!['>', ' ']
                    } else {
                        Seq::<char>::empty()
                    }) + (if self.in_description_details {
                        repeat_char(' ', 5)
                    } else {
                        Seq::<char>::empty()
                    }) + repeat_char(' ', 4 * l as nat),
                decreases self.list_depth - l,
            {
                let ghost prev = cont@;
                crate::text::append_repeat(&mut cont, ' ', 4);
                l = l + 1;
                proof {
                    assert(cont@ =~= prev.subrange(
                        0,
                        (prev.len() - 4 * (l - 1)) as int,
                    ) + repeat_char(' ', 4 * l as nat)) by {
                        assert(repeat_char(' ', 4 * (l - 1) as nat) + repeat_char(' ', 4)
                            =~= repeat_char(' ', 4 * l as nat));
                        assert(prev.subrange(0, (prev.len() - 4 * (l - 1)) as int) + repeat_char(
                            ' ',
                            4 * (l - 1) as nat,
                        ) =~= prev);
                    };
                }
            }
            proof {
                assert(cont@ == list_continuation(*old(self)));
                assert(Seq::<char>::empty() =~= seq![]);
            }
            let ghost base = self.output@;
            crate::wrap::append_wrapped_first_line(
                &mut self.output,
                content.as_slice(),
                &[],
                cont.as_slice(),
                self.line_width,
            );
            proof {
                lemma_append_prefix(base, self.output@.skip(base.len() as int));
                assert(base + self.output@.skip(base.len() as int) =~= self.output@);
            }
        } else {
            let mut prefix: Vec<char> = Vec::new();
            if self.in_block_quote {
                prefix.push('>');
                prefix.push(' ');
            }
            proof {
                assert(prefix@ == para_prefix(*old(self)));
            }
            let ghost base = self.output@;
            crate::wrap::append_wrapped(
                &mut self.output,
                content.as_slice(),
                prefix.as_slice(),
                self.line_width,
            );
            self.output.push('\n');
            proof {
                assert(self.output@ =~= base + wrapped(
                    inline_text(*node),
                    para_prefix(*old(self)),
                    para_prefix(*old(self)),
                    old(self).line_width as int,
                ) + seq!['\n']);
                lemma_append_prefix(base, self.output@.skip(base.len() as int));
                assert(base + self.output@.skip(base.len() as int) =~= self.output@);
            }
        }
    }

    /// Emit a fenced code block.
    pub fn serialize_code_block(&mut self, info: &[char], lit: &[char])
        ensures
            final(self).output@ == old(self).output@ + code_render(info@, lit@),
            *final(self) == (Serializer { output: final(self).output, ..*old(self) }),
    {
        crate::text::append_str(&mut self.output, "```");
        crate::text::append_chars(&mut self.output, info);
        self.output.push('\n');
        crate::text::append_chars(&mut self.output, lit);
        if lit.len() == 0 || lit[lit.len() - 1] != '\n' {
            self.output.push('\n');
        }
        crate::text::append_str(&mut self.output, "```");
        self.output.push('\n');
        proof {
            reveal_strlit("```");
            assert("```"@ =~= seq!['`', '`', '`']);
            assert(self.output@ =~= old(self).output@ + code_render(info@, lit@));
        }
    }

    /// Emit a raw HTML block verbatim, ending with exactly one line break.
    pub fn serialize_html_block(&mut self, lit: &[char])
        ensures
            final(self).output@ == old(self).output@ + crate::dispatch::html_render(lit@),
            *final(self) == (Serializer { output: final(self).output, ..*old(self) }),
    {
        crate::text::append_chars(&mut self.output, lit);
        if lit.len() == 0 || lit[lit.len() - 1] != '\n' {
            self.output.push('\n');
        }
        proof {
            assert(self.output@ =~= old(self).output@ + crate::dispatch::html_render(lit@));
        }
    }

    /// Emit a list: one marker per item (`- ` or a one-based number and
    /// `. `), items separated by blank lines, nested content indented four
    /// spaces per level.
    #[verifier::rlimit(100)]
    #[verifier::spinoff_prover]
    pub fn serialize_list(&mut self, node: &Node, kind: ListKind)
        ensures
            same_context(*old(self), *final(self)),
            same_config(*old(self), *final(self)),
            same_flags(*old(self), *final(self)),
            old(self).output@.is_prefix_of(final(self).output@),
            final(self).output@ == old(self).output@ + crate::dispatch::list_items(
                node.children@,
                0,
                kind,
                crate::dispatch::list_inner_ctx(crate::dispatch::ctx_of(*old(self)), kind),
            ),
            final(self).pending_footnotes == old(self).pending_footnotes,
            old(self).warnings@.is_prefix_of(final(self).warnings@),
        decreases *node, 1int,
    {
        let ghost c = crate::dispatch::ctx_of(*old(self));
        let ghost ic = crate::dispatch::list_inner_ctx(c, kind);
        let old_type = self.list_type;
        let old_depth = self.list_depth;
        let mut old_indent: Vec<char> = Vec::new();
        std::mem::swap(&mut self.list_item_indent, &mut old_indent);
        self.list_type = Some(kind);
        if self.list_depth < usize::MAX {
            self.list_depth = self.list_depth + 1;
        }
        let mut marker_indent: Vec<char> = Vec::new();
        if self.in_description_details {
            crate::text::append_repeat(&mut marker_indent, ' ', 5);
        }
        let ghost det = if c.in_description_details {
            repeat_char(' ', 5)
        } else {
            Seq::<char>::empty()
        };
        proof {
            assert(marker_indent@ =~= det + repeat_char(' ', 0));
        }
        let mut l: usize = 1;
        while l < self.list_depth
            invariant
                1 <= l,
                c == crate::dispatch::ctx_of(*old(self)),
                det == (if c.in_description_details {
                    repeat_char(' ', 5)
                } else {
                    Seq::<char>::empty()
                }),
                l <= crate::dispatch::list_inner_depth(c),
                self.list_depth == crate::dispatch::list_inner_depth(c),
                marker_indent@ == det + repeat_char(' ', (4 * (l - 1)) as nat),
                *self == (Serializer {
                    list_type: self.list_type,
                    list_depth: self.list_depth,
                    list_item_indent: self.list_item_indent,
                    ..*old(self)
                }),
            decreases self.list_depth - l,
        {
            let ghost prev = marker_indent@;
            crate::text::append_repeat(&mut marker_indent, ' ', 4);
            proof {
                assert(repeat_char(' ', (4 * (l - 1)) as nat) + repeat_char(' ', 4)
                    =~= repeat_char(' ', (4 * l) as nat));
                assert(marker_indent@ =~= det + repeat_char(' ', (4 * l) as nat));
            }
            l = l + 1;
        }
        proof {
            assert(l == crate::dispatch::list_inner_depth(c));
            assert(marker_indent@ == crate::dispatch::list_marker_indent(c));
        }
        let ind2 = marker_indent.clone();
        self.list_item_indent = ind2;
        proof {
            lemma_prefix_refl(self.output@);
            lemma_prefix_refl_w(self.warnings@);
        }
        let ghost cs = node.children@;
        let mut i: usize = 0;
        while i < node.children.len()
            invariant
                i <= cs.len(),
                cs == node.children@,
                c == crate::dispatch::ctx_of(*old(self)),
                ic == crate::dispatch::list_inner_ctx(c, kind),
                crate::state::walk_frame(*old(self), *self),
                self.in_description_details == old(self).in_description_details,
                self.list_type == Some(kind),
                self.list_depth == crate::dispatch::list_inner_depth(c),
                self.list_item_indent@ == marker_indent@,
                marker_indent@ == crate::dispatch::list_marker_indent(c),
                old(self).output@.is_prefix_of(self.output@),
                old(self).output@ + crate::dispatch::list_items(cs, 0, kind, ic) == self.output@
                    + crate::dispatch::list_items(cs, i as int, kind, ic),
                old(self).warnings@.is_prefix_of(self.warnings@),
            decreases node.children.len() - i,
        {
            proof {
                assert(crate::dispatch::ctx_of(*self) =~= ic);
            }
            let ghost start = self.output@;
            if i > 0 {
                self.output.push('\n');
            }
            if self.in_block_quote {
                let p = self.blockquote_prefix.clone();
                crate::text::append_chars(&mut self.output, p.as_slice());
            }
            let mi = marker_indent.clone();
            crate::text::append_chars(&mut self.output, mi.as_slice());
            match kind {
                ListKind::Bullet => {
                    self.output.push('-');
                    self.output.push(' ');
                },
                ListKind::Ordered => {
                    crate::text::append_dec(&mut self.output, i + 1);
                    self.output.push('.');
                    self.output.push(' ');
                },
            }
            let ghost head = (if i > 0 {
                seq!['\n']
            } else {
                Seq::<char>::empty()
            }) + (if ic.in_block_quote {
                ic.blockquote_prefix
            } else {
                Seq::<char>::empty()
            }) + ic.list_item_indent + crate::dispatch::list_marker(kind, i as int);
            proof {
                assert(self.output@ =~= start + head) by {
                    assert(head.len() == (if i > 0 {
                        1int
                    } else {
                        0int
                    }) + (if ic.in_block_quote {
                        ic.blockquote_prefix.len() as int
                    } else {
                        0int
                    }) + ic.list_item_indent.len() + crate::dispatch::list_marker(
                        kind,
                        i as int,
                    ).len());
                };
                assert(start.is_prefix_of(self.output@)) by {
                    assert(start =~= self.output@.subrange(0, start.len() as int));
                };
                lemma_prefix_trans(old(self).output@, start, self.output@);
            }
            let ghost mid = self.output@;
            let ghost midw = self.warnings@;
            crate::dispatch::serialize_children(self, &node.children[i]);
            let ghost afterc = self.output@;
            self.output.push('\n');
            proof {
                assert(afterc.is_prefix_of(self.output@)) by {
                    assert(afterc =~= self.output@.subrange(0, afterc.len() as int));
                };
                reveal(crate::dispatch::list_items);
                lemma_prefix_trans(mid, afterc, self.output@);
                lemma_prefix_trans(old(self).output@, mid, self.output@);
                lemma_prefix_trans_w(old(self).warnings@, midw, self.warnings@);
                assert(self.output@ =~= start + head + crate::dispatch::children_render(
                    cs[i as int].children@,
                    0,
                    ic,
                ) + seq!['\n']);
                assert(crate::dispatch::list_items(cs, i as int, kind, ic) == head
                    + crate::dispatch::children_render(cs[i as int].children@, 0, ic)
                    + seq!['\n'] + crate::dispatch::list_items(cs, i as int + 1, kind, ic));
                assert(self.output@ + crate::dispatch::list_items(cs, i as int + 1, kind, ic)
                    =~= start + crate::dispatch::list_items(cs, i as int, kind, ic));
            }
            i = i + 1;
        }
        proof {
            reveal(crate::dispatch::list_items);
            assert(crate::dispatch::list_items(cs, cs.len() as int, kind, ic)
                =~= Seq::<char>::empty());
            assert(self.output@ =~= self.output@ + crate::dispatch::list_items(
                cs,
                cs.len() as int,
                kind,
                ic,
            ));
        }
        self.list_type = old_type;
        self.list_depth = old_depth;
        self.list_item_indent = old_indent;
    }

    /// Emit the details block of a definition list: a `:   ` marker before
    /// the first child, blank lines and four-space indents before the rest,
    /// nested lists indenting themselves through the details flag.
    pub fn serialize_description_details(&mut self, node: &Node)
        ensures
            same_context(*old(self), *final(self)),
            same_config(*old(self), *final(self)),
            same_flags(*old(self), *final(self)),
            old(self).output@.is_prefix_of(final(self).output@),
            final(self).output@ == old(self).output@ + crate::dispatch::details_body(
                node.children@,
                0,
                (crate::dispatch::RenderCtx {
                    in_description_details: true,
                    ..crate::dispatch::ctx_of(*old(self))
                }),
            ),
            final(self).pending_footnotes == old(self).pending_footnotes,
            old(self).warnings@.is_prefix_of(final(self).warnings@),
        decreases *node, 1int,
    {
        let ghost inner = (crate::dispatch::RenderCtx {
            in_description_details: true,
            ..crate::dispatch::ctx_of(*old(self))
        });
        let ghost cs = node.children@;
        let was = self.in_description_details;
        self.in_description_details = true;
        proof {
            lemma_prefix_refl(self.output@);
            lemma_prefix_refl_w(self.warnings@);
        }
        let mut i: usize = 0;
        while i < node.children.len()
            invariant
                i <= cs.len(),
                cs == node.children@,
                inner == (crate::dispatch::RenderCtx {
                    in_description_details: true,
                    ..crate::dispatch::ctx_of(*old(self))
                }),
                crate::state::walk_frame(*old(self), *self),
                self.in_description_details,
                self.list_type == old(self).list_type,
                self.list_depth == old(self).list_depth,
                self.list_item_indent@ == old(self).list_item_indent@,
                old(self).output@.is_prefix_of(self.output@),
                old(self).output@ + crate::dispatch::details_body(cs, 0, inner) == self.output@
                    + crate::dispatch::details_body(cs, i as int, inner),
                old(self).warnings@.is_prefix_of(self.warnings@),
            decreases node.children.len() - i,
        {
            proof {
                assert(crate::dispatch::ctx_of(*self) =~= inner);
            }
            let ghost start = self.output@;
            let child = &node.children[i];
            if i == 0 {
                match &child.kind {
                    NodeKind::Paragraph => {
                        crate::text::append_str(&mut self.output, ":   ");
                        self.append_details_paragraph(child);
                    },
                    NodeKind::CodeBlock(info, lit) => {
                        crate::text::append_str(&mut self.output, ":   \n");
                        self.append_indented_code(info.as_slice(), lit.as_slice());
                    },
                    NodeKind::List(_) => {
                        crate::text::append_str(&mut self.output, ":\n");
                        let ghost m2 = self.output@;
                        serialize_node(self, child);
                        proof {
                            assert(start.is_prefix_of(m2)) by {
                                assert(start =~= m2.subrange(0, start.len() as int));
                            };
                            lemma_prefix_trans(start, m2, self.output@);
                        }
                    },
                    _ => {
                        crate::text::append_str(&mut self.output, ":   ");
                        let ghost m2 = self.output@;
                        serialize_node(self, child);
                        proof {
                            assert(start.is_prefix_of(m2)) by {
                                assert(start =~= m2.subrange(0, start.len() as int));
                            };
                            lemma_prefix_trans(start, m2, self.output@);
                        }
                    },
                }
            } else {
                self.output.push('\n');
                match &child.kind {
                    NodeKind::Paragraph => {
                        crate::text::append_str(&mut self.output, "    ");
                        self.append_details_paragraph(child);
                    },
                    NodeKind::CodeBlock(info, lit) => {
                        self.append_indented_code(info.as_slice(), lit.as_slice());
                    },
                    NodeKind::List(_) => {
                        let ghost m2 = self.output@;
                        serialize_node(self, child);
                        proof {
                            assert(start.is_prefix_of(m2)) by {
                                assert(start =~= m2.subrange(0, start.len() as int));
                            };
                            lemma_prefix_trans(start, m2, self.output@);
                        }
                    },
                    _ => {
                        crate::text::append_str(&mut self.output, "    ");
                        let ghost m2 = self.output@;
                        serialize_node(self, child);
                        proof {
                            assert(start.is_prefix_of(m2)) by {
                                assert(start =~= m2.subrange(0, start.len() as int));
                            };
                            lemma_prefix_trans(start, m2, self.output@);
                        }
                    },
                }
            }
            proof {
                assert(start.is_prefix_of(self.output@)) by {
                    assert(start =~= self.output@.subrange(0, start.len() as int));
                };
                reveal(crate::dispatch::details_body);
                lemma_prefix_trans(old(self).output@, start, self.output@);
                assert(self.output@ + crate::dispatch::details_body(cs, i as int + 1, inner)
                    =~= start + crate::dispatch::details_body(cs, i as int, inner));
            }
            i = i + 1;
        }
        proof {
            reveal(crate::dispatch::details_body);
            assert(crate::dispatch::details_body(cs, cs.len() as int, inner)
                =~= Seq::<char>::empty());
            assert(self.output@ =~= self.output@ + crate::dispatch::details_body(
                cs,
                cs.len() as int,
                inner,
            ));
        }
        self.in_description_details = was;
    }

    /// Wrap a details paragraph with a four-space hanging indent.
    fn append_details_paragraph(&mut self, node: &Node)
        ensures
            old(self).output@.is_prefix_of(final(self).output@),
            final(self).output@ == old(self).output@ + crate::dispatch::details_para(
                *node,
                old(self).line_width as int,
            ),
            *final(self) == (Serializer { output: final(self).output, ..*old(self) }),
        decreases *node, 0int,
    {
        let mut content: Vec<char> = Vec::new();
        crate::node::collect_inline_content(node, &mut content);
        proof {
            assert(content@ =~= inline_text(*node));
        }
        let t = crate::text::trim_blanks(content.as_slice());
        let ghost base = self.output@;
        let indent: [char; 4] = [' ', ' ', ' ', ' '];
        crate::wrap::append_wrapped_first_line(
            &mut self.output,
            t.as_slice(),
            &[],
            &indent,
            self.line_width,
        );
        self.output.push('\n');
        proof {
            assert(indent@ =~= seq![' ', ' ', ' ', ' ']);
            assert(Seq::<char>::empty() =~= seq![]);
            assert(self.output@ =~= base + crate::dispatch::details_para(
                *node,
                old(self).line_width as int,
            ));
            lemma_append_prefix(base, self.output@.skip(base.len() as int));
            assert(base + self.output@.skip(base.len() as int) =~= self.output@);
        }
    }

    /// Emit a fenced code block with every line indented by four spaces.
    fn append_indented_code(&mut self, info: &[char], lit: &[char])
        ensures
            old(self).output@.is_prefix_of(final(self).output@),
            final(self).output@ == old(self).output@ + crate::dispatch::details_code(
                info@,
                lit@,
            ),
            *final(self) == (Serializer { output: final(self).output, ..*old(self) }),
    {
        let mut code: Vec<char> = Vec::new();
        crate::text::append_str(&mut code, "```");
        crate::text::append_chars(&mut code, info);
        code.push('\n');
        crate::text::append_chars(&mut code, lit);
        if lit.len() == 0 || lit[lit.len() - 1] != '\n' {
            code.push('\n');
        }
        crate::text::append_str(&mut code, "```");
        code.push('\n');
        let ghost cv = code@;
        proof {
            reveal_strlit("```");
            assert("```"@ =~= seq!['`', '`', '`']);
            assert(cv =~= code_render(info@, lit@));
            reveal_strlit("    ");
            assert("    "@ =~= seq![' ', ' ', ' ', ' ']);
        }
        let ghost base = self.output@;
        crate::text::append_str(&mut self.output, "    ");
        proof {
            assert(base + seq![' ', ' ', ' ', ' '] + crate::dispatch::indent_breaks(cv, 0)
                =~= self.output@ + crate::dispatch::indent_breaks(cv, 0));
        }
        let mut j: usize = 0;
        while j < code.len()
            invariant
                j <= cv.len(),
                cv == code@,
                "    "@ == seq![' ', ' ', ' ', ' '],
                base.is_prefix_of(self.output@),
                base + seq![' ', ' ', ' ', ' '] + crate::dispatch::indent_breaks(cv, 0)
                    == self.output@ + crate::dispatch::indent_breaks(cv, j as int),
                *self == (Serializer { output: self.output, ..*old(self) }),
            decreases code@.len() - j,
        {
            let ghost mid = self.output@;
            let c = code[j];
            self.output.push(c);
            if c == '\n' && j + 1 < code.len() {
                crate::text::append_str(&mut self.output, "    ");
                proof {
                    assert(self.output@ =~= mid + seq!['\n', ' ', ' ', ' ', ' ']);
                }
            }
            j = j + 1;
            proof {
                lemma_append_prefix(mid, self.output@.skip(mid.len() as int));
                assert(mid + self.output@.skip(mid.len() as int) =~= self.output@);
                lemma_prefix_trans(base, mid, self.output@);
                assert(self.output@ + crate::dispatch::indent_breaks(cv, j as int) =~= mid
                    + crate::dispatch::indent_breaks(cv, j as int - 1));
            }
        }
        proof {
            assert(crate::dispatch::indent_breaks(cv, cv.len() as int) =~= Seq::<char>::empty());
            assert(self.output@ =~= base + crate::dispatch::details_code(info@, lit@));
            lemma_append_prefix(old(self).output@, self.output@.skip(base.len() as int));
            assert(base + self.output@.skip(base.len() as int) =~= self.output@);
        }
    }
}


/// Whether child `j` carries a usable source span.
pub open spec fn span_ok_at(lines: Seq<Vec<char>>, cs: Seq<Node>, j: int) -> bool {
    source_span_ok(lines, cs[j].start_line as int, cs[j].end_line as int)
}

/// The verbatim tail a `DisableFile` directive produces: each remaining
/// block's raw source where a span exists (its canonical rendering where
/// none does), preceded by one blank separator.
#[verifier::opaque]
pub open spec fn raw_blocks(
    lines: Seq<Vec<char>>,
    cs: Seq<Node>,
    j: int,
    c: crate::dispatch::RenderCtx,
) -> Seq<char>
    decreases cs, 2int, cs.len() - j,
{
    if j < 0 || j >= cs.len() {
        Seq::empty()
    } else {
        seq!['\n'] + (if source_span_ok(lines, cs[j].start_line as int, cs[j].end_line as int) {
            source_text(lines, cs[j].start_line as int, cs[j].end_line as int + 1)
        } else {
            crate::dispatch::node_render(cs[j], c)
        }) + raw_blocks(lines, cs, j + 1, c)
    }
}

impl Serializer {
    /// Emit every child from `from` on as raw source text, with no further
    /// directive interpretation: the `DisableFile` short circuit.  A child
    /// without a usable span is rendered canonically instead.
    fn emit_remaining_raw(&mut self, node: &Node, from: usize)
        ensures
            same_context(*old(self), *final(self)),
            same_config(*old(self), *final(self)),
            same_flags(*old(self), *final(self)),
            final(self).pending_footnotes == old(self).pending_footnotes,
            old(self).output@.is_prefix_of(final(self).output@),
            final(self).output@ == old(self).output@ + raw_blocks(
                old(self).source_lines@,
                node.children@,
                from as int,
                crate::dispatch::ctx_of(*old(self)),
            ),
            old(self).warnings@.is_prefix_of(final(self).warnings@),
        decreases *node, 0int,
    {
        let ghost cs = node.children@;
        let ghost lines = self.source_lines@;
        let ghost c = crate::dispatch::ctx_of(*old(self));
        proof {
            lemma_prefix_refl(self.output@);
            lemma_prefix_refl_w(self.warnings@);
        }
        if from >= node.children.len() {
            proof {
                reveal(crate::document::raw_blocks);
                assert(raw_blocks(lines, cs, from as int, c) =~= Seq::<char>::empty());
                assert(self.output@ =~= old(self).output@ + raw_blocks(
                    lines,
                    cs,
                    from as int,
                    c,
                ));
            }
            return;
        }
        let mut j: usize = from;
        while j < node.children.len()
            invariant
                from <= j <= cs.len(),
                cs == node.children@,
                lines == self.source_lines@,
                c == crate::dispatch::ctx_of(*old(self)),
                same_context(*old(self), *self),
                same_config(*old(self), *self),
                same_flags(*old(self), *self),
                self.pending_footnotes == old(self).pending_footnotes,
                old(self).output@.is_prefix_of(self.output@),
                old(self).output@ + raw_blocks(lines, cs, from as int, c) == self.output@
                    + raw_blocks(lines, cs, j as int, c),
                old(self).warnings@.is_prefix_of(self.warnings@),
            decreases cs.len() - j,
        {
            let ghost start = self.output@;
            self.output.push('\n');
            let child = &node.children[j];
            let src = self.extract_source(child.start_line, child.end_line);
            match src {
                Some(text) => {
                    crate::text::append_chars(&mut self.output, text.as_slice());
                    proof {
                        reveal(crate::document::raw_blocks);
                        assert(start.is_prefix_of(self.output@)) by {
                            assert(start =~= self.output@.subrange(0, start.len() as int));
                        };
                        lemma_prefix_trans(old(self).output@, start, self.output@);
                        assert(self.output@ + raw_blocks(lines, cs, j as int + 1, c) =~= start
                            + raw_blocks(lines, cs, j as int, c));
                    }
                },
                None => {
                    proof {
                        assert(start.is_prefix_of(self.output@)) by {
                            assert(start =~= self.output@.subrange(0, start.len() as int));
                        };
                        lemma_prefix_trans(old(self).output@, start, self.output@);
                        assert(crate::dispatch::ctx_of(*self) =~= c);
                    }
                    let ghost m2 = self.output@;
                    let ghost m2w = self.warnings@;
                    serialize_node(self, child);
                    proof {
                        reveal(crate::document::raw_blocks);
                        lemma_prefix_trans(old(self).output@, m2, self.output@);
                        lemma_prefix_trans_w(old(self).warnings@, m2w, self.warnings@);
                        assert(self.output@ + raw_blocks(lines, cs, j as int + 1, c) =~= start
                            + raw_blocks(lines, cs, j as int, c));
                    }
                },
            }
            j = j + 1;
        }
        proof {
            reveal(crate::document::raw_blocks);
            assert(raw_blocks(lines, cs, cs.len() as int, c) =~= Seq::<char>::empty());
            assert(self.output@ =~= self.output@ + raw_blocks(lines, cs, cs.len() as int, c));
        }
    }
}

/// The reference line and rendered body of each pending footnote.
pub open spec fn pending_view(s: Seq<crate::state::PendingFootnote>) -> Seq<(usize, Seq<char>)> {
    Seq::new(s.len(), |i: int| (s[i].ref_line, s[i].body@))
}

/// The text that flushing the first `k` pending bodies appends.
pub open spec fn flushed_view(p: Seq<(usize, Seq<char>)>, k: int) -> Seq<char>
    decreases k,
{
    if k <= 0 || k > p.len() {
        Seq::empty()
    } else {
        flushed_view(p, k - 1) + seq!['\n'] + p[k - 1].1
    }
}

/// How many leading pending bodies are referenced before `limit`.
pub open spec fn flush_count_view(p: Seq<(usize, Seq<char>)>, limit: int) -> int
    decreases p.len(),
{
    if p.len() == 0 || p[0].0 >= limit {
        0
    } else {
        1 + flush_count_view(p.drop_first(), limit)
    }
}

/// The pending queue the footnote pre-pass leaves: one entry per footnote
/// definition among `cs[i..]`, inserted in first-reference-line order.
#[verifier::opaque]
pub open spec fn prepass(
    cs: Seq<Node>,
    i: int,
    refs: Seq<(Seq<char>, usize)>,
    acc: Seq<(usize, Seq<char>)>,
    width: int,
) -> Seq<(usize, Seq<char>)>
    decreases cs.len() - i,
{
    if i < 0 || i >= cs.len() {
        acc
    } else {
        let acc1 = match cs[i].kind {
            NodeKind::FootnoteDefinition(name) => {
                let rl = crate::footnote::ref_line_for(refs, name@);
                acc.insert(
                    flush_count_view(acc, rl as int + 1),
                    (rl, crate::footnote::footnote_body(name@, inline_text(cs[i]), width)),
                )
            },
            _ => acc,
        };
        prepass(cs, i + 1, refs, acc1, width)
    }
}

/// The heading level of a node, zero when it is not a heading.
pub open spec fn heading_level_of(n: Node) -> int {
    match n.kind {
        NodeKind::Heading(h) => h as int,
        _ => 0,
    }
}

/// The directive an HTML block spells, if any.
pub open spec fn doc_directive(n: Node) -> Option<Directive> {
    match n.kind {
        NodeKind::HtmlBlock(lit) => crate::directive::directive_of(lit@),
        _ => Option::None,
    }
}

/// The literal text of an HTML block.
pub open spec fn doc_literal(n: Node) -> Seq<char> {
    match n.kind {
        NodeKind::HtmlBlock(lit) => lit@,
        _ => Seq::empty(),
    }
}

/// The whole output of the main document pass from child `i` on, given the
/// rendering context, the three directive flags and the pending footnote
/// queue: directive application, section-boundary footnote flushes,
/// inter-block spacing, verbatim passthrough, and the final flush.
#[verifier::opaque]
pub open spec fn doc_loop(
    cs: Seq<Node>,
    i: int,
    c: crate::dispatch::RenderCtx,
    d: bool,
    sn: bool,
    ss: bool,
    p: Seq<(usize, Seq<char>)>,
) -> Seq<char>
    decreases cs, 2int, cs.len() - i,
{
    if i < 0 || i >= cs.len() {
        flushed_view(p, p.len() as int)
    } else if cs[i].kind is FootnoteDefinition {
        doc_loop(cs, i + 1, c, d, sn, ss, p)
    } else if doc_directive(cs[i]) is Some {
        if doc_directive(cs[i]) == Some(Directive::DisableFile) {
            doc_literal(cs[i]) + crate::document::raw_blocks(c.source_lines, cs, i + 1, c)
                + flushed_view(p, p.len() as int)
        } else {
            let t = crate::directive::spec_apply_directive(doc_directive(cs[i])->0, d, sn, ss);
            (if i > 0 {
                seq!['\n']
            } else {
                Seq::<char>::empty()
            }) + doc_literal(cs[i]) + doc_loop(cs, i + 1, c, t.0, t.1, t.2, p)
        }
    } else {
        let dec = doc_dec(cs, i, d, sn, ss);
        doc_flush_part(cs, i, p) + doc_spacing(cs, i) + doc_body(cs, i, c, d, sn, ss) + doc_loop(
            cs,
            i + 1,
            c,
            dec.1,
            dec.2,
            dec.3,
            doc_pending_after(cs, i, p),
        )
    }
}

/// The directive flags after the main document pass from child `i` on.
#[verifier::opaque]
pub open spec fn doc_flags(cs: Seq<Node>, i: int, d: bool, sn: bool, ss: bool) -> (
    bool,
    bool,
    bool,
)
    decreases cs.len() - i,
{
    if i < 0 || i >= cs.len() {
        (d, sn, ss)
    } else if cs[i].kind is FootnoteDefinition {
        doc_flags(cs, i + 1, d, sn, ss)
    } else if doc_directive(cs[i]) is Some {
        if doc_directive(cs[i]) == Some(Directive::DisableFile) {
            (d, sn, ss)
        } else {
            let t = crate::directive::spec_apply_directive(doc_directive(cs[i])->0, d, sn, ss);
            doc_flags(cs, i + 1, t.0, t.1, t.2)
        }
    } else {
        let dec = doc_dec(cs, i, d, sn, ss);
        doc_flags(cs, i + 1, dec.1, dec.2, dec.3)
    }
}

/// Flushing agrees with its view.
proof fn lemma_view_flushed(s: Seq<crate::state::PendingFootnote>, k: int)
    ensures
        crate::state::flushed_bodies(s, k) == flushed_view(pending_view(s), k),
    decreases k,
{
    if k <= 0 || k > s.len() {
    } else {
        lemma_view_flushed(s, k - 1);
    }
}

/// The flush count agrees with its view.
proof fn lemma_view_count(s: Seq<crate::state::PendingFootnote>, limit: int)
    ensures
        crate::state::flush_count(s, limit) == flush_count_view(pending_view(s), limit),
    decreases s.len(),
{
    if s.len() == 0 || s[0].ref_line >= limit {
    } else {
        lemma_view_count(s.drop_first(), limit);
        assert(pending_view(s).drop_first() =~= pending_view(s.drop_first()));
    }
}


/// One skipped footnote-definition child leaves the document state alone.
proof fn lemma_doc_skip(
    cs: Seq<Node>,
    i: int,
    c: crate::dispatch::RenderCtx,
    ed: bool,
    esn: bool,
    ess: bool,
    pv: Seq<(usize, Seq<char>)>,
)
    requires
        0 <= i < cs.len(),
        cs[i].kind is FootnoteDefinition,
    ensures
        doc_loop(cs, i, c, ed, esn, ess, pv) == doc_loop(cs, i + 1, c, ed, esn, ess, pv),
        doc_flags(cs, i, ed, esn, ess) == doc_flags(cs, i + 1, ed, esn, ess),
{
    reveal(crate::document::doc_loop);
    reveal(crate::document::doc_flags);
}

/// One non-file directive emits its literal and folds the flags.
proof fn lemma_doc_directive(
    cs: Seq<Node>,
    i: int,
    c: crate::dispatch::RenderCtx,
    ed: bool,
    esn: bool,
    ess: bool,
    pv: Seq<(usize, Seq<char>)>,
    d: Directive,
)
    requires
        0 <= i < cs.len(),
        !(cs[i].kind is FootnoteDefinition),
        doc_directive(cs[i]) == Some(d),
        d != Directive::DisableFile,
    ensures
        doc_loop(cs, i, c, ed, esn, ess, pv) == (if i > 0 {
            seq!['\n']
        } else {
            Seq::<char>::empty()
        }) + doc_literal(cs[i]) + doc_loop(
            cs,
            i + 1,
            c,
            crate::directive::spec_apply_directive(d, ed, esn, ess).0,
            crate::directive::spec_apply_directive(d, ed, esn, ess).1,
            crate::directive::spec_apply_directive(d, ed, esn, ess).2,
            pv,
        ),
        doc_flags(cs, i, ed, esn, ess) == doc_flags(
            cs,
            i + 1,
            crate::directive::spec_apply_directive(d, ed, esn, ess).0,
            crate::directive::spec_apply_directive(d, ed, esn, ess).1,
            crate::directive::spec_apply_directive(d, ed, esn, ess).2,
        ),
{
    reveal(crate::document::doc_loop);
    reveal(crate::document::doc_flags);
}

/// The `DisableFile` directive short-circuits: the literal, the raw tail,
/// the final flush; flags stay.
proof fn lemma_doc_file(
    cs: Seq<Node>,
    i: int,
    c: crate::dispatch::RenderCtx,
    ed: bool,
    esn: bool,
    ess: bool,
    pv: Seq<(usize, Seq<char>)>,
)
    requires
        0 <= i < cs.len(),
        !(cs[i].kind is FootnoteDefinition),
        doc_directive(cs[i]) == Some(Directive::DisableFile),
    ensures
        doc_loop(cs, i, c, ed, esn, ess, pv) == doc_literal(cs[i]) + raw_blocks(
            c.source_lines,
            cs,
            i + 1,
            c,
        ) + flushed_view(pv, pv.len() as int),
        doc_flags(cs, i, ed, esn, ess) == (ed, esn, ess),
{
    reveal(crate::document::doc_loop);
    reveal(crate::document::doc_flags);
}

/// One ordinary block: the section flush, the spacing, the decided body.
proof fn lemma_doc_block(
    cs: Seq<Node>,
    i: int,
    c: crate::dispatch::RenderCtx,
    ed: bool,
    esn: bool,
    ess: bool,
    pv: Seq<(usize, Seq<char>)>,
    loop_start: Seq<char>,
    out: Seq<char>,
)
    requires
        0 <= i < cs.len(),
        !(cs[i].kind is FootnoteDefinition),
        doc_directive(cs[i]) is None,
        out == loop_start + doc_flush_part(cs, i, pv) + doc_spacing(cs, i) + doc_body(
            cs,
            i,
            c,
            ed,
            esn,
            ess,
        ),
    ensures
        out + doc_loop(
            cs,
            i + 1,
            c,
            doc_dec(cs, i, ed, esn, ess).1,
            doc_dec(cs, i, ed, esn, ess).2,
            doc_dec(cs, i, ed, esn, ess).3,
            doc_pending_after(cs, i, pv),
        ) == loop_start + doc_loop(cs, i, c, ed, esn, ess, pv),
        doc_flags(cs, i, ed, esn, ess) == doc_flags(
            cs,
            i + 1,
            doc_dec(cs, i, ed, esn, ess).1,
            doc_dec(cs, i, ed, esn, ess).2,
            doc_dec(cs, i, ed, esn, ess).3,
        ),
{
    reveal(crate::document::doc_loop);
    reveal(crate::document::doc_flags);
    assert(out + doc_loop(
        cs,
        i + 1,
        c,
        doc_dec(cs, i, ed, esn, ess).1,
        doc_dec(cs, i, ed, esn, ess).2,
        doc_dec(cs, i, ed, esn, ess).3,
        doc_pending_after(cs, i, pv),
    ) =~= loop_start + doc_loop(cs, i, c, ed, esn, ess, pv));
}

/// The decision for an ordinary block.
pub open spec fn doc_dec(cs: Seq<Node>, i: int, ed: bool, esn: bool, ess: bool) -> (
    bool,
    bool,
    bool,
    bool,
) {
    let hl = heading_level_of(cs[i]);
    crate::directive::spec_decide_block(ed, esn, ess, 1 <= hl && hl <= 2)
}

/// The footnote text flushed before an ordinary block.
pub open spec fn doc_flush_part(cs: Seq<Node>, i: int, pv: Seq<(usize, Seq<char>)>) -> Seq<char> {
    let hl = heading_level_of(cs[i]);
    if (hl == 2 || hl == 3) && i > 0 {
        flushed_view(pv, flush_count_view(pv, cs[i].start_line as int))
    } else {
        Seq::<char>::empty()
    }
}

/// The pending queue after an ordinary block's section flush.
pub open spec fn doc_pending_after(cs: Seq<Node>, i: int, pv: Seq<(usize, Seq<char>)>) -> Seq<
    (usize, Seq<char>),
> {
    let hl = heading_level_of(cs[i]);
    if (hl == 2 || hl == 3) && i > 0 {
        pv.skip(flush_count_view(pv, cs[i].start_line as int))
    } else {
        pv
    }
}

/// The blank-line spacing before an ordinary block.
pub open spec fn doc_spacing(cs: Seq<Node>, i: int) -> Seq<char> {
    if i > 0 {
        if cs[i - 1].kind is FrontMatter {
            Seq::<char>::empty()
        } else if heading_level_of(cs[i]) == 2 {
            if cs[i - 1].kind is Heading {
                seq!['\n']
            } else {
                seq!['\n', '\n']
            }
        } else {
            seq!['\n']
        }
    } else {
        Seq::<char>::empty()
    }
}

/// The rendered or passed-through body of an ordinary block.
pub open spec fn doc_body(
    cs: Seq<Node>,
    i: int,
    c: crate::dispatch::RenderCtx,
    ed: bool,
    esn: bool,
    ess: bool,
) -> Seq<char> {
    if doc_dec(cs, i, ed, esn, ess).0 {
        if source_span_ok(c.source_lines, cs[i].start_line as int, cs[i].end_line as int) {
            source_text(c.source_lines, cs[i].start_line as int, cs[i].end_line as int + 1)
                + seq!['\n']
        } else {
            crate::dispatch::node_render(cs[i], c)
        }
    } else {
        crate::dispatch::node_render(cs[i], c)
    }
}

impl Serializer {
    /// Render one ordinary top-level block: the section-boundary footnote
    /// flush, the inter-block spacing, and the block itself, rendered
    /// canonically or passed through from source as the directive flags
    /// decide.
    #[verifier::rlimit(100)]
    #[verifier::spinoff_prover]
    fn emit_block(&mut self, node: &Node, i: usize)
        requires
            i < node.children@.len(),
            !(node.children@[i as int].kind is FootnoteDefinition),
            doc_directive(node.children@[i as int]) is None,
            pending_sorted(old(self).pending_footnotes@),
        ensures
            same_context(*old(self), *final(self)),
            final(self).line_width == old(self).line_width,
            final(self).source_lines == old(self).source_lines,
            final(self).footnote_reference_lines == old(self).footnote_reference_lines,
            old(self).output@.is_prefix_of(final(self).output@),
            old(self).warnings@.is_prefix_of(final(self).warnings@),
            pending_sorted(final(self).pending_footnotes@),
            final(self).output@ == old(self).output@ + doc_flush_part(
                node.children@,
                i as int,
                pending_view(old(self).pending_footnotes@),
            ) + doc_spacing(node.children@, i as int) + doc_body(
                node.children@,
                i as int,
                crate::dispatch::ctx_of(*old(self)),
                old(self).formatting_disabled,
                old(self).skip_next_block,
                old(self).skip_until_section,
            ),
            pending_view(final(self).pending_footnotes@) == doc_pending_after(
                node.children@,
                i as int,
                pending_view(old(self).pending_footnotes@),
            ),
            (final(self).formatting_disabled, final(self).skip_next_block,
                final(self).skip_until_section) == (
                doc_dec(
                    node.children@,
                    i as int,
                    old(self).formatting_disabled,
                    old(self).skip_next_block,
                    old(self).skip_until_section,
                ).1,
                doc_dec(
                    node.children@,
                    i as int,
                    old(self).formatting_disabled,
                    old(self).skip_next_block,
                    old(self).skip_until_section,
                ).2,
                doc_dec(
                    node.children@,
                    i as int,
                    old(self).formatting_disabled,
                    old(self).skip_next_block,
                    old(self).skip_until_section,
                ).3,
            ),
        decreases *node, 0int,
    {
        let ghost cs = node.children@;
        let ghost c = crate::dispatch::ctx_of(*old(self));
        let ghost pv = pending_view(old(self).pending_footnotes@);
        let ghost ed = old(self).formatting_disabled;
        let ghost esn = old(self).skip_next_block;
        let ghost ess = old(self).skip_until_section;
        let ghost loop_start = self.output@;
        let child = &node.children[i];
        let heading_level: u8 = match &child.kind {
            NodeKind::Heading(h) => *h,
            _ => 0,
        };
        proof {
            assert(heading_level as int == heading_level_of(cs[i as int]));
        }
        let is_h2 = heading_level == 2;
        let is_h2_or_h3 = heading_level == 2 || heading_level == 3;
        let ghost fcv = flush_count_view(pv, cs[i as int].start_line as int);
        if is_h2_or_h3 && i > 0 {
            let ghost pend = self.pending_footnotes@;
            self.flush_footnotes_before(child.start_line);
            proof {
                let k = crate::state::flush_count(pend, child.start_line as int);
                lemma_view_count(pend, child.start_line as int);
                lemma_view_flushed(pend, k);
                crate::footnote::lemma_flush_count_bounds(pend, child.start_line as int);
                assert(pending_view(pend) == pv);
                assert(k == fcv);
                assert(pending_view(pend.skip(k)) =~= pv.skip(fcv)) by {
                    assert(forall|j: int|
                        0 <= j < pend.len() - k ==> #[trigger] pend.skip(k)[j] == pend[k + j]);
                };
            }
        }
        proof {
            assert(self.output@ =~= loop_start + doc_flush_part(cs, i as int, pv));
            assert(pending_view(self.pending_footnotes@) == doc_pending_after(
                cs,
                i as int,
                pv,
            ));
        }
        let ghost start = self.output@;
        if i > 0 {
            let mut prev_is_front_matter = false;
            let mut prev_is_heading = false;
            match &node.children[i - 1].kind {
                NodeKind::FrontMatter(_) => {
                    prev_is_front_matter = true;
                },
                NodeKind::Heading(_) => {
                    prev_is_heading = true;
                },
                _ => {},
            }
            proof {
                assert(prev_is_front_matter == cs[i as int - 1].kind is FrontMatter);
                assert(prev_is_heading == cs[i as int - 1].kind is Heading);
            }
            if prev_is_front_matter {
            } else if is_h2 {
                if prev_is_heading {
                    self.output.push('\n');
                } else {
                    self.output.push('\n');
                    self.output.push('\n');
                }
            } else {
                self.output.push('\n');
            }
        }
        proof {
            assert(self.output@ =~= start + doc_spacing(cs, i as int));
            assert(start.is_prefix_of(self.output@)) by {
                assert(start =~= self.output@.subrange(0, start.len() as int));
            };
            lemma_prefix_trans(old(self).output@, start, self.output@);
        }
        let heading_le2 = heading_level >= 1 && heading_level <= 2;
        let (passthrough, d2, sn2, ss2) = crate::directive::decide_block(
            self.formatting_disabled,
            self.skip_next_block,
            self.skip_until_section,
            heading_le2,
        );
        self.formatting_disabled = d2;
        self.skip_next_block = sn2;
        self.skip_until_section = ss2;
        proof {
            assert(doc_dec(cs, i as int, ed, esn, ess) == (passthrough, d2, sn2, ss2));
        }
        let ghost m4 = self.output@;
        let ghost m4w = self.warnings@;
        if passthrough {
            let src = self.extract_source(child.start_line, child.end_line);
            match src {
                Some(text) => {
                    crate::text::append_chars(&mut self.output, text.as_slice());
                    self.output.push('\n');
                    proof {
                        assert(self.output@ =~= m4 + (source_text(
                            c.source_lines,
                            cs[i as int].start_line as int,
                            cs[i as int].end_line as int + 1,
                        ) + seq!['\n']));
                    }
                },
                None => {
                    proof {
                        assert(crate::dispatch::ctx_of(*self) =~= c);
                    }
                    serialize_node(self, child);
                },
            }
        } else {
            proof {
                assert(crate::dispatch::ctx_of(*self) =~= c);
            }
            serialize_node(self, child);
        }
        proof {
            assert(m4.is_prefix_of(self.output@)) by {
                assert(m4 =~= self.output@.subrange(0, m4.len() as int));
            };
            lemma_prefix_trans(old(self).output@, m4, self.output@);
            lemma_prefix_trans_w(old(self).warnings@, m4w, self.warnings@);
            assert(self.output@ =~= m4 + doc_body(cs, i as int, c, ed, esn, ess));
            assert(self.output@ =~= old(self).output@ + doc_flush_part(cs, i as int, pv)
                + doc_spacing(cs, i as int) + doc_body(cs, i as int, c, ed, esn, ess)) by {
                assert(self.output@ =~= m4 + doc_body(cs, i as int, c, ed, esn, ess));
                assert(m4 =~= start + doc_spacing(cs, i as int));
                assert(start =~= old(self).output@ + doc_flush_part(cs, i as int, pv));
            };
        }
    }

    /// Render a whole document: collect footnote reference lines, queue the
    /// footnote definitions, then walk the top-level children applying
    /// directives, section-boundary footnote flushes and inter-block
    /// spacing, and flush every remaining footnote at the end.  The output
    /// appended is exactly `doc_loop` over the pre-pass results.
    #[verifier::rlimit(100)]
    #[verifier::spinoff_prover]
    pub fn serialize_document(&mut self, node: &Node)
        requires
            pending_sorted(old(self).pending_footnotes@),
        ensures
            same_context(*old(self), *final(self)),
            final(self).line_width == old(self).line_width,
            final(self).source_lines == old(self).source_lines,
            final(self).pending_footnotes@.len() == 0,
            old(self).output@.is_prefix_of(final(self).output@),
            old(self).warnings@.is_prefix_of(final(self).warnings@),
            final(self).output@ == old(self).output@ + doc_loop(
                node.children@,
                0,
                crate::dispatch::ctx_of(*old(self)),
                old(self).formatting_disabled,
                old(self).skip_next_block,
                old(self).skip_until_section,
                prepass(
                    node.children@,
                    0,
                    crate::footnote::collect_refs(
                        *node,
                        crate::footnote::refs_view(old(self).footnote_reference_lines@),
                    ),
                    pending_view(old(self).pending_footnotes@),
                    old(self).line_width as int,
                ),
            ),
            (final(self).formatting_disabled, final(self).skip_next_block,
                final(self).skip_until_section) == doc_flags(
                node.children@,
                0,
                old(self).formatting_disabled,
                old(self).skip_next_block,
                old(self).skip_until_section,
            ),
        decreases *node, 1int,
    {
        let ghost cs = node.children@;
        let ghost c = crate::dispatch::ctx_of(*old(self));
        self.collect_footnote_reference_lines(node);
        let ghost refs2 = crate::footnote::refs_view(self.footnote_reference_lines@);
        let ghost p00 = pending_view(old(self).pending_footnotes@);
        let ghost w = self.line_width as int;
        let ghost p0 = prepass(cs, 0, refs2, p00, w);
        let mut i: usize = 0;
        while i < node.children.len()
            invariant
                i <= cs.len(),
                cs == node.children@,
                refs2 == crate::footnote::refs_view(self.footnote_reference_lines@),
                w == self.line_width as int,
                p00 == pending_view(old(self).pending_footnotes@),
                p0 == prepass(cs, 0, refs2, p00, w),
                p0 == prepass(cs, i as int, refs2, pending_view(self.pending_footnotes@), w),
                pending_sorted(self.pending_footnotes@),
                *self == (Serializer {
                    pending_footnotes: self.pending_footnotes,
                    footnote_reference_lines: self.footnote_reference_lines,
                    ..*old(self)
                }),
            decreases node.children.len() - i,
        {
            match &node.children[i].kind {
                NodeKind::FootnoteDefinition(name) => {
                    let n = &node.children[i];
                    let ghost prev = self.pending_footnotes@;
                    let ghost pvprev = pending_view(prev);
                    self.note_footnote_definition(n, name);
                    proof {
                        reveal(crate::document::prepass);
                        let rl = crate::footnote::ref_line_for(refs2, name@);
                        let k = crate::state::flush_count(prev, rl as int + 1);
                        lemma_view_count(prev, rl as int + 1);
                        let s2 = self.pending_footnotes@;
                        assert(s2 == prev.insert(k, s2[k]));
                        assert(prev.insert(k, s2[k]) =~= prev.take(k) + seq![s2[k]]
                            + prev.skip(k));
                        assert(forall|j: int| 0 <= j < k ==> s2[j] == prev[j]);
                        assert(forall|j: int| k < j < s2.len() ==> s2[j] == prev[j - 1]);
                        assert(pending_view(s2) =~= pvprev.insert(
                            flush_count_view(pvprev, rl as int + 1),
                            (rl, crate::footnote::footnote_body(
                                name@,
                                inline_text(cs[i as int]),
                                w,
                            )),
                        ));
                        assert(prepass(cs, i as int, refs2, pvprev, w) == prepass(
                            cs,
                            i as int + 1,
                            refs2,
                            pending_view(s2),
                            w,
                        ));
                    }
                },
                _ => {
                    proof {
                        reveal(crate::document::prepass);
                        assert(prepass(cs, i as int, refs2, pending_view(
                            self.pending_footnotes@,
                        ), w) == prepass(cs, i as int + 1, refs2, pending_view(
                            self.pending_footnotes@,
                        ), w));
                    }
                },
            }
            i = i + 1;
        }
        proof {
            lemma_prefix_refl(self.output@);
            lemma_prefix_refl_w(self.warnings@);
            reveal(crate::document::prepass);
            assert(prepass(cs, cs.len() as int, refs2, pending_view(self.pending_footnotes@), w)
                == pending_view(self.pending_footnotes@));
        }
        let ghost total = old(self).output@ + doc_loop(
            cs,
            0,
            c,
            old(self).formatting_disabled,
            old(self).skip_next_block,
            old(self).skip_until_section,
            p0,
        );
        let ghost fl0 = doc_flags(
            cs,
            0,
            old(self).formatting_disabled,
            old(self).skip_next_block,
            old(self).skip_until_section,
        );
        let mut i: usize = 0;
        while i < node.children.len()
            invariant
                i <= cs.len(),
                cs == node.children@,
                c == crate::dispatch::ctx_of(*old(self)),
                refs2 == crate::footnote::collect_refs(
                    *node,
                    crate::footnote::refs_view(old(self).footnote_reference_lines@),
                ),
                p00 == pending_view(old(self).pending_footnotes@),
                w == old(self).line_width as int,
                p0 == prepass(cs, 0, refs2, p00, w),
                total == old(self).output@ + doc_loop(
                    cs,
                    0,
                    c,
                    old(self).formatting_disabled,
                    old(self).skip_next_block,
                    old(self).skip_until_section,
                    p0,
                ),
                fl0 == doc_flags(
                    cs,
                    0,
                    old(self).formatting_disabled,
                    old(self).skip_next_block,
                    old(self).skip_until_section,
                ),
                pending_sorted(self.pending_footnotes@),
                same_context(*old(self), *self),
                self.line_width == old(self).line_width,
                self.source_lines == old(self).source_lines,
                old(self).output@.is_prefix_of(self.output@),
                old(self).warnings@.is_prefix_of(self.warnings@),
                total == self.output@ + doc_loop(
                    cs,
                    i as int,
                    c,
                    self.formatting_disabled,
                    self.skip_next_block,
                    self.skip_until_section,
                    pending_view(self.pending_footnotes@),
                ),
                fl0 == doc_flags(
                    cs,
                    i as int,
                    self.formatting_disabled,
                    self.skip_next_block,
                    self.skip_until_section,
                ),
            decreases node.children.len() - i,
        {
            let child = &node.children[i];
            let ghost pv = pending_view(self.pending_footnotes@);
            let ghost ed = self.formatting_disabled;
            let ghost esn = self.skip_next_block;
            let ghost ess = self.skip_until_section;
            let mut is_footnote_def = false;
            match &child.kind {
                NodeKind::FootnoteDefinition(_) => {
                    is_footnote_def = true;
                },
                _ => {},
            }
            if is_footnote_def {
                proof {
                    lemma_doc_skip(cs, i as int, c, ed, esn, ess, pv);
                }
                i = i + 1;
                continue;
            }
            let mut directive: Option<Directive> = None;
            match &child.kind {
                NodeKind::HtmlBlock(lit) => {
                    directive = Directive::parse(lit.as_slice());
                    proof {
                        assert(doc_directive(cs[i as int]) == directive);
                        assert(doc_literal(cs[i as int]) == lit@);
                    }
                },
                _ => {
                    proof {
                        assert(doc_directive(cs[i as int]) is None);
                    }
                },
            }
            match directive {
                Some(Directive::DisableFile) => {
                    let ghost start = self.output@;
                    match &child.kind {
                        NodeKind::HtmlBlock(lit) => {
                            let l = lit.clone();
                            crate::text::append_chars(&mut self.output, l.as_slice());
                        },
                        _ => {},
                    }
                    proof {
                        assert(self.output@ =~= start + doc_literal(cs[i as int]));
                        assert(start.is_prefix_of(self.output@)) by {
                            assert(start =~= self.output@.subrange(0, start.len() as int));
                        };
                        lemma_prefix_trans(old(self).output@, start, self.output@);
                        assert(crate::dispatch::ctx_of(*self) =~= c);
                    }
                    let ghost m2 = self.output@;
                    let ghost m2w = self.warnings@;
                    self.emit_remaining_raw(node, i + 1);
                    proof {
                        lemma_prefix_trans(old(self).output@, m2, self.output@);
                        lemma_prefix_trans_w(old(self).warnings@, m2w, self.warnings@);
                    }
                    let ghost m3 = self.output@;
                    let ghost pend = self.pending_footnotes@;
                    self.flush_footnotes();
                    proof {
                        assert(m3.is_prefix_of(self.output@)) by {
                            assert(m3 =~= self.output@.subrange(0, m3.len() as int));
                        };
                        lemma_prefix_trans(old(self).output@, m3, self.output@);
                        lemma_view_flushed(pend, pend.len() as int);
                        lemma_doc_file(cs, i as int, c, ed, esn, ess, pv);
                        assert(pending_view(pend) == pv);
                        assert(self.output@ =~= start + doc_loop(cs, i as int, c, ed, esn, ess,
                            pv));
                        assert(self.output@ == total);
                        assert(doc_flags(cs, i as int, ed, esn, ess) == (ed, esn, ess));
                    }
                    return;
                },
                Some(d) => {
                    let (d2, sn2, ss2) = crate::directive::apply_directive(
                        d,
                        self.formatting_disabled,
                        self.skip_next_block,
                        self.skip_until_section,
                    );
                    self.formatting_disabled = d2;
                    self.skip_next_block = sn2;
                    self.skip_until_section = ss2;
                    let ghost start = self.output@;
                    if i > 0 {
                        self.output.push('\n');
                    }
                    match &child.kind {
                        NodeKind::HtmlBlock(lit) => {
                            let l = lit.clone();
                            crate::text::append_chars(&mut self.output, l.as_slice());
                        },
                        _ => {},
                    }
                    proof {
                        assert(self.output@ =~= start + (if i > 0 {
                            seq!['\n']
                        } else {
                            Seq::<char>::empty()
                        }) + doc_literal(cs[i as int]));
                        assert(start.is_prefix_of(self.output@)) by {
                            assert(start =~= self.output@.subrange(0, start.len() as int));
                        };
                        lemma_prefix_trans(old(self).output@, start, self.output@);
                        assert((d2, sn2, ss2) == crate::directive::spec_apply_directive(
                            d,
                            ed,
                            esn,
                            ess,
                        ));
                        lemma_doc_directive(cs, i as int, c, ed, esn, ess, pv, d);
                        assert(self.output@ + doc_loop(cs, i as int + 1, c, d2, sn2, ss2, pv)
                            =~= start + doc_loop(cs, i as int, c, ed, esn, ess, pv));
                    }
                    i = i + 1;
                    continue;
                },
                None => {},
            }
            let ghost loop_start = self.output@;
            proof {
                assert(crate::dispatch::ctx_of(*self) =~= c);
            }
            self.emit_block(node, i);
            proof {
                lemma_prefix_trans(old(self).output@, loop_start, self.output@);
                lemma_doc_block(cs, i as int, c, ed, esn, ess, pv, loop_start, self.output@);
            }
            i = i + 1;
        }
        let ghost m5 = self.output@;
        let ghost pend = self.pending_footnotes@;
        self.flush_footnotes();
        proof {
            assert(m5.is_prefix_of(self.output@)) by {
                assert(m5 =~= self.output@.subrange(0, m5.len() as int));
            };
            lemma_prefix_trans(old(self).output@, m5, self.output@);
            lemma_view_flushed(pend, pend.len() as int);
            reveal(crate::document::doc_loop);
            reveal(crate::document::doc_flags);
            assert(doc_loop(cs, cs.len() as int, c, final(self).formatting_disabled,
                final(self).skip_next_block, final(self).skip_until_section, pending_view(pend))
                == flushed_view(pending_view(pend), pending_view(pend).len() as int));
            assert(self.output@ =~= m5 + flushed_view(pending_view(pend), pend.len() as int));
        }
    }
}

/// The canonical text of a whole document rendered from a fresh state.
pub open spec fn document_render(root: Node, lines: Seq<Vec<char>>, width: int) -> Seq<char> {
    doc_loop(
        root.children@,
        0,
        (crate::dispatch::RenderCtx {
            in_block_quote: false,
            blockquote_prefix: Seq::empty(),
            list_item_indent: Seq::empty(),
            list_active: false,
            list_depth: 0,
            in_description_details: false,
            line_width: width,
            source_lines: lines,
        }),
        false,
        false,
        false,
        prepass(
            root.children@,
            0,
            crate::footnote::collect_refs(root, Seq::empty()),
            Seq::empty(),
            width,
        ),
    )
}

/// Render a document tree against its source lines: the canonical text and
/// the collected diagnostics.
pub fn render_document(root: &Node, source_lines: Vec<Vec<char>>, line_width: usize) -> (r: (
    Vec<char>,
    Vec<crate::state::Warning>,
))
    ensures
        r.0@ == document_render(*root, source_lines@, line_width as int),
{
    let mut s = Serializer::new(source_lines, line_width);
    proof {
        assert(crate::dispatch::ctx_of(s) =~= (crate::dispatch::RenderCtx {
            in_block_quote: false,
            blockquote_prefix: Seq::empty(),
            list_item_indent: Seq::empty(),
            list_active: false,
            list_depth: 0,
            in_description_details: false,
            line_width: line_width as int,
            source_lines: source_lines@,
        }));
        assert(crate::footnote::refs_view(s.footnote_reference_lines@)
            =~= Seq::<(Seq<char>, usize)>::empty());
        assert(pending_view(s.pending_footnotes@) =~= Seq::<(usize, Seq<char>)>::empty());
        assert(pending_sorted(s.pending_footnotes@));
    }
    s.serialize_document(root);
    proof {
        assert(s.output@ =~= document_render(*root, source_lines@, line_width as int));
    }
    let Serializer { output, warnings, .. } = s;
    (output, warnings)
}

/// Whether the paragraph node takes the abbreviation-definition fast path
/// under the given state: it has a usable source span whose trimmed text is
/// an abbreviation definition.
pub open spec fn paragraph_is_abbrev(s: Serializer, n: Node) -> bool {
    source_span_ok(s.source_lines@, n.start_line as int, n.end_line as int) && is_abbrev_def(
        trimmed(source_text(s.source_lines@, n.start_line as int, n.end_line as int + 1)),
    )
}

/// Whether `t` spells an abbreviation definition.
fn is_abbrev(t: &[char]) -> (r: bool)
    ensures
        r == is_abbrev_def(t@),
{
    if t.len() < 2 || t[0] != '*' || t[1] != '[' {
        return false;
    }
    let mut i: usize = 0;
    while i < t.len() - 1
        invariant
            t@.len() >= 2,
            t@[0] == '*',
            t@[1] == '[',
            i <= t@.len() - 1,
            forall|j: int| 0 <= j < i && j + 1 < t@.len() ==> !(#[trigger] t@[j] == ']' && t@[j + 1] == ':'),
        decreases t@.len() - i,
    {
        if t[i] == ']' && t[i + 1] == ':' {
            proof {
                assert(is_abbrev_def(t@)) by {
                    assert(0 <= i as int && i as int + 1 < t@.len() && t@[i as int] == ']'
                        && t@[i as int + 1] == ':');
                };
            }
            return true;
        }
        i = i + 1;
    }
    false
}

} // verus!
