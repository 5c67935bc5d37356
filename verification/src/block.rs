//! Blockquote and alert rendering: nested-quote prefixing with strict
//! save-on-enter / restore-on-exit discipline.

use vstd::prelude::*;

verus! {

use crate::node::{AlertKind, Node};
use crate::state::{BlockquoteState, Serializer, same_config, same_context, same_flags};

/// The header text of an alert callout.
pub open spec fn alert_label(kind: AlertKind) -> Seq<char> {
    match kind {
        AlertKind::Note => "NOTE"@,
        AlertKind::Tip => "TIP"@,
        AlertKind::Important => "IMPORTANT"@,
        AlertKind::Warning => "WARNING"@,
        AlertKind::Caution => "CAUTION"@,
    }
}

impl Serializer {
    /// Enter blockquote context: save the whole list-nesting state, extend
    /// the quote prefix by one unit, and reset list nesting, so that content
    /// inside the quote starts a fresh, independent list context.
    pub fn enter_blockquote_context(&mut self) -> (st: BlockquoteState)
        ensures
            st.was_in_block_quote == old(self).in_block_quote,
            st.old_blockquote_prefix@ == old(self).blockquote_prefix@,
            st.old_blockquote_outer_indent@ == old(self).blockquote_outer_indent@,
            st.old_blockquote_entry_list_depth == old(self).blockquote_entry_list_depth,
            st.old_list_item_indent@ == old(self).list_item_indent@,
            st.old_list_type == old(self).list_type,
            st.old_list_depth == old(self).list_depth,
            st.indent@ == old(self).list_item_indent@,
            final(self).in_block_quote,
            final(self).blockquote_prefix@ == old(self).blockquote_prefix@ + seq!['>', ' '],
            final(self).blockquote_outer_indent@ == old(self).list_item_indent@,
            final(self).blockquote_entry_list_depth == old(self).list_depth,
            final(self).list_item_indent@ == Seq::<char>::empty(),
            final(self).list_type is None,
            final(self).list_depth == 0,
            final(self).in_description_details == old(self).in_description_details,
            final(self).output == old(self).output,
            final(self).pending_footnotes == old(self).pending_footnotes,
            final(self).warnings == old(self).warnings,
            same_config(*old(self), *final(self)),
            same_flags(*old(self), *final(self)),
    {
        let was_in_block_quote = self.in_block_quote;
        self.in_block_quote = true;

        let old_blockquote_prefix = self.blockquote_prefix.clone();
        self.blockquote_prefix.push('>');
        self.blockquote_prefix.push(' ');

        let new_outer = self.list_item_indent.clone();
        let mut old_blockquote_outer_indent = new_outer;
        std::mem::swap(&mut self.blockquote_outer_indent, &mut old_blockquote_outer_indent);
        let old_blockquote_entry_list_depth = self.blockquote_entry_list_depth;
        self.blockquote_entry_list_depth = self.list_depth;

        let indent = self.list_item_indent.clone();
        let mut old_list_item_indent: Vec<char> = Vec::new();
        std::mem::swap(&mut self.list_item_indent, &mut old_list_item_indent);
        let old_list_type = self.list_type.take();
        let old_list_depth = self.list_depth;
        self.list_depth = 0;

        proof {
            assert(old_blockquote_prefix@ == old(self).blockquote_prefix@);
            assert(self.blockquote_prefix@ =~= old(self).blockquote_prefix@ + seq!['>', ' ']);
            assert(self.list_item_indent@ =~= Seq::<char>::empty());
        }
        BlockquoteState {
            was_in_block_quote,
            old_blockquote_prefix,
            old_blockquote_outer_indent,
            old_blockquote_entry_list_depth,
            old_list_item_indent,
            old_list_type,
            old_list_depth,
            indent,
        }
    }

    /// Exit blockquote context: restore every saved field exactly.
    pub fn exit_blockquote_context(&mut self, st: BlockquoteState)
        ensures
            final(self).in_block_quote == st.was_in_block_quote,
            final(self).blockquote_prefix == st.old_blockquote_prefix,
            final(self).blockquote_outer_indent == st.old_blockquote_outer_indent,
            final(self).blockquote_entry_list_depth == st.old_blockquote_entry_list_depth,
            final(self).list_item_indent == st.old_list_item_indent,
            final(self).list_type == st.old_list_type,
            final(self).list_depth == st.old_list_depth,
            final(self).in_description_details == old(self).in_description_details,
            final(self).output == old(self).output,
            final(self).pending_footnotes == old(self).pending_footnotes,
            final(self).warnings == old(self).warnings,
            same_config(*old(self), *final(self)),
            same_flags(*old(self), *final(self)),
    {
        self.list_depth = st.old_list_depth;
        self.list_type = st.old_list_type;
        self.list_item_indent = st.old_list_item_indent;
        self.blockquote_outer_indent = st.old_blockquote_outer_indent;
        self.blockquote_entry_list_depth = st.old_blockquote_entry_list_depth;
        self.blockquote_prefix = st.old_blockquote_prefix;
        self.in_block_quote = st.was_in_block_quote;
    }

    /// Render the children of a quote body, separating consecutive children
    /// with a bare quote-continuation line.
    fn serialize_blockquote_children(&mut self, node: &Node, st: &BlockquoteState)
        ensures
            same_context(*old(self), *final(self)),
            same_config(*old(self), *final(self)),
            same_flags(*old(self), *final(self)),
            old(self).output@.is_prefix_of(final(self).output@),
            final(self).output@ == old(self).output@ + crate::dispatch::quote_body(
                node.children@,
                0,
                crate::dispatch::ctx_of(*old(self)),
                st.indent@ + st.old_blockquote_prefix@ + seq!['>', '\n'],
            ),
            final(self).pending_footnotes == old(self).pending_footnotes,
            old(self).warnings@.is_prefix_of(final(self).warnings@),
        decreases *node, 0int,
    {
        let ghost c = crate::dispatch::ctx_of(*old(self));
        let ghost sep = st.indent@ + st.old_blockquote_prefix@ + seq!['>', '\n'];
        let ghost cs = node.children@;
        let mut i: usize = 0;
        while i < node.children.len()
            invariant
                i <= cs.len(),
                cs == node.children@,
                c == crate::dispatch::ctx_of(*old(self)),
                sep == st.indent@ + st.old_blockquote_prefix@ + seq!['>', '\n'],
                same_context(*old(self), *self),
                same_config(*old(self), *self),
                same_flags(*old(self), *self),
                old(self).output@.is_prefix_of(self.output@),
                old(self).output@ + crate::dispatch::quote_body(cs, 0, c, sep) == self.output@
                    + crate::dispatch::quote_body(cs, i as int, c, sep),
                self.pending_footnotes == old(self).pending_footnotes,
                old(self).warnings@.is_prefix_of(self.warnings@),
            decreases node.children.len() - i,
        {
            let ghost start = self.output@;
            if i > 0 {
                crate::text::append_chars(&mut self.output, st.indent.as_slice());
                crate::text::append_chars(&mut self.output, st.old_blockquote_prefix.as_slice());
                self.output.push('>');
                self.output.push('\n');
                proof {
                    assert(self.output@ =~= start + sep);
                }
            }
            proof {
                assert(start.is_prefix_of(self.output@)) by {
                    assert(start =~= self.output@.subrange(0, start.len() as int));
                };
                crate::dispatch::lemma_prefix_trans(old(self).output@, start, self.output@);
                assert(crate::dispatch::ctx_of(*self) =~= c);
            }
            let ghost mid_out = self.output@;
            let ghost mid_warn = self.warnings@;
            crate::dispatch::serialize_node(self, &node.children[i]);
            proof {
                reveal(crate::dispatch::quote_body);
                crate::dispatch::lemma_prefix_trans(old(self).output@, mid_out, self.output@);
                crate::dispatch::lemma_prefix_trans_w(old(self).warnings@, mid_warn, self.warnings@);
                assert(crate::dispatch::quote_body(cs, i as int, c, sep) == (if i > 0 {
                    sep
                } else {
                    Seq::<char>::empty()
                }) + crate::dispatch::node_render(cs[i as int], c) + crate::dispatch::quote_body(
                    cs,
                    i as int + 1,
                    c,
                    sep,
                ));
                assert(self.output@ + crate::dispatch::quote_body(cs, i as int + 1, c, sep)
                    =~= start + crate::dispatch::quote_body(cs, i as int, c, sep));
            }
            i = i + 1;
        }
        proof {
            reveal(crate::dispatch::quote_body);
            assert(crate::dispatch::quote_body(cs, cs.len() as int, c, sep)
                =~= Seq::<char>::empty());
            assert(self.output@ =~= self.output@ + crate::dispatch::quote_body(
                cs,
                cs.len() as int,
                c,
                sep,
            ));
        }
    }

    /// Render a block quote: enter quote context, render the children with
    /// continuation separators, and restore the outer context exactly.
    pub fn serialize_block_quote(&mut self, node: &Node)
        ensures
            same_context(*old(self), *final(self)),
            same_config(*old(self), *final(self)),
            same_flags(*old(self), *final(self)),
            old(self).output@.is_prefix_of(final(self).output@),
            final(self).output@ == old(self).output@ + crate::dispatch::quote_render(
                *node,
                crate::dispatch::ctx_of(*old(self)),
            ),
            final(self).pending_footnotes == old(self).pending_footnotes,
            old(self).warnings@.is_prefix_of(final(self).warnings@),
        decreases *node, 1int,
    {
        let ghost c = crate::dispatch::ctx_of(*old(self));
        let st = self.enter_blockquote_context();
        proof {
            assert(crate::dispatch::ctx_of(*self).blockquote_prefix =~= crate::dispatch::quote_inner_ctx(c).blockquote_prefix);
            assert(crate::dispatch::ctx_of(*self).list_item_indent =~= Seq::<char>::empty());
            assert(crate::dispatch::ctx_of(*self) =~= crate::dispatch::quote_inner_ctx(c));
        }
        self.serialize_blockquote_children(node, &st);
        self.exit_blockquote_context(st);
        proof {
            assert(st.indent@ + st.old_blockquote_prefix@ + seq!['>', '\n']
                =~= crate::dispatch::quote_sep(c));
            assert(self.output@ == old(self).output@ + crate::dispatch::quote_render(*node, c));
        }
    }

    /// Render an alert callout: a `[!KIND]` header line, a reproduced blank
    /// quote line when the source had one after the header, then the body as
    /// a block quote.
    #[verifier::rlimit(80)]
    pub fn serialize_alert(&mut self, node: &Node, kind: AlertKind)
        ensures
            same_context(*old(self), *final(self)),
            same_config(*old(self), *final(self)),
            same_flags(*old(self), *final(self)),
            old(self).output@.is_prefix_of(final(self).output@),
            final(self).output@ == old(self).output@ + crate::dispatch::alert_head(
                crate::dispatch::ctx_of(*old(self)),
                kind,
            ) + (if crate::dispatch::alert_gap(*node) {
                crate::dispatch::quote_sep(crate::dispatch::ctx_of(*old(self)))
            } else {
                Seq::<char>::empty()
            }) + crate::dispatch::quote_render(*node, crate::dispatch::ctx_of(*old(self))),
            final(self).pending_footnotes == old(self).pending_footnotes,
            old(self).warnings@.is_prefix_of(final(self).warnings@),
        decreases *node, 1int,
    {
        let ghost c = crate::dispatch::ctx_of(*old(self));
        let ghost base = self.output@;
        crate::text::append_chars(&mut self.output, self.list_item_indent.as_slice());
        crate::text::append_chars(&mut self.output, self.blockquote_prefix.as_slice());
        self.output.push('>');
        self.output.push(' ');
        self.output.push('[');
        self.output.push('!');
        match kind {
            AlertKind::Note => crate::text::append_str(&mut self.output, "NOTE"),
            AlertKind::Tip => crate::text::append_str(&mut self.output, "TIP"),
            AlertKind::Important => crate::text::append_str(&mut self.output, "IMPORTANT"),
            AlertKind::Warning => crate::text::append_str(&mut self.output, "WARNING"),
            AlertKind::Caution => crate::text::append_str(&mut self.output, "CAUTION"),
        }
        self.output.push(']');
        self.output.push('\n');
        proof {
            assert(self.output@ =~= base + crate::dispatch::alert_head(c, kind));
        }

        let has_blank_after_header = if node.children.len() > 0 {
            let alert_start = node.start_line;
            let first_child_start = node.children[0].start_line;
            alert_start < usize::MAX && first_child_start > alert_start + 1
        } else {
            false
        };
        proof {
            assert(has_blank_after_header == crate::dispatch::alert_gap(*node));
        }
        if has_blank_after_header {
            crate::text::append_chars(&mut self.output, self.list_item_indent.as_slice());
            crate::text::append_chars(&mut self.output, self.blockquote_prefix.as_slice());
            self.output.push('>');
            self.output.push('\n');
            proof {
                assert(self.output@ =~= base + crate::dispatch::alert_head(c, kind)
                    + crate::dispatch::quote_sep(c));
            }
        }
        let ghost head_done = self.output@;

        let ghost c2 = crate::dispatch::ctx_of(*self);
        proof {
            assert(c2 =~= c);
        }
        let st = self.enter_blockquote_context();
        proof {
            assert(crate::dispatch::ctx_of(*self).blockquote_prefix
                =~= crate::dispatch::quote_inner_ctx(c).blockquote_prefix);
            assert(crate::dispatch::ctx_of(*self).list_item_indent =~= Seq::<char>::empty());
            assert(crate::dispatch::ctx_of(*self) =~= crate::dispatch::quote_inner_ctx(c));
        }
        self.serialize_blockquote_children(node, &st);
        self.exit_blockquote_context(st);
        proof {
            assert(st.indent@ + st.old_blockquote_prefix@ + seq!['>', '\n']
                =~= crate::dispatch::quote_sep(c));
            assert(self.output@ == head_done + crate::dispatch::quote_render(*node, c));
            assert(self.output@ =~= base + crate::dispatch::alert_head(c, kind) + (
            if crate::dispatch::alert_gap(*node) {
                crate::dispatch::quote_sep(c)
            } else {
                Seq::<char>::empty()
            }) + crate::dispatch::quote_render(*node, c));
            crate::dispatch::lemma_append_prefix(
                base,
                self.output@.skip(base.len() as int),
            );
            assert(base + self.output@.skip(base.len() as int) =~= self.output@);
        }
    }
}

} // verus!
