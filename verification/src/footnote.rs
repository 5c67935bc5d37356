//! Footnote bookkeeping: the reference-line pre-pass and the deferred
//! placement of rendered definitions at section boundaries.

use vstd::prelude::*;

verus! {

use crate::node::{Node, NodeKind, inline_text};
use crate::state::{
    FootnoteRef,
    PendingFootnote,
    Serializer,
    flush_count,
    flushed_bodies,
    pending_sorted,
};

/// The name and line of each reference record, as plain sequences.
pub open spec fn refs_view(s: Seq<FootnoteRef>) -> Seq<(Seq<char>, usize)> {
    Seq::new(s.len(), |i: int| (s[i].name@, s[i].line))
}

/// Whether a reference line is already recorded for `name`.
pub open spec fn refs_has(s: Seq<(Seq<char>, usize)>, name: Seq<char>) -> bool {
    exists|i: int| 0 <= i < s.len() && #[trigger] s[i].0 == name
}

/// The first recorded reference line for `name`, or `usize::MAX` when none.
pub open spec fn ref_line_for(s: Seq<(Seq<char>, usize)>, name: Seq<char>) -> usize
    decreases s.len(),
{
    if s.len() == 0 {
        usize::MAX
    } else if s[0].0 == name {
        s[0].1
    } else {
        ref_line_for(s.drop_first(), name)
    }
}

/// The reference records after scanning `n`: a first-wins record per
/// footnote name, in discovery order.
pub open spec fn collect_refs(n: Node, acc: Seq<(Seq<char>, usize)>) -> Seq<(Seq<char>, usize)>
    decreases n, 1int, 0int,
{
    let acc1 = match n.kind {
        NodeKind::FootnoteReference(name) => if refs_has(acc, name@) {
            acc
        } else {
            acc.push((name@, n.start_line))
        },
        _ => acc,
    };
    collect_refs_seq(n.children@, 0, acc1)
}

/// The reference records after scanning `s[i..]`.
pub open spec fn collect_refs_seq(s: Seq<Node>, i: int, acc: Seq<(Seq<char>, usize)>) -> Seq<
    (Seq<char>, usize),
>
    decreases s, 0int, s.len() - i,
{
    if i < 0 || i >= s.len() {
        acc
    } else {
        collect_refs_seq(s, i + 1, collect_refs(s[i], acc))
    }
}

/// The canonical body of a footnote definition: its marker, then the inline
/// content wrapped with a four-space hanging indent.
pub open spec fn footnote_body(name: Seq<char>, content: Seq<char>, width: int) -> Seq<char> {
    seq!['[', '^'] + name + seq![']', ':', ' '] + crate::wrap::wrapped(
        content,
        Seq::empty(),
        seq![' ', ' ', ' ', ' '],
        width,
    ) + seq!['\n']
}

impl Serializer {
    /// Whether a reference line is recorded for `name`.
    fn has_ref(&self, name: &[char]) -> (r: bool)
        ensures
            r == refs_has(refs_view(self.footnote_reference_lines@), name@),
    {
        let mut i: usize = 0;
        while i < self.footnote_reference_lines.len()
            invariant
                i <= self.footnote_reference_lines@.len(),
                forall|j: int|
                    0 <= j < i ==> #[trigger] refs_view(self.footnote_reference_lines@)[j].0
                        != name@,
            decreases self.footnote_reference_lines@.len() - i,
        {
            if crate::text::chars_eq(
                self.footnote_reference_lines[i].name.as_slice(),
                name,
            ) {
                proof {
                    assert(refs_view(self.footnote_reference_lines@)[i as int].0 == name@);
                }
                return true;
            }
            i = i + 1;
        }
        false
    }

    /// The first recorded reference line for `name`, `usize::MAX` when none.
    fn ref_line_of(&self, name: &[char]) -> (r: usize)
        ensures
            r == ref_line_for(refs_view(self.footnote_reference_lines@), name@),
    {
        let mut i: usize = 0;
        let ghost s = refs_view(self.footnote_reference_lines@);
        proof {
            assert(s.skip(0) =~= s);
        }
        while i < self.footnote_reference_lines.len()
            invariant
                i <= s.len(),
                s == refs_view(self.footnote_reference_lines@),
                ref_line_for(s, name@) == ref_line_for(s.skip(i as int), name@),
            decreases s.len() - i,
        {
            proof {
                assert(s.skip(i as int).drop_first() =~= s.skip(i as int + 1));
                assert(s.skip(i as int)[0] == s[i as int]);
            }
            if crate::text::chars_eq(
                self.footnote_reference_lines[i].name.as_slice(),
                name,
            ) {
                return self.footnote_reference_lines[i].line;
            }
            i = i + 1;
        }
        proof {
            assert(s.skip(s.len() as int).len() == 0);
        }
        usize::MAX
    }

    /// Record, for every footnote reference under `node`, the first source
    /// line at which its name is referenced.  Must run before any rendering.
    pub fn collect_footnote_reference_lines(&mut self, node: &Node)
        ensures
            refs_view(final(self).footnote_reference_lines@) == collect_refs(
                *node,
                refs_view(old(self).footnote_reference_lines@),
            ),
            *final(self) == (Serializer {
                footnote_reference_lines: final(self).footnote_reference_lines,
                ..*old(self)
            }),
        decreases *node,
    {
        match &node.kind {
            NodeKind::FootnoteReference(name) => {
                if !self.has_ref(name.as_slice()) {
                    let ghost prev = self.footnote_reference_lines@;
                    let n = name.clone();
                    let line = node.start_line;
                    self.footnote_reference_lines.push(FootnoteRef { name: n, line });
                    proof {
                        assert(refs_view(self.footnote_reference_lines@) =~= refs_view(
                            prev,
                        ).push((name@, node.start_line)));
                    }
                }
            },
            _ => {},
        }
        let ghost acc1 = refs_view(self.footnote_reference_lines@);
        let ghost cs = node.children@;
        let mut i: usize = 0;
        while i < node.children.len()
            invariant
                i <= cs.len(),
                node.children@ == cs,
                collect_refs_seq(cs, 0, acc1) == collect_refs_seq(
                    cs,
                    i as int,
                    refs_view(self.footnote_reference_lines@),
                ),
                *self == (Serializer {
                    footnote_reference_lines: self.footnote_reference_lines,
                    ..*old(self)
                }),
            decreases cs.len() - i,
        {
            self.collect_footnote_reference_lines(&node.children[i]);
            i = i + 1;
        }
    }

    /// Render a footnote definition and queue it for deferred placement,
    /// keyed by its first reference line.
    pub fn note_footnote_definition(&mut self, node: &Node, name: &Vec<char>)
        requires
            pending_sorted(old(self).pending_footnotes@),
        ensures
            pending_sorted(final(self).pending_footnotes@),
            ({
                let rl = ref_line_for(refs_view(old(self).footnote_reference_lines@), name@);
                let k = flush_count(old(self).pending_footnotes@, rl as int + 1);
                &&& 0 <= k <= old(self).pending_footnotes@.len()
                &&& final(self).pending_footnotes@ == old(self).pending_footnotes@.insert(
                    k,
                    final(self).pending_footnotes@[k],
                )
                &&& final(self).pending_footnotes@[k].name@ == name@
                &&& final(self).pending_footnotes@[k].ref_line == rl
                &&& final(self).pending_footnotes@[k].body@ == footnote_body(
                    name@,
                    inline_text(*node),
                    old(self).line_width as int,
                )
            }),
            *final(self) == (Serializer {
                pending_footnotes: final(self).pending_footnotes,
                ..*old(self)
            }),
    {
        let ref_line = self.ref_line_of(name.as_slice());
        let mut body: Vec<char> = Vec::new();
        body.push('[');
        body.push('^');
        crate::text::append_chars(&mut body, name.as_slice());
        body.push(']');
        body.push(':');
        body.push(' ');
        let mut content: Vec<char> = Vec::new();
        crate::node::collect_inline_content(node, &mut content);
        let indent: [char; 4] = [' ', ' ', ' ', ' '];
        crate::wrap::append_wrapped_first_line(
            &mut body,
            content.as_slice(),
            &[],
            &indent,
            self.line_width,
        );
        body.push('\n');
        proof {
            assert(indent@ =~= seq![' ', ' ', ' ', ' ']);
            assert(Seq::<char>::empty() =~= seq![]);
            assert(body@ =~= footnote_body(name@, inline_text(*node), self.line_width as int));
        }
        let n2 = name.clone();
        proof {
            assert(n2@ == name@);
        }
        let entry = PendingFootnote { name: n2, ref_line, body };
        let mut k: usize = 0;
        while k < self.pending_footnotes.len() && self.pending_footnotes[k].ref_line <= ref_line
            invariant
                k <= self.pending_footnotes@.len(),
                forall|j: int|
                    0 <= j < k ==> #[trigger] self.pending_footnotes@[j].ref_line <= ref_line,
                pending_sorted(self.pending_footnotes@),
                *self == *old(self),
            decreases self.pending_footnotes@.len() - k,
        {
            k = k + 1;
        }
        let ghost prev = self.pending_footnotes@;
        let ghost kk = k as int;
        let ghost entry_g = entry;
        self.pending_footnotes.insert(k, entry);
        proof {
            let s = self.pending_footnotes@;
            assert(s == prev.insert(kk, entry_g));
            assert(s =~= prev.take(kk) + seq![entry_g] + prev.skip(kk));
            assert(forall|i: int| 0 <= i < kk ==> s[i] == prev[i]);
            assert(s[kk] == entry_g);
            assert(forall|i: int| kk < i < s.len() ==> s[i] == prev[i - 1]);
            assert forall|j: int| kk <= j < prev.len() implies #[trigger] prev[j].ref_line
                >= ref_line by {
                assert(prev[kk].ref_line > ref_line);
                assert(kk < j ==> prev[kk].ref_line <= prev[j].ref_line);
            };
            assert forall|i: int, j: int| 0 <= i < j < s.len() implies s[i].ref_line
                <= s[j].ref_line by {
                if i < kk && j < kk {
                } else if i < kk && j == kk {
                } else if i < kk && j > kk {
                    assert(prev[j - 1].ref_line >= ref_line);
                } else if i == kk && j > kk {
                    assert(prev[j - 1].ref_line >= ref_line);
                } else if i > kk && j > kk {
                }
            };
            assert(pending_sorted(s));
            assert(entry_g.name@ == name@);
            assert(entry_g.ref_line == ref_line_for(
                refs_view(old(self).footnote_reference_lines@),
                name@,
            ));
            assert(entry_g == (PendingFootnote {
                name: s[kk].name,
                ref_line: ref_line_for(refs_view(old(self).footnote_reference_lines@), name@),
                body: s[kk].body,
            }));
            lemma_flush_count_exact(prev, ref_line as int + 1, kk);
            assert(kk == flush_count(prev, ref_line as int + 1));
        }
    }

    /// Emit every pending footnote whose first reference line is strictly
    /// before `limit`, in reference order, each preceded by one blank line.
    pub fn flush_footnotes_before(&mut self, limit: usize)
        requires
            pending_sorted(old(self).pending_footnotes@),
        ensures
            pending_sorted(final(self).pending_footnotes@),
            final(self).pending_footnotes@ == old(self).pending_footnotes@.skip(
                flush_count(old(self).pending_footnotes@, limit as int),
            ),
            final(self).output@ == old(self).output@ + flushed_bodies(
                old(self).pending_footnotes@,
                flush_count(old(self).pending_footnotes@, limit as int),
            ),
            forall|i: int|
                0 <= i < final(self).pending_footnotes@.len()
                    ==> #[trigger] final(self).pending_footnotes@[i].ref_line >= limit,
            *final(self) == (Serializer {
                pending_footnotes: final(self).pending_footnotes,
                output: final(self).output,
                ..*old(self)
            }),
    {
        let ghost orig = self.pending_footnotes@;
        let ghost k = flush_count(orig, limit as int);
        proof {
            lemma_flush_count_bounds(orig, limit as int);
        }
        let mut i: usize = 0;
        while i < self.pending_footnotes.len() && self.pending_footnotes[i].ref_line < limit
            invariant
                0 <= i <= orig.len(),
                self.pending_footnotes@ == orig,
                forall|j: int| 0 <= j < i ==> #[trigger] orig[j].ref_line < limit,
                self.output@ == old(self).output@ + flushed_bodies(orig, i as int),
                *self == (Serializer {
                    output: self.output,
                    ..*old(self)
                }),
            decreases orig.len() - i,
        {
            self.output.push('\n');
            crate::text::append_chars(&mut self.output, self.pending_footnotes[i].body.as_slice());
            i = i + 1;
            proof {
                assert(self.output@ =~= old(self).output@ + flushed_bodies(orig, i as int));
            }
        }
        proof {
            lemma_flush_count_exact(orig, limit as int, i as int);
        }
        let remaining = self.pending_footnotes.split_off(i);
        self.pending_footnotes = remaining;
        proof {
            assert(self.pending_footnotes@ =~= orig.skip(k));
            assert(forall|j: int|
                0 <= j < self.pending_footnotes@.len() ==> #[trigger] self.pending_footnotes@[j]
                    == orig[j + k]);
        }
    }

    /// Emit every remaining pending footnote, in reference order.
    pub fn flush_footnotes(&mut self)
        requires
            pending_sorted(old(self).pending_footnotes@),
        ensures
            final(self).pending_footnotes@.len() == 0,
            final(self).output@ == old(self).output@ + flushed_bodies(
                old(self).pending_footnotes@,
                old(self).pending_footnotes@.len() as int,
            ),
            pending_sorted(final(self).pending_footnotes@),
            *final(self) == (Serializer {
                pending_footnotes: final(self).pending_footnotes,
                output: final(self).output,
                ..*old(self)
            }),
    {
        let ghost orig = self.pending_footnotes@;
        let mut i: usize = 0;
        while i < self.pending_footnotes.len()
            invariant
                0 <= i <= orig.len(),
                self.pending_footnotes@ == orig,
                self.output@ == old(self).output@ + flushed_bodies(orig, i as int),
                *self == (Serializer {
                    output: self.output,
                    ..*old(self)
                }),
            decreases orig.len() - i,
        {
            self.output.push('\n');
            crate::text::append_chars(&mut self.output, self.pending_footnotes[i].body.as_slice());
            i = i + 1;
            proof {
                assert(self.output@ =~= old(self).output@ + flushed_bodies(orig, i as int));
            }
        }
        self.pending_footnotes = Vec::new();
        proof {
            assert(self.pending_footnotes@ =~= Seq::<PendingFootnote>::empty());
        }
    }
}

/// The flush count is within the queue's length.
pub proof fn lemma_flush_count_bounds(s: Seq<PendingFootnote>, limit: int)
    ensures
        0 <= flush_count(s, limit) <= s.len(),
    decreases s.len(),
{
    if s.len() == 0 || s[0].ref_line >= limit {
    } else {
        lemma_flush_count_bounds(s.drop_first(), limit);
    }
}

/// When the first `i` entries are below the limit and entry `i` (if any) is
/// not, the flush count is exactly `i`.
proof fn lemma_flush_count_exact(s: Seq<PendingFootnote>, limit: int, i: int)
    requires
        0 <= i <= s.len(),
        forall|j: int| 0 <= j < i ==> #[trigger] s[j].ref_line < limit,
        i < s.len() ==> s[i].ref_line >= limit,
    ensures
        flush_count(s, limit) == i,
    decreases i,
{
    if i == 0 {
    } else {
        assert(s[0].ref_line < limit);
        let t = s.drop_first();
        assert(forall|j: int| 0 <= j < i - 1 ==> #[trigger] t[j].ref_line < limit);
        assert(i - 1 < t.len() ==> t[i - 1].ref_line >= limit);
        lemma_flush_count_exact(t, limit, i - 1);
    }
}

} // verus!
