//! The mutable render state carried through the tree walk.

use vstd::prelude::*;

verus! {

use crate::node::ListKind;

/// A structured diagnostic: a source line and a message.
pub struct Warning {
    pub line: usize,
    pub message: Vec<char>,
}

/// A rendered footnote definition waiting to be placed at a section
/// boundary, ordered by the first source line that references it.
pub struct PendingFootnote {
    pub name: Vec<char>,
    /// First source line referencing the footnote; `usize::MAX` when the
    /// footnote is never referenced.
    pub ref_line: usize,
    pub body: Vec<char>,
}

/// A record of the first source line at which a footnote name is referenced.
pub struct FootnoteRef {
    pub name: Vec<char>,
    pub line: usize,
}

/// The render state: one per document render.
pub struct Serializer {
    /// The accumulated canonical text; only ever appended to.
    pub output: Vec<char>,
    /// Maximum wrapped line width, in characters.
    pub line_width: usize,
    pub in_block_quote: bool,
    /// One `"> "` unit per quote nesting level.
    pub blockquote_prefix: Vec<char>,
    /// The list indent that stood outside the innermost quote.
    pub blockquote_outer_indent: Vec<char>,
    /// The list depth that stood outside the innermost quote.
    pub blockquote_entry_list_depth: usize,
    /// Literal indent for list continuation lines.
    pub list_item_indent: Vec<char>,
    pub list_type: Option<ListKind>,
    /// List nesting depth; zero means not in a list.
    pub list_depth: usize,
    pub in_description_details: bool,
    /// Persistent formatting toggle.
    pub formatting_disabled: bool,
    /// Skip canonical formatting for exactly one following block.
    pub skip_next_block: bool,
    /// Skip canonical formatting until the next heading of level at most two.
    pub skip_until_section: bool,
    /// First reference line per footnote name, filled by the pre-pass.
    pub footnote_reference_lines: Vec<FootnoteRef>,
    /// Rendered footnote bodies awaiting placement, sorted by `ref_line`.
    pub pending_footnotes: Vec<PendingFootnote>,
    /// The original document, split into lines.
    pub source_lines: Vec<Vec<char>>,
    pub warnings: Vec<Warning>,
}

/// Saved context for one blockquote entry, handed back on exit.
pub struct BlockquoteState {
    pub was_in_block_quote: bool,
    pub old_blockquote_prefix: Vec<char>,
    pub old_blockquote_outer_indent: Vec<char>,
    pub old_blockquote_entry_list_depth: usize,
    pub old_list_item_indent: Vec<char>,
    pub old_list_type: Option<ListKind>,
    pub old_list_depth: usize,
    /// The list indent in force just outside the quote, used for the bare
    /// continuation lines between the quote's children.
    pub indent: Vec<char>,
}

/// The nesting context a handler must restore before returning: quote,
/// list and description-details state.
pub open spec fn same_context(a: Serializer, b: Serializer) -> bool {
    &&& a.in_block_quote == b.in_block_quote
    &&& a.blockquote_prefix@ == b.blockquote_prefix@
    &&& a.blockquote_outer_indent@ == b.blockquote_outer_indent@
    &&& a.blockquote_entry_list_depth == b.blockquote_entry_list_depth
    &&& a.list_item_indent@ == b.list_item_indent@
    &&& a.list_type == b.list_type
    &&& a.list_depth == b.list_depth
    &&& a.in_description_details == b.in_description_details
}

/// The parts of the state that the tree walk never changes.
pub open spec fn same_config(a: Serializer, b: Serializer) -> bool {
    &&& a.line_width == b.line_width
    &&& a.source_lines == b.source_lines
    &&& a.footnote_reference_lines == b.footnote_reference_lines
}

/// The fields a tree-walk handler leaves untouched apart from the list and
/// description context it manages itself: quote state, configuration,
/// directive flags and the pending-footnote queue.
pub open spec fn walk_frame(a: Serializer, b: Serializer) -> bool {
    &&& b.in_block_quote == a.in_block_quote
    &&& b.blockquote_prefix@ == a.blockquote_prefix@
    &&& b.blockquote_outer_indent@ == a.blockquote_outer_indent@
    &&& b.blockquote_entry_list_depth == a.blockquote_entry_list_depth
    &&& same_config(a, b)
    &&& same_flags(a, b)
    &&& b.pending_footnotes == a.pending_footnotes
}

/// The directive flags.
pub open spec fn same_flags(a: Serializer, b: Serializer) -> bool {
    &&& a.formatting_disabled == b.formatting_disabled
    &&& a.skip_next_block == b.skip_next_block
    &&& a.skip_until_section == b.skip_until_section
}

/// Pending footnotes are kept sorted by first reference line.
pub open spec fn pending_sorted(s: Seq<PendingFootnote>) -> bool {
    forall|i: int, j: int| 0 <= i < j < s.len() ==> #[trigger] s[i].ref_line <= #[trigger] s[j].ref_line
}

/// The text that flushing the first `k` pending footnotes appends: each body
/// preceded by one blank line.
pub open spec fn flushed_bodies(s: Seq<PendingFootnote>, k: int) -> Seq<char>
    decreases k,
{
    if k <= 0 || k > s.len() {
        Seq::empty()
    } else {
        flushed_bodies(s, k - 1) + seq!['\n'] + s[k - 1].body@
    }
}

/// How many leading pending footnotes have a reference line below `limit`.
pub open spec fn flush_count(s: Seq<PendingFootnote>, limit: int) -> int
    decreases s.len(),
{
    if s.len() == 0 || s[0].ref_line >= limit {
        0
    } else {
        1 + flush_count(s.drop_first(), limit)
    }
}

impl Serializer {
    /// A fresh render state over the given source lines.
    pub fn new(source_lines: Vec<Vec<char>>, line_width: usize) -> (s: Serializer)
        ensures
            s.output@ == Seq::<char>::empty(),
            s.line_width == line_width,
            !s.in_block_quote,
            s.blockquote_prefix@ == Seq::<char>::empty(),
            s.blockquote_outer_indent@ == Seq::<char>::empty(),
            s.blockquote_entry_list_depth == 0,
            s.list_item_indent@ == Seq::<char>::empty(),
            s.list_type is None,
            s.list_depth == 0,
            !s.in_description_details,
            !s.formatting_disabled,
            !s.skip_next_block,
            !s.skip_until_section,
            s.footnote_reference_lines@ == Seq::<FootnoteRef>::empty(),
            s.pending_footnotes@ == Seq::<PendingFootnote>::empty(),
            s.source_lines == source_lines,
            s.warnings@ == Seq::<Warning>::empty(),
    {
        let s = Serializer {
            output: Vec::new(),
            line_width,
            in_block_quote: false,
            blockquote_prefix: Vec::new(),
            blockquote_outer_indent: Vec::new(),
            blockquote_entry_list_depth: 0,
            list_item_indent: Vec::new(),
            list_type: None,
            list_depth: 0,
            in_description_details: false,
            formatting_disabled: false,
            skip_next_block: false,
            skip_until_section: false,
            footnote_reference_lines: Vec::new(),
            pending_footnotes: Vec::new(),
            source_lines,
            warnings: Vec::new(),
        };
        proof {
            assert(s.output@ =~= Seq::<char>::empty());
            assert(s.blockquote_prefix@ =~= Seq::<char>::empty());
            assert(s.blockquote_outer_indent@ =~= Seq::<char>::empty());
            assert(s.list_item_indent@ =~= Seq::<char>::empty());
            assert(s.footnote_reference_lines@ =~= Seq::<FootnoteRef>::empty());
            assert(s.pending_footnotes@ =~= Seq::<PendingFootnote>::empty());
            assert(s.warnings@ =~= Seq::<Warning>::empty());
        }
        s
    }

    /// Record one diagnostic.
    pub fn add_warning(&mut self, line: usize, message: Vec<char>)
        ensures
            final(self).warnings@ == old(self).warnings@.push((Warning { line, message })),
            *final(self) == (Serializer { warnings: final(self).warnings, ..*old(self) }),
    {
        self.warnings.push(Warning { line, message });
    }

    /// Whether the current block must be passed through verbatim: any of the
    /// three directive scopes suffices.
    pub fn should_skip_formatting(&self) -> (r: bool)
        ensures
            r == (self.formatting_disabled || self.skip_next_block || self.skip_until_section),
    {
        self.formatting_disabled || self.skip_next_block || self.skip_until_section
    }

    /// The original source text of the node's line span, joined with line
    /// breaks, or `None` when the node carries no usable span.
    pub fn extract_source(&self, start_line: usize, end_line: usize) -> (r: Option<Vec<char>>)
        ensures
            r is Some <==> source_span_ok(self.source_lines@, start_line as int, end_line as int),
            r is Some ==> r->0@ == source_text(
                self.source_lines@,
                start_line as int,
                end_line as int + 1,
            ),
    {
        if start_line == 0 || end_line == 0 || start_line > end_line || end_line
            > self.source_lines.len() {
            return None;
        }
        let mut out: Vec<char> = Vec::new();
        let count = end_line - start_line + 1;
        let mut k: usize = 0;
        proof {
            assert(out@ =~= Seq::<char>::empty());
            assert(out@ =~= source_text(self.source_lines@, start_line as int, start_line as int));
        }
        while k < count
            invariant
                k <= count,
                count == end_line - start_line + 1,
                1 <= start_line <= end_line,
                end_line <= self.source_lines@.len(),
                out@ == source_text(self.source_lines@, start_line as int, start_line + k),
            decreases count - k,
        {
            if k > 0 {
                out.push('\n');
            }
            crate::text::append_chars(&mut out, self.source_lines[start_line - 1 + k].as_slice());
            k = k + 1;
            proof {
                assert(out@ =~= source_text(
                    self.source_lines@,
                    start_line as int,
                    start_line + k,
                ));
            }
        }
        Some(out)
    }
}

/// Whether lines `start..=end` of the source are a usable span.
pub open spec fn source_span_ok(lines: Seq<Vec<char>>, start: int, end: int) -> bool {
    1 <= start && start <= end && end <= lines.len()
}

/// Lines `start` (1-based) up to but excluding `upto` of the source, joined
/// with line breaks.
pub open spec fn source_text(lines: Seq<Vec<char>>, start: int, upto: int) -> Seq<char>
    decreases upto - start,
{
    if upto <= start {
        Seq::empty()
    } else if upto == start + 1 {
        lines[start - 1]@
    } else {
        source_text(lines, start, upto - 1) + seq!['\n'] + lines[upto - 2]@
    }
}

} // verus!
