//! Global laws of the serializer, proved once over the specification
//! functions that the handlers' contracts use.

use vstd::prelude::*;

verus! {

use crate::directive::{Directive, spec_apply_directive, spec_decide_block};
use crate::state::{PendingFootnote, flush_count, pending_sorted};
use crate::table::{col_max, pad, width_of};

/// Table width law: every column width is at least three, is at least as
/// long as every rendered cell of the column, and padding a cell to the
/// column width yields exactly the column width.
pub proof fn lemma_table_widths(m: Seq<Seq<Seq<char>>>, c: int, r: int)
    requires
        0 <= r < m.len(),
        0 <= c < m[r].len(),
    ensures
        width_of(m, c) >= 3,
        width_of(m, c) >= m[r][c].len(),
        pad(m[r][c], width_of(m, c)).len() == width_of(m, c),
{
    lemma_col_max_ge(m, c, r, m.len() as int);
}

/// The column maximum over the first `upto` rows dominates the cell in any
/// earlier row.
proof fn lemma_col_max_ge(m: Seq<Seq<Seq<char>>>, c: int, r: int, upto: int)
    requires
        0 <= r < upto <= m.len(),
        0 <= c < m[r].len(),
    ensures
        col_max(m, c, upto) >= m[r][c].len(),
    decreases upto,
{
    if r == upto - 1 {
    } else {
        lemma_col_max_ge(m, c, r, upto - 1);
    }
}

/// One-shot scope law: after a `DisableNextLine` directive the one-shot
/// flag is set; the next block is passed through verbatim and clears the
/// flag; with every flag clear a block is rendered normally.  So the
/// directive affects exactly one following top-level block.
pub proof fn lemma_disable_next_line_scope(h1: bool, h2: bool)
    ensures
        spec_apply_directive(Directive::DisableNextLine, false, false, false) == (
            false,
            true,
            false,
        ),
        spec_decide_block(false, true, false, h1) == (true, false, false, false),
        spec_decide_block(false, false, false, h2) == (false, false, false, false),
{
}

/// Section scope law: while the section scope is set, every block that is
/// not a heading of level at most two is passed through and the scope
/// stays; such a heading is rendered normally and ends the scope.
pub proof fn lemma_disable_next_section_scope(d: bool, sn: bool)
    ensures
        spec_apply_directive(Directive::DisableNextSection, d, sn, false) == (d, sn, true),
        spec_decide_block(d, sn, true, false) == (true, d, false, true),
        spec_decide_block(d, sn, true, true) == (false, d, false, false),
{
}

/// Persistent disable law: `Disable` holds until `Enable`; while disabled
/// every block is passed through.
pub proof fn lemma_disable_enable(sn: bool, ss: bool, h: bool)
    ensures
        spec_apply_directive(Directive::Disable, false, sn, ss) == (true, sn, ss),
        spec_apply_directive(Directive::Enable, true, sn, ss) == (false, sn, ss),
        spec_decide_block(true, false, false, h) == (true, true, false, false),
{
}

/// Footnote ordering law: in a sorted pending queue, a section flush takes
/// exactly the leading entries referenced before the boundary, in
/// nondecreasing order of first reference line, and leaves exactly those
/// referenced at or after it.
pub proof fn lemma_flush_partition(s: Seq<PendingFootnote>, limit: int)
    requires
        pending_sorted(s),
    ensures
        0 <= flush_count(s, limit) <= s.len(),
        forall|k: int| 0 <= k < flush_count(s, limit) ==> #[trigger] s[k].ref_line < limit,
        forall|k: int|
            flush_count(s, limit) <= k < s.len() ==> #[trigger] s[k].ref_line >= limit,
        forall|i: int, j: int|
            0 <= i < j < flush_count(s, limit) ==> #[trigger] s[i].ref_line
                <= #[trigger] s[j].ref_line,
    decreases s.len(),
{
    if s.len() == 0 || s[0].ref_line >= limit {
        assert forall|k: int| flush_count(s, limit) <= k < s.len() implies #[trigger] s[k].ref_line >= limit by {
            assert(s[0].ref_line <= s[k].ref_line);
        }
    } else {
        let t = s.drop_first();
        assert(pending_sorted(t)) by {
            assert forall|i: int, j: int| 0 <= i < j < t.len() implies #[trigger] t[i].ref_line
                <= #[trigger] t[j].ref_line by {
                assert(s[i + 1].ref_line <= s[j + 1].ref_line);
            }
        }
        lemma_flush_partition(t, limit);
        assert forall|k: int| 0 <= k < flush_count(s, limit) implies #[trigger] s[k].ref_line
            < limit by {
            if k > 0 {
                assert(t[k - 1].ref_line < limit);
            }
        }
        assert forall|k: int| flush_count(s, limit) <= k < s.len() implies #[trigger] s[k].ref_line >= limit by {
            assert(t[k - 1].ref_line >= limit);
        }
    }
}

} // verus!
