//! Table rendering: column widths from rendered cell content with a floor
//! of three, padded header/separator/body rows, and an independent re-scan
//! of the raw source lines for pipe-count mismatches.

use vstd::prelude::*;

verus! {

use crate::node::{Alignment, Node, inline_text};
use crate::state::{Serializer, Warning, same_config, same_context, same_flags};
use crate::text::{dec_digits, repeat_char};

/// `s[i..]` with every pipe escaped as `\|`.
pub open spec fn esc(s: Seq<char>, i: int) -> Seq<char>
    decreases s.len() - i,
{
    if i < 0 || i >= s.len() {
        Seq::empty()
    } else if s[i] == '|' {
        seq!['\\', '|'] + esc(s, i + 1)
    } else {
        seq![s[i]] + esc(s, i + 1)
    }
}

/// The rendered, escaped text of one table cell.
pub open spec fn cell_text(n: Node) -> Seq<char> {
    esc(inline_text(n), 0)
}

/// The rendered cells of one row.
pub open spec fn row_cells(r: Node) -> Seq<Seq<char>> {
    Seq::new(r.children@.len(), |j: int| cell_text(r.children@[j]))
}

/// The rendered cell matrix of a table node.
pub open spec fn table_cells(n: Node) -> Seq<Seq<Seq<char>>> {
    Seq::new(n.children@.len(), |i: int| row_cells(n.children@[i]))
}

/// The longest rendered cell in column `c` among the first `r` rows.
pub open spec fn col_max(m: Seq<Seq<Seq<char>>>, c: int, r: int) -> int
    decreases r,
{
    if r <= 0 || r > m.len() {
        0
    } else {
        let prev = col_max(m, c, r - 1);
        let here = if 0 <= c < m[r - 1].len() {
            m[r - 1][c].len() as int
        } else {
            0
        };
        if here > prev {
            here
        } else {
            prev
        }
    }
}

/// The width of column `c`: the longest rendered cell, with a floor of
/// three so an alignment marker always fits.
pub open spec fn width_of(m: Seq<Seq<Seq<char>>>, c: int) -> int {
    let mx = col_max(m, c, m.len() as int);
    if mx > 3 {
        mx
    } else {
        3
    }
}

/// The widths of all `cols` columns.
pub open spec fn widths_of(m: Seq<Seq<Seq<char>>>, cols: nat) -> Seq<int> {
    Seq::new(cols, |c: int| width_of(m, c))
}

/// The widths a vector of machine integers stands for.
pub open spec fn ws_view(ws: Seq<usize>) -> Seq<int> {
    Seq::new(ws.len(), |i: int| ws[i] as int)
}

/// The width used at cell position `j`: the column's width, or three for a
/// cell beyond the expected columns.
pub open spec fn wcol(ws: Seq<int>, j: int) -> int {
    if 0 <= j < ws.len() {
        ws[j]
    } else {
        3
    }
}

/// A cell padded with spaces to the column width (never truncated).
pub open spec fn pad(c: Seq<char>, w: int) -> Seq<char> {
    c + repeat_char(' ', if c.len() >= w {
        0
    } else {
        (w - c.len()) as nat
    })
}

/// The ` cell |` tail of a row from position `j` on.
pub open spec fn row_text(cells: Seq<Seq<char>>, ws: Seq<int>, j: int) -> Seq<char>
    decreases cells.len() - j,
{
    if j < 0 || j >= cells.len() {
        Seq::empty()
    } else {
        seq![' '] + pad(cells[j], wcol(ws, j)) + seq![' ', '|'] + row_text(cells, ws, j + 1)
    }
}

/// One full table row line, with the quote prefix when inside a quote.
pub open spec fn row_line(cells: Seq<Seq<char>>, ws: Seq<int>, quote: bool) -> Seq<char> {
    (if quote {
        seq!['>', ' ']
    } else {
        Seq::<char>::empty()
    }) + seq!['|'] + row_text(cells, ws, 0) + seq!['\n']
}

/// The separator run of one column: dashes with colons at the aligned ends.
pub open spec fn sep_cell(a: Alignment, w: int) -> Seq<char> {
    match a {
        Alignment::Left => seq![':'] + repeat_char('-', (w - 1) as nat),
        Alignment::Right => repeat_char('-', (w - 1) as nat) + seq![':'],
        Alignment::Center => seq![':'] + repeat_char('-', (w - 2) as nat) + seq![':'],
        Alignment::Unaligned => repeat_char('-', w as nat),
    }
}

/// The separator tail from column `j` on.
pub open spec fn sep_text(aligns: Seq<Alignment>, ws: Seq<int>, j: int) -> Seq<char>
    decreases aligns.len() - j,
{
    if j < 0 || j >= aligns.len() {
        Seq::empty()
    } else {
        seq![' '] + sep_cell(aligns[j], wcol(ws, j)) + seq![' ', '|'] + sep_text(aligns, ws, j + 1)
    }
}

/// The full separator line.
pub open spec fn sep_line(aligns: Seq<Alignment>, ws: Seq<int>, quote: bool) -> Seq<char> {
    (if quote {
        seq!['>', ' ']
    } else {
        Seq::<char>::empty()
    }) + seq!['|'] + sep_text(aligns, ws, 0) + seq!['\n']
}

/// The data rows from row `i` on.
pub open spec fn body_lines(m: Seq<Seq<Seq<char>>>, ws: Seq<int>, quote: bool, i: int) -> Seq<char>
    decreases m.len() - i,
{
    if i < 0 || i >= m.len() {
        Seq::empty()
    } else {
        row_line(m[i], ws, quote) + body_lines(m, ws, quote, i + 1)
    }
}

/// The full canonical rendering of a table with cell matrix `m`.
pub open spec fn table_render(
    m: Seq<Seq<Seq<char>>>,
    aligns: Seq<Alignment>,
    ws: Seq<int>,
    quote: bool,
) -> Seq<char> {
    if m.len() == 0 {
        Seq::empty()
    } else {
        row_line(m[0], ws, quote) + sep_line(aligns, ws, quote) + body_lines(m, ws, quote, 1)
    }
}

/// The number of unescaped pipes in `s[i..]`: a pipe counts unless the
/// character just before it is a backslash.
pub open spec fn pipe_count(s: Seq<char>, i: int) -> int
    decreases s.len() - i,
{
    if i < 0 || i >= s.len() {
        0
    } else {
        (if s[i] == '|' && (i == 0 || s[i - 1] != '\\') {
            1int
        } else {
            0int
        }) + pipe_count(s, i + 1)
    }
}

/// Whether a source line looks like a table separator row: only pipes,
/// dashes, colons and spaces.
pub open spec fn is_sep_source_line(s: Seq<char>) -> bool {
    forall|j: int| 0 <= j < s.len() ==> s[j] == '|' || s[j] == '-' || s[j] == ':' || s[j] == ' '
}

/// The line and message of each recorded diagnostic.
pub open spec fn warnings_view(s: Seq<Warning>) -> Seq<(usize, Seq<char>)> {
    Seq::new(s.len(), |i: int| (s[i].line, s[i].message@))
}

/// The warning message for a row with too many pipes.
pub open spec fn msg_too_many(pc: int, cols: int, table_line: int) -> Seq<char> {
    "table row has "@ + dec_digits(pc as nat) + " pipe characters, expected "@ + dec_digits(
        (cols + 1) as nat,
    ) + " for "@ + dec_digits(cols as nat)
        + " columns; unescaped `|` in cell content? (table starts at line "@ + dec_digits(
        table_line as nat,
    ) + ")"@
}

/// The warning message for a row with too few pipes.
pub open spec fn msg_too_few(pc: int, cols: int, table_line: int) -> Seq<char> {
    "table row has "@ + dec_digits(pc as nat) + " pipe characters, expected at least "@
        + dec_digits(cols as nat) + " for "@ + dec_digits(cols as nat)
        + " columns (table starts at line "@ + dec_digits(table_line as nat) + ")"@
}

/// The diagnostics the source scan of lines `ln..=end` produces: separator
/// rows are skipped, a pipe count above `cols + 1` or below `cols` warns.
pub open spec fn scan_warnings(
    lines: Seq<Vec<char>>,
    ln: int,
    end: int,
    cols: int,
    table_line: int,
) -> Seq<(usize, Seq<char>)>
    decreases end + 1 - ln,
{
    if ln > end {
        Seq::empty()
    } else {
        let rest = scan_warnings(lines, ln + 1, end, cols, table_line);
        if ln - 1 < 0 || ln - 1 >= lines.len() {
            rest
        } else {
            let l = lines[ln - 1]@;
            if is_sep_source_line(l) {
                rest
            } else {
                let pc = pipe_count(l, 0);
                if pc > cols + 1 {
                    seq![((ln as usize), msg_too_many(pc, cols, table_line))] + rest
                } else if pc < cols {
                    seq![((ln as usize), msg_too_few(pc, cols, table_line))] + rest
                } else {
                    rest
                }
            }
        }
    }
}

/// Count the unescaped pipe characters of a line: pipes directly preceded
/// by a backslash are not column separators.
pub fn count_unescaped_pipes(line: &[char]) -> (r: usize)
    ensures
        r as int == pipe_count(line@, 0),
{
    let ghost s = line@;
    let mut count: usize = 0;
    let mut i: usize = 0;
    while i < line.len()
        invariant
            i <= s.len(),
            s == line@,
            count <= i,
            count as int + pipe_count(s, i as int) == pipe_count(s, 0),
        decreases s.len() - i,
    {
        if line[i] == '|' && (i == 0 || line[i - 1] != '\\') {
            count = count + 1;
        }
        i = i + 1;
    }
    count
}

/// Whether a line holds only pipes, dashes, colons and spaces.
fn is_sep_row(line: &[char]) -> (r: bool)
    ensures
        r == is_sep_source_line(line@),
{
    let mut i: usize = 0;
    while i < line.len()
        invariant
            i <= line@.len(),
            forall|j: int|
                0 <= j < i ==> line@[j] == '|' || line@[j] == '-' || line@[j] == ':' || line@[j]
                    == ' ',
        decreases line@.len() - i,
    {
        let c = line[i];
        if !(c == '|' || c == '-' || c == ':' || c == ' ') {
            return false;
        }
        i = i + 1;
    }
    true
}

impl Serializer {
    /// Re-scan the raw source lines spanned by a table and record a warning
    /// for every row whose unescaped pipe count does not fit the expected
    /// column count.
    pub fn check_table_source_columns(
        &mut self,
        node: &Node,
        expected_cols: usize,
        table_start_line: usize,
    )
        ensures
            *final(self) == (Serializer { warnings: final(self).warnings, ..*old(self) }),
            old(self).warnings@.is_prefix_of(final(self).warnings@),
            warnings_view(final(self).warnings@) == warnings_view(old(self).warnings@) + (
            if node.start_line == 0 || node.end_line == 0 || node.start_line > node.end_line {
                Seq::<(usize, Seq<char>)>::empty()
            } else {
                scan_warnings(
                    old(self).source_lines@,
                    node.start_line as int,
                    node.end_line as int,
                    expected_cols as int,
                    table_start_line as int,
                )
            }),
    {
        let start_line = node.start_line;
        let end_line = node.end_line;
        if start_line == 0 || end_line == 0 || start_line > end_line {
            proof {
                assert(warnings_view(self.warnings@) =~= warnings_view(old(self).warnings@)
                    + Seq::<(usize, Seq<char>)>::empty());
                crate::dispatch::lemma_prefix_refl_w(self.warnings@);
            }
            return;
        }
        let ghost lines = self.source_lines@;
        let ghost total = scan_warnings(
            lines,
            start_line as int,
            end_line as int,
            expected_cols as int,
            table_start_line as int,
        );
        let count = end_line - start_line + 1;
        let mut k: usize = 0;
        proof {
            crate::dispatch::lemma_prefix_refl_w(self.warnings@);
        }
        while k < count
            invariant
                k <= count,
                count == end_line - start_line + 1,
                1 <= start_line <= end_line,
                lines == self.source_lines@,
                *self == (Serializer { warnings: self.warnings, ..*old(self) }),
                old(self).warnings@.is_prefix_of(self.warnings@),
                warnings_view(old(self).warnings@) + total == warnings_view(self.warnings@)
                    + scan_warnings(
                    lines,
                    start_line + k,
                    end_line as int,
                    expected_cols as int,
                    table_start_line as int,
                ),
            decreases count - k,
        {
            let ln = start_line + k;
            let ghost rest = scan_warnings(
                lines,
                ln + 1,
                end_line as int,
                expected_cols as int,
                table_start_line as int,
            );
            let ghost mid = warnings_view(self.warnings@);
            let ghost mid_w = self.warnings@;
            if ln - 1 < self.source_lines.len() {
                let line = &self.source_lines[ln - 1];
                if !is_sep_row(line.as_slice()) {
                    let pc = count_unescaped_pipes(line.as_slice());
                    if pc > expected_cols && pc - 1 > expected_cols {
                        let msg = too_many_message(pc, expected_cols, table_start_line);
                        let ghost m = msg@;
                        self.warnings.push(Warning { line: ln, message: msg });
                        proof {
                            assert(m == msg_too_many(
                                pc as int,
                                expected_cols as int,
                                table_start_line as int,
                            ));
                            assert(warnings_view(self.warnings@) =~= mid.push((ln, m)));
                            assert(old(self).warnings@ =~= self.warnings@.subrange(
                                0,
                                old(self).warnings@.len() as int,
                            ));
                        }
                    } else if pc < expected_cols {
                        let msg = too_few_message(pc, expected_cols, table_start_line);
                        let ghost m = msg@;
                        self.warnings.push(Warning { line: ln, message: msg });
                        proof {
                            assert(m == msg_too_few(
                                pc as int,
                                expected_cols as int,
                                table_start_line as int,
                            ));
                            assert(warnings_view(self.warnings@) =~= mid.push((ln, m)));
                            assert(old(self).warnings@ =~= self.warnings@.subrange(
                                0,
                                old(self).warnings@.len() as int,
                            ));
                        }
                    }
                }
            }
            k = k + 1;
            proof {
                assert(warnings_view(old(self).warnings@) + total =~= warnings_view(
                    self.warnings@,
                ) + rest);
            }
        }
        proof {
            assert(scan_warnings(
                lines,
                start_line + count,
                end_line as int,
                expected_cols as int,
                table_start_line as int,
            ) =~= Seq::<(usize, Seq<char>)>::empty());
            assert(warnings_view(self.warnings@) =~= warnings_view(old(self).warnings@) + total);
        }
    }

    /// Table rows are rendered by the table handler itself.
    pub fn serialize_table_row(&mut self, _node: &Node, _is_header: bool)
        ensures
            *final(self) == *old(self),
    {
    }
}

/// Build the too-many-pipes message.
fn too_many_message(pc: usize, cols: usize, table_line: usize) -> (r: Vec<char>)
    requires
        cols < usize::MAX,
    ensures
        r@ == msg_too_many(pc as int, cols as int, table_line as int),
{
    let mut m: Vec<char> = Vec::new();
    crate::text::append_str(&mut m, "table row has ");
    crate::text::append_dec(&mut m, pc);
    crate::text::append_str(&mut m, " pipe characters, expected ");
    crate::text::append_dec(&mut m, cols + 1);
    crate::text::append_str(&mut m, " for ");
    crate::text::append_dec(&mut m, cols);
    crate::text::append_str(&mut m, " columns; unescaped `|` in cell content? (table starts at line ");
    crate::text::append_dec(&mut m, table_line);
    crate::text::append_str(&mut m, ")");
    proof {
        assert(m@ =~= msg_too_many(pc as int, cols as int, table_line as int));
    }
    m
}

/// Build the too-few-pipes message.
fn too_few_message(pc: usize, cols: usize, table_line: usize) -> (r: Vec<char>)
    ensures
        r@ == msg_too_few(pc as int, cols as int, table_line as int),
{
    let mut m: Vec<char> = Vec::new();
    crate::text::append_str(&mut m, "table row has ");
    crate::text::append_dec(&mut m, pc);
    crate::text::append_str(&mut m, " pipe characters, expected at least ");
    crate::text::append_dec(&mut m, cols);
    crate::text::append_str(&mut m, " for ");
    crate::text::append_dec(&mut m, cols);
    crate::text::append_str(&mut m, " columns (table starts at line ");
    crate::text::append_dec(&mut m, table_line);
    crate::text::append_str(&mut m, ")");
    proof {
        assert(m@ =~= msg_too_few(pc as int, cols as int, table_line as int));
    }
    m
}

/// Escape every pipe of a rendered cell.
fn escape_cell(s: &[char]) -> (r: Vec<char>)
    ensures
        r@ == esc(s@, 0),
{
    let mut out: Vec<char> = Vec::new();
    let mut i: usize = 0;
    proof {
        assert(out@ =~= Seq::<char>::empty());
    }
    while i < s.len()
        invariant
            i <= s@.len(),
            out@ + esc(s@, i as int) == esc(s@, 0),
        decreases s@.len() - i,
    {
        let ghost prev = out@;
        if s[i] == '|' {
            out.push('\\');
            out.push('|');
            proof {
                assert(out@ + esc(s@, i as int + 1) =~= prev + esc(s@, i as int));
            }
        } else {
            out.push(s[i]);
            proof {
                assert(out@ + esc(s@, i as int + 1) =~= prev + esc(s@, i as int));
            }
        }
        i = i + 1;
    }
    proof {
        assert(esc(s@, s@.len() as int) =~= Seq::<char>::empty());
        assert(out@ =~= out@ + esc(s@, s@.len() as int));
    }
    out
}

/// Append one padded row line.
fn append_row_line(out: &mut Vec<char>, cells: &Vec<Vec<char>>, ws: &Vec<usize>, quote: bool)
    ensures
        final(out)@ == old(out)@ + row_line(cells.deep_view(), ws_view(ws@), quote),
{
    let ghost cv = cells.deep_view();
    let ghost wv = ws_view(ws@);
    if quote {
        out.push('>');
        out.push(' ');
    }
    out.push('|');
    let ghost head = out@;
    proof {
        assert(head =~= old(out)@ + (if quote {
            seq!['>', ' ']
        } else {
            Seq::<char>::empty()
        }) + seq!['|']);
    }
    let mut j: usize = 0;
    while j < cells.len()
        invariant
            j <= cv.len(),
            cv == cells.deep_view(),
            wv == ws_view(ws@),
            head + row_text(cv, wv, 0) == out@ + row_text(cv, wv, j as int),
        decreases cv.len() - j,
    {
        let ghost prev = out@;
        out.push(' ');
        let cell = &cells[j];
        crate::text::append_chars(out, cell.as_slice());
        let w: usize = if j < ws.len() {
            ws[j]
        } else {
            3
        };
        if cell.len() < w {
            crate::text::append_repeat(out, ' ', w - cell.len());
        }
        out.push(' ');
        out.push('|');
        proof {
            assert(cv[j as int] == cell@);
            assert(w as int == wcol(wv, j as int));
            assert(pad(cell@, w as int) =~= cell@ + repeat_char(' ', if cell@.len() >= w as int {
                0
            } else {
                (w as int - cell@.len()) as nat
            }));
            assert(out@ =~= prev + seq![' '] + pad(cv[j as int], wcol(wv, j as int)) + seq![
                ' ',
                '|',
            ]);
            assert(out@ + row_text(cv, wv, j as int + 1) =~= prev + row_text(cv, wv, j as int));
        }
        j = j + 1;
    }
    out.push('\n');
    proof {
        assert(row_text(cv, wv, cv.len() as int) =~= Seq::<char>::empty());
        assert(out@ =~= old(out)@ + row_line(cv, wv, quote));
    }
}

/// Append the separator line.
fn append_sep_line(out: &mut Vec<char>, aligns: &Vec<Alignment>, ws: &Vec<usize>, quote: bool)
    requires
        aligns@.len() == ws@.len(),
        forall|j: int| 0 <= j < ws@.len() ==> #[trigger] ws@[j] >= 3,
    ensures
        final(out)@ == old(out)@ + sep_line(aligns@, ws_view(ws@), quote),
{
    let ghost av = aligns@;
    let ghost wv = ws_view(ws@);
    if quote {
        out.push('>');
        out.push(' ');
    }
    out.push('|');
    let ghost head = out@;
    proof {
        assert(head =~= old(out)@ + (if quote {
            seq!['>', ' ']
        } else {
            Seq::<char>::empty()
        }) + seq!['|']);
    }
    let mut j: usize = 0;
    while j < aligns.len()
        invariant
            j <= av.len(),
            av == aligns@,
            wv == ws_view(ws@),
            av.len() == ws@.len(),
            forall|i: int| 0 <= i < ws@.len() ==> #[trigger] ws@[i] >= 3,
            head + sep_text(av, wv, 0) == out@ + sep_text(av, wv, j as int),
        decreases av.len() - j,
    {
        let ghost prev = out@;
        out.push(' ');
        let w = ws[j];
        match aligns[j] {
            Alignment::Left => {
                out.push(':');
                crate::text::append_repeat(out, '-', w - 1);
            },
            Alignment::Right => {
                crate::text::append_repeat(out, '-', w - 1);
                out.push(':');
            },
            Alignment::Center => {
                out.push(':');
                crate::text::append_repeat(out, '-', w - 2);
                out.push(':');
            },
            Alignment::Unaligned => {
                crate::text::append_repeat(out, '-', w);
            },
        }
        out.push(' ');
        out.push('|');
        proof {
            assert(w as int == wcol(wv, j as int));
            assert(out@ =~= prev + seq![' '] + sep_cell(av[j as int], wcol(wv, j as int)) + seq![
                ' ',
                '|',
            ]);
            assert(out@ + sep_text(av, wv, j as int + 1) =~= prev + sep_text(av, wv, j as int));
        }
        j = j + 1;
    }
    out.push('\n');
    proof {
        assert(sep_text(av, wv, av.len() as int) =~= Seq::<char>::empty());
        assert(out@ =~= old(out)@ + sep_line(av, wv, quote));
    }
}

impl Serializer {
    /// Render a table: compute column widths from escaped cell content with
    /// a floor of three, emit the padded header, the alignment separator and
    /// the padded body rows, and separately check the raw source lines for
    /// pipe-count mismatches.
    pub fn serialize_table(&mut self, node: &Node, aligns: &Vec<Alignment>)
        ensures
            same_context(*old(self), *final(self)),
            same_config(*old(self), *final(self)),
            same_flags(*old(self), *final(self)),
            final(self).pending_footnotes == old(self).pending_footnotes,
            old(self).output@.is_prefix_of(final(self).output@),
            old(self).warnings@.is_prefix_of(final(self).warnings@),
            node.children@.len() == 0 ==> final(self).warnings == old(self).warnings,
            final(self).output@ == old(self).output@ + (if node.children@.len() == 0 {
                Seq::<char>::empty()
            } else {
                table_render(
                    table_cells(*node),
                    aligns@,
                    widths_of(table_cells(*node), aligns@.len()),
                    old(self).in_block_quote,
                )
            }),
        decreases *node, 1int,
    {
        let ghost m = table_cells(*node);
        if node.children.len() == 0 {
            proof {
                crate::dispatch::lemma_prefix_refl(self.output@);
                crate::dispatch::lemma_prefix_refl_w(self.warnings@);
                assert(self.output@ =~= old(self).output@ + Seq::<char>::empty());
            }
            return;
        }
        let table_line = node.start_line;
        self.check_table_source_columns(node, aligns.len(), table_line);
        let ghost after_check = *self;

        let mut all: Vec<Vec<Vec<char>>> = Vec::new();
        let mut r: usize = 0;
        while r < node.children.len()
            invariant
                r <= node.children@.len(),
                m == table_cells(*node),
                all.deep_view() =~~= m.subrange(0, r as int),
            decreases node.children@.len() - r,
        {
            let row = &node.children[r];
            let mut row_vec: Vec<Vec<char>> = Vec::new();
            let mut c: usize = 0;
            while c < row.children.len()
                invariant
                    c <= row.children@.len(),
                    row == &node.children@[r as int],
                    r < node.children@.len(),
                    m == table_cells(*node),
                    row_vec.deep_view() =~~= row_cells(*row).subrange(0, c as int),
                decreases row.children@.len() - c,
            {
                let ghost prev = row_vec.deep_view();
                let ghost cc = c as int;
                let mut content: Vec<char> = Vec::new();
                crate::node::collect_inline_content(&row.children[c], &mut content);
                let escaped = escape_cell(content.as_slice());
                let ghost ev = escaped@;
                row_vec.push(escaped);
                c = c + 1;
                proof {
                    assert(content@ =~= inline_text(row.children@[cc]));
                    assert(ev == esc(inline_text(row.children@[cc]), 0));
                    assert(row_cells(*row)[cc] == cell_text(row.children@[cc]));
                    assert(row_vec.deep_view() =~~= prev.push(ev));
                    assert(row_cells(*row).subrange(0, cc + 1) =~= row_cells(*row).subrange(
                        0,
                        cc,
                    ).push(row_cells(*row)[cc]));
                    assert(row_vec.deep_view() =~~= row_cells(*row).subrange(0, c as int));
                }
            }
            let ghost prev_all = all.deep_view();
            all.push(row_vec);
            r = r + 1;
            proof {
                assert(row_cells(*row).subrange(0, row.children@.len() as int) =~= row_cells(
                    *row,
                ));
                assert(all.deep_view() =~~= m.subrange(0, r as int));
            }
        }
        proof {
            assert(all.deep_view() =~~= m);
        }

        let mut ws: Vec<usize> = Vec::new();
        let mut c: usize = 0;
        while c < aligns.len()
            invariant
                c <= aligns@.len(),
                all.deep_view() == m,
                m == table_cells(*node),
                ws@.len() == c,
                forall|i: int| 0 <= i < c ==> #[trigger] ws@[i] as int == width_of(m, i),
            decreases aligns@.len() - c,
        {
            let mut w: usize = 3;
            let mut r2: usize = 0;
            while r2 < all.len()
                invariant
                    r2 <= m.len(),
                    all.deep_view() == m,
                    c < aligns@.len(),
                    w as int == (if col_max(m, c as int, r2 as int) > 3 {
                        col_max(m, c as int, r2 as int)
                    } else {
                        3
                    }),
                decreases m.len() - r2,
            {
                let row = &all[r2];
                if c < row.len() {
                    let len = row[c].len();
                    if len > w {
                        w = len;
                    }
                }
                r2 = r2 + 1;
            }
            ws.push(w);
            c = c + 1;
        }
        proof {
            assert(ws_view(ws@) =~= widths_of(m, aligns@.len()));
            assert(forall|i: int| 0 <= i < ws@.len() ==> #[trigger] ws@[i] >= 3);
        }

        let quote = self.in_block_quote;
        let ghost base = self.output@;
        let ghost wv = ws_view(ws@);
        proof {
            assert(all@[0].deep_view() =~~= m[0]);
        }
        append_row_line(&mut self.output, &all[0], &ws, quote);
        append_sep_line(&mut self.output, aligns, &ws, quote);
        let mut r3: usize = 1;
        while r3 < all.len()
            invariant
                1 <= r3 <= m.len(),
                all.deep_view() == m,
                wv == ws_view(ws@),
                aligns@.len() == ws@.len(),
                forall|i: int| 0 <= i < ws@.len() ==> #[trigger] ws@[i] >= 3,
                base + row_line(m[0], wv, quote) + sep_line(aligns@, wv, quote) + body_lines(
                    m,
                    wv,
                    quote,
                    1,
                ) == self.output@ + body_lines(m, wv, quote, r3 as int),
                *self == (Serializer { output: self.output, ..after_check }),
                old(self).warnings@.is_prefix_of(self.warnings@),
            decreases m.len() - r3,
        {
            let ghost prev = self.output@;
            proof {
                assert(all@[r3 as int].deep_view() =~~= m[r3 as int]);
            }
            append_row_line(&mut self.output, &all[r3], &ws, quote);
            proof {
                assert(self.output@ + body_lines(m, wv, quote, r3 as int + 1) =~= prev
                    + body_lines(m, wv, quote, r3 as int));
            }
            r3 = r3 + 1;
        }
        proof {
            assert(body_lines(m, wv, quote, m.len() as int) =~= Seq::<char>::empty());
            assert(self.output@ =~= old(self).output@ + table_render(m, aligns@, wv, quote));
            crate::dispatch::lemma_append_prefix(old(self).output@, table_render(
                m,
                aligns@,
                wv,
                quote,
            ));
        }
    }
}

} // verus!
