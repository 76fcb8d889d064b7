//! The fixed-width table renderer: header and record cells in a bordered
//! grid, each column as wide as its widest cell plus padding.

use vstd::prelude::*;
use crate::column::aligned::{append_spaces, fit_chars, space_run, Alignment};
use crate::column::column::Column;
use crate::column::content::Content;
use crate::input::item::{field_alignment, field_name, field_name_chars, column_chars, opt_chars, Field, Item};
use crate::input::meta::Formatters;

verus! {

/// What `str::to_uppercase` returns: the uppercase form of the characters,
/// a function of them alone.
pub uninterp spec fn upper_of(s: Seq<char>) -> Seq<char>;

/// Relies on str::to_uppercase: the result depends on the characters alone.
#[verifier::external_body]
fn to_uppercase(s: &str) -> (r: String)
    ensures
        r@ == upper_of(s@),
{
    s.to_uppercase()
}

/// A run of `n` dash characters.
pub open spec fn dash_run(n: nat) -> Seq<char> {
    Seq::new(n, |i: int| '-')
}

/// Appends `n` dash characters to the buffer.
fn append_dashes(buffer: &mut String, n: usize)
    ensures
        final(buffer)@ == old(buffer)@ + dash_run(n as nat),
{
    let mut i: usize = 0;
    proof {
        reveal_strlit("-");
    }
    while i < n
        invariant
            i <= n,
            buffer@ == old(buffer)@ + dash_run(i as nat),
        decreases n - i,
    {
        buffer.append("-");
        proof {
            reveal_strlit("-");
            assert(buffer@ =~= old(buffer)@ + dash_run((i + 1) as nat));
        }
        i = i + 1;
    }
    proof {
        if n == 0 {
            assert(buffer@ =~= old(buffer)@ + dash_run(0));
        }
    }
}

/// The widest content among the first `upto` rows' cells of column `c`.
pub open spec fn col_max(rows: Seq<Vec<Column>>, c: int, upto: int) -> nat
    decreases upto,
{
    if upto <= 0 {
        0
    } else {
        let w = rows[upto - 1]@[c].spec_width();
        let rest = col_max(rows, c, upto - 1);
        if w > rest {
            w
        } else {
            rest
        }
    }
}

/// Every cell in a column is at most the column's widest content.
proof fn lemma_col_max_bound(rows: Seq<Vec<Column>>, c: int, upto: int, r: int)
    requires
        0 <= r < upto,
    ensures
        rows[r]@[c].spec_width() <= col_max(rows, c, upto),
    decreases upto,
{
    if r < upto - 1 {
        lemma_col_max_bound(rows, c, upto - 1, r);
    }
}

/// A rendered table: one row of cells per line, the first row being the
/// headers.  Every row has the same cell count.
pub struct Table {
    pub rows: Vec<Vec<Column>>,
}

impl Table {
    /// Well-formed: at least the header row, at least one column, and a
    /// rectangular grid.
    pub open spec fn wf(&self) -> bool {
        &&& self.rows@.len() >= 1
        &&& self.rows@[0]@.len() >= 1
        &&& forall|r: int|
            0 <= r < self.rows@.len() ==> (#[trigger] self.rows@[r])@.len() == self.rows@[0]@.len()
    }

    /// The cell count of every row.
    pub open spec fn spec_cols(&self) -> int {
        self.rows@[0]@.len() as int
    }

    /// The display widths the columns are fitted to: each column's widest
    /// content.
    pub open spec fn widths(&self) -> Seq<nat> {
        Seq::new(self.spec_cols() as nat, |c: int| col_max(self.rows@, c, self.rows@.len() as int))
    }

    /// Builds the table: one centred, upper-cased header cell per field,
    /// then one row of extracted cells per record, in order.
    pub fn new(headers: &Vec<Field>, items: &Vec<&Item>, formatters: &Formatters<'_>) -> (r: Table)
        requires
            headers@.len() >= 1,
        ensures
            r.wf(),
            r.rows@.len() == 1 + items@.len(),
            forall|rr: int| 0 <= rr < r.rows@.len() ==> (#[trigger] r.rows@[rr])@.len()
                == headers@.len(),
            forall|c: int|
                0 <= c < headers@.len() ==> {
                    let cell = #[trigger] r.rows@[0]@[c];
                    cell.alignment == Alignment::Centre && opt_chars(cell.content.0) == Some(
                        upper_of(field_name_chars(headers@[c])),
                    )
                },
            forall|i: int, c: int|
                0 <= i < items@.len() && 0 <= c < headers@.len() ==> {
                    let cell = #[trigger] r.rows@[i + 1]@[c];
                    cell.alignment == field_alignment(headers@[c]) && opt_chars(cell.content.0)
                        == column_chars(
                        *items@[i],
                        headers@[c],
                        *formatters.weight,
                        *formatters.price,
                    )
                },
    {
        let mut rows: Vec<Vec<Column>> = Vec::new();
        let mut header_row: Vec<Column> = Vec::new();
        let mut c: usize = 0;
        while c < headers.len()
            invariant
                c <= headers@.len(),
                header_row@.len() == c,
                forall|j: int|
                    0 <= j < c ==> {
                        let cell = #[trigger] header_row@[j];
                        cell.alignment == Alignment::Centre && opt_chars(cell.content.0) == Some(
                            upper_of(field_name_chars(headers@[j])),
                        )
                    },
            decreases headers@.len() - c,
        {
            let name = field_name(headers[c]);
            let upper = to_uppercase(name.as_str());
            header_row.push(Column::new(Alignment::Centre, Content(Some(upper))));
            c = c + 1;
        }
        rows.push(header_row);
        let mut i: usize = 0;
        while i < items.len()
            invariant
                i <= items@.len(),
                rows@.len() == 1 + i,
                rows@[0]@.len() == headers@.len(),
                forall|j: int|
                    0 <= j < headers@.len() ==> {
                        let cell = #[trigger] rows@[0]@[j];
                        cell.alignment == Alignment::Centre && opt_chars(cell.content.0) == Some(
                            upper_of(field_name_chars(headers@[j])),
                        )
                    },
                forall|k: int, j: int|
                    0 <= k < i && 0 <= j < headers@.len() ==> {
                        let cell = #[trigger] rows@[k + 1]@[j];
                        cell.alignment == field_alignment(headers@[j]) && opt_chars(cell.content.0)
                            == column_chars(
                            *items@[k],
                            headers@[j],
                            *formatters.weight,
                            *formatters.price,
                        )
                    },
                forall|rr: int| 0 <= rr < rows@.len() ==> (#[trigger] rows@[rr])@.len()
                    == headers@.len(),
            decreases items@.len() - i,
        {
            let row = items[i].columns(headers, formatters);
            rows.push(row);
            i = i + 1;
        }
        Table { rows }
    }
}

/// The border line under the first `upto` columns: a `+`, then for each
/// column its width plus two padding dashes and a closing `+`.
pub open spec fn decorator_text(ws: Seq<nat>, upto: int) -> Seq<char>
    decreases upto,
{
    if upto <= 0 {
        seq!['+']
    } else {
        decorator_text(ws, upto - 1) + dash_run((ws[upto - 1] + 2) as nat) + seq!['+']
    }
}

/// One row's first `upto` cells rendered: a `|`, then each cell fitted to
/// its column's width between single spaces, closed with `|`.
pub open spec fn row_text(cells: Seq<Column>, ws: Seq<nat>, upto: int) -> Seq<char>
    decreases upto,
{
    if upto <= 0 {
        seq!['|']
    } else {
        row_text(cells, ws, upto - 1) + seq![' '] + fit_chars(
            cells[upto - 1].alignment,
            cells[upto - 1].content.chars(),
            ws[upto - 1],
        ) + seq![' ', '|']
    }
}

/// The first `upto` rows rendered, each followed by a line break, the
/// border line, and another line break.
pub open spec fn body_text(rows: Seq<Vec<Column>>, ws: Seq<nat>, upto: int) -> Seq<char>
    decreases upto,
{
    if upto <= 0 {
        Seq::empty()
    } else {
        body_text(rows, ws, upto - 1) + row_text(rows[upto - 1]@, ws, ws.len() as int) + seq!['\n']
            + decorator_text(ws, ws.len() as int) + seq!['\n']
    }
}

/// The full rendered table: the border line, a line break, then every row
/// with its following border line.
pub open spec fn table_text(t: Table) -> Seq<char> {
    decorator_text(t.widths(), t.spec_cols()) + seq!['\n'] + body_text(
        t.rows@,
        t.widths(),
        t.rows@.len() as int,
    )
}

impl Table {
    /// The columns' display content widths, each column as wide as its
    /// widest cell.
    fn column_widths(&self) -> (r: Vec<usize>)
        requires
            self.wf(),
        ensures
            r@.len() == self.spec_cols(),
            forall|c: int| 0 <= c < r@.len() ==> #[trigger] r@[c] as nat == self.widths()[c],
    {
        let n = self.rows[0].len();
        let mut widths: Vec<usize> = Vec::new();
        let mut c: usize = 0;
        while c < n
            invariant
                c <= n,
                self.wf(),
                n == self.spec_cols(),
                widths@.len() == c,
                forall|j: int| 0 <= j < c ==> #[trigger] widths@[j] as nat == self.widths()[j],
            decreases n - c,
        {
            let mut w: usize = 0;
            let mut r: usize = 0;
            while r < self.rows.len()
                invariant
                    r <= self.rows@.len(),
                    c < n,
                    self.wf(),
                    n == self.spec_cols(),
                    w as nat == col_max(self.rows@, c as int, r as int),
                decreases self.rows@.len() - r,
            {
                let cw = self.rows[r][c].width();
                if cw > w {
                    w = cw;
                }
                r = r + 1;
            }
            widths.push(w);
            proof {
                assert(widths@[c as int] as nat == self.widths()[c as int]);
            }
            c = c + 1;
        }
        widths
    }

    /// Renders the table as text: a bordered grid whose every column is as
    /// wide as its widest cell plus one space of padding on either side.
    pub fn render(&self) -> (r: String)
        requires
            self.wf(),
        ensures
            r@ == table_text(*self),
    {
        let widths = self.column_widths();
        let ghost ws = self.widths();
        let mut out = String::new();
        append_decorator(&mut out, &widths, Ghost(ws));
        out.append("\n");
        proof {
            reveal_strlit("\n");
            assert(out@ =~= decorator_text(ws, ws.len() as int) + seq!['\n']);
            assert(out@ =~= decorator_text(ws, ws.len() as int) + seq!['\n'] + body_text(
                self.rows@,
                ws,
                0,
            ));
        }
        let mut r: usize = 0;
        while r < self.rows.len()
            invariant
                r <= self.rows@.len(),
                self.wf(),
                widths@.len() == self.spec_cols(),
                forall|c: int| 0 <= c < widths@.len() ==> #[trigger] widths@[c] as nat == ws[c],
                ws == self.widths(),
                ws.len() == self.spec_cols(),
                out@ == decorator_text(ws, ws.len() as int) + seq!['\n'] + body_text(
                    self.rows@,
                    ws,
                    r as int,
                ),
            decreases self.rows@.len() - r,
        {
            let ghost before = out@;
            out.append("|");
            proof {
                reveal_strlit("|");
                assert(out@ =~= before + row_text(self.rows@[r as int]@, ws, 0));
            }
            let row = &self.rows[r];
            let mut c: usize = 0;
            while c < widths.len()
                invariant
                    c <= widths@.len(),
                    r < self.rows@.len(),
                    self.wf(),
                    widths@.len() == self.spec_cols(),
                    forall|cc: int|
                        0 <= cc < widths@.len() ==> #[trigger] widths@[cc] as nat == ws[cc],
                    ws == self.widths(),
                    ws.len() == self.spec_cols(),
                    row == &self.rows@[r as int],
                    out@ == before + row_text(self.rows@[r as int]@, ws, c as int),
                decreases widths@.len() - c,
            {
                proof {
                    lemma_col_max_bound(self.rows@, c as int, self.rows@.len() as int, r as int);
                }
                let ghost cell_before = out@;
                out.append(" ");
                let cell = &row[c];
                cell.as_fitted(widths[c]).append_to(&mut out);
                out.append(" |");
                proof {
                    reveal_strlit(" ");
                    reveal_strlit(" |");
                    assert(out@ =~= cell_before + seq![' '] + fit_chars(
                        self.rows@[r as int]@[c as int].alignment,
                        self.rows@[r as int]@[c as int].content.chars(),
                        ws[c as int],
                    ) + seq![' ', '|']);
                    assert(out@ =~= before + row_text(self.rows@[r as int]@, ws, c as int + 1));
                }
                c = c + 1;
            }
            out.append("\n");
            append_decorator(&mut out, &widths, Ghost(ws));
            out.append("\n");
            proof {
                reveal_strlit("\n");
                assert(out@ =~= decorator_text(ws, ws.len() as int) + seq!['\n'] + body_text(
                    self.rows@,
                    ws,
                    r as int + 1,
                ));
            }
            r = r + 1;
        }
        out
    }
}

/// Appends the border line for the given column widths.
fn append_decorator(buffer: &mut String, widths: &Vec<usize>, Ghost(ws): Ghost<Seq<nat>>)
    requires
        widths@.len() == ws.len(),
        forall|c: int| 0 <= c < widths@.len() ==> #[trigger] widths@[c] as nat == ws[c],
    ensures
        final(buffer)@ == old(buffer)@ + decorator_text(ws, ws.len() as int),
{
    buffer.append("+");
    proof {
        reveal_strlit("+");
        assert(buffer@ =~= old(buffer)@ + decorator_text(ws, 0));
    }
    let mut c: usize = 0;
    while c < widths.len()
        invariant
            c <= widths@.len(),
            widths@.len() == ws.len(),
            forall|j: int| 0 <= j < widths@.len() ==> #[trigger] widths@[j] as nat == ws[j],
            buffer@ == old(buffer)@ + decorator_text(ws, c as int),
        decreases widths@.len() - c,
    {
        let ghost before = buffer@;
        append_dashes(buffer, widths[c]);
        buffer.append("--+");
        proof {
            reveal_strlit("--+");
            assert(dash_run((ws[c as int] + 2) as nat) =~= dash_run(widths@[c as int] as nat)
                + seq!['-', '-']);
            assert(buffer@ =~= old(buffer)@ + decorator_text(ws, c as int + 1));
        }
        c = c + 1;
    }
}

} // verus!
