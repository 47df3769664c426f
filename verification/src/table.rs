//! The table layout: resolve every header path against every item, derive a
//! display label per column, size each column to its widest visible content,
//! and emit one aligned row per item.

use vstd::prelude::*;
use vstd::string::StrSliceExecFns;
use vstd::string::StringExecFns;

use crate::ansi::compute_string_size;
use crate::ansi::visible_len;
use crate::casing::to_upper_snake;
use crate::casing::upper_snake_of;
use crate::context::Context;
use crate::describe::Describe;
use crate::text::push_spaces;
use crate::text::spaces;

verus! {

/// The width of column `j` after the first `k` rows are taken into account:
/// the label's length, raised to the visible length of every cell seen.
pub open spec fn col_width_upto(
    names: Seq<Seq<char>>,
    rows: Seq<Seq<Seq<char>>>,
    j: int,
    k: int,
) -> nat
    decreases k,
{
    if k <= 0 {
        names[j].len()
    } else {
        let prev = col_width_upto(names, rows, j, k - 1);
        if visible_len(rows[k - 1][j]) > prev {
            visible_len(rows[k - 1][j])
        } else {
            prev
        }
    }
}

/// The final width of column `j`: the maximum of its label's length and the
/// visible length of every cell in the column.
pub open spec fn col_width(names: Seq<Seq<char>>, rows: Seq<Seq<Seq<char>>>, j: int) -> nat {
    col_width_upto(names, rows, j, rows.len() as int)
}

/// A column is at least as wide as its label and every cell, and no wider
/// than it needs to be: its width is one of those lengths.
pub proof fn lemma_col_width_exact(names: Seq<Seq<char>>, rows: Seq<Seq<Seq<char>>>, j: int, k: int)
    requires
        k >= 0,
    ensures
        col_width_upto(names, rows, j, k) >= names[j].len(),
        forall|r: int| 0 <= r < k ==> col_width_upto(names, rows, j, k) >= visible_len(#[trigger] rows[r][j]),
        col_width_upto(names, rows, j, k) == names[j].len() || exists|r: int|
            0 <= r < k && col_width_upto(names, rows, j, k) == visible_len(#[trigger] rows[r][j]),
    decreases k,
{
    if k > 0 {
        lemma_col_width_exact(names, rows, j, k - 1);
    }
}

/// The first `k` cells of the header row: columns separated by one space,
/// each opened by the current offset, each label padded to its column width
/// except in the last column.
pub open spec fn header_row_text(
    names: Seq<Seq<char>>,
    widths: Seq<nat>,
    offset: nat,
    k: int,
) -> Seq<char>
    decreases k,
{
    if k <= 0 {
        Seq::empty()
    } else {
        header_row_text(names, widths, offset, k - 1) + (if k - 1 > 0 {
            seq![' ']
        } else {
            Seq::empty()
        }) + spaces(offset) + names[k - 1] + (if k != names.len() {
            spaces((widths[k - 1] - names[k - 1].len()) as nat)
        } else {
            Seq::empty()
        })
    }
}

/// The first `k` cells of one data row, padded by visible length.
pub open spec fn data_row_text(
    cells: Seq<Seq<char>>,
    widths: Seq<nat>,
    offset: nat,
    ncols: int,
    k: int,
) -> Seq<char>
    decreases k,
{
    if k <= 0 {
        Seq::empty()
    } else {
        data_row_text(cells, widths, offset, ncols, k - 1) + (if k - 1 > 0 {
            seq![' ']
        } else {
            Seq::empty()
        }) + spaces(offset) + cells[k - 1] + (if k != ncols {
            spaces((widths[k - 1] - visible_len(cells[k - 1])) as nat)
        } else {
            Seq::empty()
        })
    }
}

/// The first `k` data rows, each on its own line.
pub open spec fn rows_text(
    rows: Seq<Seq<Seq<char>>>,
    widths: Seq<nat>,
    offset: nat,
    ncols: int,
    k: int,
) -> Seq<char>
    decreases k,
{
    if k <= 0 {
        Seq::empty()
    } else {
        rows_text(rows, widths, offset, ncols, k - 1) + seq!['\n'] + data_row_text(
            rows[k - 1],
            widths,
            offset,
            ncols,
            ncols,
        )
    }
}

/// The marker emitted in place of a table body with no rows.
pub open spec fn empty_list_text() -> Seq<char> {
    seq!['E', 'm', 'p', 't', 'y', ' ', 'l', 'i', 's', 't', '\n']
}

/// The column widths of a table.
pub open spec fn table_widths(names: Seq<Seq<char>>, rows: Seq<Seq<Seq<char>>>) -> Seq<nat> {
    Seq::new(names.len(), |j: int| col_width(names, rows, j))
}

/// The full table text: the header row, then either the empty-body marker or
/// one line per data row.
pub open spec fn table_text(
    names: Seq<Seq<char>>,
    rows: Seq<Seq<Seq<char>>>,
    offset: nat,
) -> Seq<char> {
    let widths = table_widths(names, rows);
    header_row_text(names, widths, offset, names.len() as int) + (if rows.len() == 0 {
        empty_list_text()
    } else {
        rows_text(rows, widths, offset, names.len() as int, rows.len() as int)
    })
}

/// Emit a table from already-resolved display labels and cell texts.
pub(crate) fn emit_table(names: &Vec<String>, rows: &Vec<Vec<String>>, writer: &mut String, offset: usize)
    requires
        forall|r: int| 0 <= r < rows@.len() ==> (#[trigger] rows@[r])@.len() == names@.len(),
    ensures
        final(writer)@ == old(writer)@ + table_text(
            names.deep_view(),
            rows.deep_view(),
            offset as nat,
        ),
{
    let ghost snames = names.deep_view();
    let ghost srows = rows.deep_view();
    proof {
        assert(snames.len() == names@.len());
        assert(srows.len() == rows@.len());
        assert forall|r: int| 0 <= r < srows.len() implies (#[trigger] srows[r]).len()
            == snames.len() by {
            assert(srows[r] == rows@[r].deep_view());
        }
    }
    // Column widths: start from each label's length, raise by every cell.
    let mut widths: Vec<usize> = Vec::new();
    let mut j: usize = 0;
    while j < names.len()
        invariant
            j <= names@.len(),
            snames == names.deep_view(),
            widths@.len() == j,
            forall|p: int| 0 <= p < j ==> widths@[p] as nat == col_width_upto(snames, srows, p, 0),
        decreases names@.len() - j,
    {
        let l = names[j].as_str().unicode_len();
        widths.push(l);
        proof {
            assert(snames[j as int] == names@[j as int]@);
        }
        j = j + 1;
    }
    let mut r: usize = 0;
    while r < rows.len()
        invariant
            r <= rows@.len(),
            snames == names.deep_view(),
            srows == rows.deep_view(),
            forall|q: int| 0 <= q < srows.len() ==> (#[trigger] srows[q]).len() == snames.len(),
            widths@.len() == snames.len(),
            forall|p: int|
                0 <= p < widths@.len() ==> widths@[p] as nat == col_width_upto(
                    snames,
                    srows,
                    p,
                    r as int,
                ),
        decreases rows@.len() - r,
    {
        proof {
            assert(srows[r as int] == rows@[r as int].deep_view());
            assert(rows@[r as int]@.len() == srows[r as int].len());
        }
        let mut c: usize = 0;
        while c < rows[r].len()
            invariant
                r < rows@.len(),
                c <= rows@[r as int]@.len(),
                snames == names.deep_view(),
                srows == rows.deep_view(),
                forall|q: int| 0 <= q < srows.len() ==> (#[trigger] srows[q]).len() == snames.len(),
                rows@[r as int]@.len() == snames.len(),
                widths@.len() == snames.len(),
                forall|p: int|
                    c <= p < widths@.len() ==> widths@[p] as nat == col_width_upto(
                        snames,
                        srows,
                        p,
                        r as int,
                    ),
                forall|p: int|
                    0 <= p < c ==> widths@[p] as nat == col_width_upto(
                        snames,
                        srows,
                        p,
                        r as int + 1,
                    ),
            decreases rows@[r as int]@.len() - c,
        {
            let w = compute_string_size(rows[r][c].as_str());
            proof {
                assert(srows[r as int] == rows@[r as int].deep_view());
                assert(srows[r as int][c as int] == rows@[r as int]@[c as int]@);
            }
            if w > widths[c] {
                widths.set(c, w);
            }
            c = c + 1;
        }
        r = r + 1;
    }
    let ghost swidths = table_widths(snames, srows);
    proof {
        assert(swidths.len() == widths@.len());
        assert forall|p: int| 0 <= p < widths@.len() implies widths@[p] as nat == swidths[p] by {
            assert(widths@[p] as nat == col_width_upto(snames, srows, p, srows.len() as int));
        }
    }
    // Header row.
    let mut idx: usize = 0;
    let ghost w0 = writer@;
    proof {
        reveal_strlit(" ");
    }
    while idx < names.len()
        invariant
            idx <= names@.len(),
            snames == names.deep_view(),
            srows == rows.deep_view(),
            widths@.len() == snames.len(),
            forall|p: int| 0 <= p < widths@.len() ==> widths@[p] as nat == swidths[p],
            swidths == table_widths(snames, srows),
            writer@ == w0 + header_row_text(snames, swidths, offset as nat, idx as int),
        decreases names@.len() - idx,
    {
        if idx > 0 {
            writer.append(" ");
        }
        push_spaces(writer, offset);
        writer.append(names[idx].as_str());
        if idx + 1 != names.len() {
            proof {
                lemma_col_width_exact(snames, srows, idx as int, srows.len() as int);
                assert(snames[idx as int] == names@[idx as int]@);
                assert(swidths[idx as int] == col_width(snames, srows, idx as int));
            }
            let name_len = names[idx].as_str().unicode_len();
            push_spaces(writer, widths[idx] - name_len);
        }
        proof {
            reveal_strlit(" ");
            assert(snames[idx as int] == names@[idx as int]@);
            assert(writer@ =~= w0 + header_row_text(
                snames,
                swidths,
                offset as nat,
                idx as int + 1,
            ));
        }
        idx = idx + 1;
    }
    // Data rows, or the empty-body marker.
    if rows.len() == 0 {
        proof {
            reveal_strlit("Empty list\n");
            assert("Empty list\n"@ =~= empty_list_text());
        }
        writer.append("Empty list\n");
        proof {
            assert(final(writer)@ =~= old(writer)@ + table_text(snames, srows, offset as nat));
        }
        return ;
    }
    let ghost w1 = writer@;
    let mut r2: usize = 0;
    while r2 < rows.len()
        invariant
            r2 <= rows@.len(),
            snames == names.deep_view(),
            srows == rows.deep_view(),
            forall|q: int| 0 <= q < srows.len() ==> (#[trigger] srows[q]).len() == snames.len(),
            widths@.len() == snames.len(),
            forall|p: int| 0 <= p < widths@.len() ==> widths@[p] as nat == swidths[p],
            swidths == table_widths(snames, srows),
            writer@ == w1 + rows_text(srows, swidths, offset as nat, snames.len() as int, r2 as int),
        decreases rows@.len() - r2,
    {
        proof {
            reveal_strlit("\n");
        }
        writer.append("\n");
        proof {
            assert(srows[r2 as int] == rows@[r2 as int].deep_view());
            assert(rows@[r2 as int]@.len() == srows[r2 as int].len());
        }
        let ghost wrow = writer@;
        let mut c2: usize = 0;
        while c2 < rows[r2].len()
            invariant
                r2 < rows@.len(),
                c2 <= rows@[r2 as int]@.len(),
                snames == names.deep_view(),
                srows == rows.deep_view(),
                forall|q: int| 0 <= q < srows.len() ==> (#[trigger] srows[q]).len() == snames.len(),
                rows@[r2 as int]@.len() == snames.len(),
                widths@.len() == snames.len(),
                forall|p: int| 0 <= p < widths@.len() ==> widths@[p] as nat == swidths[p],
                swidths == table_widths(snames, srows),
                writer@ == wrow + data_row_text(
                    srows[r2 as int],
                    swidths,
                    offset as nat,
                    snames.len() as int,
                    c2 as int,
                ),
            decreases rows@[r2 as int]@.len() - c2,
        {
            if c2 > 0 {
                writer.append(" ");
            }
            push_spaces(writer, offset);
            writer.append(rows[r2][c2].as_str());
            proof {
                assert(srows[r2 as int] == rows@[r2 as int].deep_view());
                assert(srows[r2 as int][c2 as int] == rows@[r2 as int]@[c2 as int]@);
            }
            if c2 + 1 != names.len() {
                let vis = compute_string_size(rows[r2][c2].as_str());
                proof {
                    lemma_col_width_exact(snames, srows, c2 as int, srows.len() as int);
                    assert(swidths[c2 as int] == col_width(snames, srows, c2 as int));
                    assert(swidths[c2 as int] >= visible_len(srows[r2 as int][c2 as int]));
                }
                push_spaces(writer, widths[c2] - vis);
            }
            proof {
                reveal_strlit(" ");
                assert(writer@ =~= wrow + data_row_text(
                    srows[r2 as int],
                    swidths,
                    offset as nat,
                    snames.len() as int,
                    c2 as int + 1,
                ));
            }
            c2 = c2 + 1;
        }
        proof {
            assert(writer@ =~= w1 + rows_text(
                srows,
                swidths,
                offset as nat,
                snames.len() as int,
                r2 as int + 1,
            ));
        }
        r2 = r2 + 1;
    }
    proof {
        assert(final(writer)@ =~= old(writer)@ + table_text(snames, srows, offset as nat));
    }
}

/// The header paths a table uses: the caller's list when one is given, else
/// the type's default headers.
pub open spec fn effective_headers<T: Describe>(hs: Seq<Seq<char>>) -> Seq<Seq<char>> {
    if hs.len() == 0 {
        T::spec_default_headers()
    } else {
        hs
    }
}

/// The display label of each header path: its declared override when there is
/// one, else the path in upper snake case.
pub open spec fn spec_names<T: Describe>(hs: Seq<Seq<char>>) -> Seq<Seq<char>> {
    hs.map_values(
        |h: Seq<char>|
            match T::spec_header_name(h) {
                None => upper_snake_of(h),
                Some(n) => n,
            },
    )
}

/// Every cell of the table: row `r`, column `j` holds item `r` resolved for
/// header path `j`.
pub open spec fn spec_cells<T: Describe>(data: Seq<T>, hs: Seq<Seq<char>>) -> Seq<Seq<Seq<char>>> {
    data.map_values(|item: T| hs.map_values(|h: Seq<char>| item.spec_to_field(h)))
}

/// The full table text for a list of items and a (possibly empty) header
/// override.
pub open spec fn spec_list_text<T: Describe>(data: Seq<T>, hs: Seq<Seq<char>>, offset: nat) -> Seq<
    char,
> {
    table_text(
        spec_names::<T>(effective_headers::<T>(hs)),
        spec_cells::<T>(data, effective_headers::<T>(hs)),
        offset,
    )
}

/// The renderer: one entry point renders a single item as an object, the
/// others render a list of items as a table.
pub struct Describer;

impl Describer {
    /// Render one item into the object layout, with a trailing newline.
    pub fn describe_object<T: Describe>(data: &T, writer: &mut String, ctx: Context)
        requires
            data.describe_pre(ctx),
        ensures
            final(writer)@ == old(writer)@ + data.spec_describe(ctx) + seq!['\n'],
    {
        data.describe(writer, ctx);
        proof {
            reveal_strlit("\n");
        }
        writer.append("\n");
        proof {
            assert(final(writer)@ =~= old(writer)@ + data.spec_describe(ctx) + seq!['\n']);
        }
    }

    /// Render a list of items as a table with the type's default headers,
    /// with a trailing newline.
    pub fn describe_list<T: Describe>(data: &Vec<T>, writer: &mut String, ctx: Context)
        ensures
            final(writer)@ == old(writer)@ + spec_list_text::<T>(
                data@,
                Seq::empty(),
                ctx.offset as nat,
            ) + seq!['\n'],
    {
        let headers: Vec<String> = Vec::new();
        proof {
            assert(headers.deep_view() =~= Seq::<Seq<char>>::empty());
        }
        Self::describe_list_with_header(data, &headers, writer, ctx);
    }

    /// Render a list of items as a table, with the given header paths when
    /// any are given, and a trailing newline.
    pub fn describe_list_with_header<T: Describe>(
        data: &Vec<T>,
        headers: &Vec<String>,
        writer: &mut String,
        ctx: Context,
    )
        ensures
            final(writer)@ == old(writer)@ + spec_list_text::<T>(
                data@,
                headers.deep_view(),
                ctx.offset as nat,
            ) + seq!['\n'],
    {
        Self::describe_list_internal(data, headers, writer, ctx);
        proof {
            reveal_strlit("\n");
        }
        writer.append("\n");
        proof {
            assert(final(writer)@ =~= old(writer)@ + spec_list_text::<T>(
                data@,
                headers.deep_view(),
                ctx.offset as nat,
            ) + seq!['\n']);
        }
    }

    fn describe_list_internal<T: Describe>(
        data: &Vec<T>,
        headers: &Vec<String>,
        writer: &mut String,
        ctx: Context,
    )
        ensures
            final(writer)@ == old(writer)@ + spec_list_text::<T>(
                data@,
                headers.deep_view(),
                ctx.offset as nat,
            ),
    {
        let default_headers = T::default_headers();
        let hdrs: &Vec<String> = if headers.len() == 0 {
            &default_headers
        } else {
            headers
        };
        let ghost eff = effective_headers::<T>(headers.deep_view());
        proof {
            assert(headers.deep_view().len() == headers@.len());
            assert(hdrs.deep_view() == eff);
        }
        // Resolve every header path against every item.
        let mut rows: Vec<Vec<String>> = Vec::new();
        let mut r: usize = 0;
        while r < data.len()
            invariant
                r <= data@.len(),
                eff == effective_headers::<T>(headers.deep_view()),
                hdrs.deep_view() == eff,
                rows@.len() == r,
                forall|p: int|
                    0 <= p < r ==> (#[trigger] rows@[p]).deep_view() == spec_cells::<T>(
                        data@,
                        eff,
                    )[p],
            decreases data@.len() - r,
        {
            let mut row: Vec<String> = Vec::new();
            let mut c: usize = 0;
            while c < hdrs.len()
                invariant
                    r < data@.len(),
                    c <= hdrs@.len(),
                    eff == effective_headers::<T>(headers.deep_view()),
                    hdrs.deep_view() == eff,
                    row@.len() == c,
                    forall|q: int|
                        0 <= q < c ==> (#[trigger] row@[q])@ == data@[r as int].spec_to_field(
                            eff[q],
                        ),
                decreases hdrs@.len() - c,
            {
                let cell = data[r].to_field(hdrs[c].as_str());
                proof {
                    assert(hdrs.deep_view()[c as int] == hdrs@[c as int]@);
                }
                row.push(cell);
                c = c + 1;
            }
            proof {
                assert(row.deep_view() =~= spec_cells::<T>(data@, eff)[r as int]);
            }
            rows.push(row);
            r = r + 1;
        }
        // Derive the display label of each column.
        let mut names: Vec<String> = Vec::new();
        let mut j: usize = 0;
        while j < hdrs.len()
            invariant
                j <= hdrs@.len(),
                eff == effective_headers::<T>(headers.deep_view()),
                hdrs.deep_view() == eff,
                names@.len() == j,
                forall|q: int|
                    0 <= q < j ==> (#[trigger] names@[q])@ == spec_names::<T>(eff)[q],
            decreases hdrs@.len() - j,
        {
            proof {
                assert(hdrs.deep_view()[j as int] == hdrs@[j as int]@);
            }
            let name = match T::header_name(hdrs[j].as_str()) {
                None => to_upper_snake(hdrs[j].as_str()),
                Some(n) => n,
            };
            names.push(name);
            j = j + 1;
        }
        proof {
            assert(names.deep_view() =~= spec_names::<T>(eff));
            assert(rows.deep_view() =~= spec_cells::<T>(data@, eff));
            assert forall|p: int| 0 <= p < rows@.len() implies (#[trigger] rows@[p])@.len()
                == names@.len() by {
                assert(rows@[p].deep_view() == spec_cells::<T>(data@, eff)[p]);
                assert(rows@[p].deep_view().len() == rows@[p]@.len());
            }
        }
        emit_table(&names, &rows, writer, ctx.offset);
    }
}

impl Context {
    /// Render an embedded table for a field's items: a newline, then the
    /// table one level deeper, in array mode.
    pub fn describe_table<T: Describe>(&self, data: &Vec<T>, writer: &mut String)
        requires
            self.offset + 2 <= usize::MAX,
        ensures
            final(writer)@ == old(writer)@ + seq!['\n'] + spec_list_text::<T>(
                data@,
                Seq::empty(),
                (self.offset + 2) as nat,
            ),
    {
        proof {
            reveal_strlit("\n");
        }
        writer.append("\n");
        let headers: Vec<String> = Vec::new();
        proof {
            assert(headers.deep_view() =~= Seq::<Seq<char>>::empty());
        }
        Describer::describe_list_internal(data, &headers, writer, self.indent_and_table());
        proof {
            assert(final(writer)@ =~= old(writer)@ + seq!['\n'] + spec_list_text::<T>(
                data@,
                Seq::empty(),
                (self.offset + 2) as nat,
            ));
        }
    }
}


/// The width a table gives a column is exactly the maximum of its label's
/// length and every cell's visible length in that column: never under- nor
/// over-padded.
pub proof fn lemma_table_width_exact(names: Seq<Seq<char>>, rows: Seq<Seq<Seq<char>>>, j: int)
    requires
        0 <= j < names.len(),
    ensures
        table_widths(names, rows)[j] >= names[j].len(),
        forall|r: int|
            0 <= r < rows.len() ==> table_widths(names, rows)[j] >= visible_len(
                #[trigger] rows[r][j],
            ),
        table_widths(names, rows)[j] == names[j].len() || exists|r: int|
            0 <= r < rows.len() && table_widths(names, rows)[j] == visible_len(
                #[trigger] rows[r][j],
            ),
{
    lemma_col_width_exact(names, rows, j, rows.len() as int);
    assert(table_widths(names, rows)[j] == col_width(names, rows, j));
}

} // verus!
