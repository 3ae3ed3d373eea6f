//! Rendering every cell of a table under the output settings: the step that all encoders share.
use crate::cell::{rendered, Cell, CellView};
use crate::format::FormatOptions;
use crate::table::{row_view, TableView};
use vstd::prelude::*;

verus! {

pub open spec fn chars_view(v: Seq<Vec<char>>) -> Seq<Seq<char>> {
    v.map_values(|p: Vec<char>| p@)
}

/// The texts of a row's cells, each rendered for its own column.
pub open spec fn rendered_row(row: Seq<CellView>, o: &FormatOptions) -> Seq<Seq<char>> {
    row.map(|j: int, c: CellView| rendered(c, o, j))
}

/// The texts of all cells of a table.
pub open spec fn rendered_grid(t: TableView, o: &FormatOptions) -> Seq<Seq<Seq<char>>> {
    t.rows.map_values(|r: Seq<CellView>| rendered_row(r, o))
}

pub fn render_row(row: &Vec<Cell>, o: &FormatOptions) -> (r: Vec<Vec<char>>)
    ensures
        chars_view(r@) == rendered_row(row_view(*row), o),
{
    let mut out: Vec<Vec<char>> = Vec::new();
    let mut j: usize = 0;
    while j < row.len()
        invariant
            j <= row.len(),
            chars_view(out@) == rendered_row(row_view(*row).subrange(0, j as int), o),
        decreases row.len() - j,
    {
        let ghost prev = out@;
        let text = row[j].fmt(o, j);
        out.push(crate::text::chars_of(text.as_str()));
        j = j + 1;
        assert(chars_view(out@) =~= chars_view(prev).push(rendered(row@[j - 1]@, o, j - 1)));
        assert(chars_view(out@) =~= rendered_row(row_view(*row).subrange(0, j as int), o));
    }
    assert(row_view(*row).subrange(0, row.len() as int) =~= row_view(*row));
    out
}

} // verus!
