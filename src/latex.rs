//! The LaTeX tabular body format (write only).
use crate::format::FormatOptions;
use crate::render::{chars_view, render_row, rendered_grid};
use crate::table::{rows_view, Table};
use crate::text::{append_chars, join, joined, string_of};
use vstd::prelude::*;

verus! {

/// ` & `
pub open spec fn cell_sep() -> Seq<char> {
    seq![' ', '&', ' ']
}

/// ` \\` and a newline.
pub open spec fn row_end() -> Seq<char> {
    seq![' ', '\\', '\\', '\n']
}

/// ` \\`, a newline, `\hline` and a newline.
pub open spec fn row_end_hline() -> Seq<char> {
    seq![' ', '\\', '\\', '\n', '\\', 'h', 'l', 'i', 'n', 'e', '\n']
}

/// `\\`, a newline, `\hline` and a newline: what closes the last row under `hline`.
pub open spec fn last_hline() -> Seq<char> {
    seq!['\\', '\\', '\n', '\\', 'h', 'l', 'i', 'n', 'e', '\n']
}

/// Cells joined by ` & `; rows joined by ` \\` and a newline, or, with `hline`, by ` \\`, a
/// newline and `\hline`, with `\\`, a newline and `\hline` after the last row too.
pub open spec fn tex_text(grid: Seq<Seq<Seq<char>>>, hline: bool) -> Seq<char> {
    let lines = grid.map_values(|row: Seq<Seq<char>>| joined(row, cell_sep()));
    if hline {
        joined(lines, row_end_hline()) + last_hline()
    } else {
        joined(lines, row_end())
    }
}

impl Table {
    /// Writes the body of a LaTeX tabular; see `tex_text`.
    pub fn to_tex(&self, format_options: &FormatOptions) -> (r: String)
        requires
            self.wf(),
        ensures
            r@ == tex_text(rendered_grid(self@, format_options), format_options.hline),
    {
        let ghost grid = rendered_grid(self@, format_options);
        let sep = vec![' ', '&', ' '];
        assert(sep@ =~= cell_sep());
        let rows = self.rows();
        let mut lines: Vec<Vec<char>> = Vec::new();
        let mut i: usize = 0;
        while i < rows.len()
            invariant
                i <= rows.len(),
                rows_view(rows@) == self@.rows,
                grid == rendered_grid(self@, format_options),
                sep@ == cell_sep(),
                chars_view(lines@) == grid.subrange(0, i as int).map_values(
                    |row: Seq<Seq<char>>| joined(row, cell_sep()),
                ),
            decreases rows.len() - i,
        {
            let cells = render_row(&rows[i], format_options);
            assert(chars_view(cells@) == grid[i as int]);
            let line = join(&cells, &sep);
            let ghost prev = lines@;
            lines.push(line);
            i = i + 1;
            assert(chars_view(lines@) =~= chars_view(prev).push(line@));
            assert(chars_view(lines@) =~= grid.subrange(0, i as int).map_values(
                |row: Seq<Seq<char>>| joined(row, cell_sep()),
            ));
        }
        assert(grid.subrange(0, rows.len() as int) =~= grid);
        assert(lines@.map_values(|p: Vec<char>| p@) == chars_view(lines@));
        if format_options.hline {
            let end = vec![' ', '\\', '\\', '\n', '\\', 'h', 'l', 'i', 'n', 'e', '\n'];
            assert(end@ =~= row_end_hline());
            let mut out = join(&lines, &end);
            let last = vec!['\\', '\\', '\n', '\\', 'h', 'l', 'i', 'n', 'e', '\n'];
            assert(last@ =~= last_hline());
            append_chars(&mut out, &last);
            string_of(&out)
        } else {
            let end = vec![' ', '\\', '\\', '\n'];
            assert(end@ =~= row_end());
            string_of(&join(&lines, &end))
        }
    }
}

} // verus!
