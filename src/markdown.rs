//! The Markdown table format (write only).
use crate::format::FormatOptions;
use crate::render::{chars_view, render_row, rendered_grid};
use crate::table::{rows_view, Table};
use crate::text::{append_chars, concat_all, string_of};
use vstd::prelude::*;

verus! {

/// `| ` and then each text followed by ` | `, and a newline.
pub open spec fn md_line(cells: Seq<Seq<char>>) -> Seq<char> {
    seq!['|', ' '] + concat_all(cells.map_values(|c: Seq<char>| c + seq![' ', '|', ' ']))
        + seq!['\n']
}

/// The separator line under the header: `| ` and then `--- | ` once per header cell.
pub open spec fn md_rule(n: nat) -> Seq<char> {
    seq!['|', ' '] + concat_all(Seq::new(n, |i: int| seq!['-', '-', '-', ' ', '|', ' ']))
        + seq!['\n']
}

/// The first row as header, the separator line, then the other rows.
pub open spec fn md_text(grid: Seq<Seq<Seq<char>>>) -> Seq<char> {
    md_line(grid[0]) + md_rule(grid[0].len()) + concat_all(
        grid.drop_first().map_values(|r: Seq<Seq<char>>| md_line(r)),
    )
}

fn md_line_of(cells: &Vec<Vec<char>>) -> (r: Vec<char>)
    ensures
        r@ == md_line(chars_view(cells@)),
{
    let ghost cv = chars_view(cells@);
    let mut out: Vec<char> = vec!['|', ' '];
    let mut j: usize = 0;
    while j < cells.len()
        invariant
            j <= cells.len(),
            cv == chars_view(cells@),
            out@ == seq!['|', ' '] + concat_all(
                cv.subrange(0, j as int).map_values(|c: Seq<char>| c + seq![' ', '|', ' ']),
            ),
        decreases cells.len() - j,
    {
        append_chars(&mut out, &cells[j]);
        out.push(' ');
        out.push('|');
        out.push(' ');
        j = j + 1;
        let ghost parts = cv.subrange(0, j as int).map_values(
            |c: Seq<char>| c + seq![' ', '|', ' '],
        );
        assert(parts.drop_last() =~= cv.subrange(0, j - 1).map_values(
            |c: Seq<char>| c + seq![' ', '|', ' '],
        ));
        assert(cv[j - 1] == cells@[j - 1]@);
    }
    assert(cv.subrange(0, cells.len() as int) =~= cv);
    out.push('\n');
    out
}

fn md_rule_of(n: usize) -> (r: Vec<char>)
    ensures
        r@ == md_rule(n as nat),
{
    let mut out: Vec<char> = vec!['|', ' '];
    let mut j: usize = 0;
    while j < n
        invariant
            j <= n,
            out@ == seq!['|', ' '] + concat_all(
                Seq::new(j as nat, |i: int| seq!['-', '-', '-', ' ', '|', ' ']),
            ),
        decreases n - j,
    {
        let ghost before = out@;
        out.push('-');
        out.push('-');
        out.push('-');
        out.push(' ');
        out.push('|');
        out.push(' ');
        j = j + 1;
        assert(Seq::new(j as nat, |i: int| seq!['-', '-', '-', ' ', '|', ' ']).drop_last()
            =~= Seq::new((j - 1) as nat, |i: int| seq!['-', '-', '-', ' ', '|', ' ']));
        assert(out@ =~= before + seq!['-', '-', '-', ' ', '|', ' ']);
    }
    out.push('\n');
    out
}

impl Table {
    /// Writes a Markdown table: the first row as header, then a separator line with `--- | `
    /// for each header cell, then the remaining rows, every line framed by `| ` and ` | `.
    pub fn to_md(&self, format_options: &FormatOptions) -> (r: String)
        requires
            self.wf(),
            self@.height > 0,
        ensures
            r@ == md_text(rendered_grid(self@, format_options)),
    {
        let ghost grid = rendered_grid(self@, format_options);
        let rows = self.rows();
        let header = render_row(&rows[0], format_options);
        assert(chars_view(header@) == grid[0]);
        let mut out = md_line_of(&header);
        append_chars(&mut out, &md_rule_of(header.len()));
        let ghost head = out@;
        let ghost rest = grid.drop_first().map_values(|r: Seq<Seq<char>>| md_line(r));
        let mut i: usize = 1;
        while i < rows.len()
            invariant
                1 <= i <= rows.len(),
                rows_view(rows@) == self@.rows,
                grid == rendered_grid(self@, format_options),
                rest == grid.drop_first().map_values(|r: Seq<Seq<char>>| md_line(r)),
                out@ == head + concat_all(rest.subrange(0, i - 1)),
            decreases rows.len() - i,
        {
            let cells = render_row(&rows[i], format_options);
            assert(chars_view(cells@) == grid[i as int]);
            let line = md_line_of(&cells);
            append_chars(&mut out, &line);
            i = i + 1;
            assert(rest.subrange(0, i - 1).drop_last() =~= rest.subrange(0, i - 2));
            assert(rest[i - 2] == md_line(grid[i - 1]));
        }
        assert(rest.subrange(0, rows.len() - 1) =~= rest);
        string_of(&out)
    }
}

} // verus!
