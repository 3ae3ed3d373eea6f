//! The delimiter-separated (CSV) format.
use crate::cell::{inferred, Cell, CellView};
use crate::error::ParseTableError;
use crate::format::FormatOptions;
use crate::render::{chars_view, render_row, rendered_grid};
use crate::table::{lemma_row_push, lemma_rows_push, rectangularized, rows_view, Table};
use crate::text::{chars_of, join, joined, string_of};
use vstd::prelude::*;

verus! {

pub open spec fn strings_view(rows: Seq<Vec<String>>) -> Seq<Seq<Seq<char>>> {
    rows.map_values(|r: Vec<String>| r@.map_values(|s: String| s@))
}

/// Each text inferred as a cell.
pub open spec fn inferred_rows(rows: Seq<Seq<Seq<char>>>) -> Seq<Seq<CellView>> {
    rows.map_values(|r: Seq<Seq<char>>| r.map_values(|c: Seq<char>| inferred(c)))
}

/// The fields of each record that the CSV reader finds in `raw`, or `None` where it fails.
pub uninterp spec fn csv_records(raw: Seq<char>, delimiter: u8) -> Option<Seq<Seq<Seq<char>>>>;

/// Relies on the `csv` crate's `ReaderBuilder` with `has_headers(false)` and the given
/// delimiter (all other settings at their defaults): the fields of every record, or the first
/// error it reports.
#[verifier::external_body]
fn read_csv(raw: &str, delimiter: u8) -> (r: Result<Vec<Vec<String>>, csv::Error>)
    ensures
        match r {
            Ok(rows) => csv_records(raw@, delimiter) == Some(strings_view(rows@)),
            Err(_) => csv_records(raw@, delimiter) is None,
        },
{
    let mut reader = csv::ReaderBuilder::new().has_headers(false).delimiter(delimiter).from_reader(
        raw.as_bytes(),
    );
    reader.records().map(|r| r.map(|rec| rec.iter().map(|f| f.to_string()).collect())).collect()
}

/// The delimiter byte: the first character of the side value (its low eight bits), or `;`.
pub open spec fn csv_delimiter(additional_data: Option<String>) -> u8 {
    match additional_data {
        Some(s) => if s@.len() > 0 {
            (s@[0] as u32 % 256) as u8
        } else {
            59u8
        },
        None => 59u8,
    }
}

/// Infers a cell from each text.
pub fn infer_rows(rows: &Vec<Vec<String>>) -> (r: Vec<Vec<Cell>>)
    ensures
        rows_view(r@) == inferred_rows(strings_view(rows@)),
{
    let ghost sv = strings_view(rows@);
    let mut out: Vec<Vec<Cell>> = Vec::new();
    let mut i: usize = 0;
    while i < rows.len()
        invariant
            i <= rows.len(),
            sv == strings_view(rows@),
            rows_view(out@) == inferred_rows(sv.subrange(0, i as int)),
        decreases rows.len() - i,
    {
        let ghost rv = sv[i as int];
        let mut cells: Vec<Cell> = Vec::new();
        let mut j: usize = 0;
        while j < rows[i].len()
            invariant
                i < rows.len(),
                j <= rows[i as int].len(),
                sv == strings_view(rows@),
                rv == sv[i as int],
                rv.len() == rows[i as int].len(),
                cells@.map_values(|c: Cell| c@) == rv.subrange(0, j as int).map_values(
                    |c: Seq<char>| inferred(c),
                ),
            decreases rows[i as int].len() - j,
        {
            let ghost prev = cells@;
            assert(rv[j as int] == rows[i as int]@[j as int]@);
            let c = Cell::infer(rows[i][j].as_str());
            cells.push(c);
            proof {
                lemma_row_push(cells, prev, c);
            }
            j = j + 1;
            assert(rv.subrange(0, j as int).map_values(|c: Seq<char>| inferred(c)) =~= rv.subrange(
                0,
                j - 1,
            ).map_values(|c: Seq<char>| inferred(c)).push(inferred(rv[j - 1])));
        }
        assert(rv.subrange(0, rv.len() as int) =~= rv);
        let ghost prev = out@;
        out.push(cells);
        proof {
            lemma_rows_push(prev, cells);
        }
        i = i + 1;
        assert(inferred_rows(sv.subrange(0, i as int)) =~= inferred_rows(
            sv.subrange(0, i - 1),
        ).push(rv.map_values(|c: Seq<char>| inferred(c))));
    }
    assert(sv.subrange(0, rows.len() as int) =~= sv);
    out
}

/// The rendered rows, cells joined by `sep` and rows by newlines.
pub open spec fn csv_text(grid: Seq<Seq<Seq<char>>>, sep: Seq<char>) -> Seq<char> {
    joined(grid.map_values(|row: Seq<Seq<char>>| joined(row, sep)), seq!['\n'])
}

impl Table {
    /// Reads the CSV format with the CSV reader (no header row). The delimiter is the first
    /// character of the side value, `;` where there is none. Each field is inferred and short
    /// records are padded with blank cells. A reader error is returned as `Csv`.
    pub fn from_csv(raw: &str, additional_data: &Option<String>) -> (r: Result<Table, ParseTableError>)
        ensures
            match csv_records(raw@, csv_delimiter(*additional_data)) {
                Some(records) => r is Ok && r->Ok_0.wf() && r->Ok_0@ == rectangularized(
                    inferred_rows(records),
                ),
                None => r is Err && r->Err_0 is Csv,
            },
    {
        let delimiter: u8 = match additional_data {
            Some(s) => {
                let cs = chars_of(s.as_str());
                if cs.len() > 0 {
                    (cs[0] as u32 % 256) as u8
                } else {
                    59u8
                }
            },
            None => 59u8,
        };
        match read_csv(raw, delimiter) {
            Ok(rows) => Ok(Table::from_rows(infer_rows(&rows))),
            Err(e) => Err(ParseTableError::Csv(e)),
        }
    }

    /// Writes the CSV format: each row's rendered cells joined by the configured separator, rows
    /// joined by newlines.
    pub fn to_csv(&self, format_options: &FormatOptions) -> (r: String)
        requires
            self.wf(),
        ensures
            r@ == csv_text(rendered_grid(self@, format_options), format_options.csv_sep@),
    {
        let ghost grid = rendered_grid(self@, format_options);
        let sep = chars_of(format_options.csv_sep.as_str());
        let rows = self.rows();
        let mut lines: Vec<Vec<char>> = Vec::new();
        let mut i: usize = 0;
        while i < rows.len()
            invariant
                i <= rows.len(),
                rows_view(rows@) == self@.rows,
                grid == rendered_grid(self@, format_options),
                sep@ == format_options.csv_sep@,
                chars_view(lines@) == grid.subrange(0, i as int).map_values(
                    |row: Seq<Seq<char>>| joined(row, sep@),
                ),
            decreases rows.len() - i,
        {
            let cells = render_row(&rows[i], format_options);
            assert(chars_view(cells@) == grid[i as int]);
            let line = join(&cells, &sep);
            let ghost prev = lines@;
            lines.push(line);
            i = i + 1;
            assert(chars_view(lines@) =~= chars_view(prev).push(line@));
            assert(chars_view(lines@) =~= grid.subrange(0, i as int).map_values(
                |row: Seq<Seq<char>>| joined(row, sep@),
            ));
        }
        assert(grid.subrange(0, rows.len() as int) =~= grid);
        let newline = vec!['\n'];
        assert(newline@ =~= seq!['\n']);
        assert(grid.subrange(0, rows.len() as int).map_values(|row: Seq<Seq<char>>| joined(row, sep@))
            == grid.map_values(|row: Seq<Seq<char>>| joined(row, sep@)));
        let text = join(&lines, &newline);
        assert(lines@.map_values(|p: Vec<char>| p@) == chars_view(lines@));
        string_of(&text)
    }
}

} // verus!
