//! The JSON format: an array of rows, each an array of strings.
use crate::delimited::{infer_rows, inferred_rows, strings_view};
use crate::error::ParseTableError;
use crate::format::FormatOptions;
use crate::render::{chars_view, render_row, rendered_grid};
use crate::table::{rectangular, rectangularized, rows_view, Table, TableView};
use crate::text::string_of;
use vstd::prelude::*;

verus! {

/// The rows that JSON text holds when it is an array of arrays of strings; `None` otherwise.
pub uninterp spec fn json_rows(raw: Seq<char>) -> Option<Seq<Seq<Seq<char>>>>;

/// The pretty-printed JSON array of arrays of these strings.
pub uninterp spec fn json_pretty(rows: Seq<Seq<Seq<char>>>) -> Seq<char>;

/// Relies on `serde_json::from_str` reading `raw` as `Vec<Vec<String>>`: the strings, or the
/// error it reports for any other text.
#[verifier::external_body]
fn parse_json_rows(raw: &str) -> (r: Result<Vec<Vec<String>>, serde_json::Error>)
    ensures
        match r {
            Ok(rows) => json_rows(raw@) == Some(strings_view(rows@)),
            Err(_) => json_rows(raw@) is None,
        },
{
    serde_json::from_str(raw)
}

/// Relies on `serde_json::to_string_pretty`, which does not fail on a `Vec<Vec<String>>` (it
/// fails only on a failing `Serialize` impl or a map with non-string keys). It writes nested
/// arrays of strings, each escaped, which `serde_json::from_str` reads back as the same rows.
#[verifier::external_body]
fn pretty_json(rows: &Vec<Vec<String>>) -> (r: String)
    ensures
        r@ == json_pretty(strings_view(rows@)),
        json_rows(r@) == Some(strings_view(rows@)),
{
    serde_json::to_string_pretty(rows).unwrap_or_default()
}

/// The strings that JSON output holds for a rectangular table (`to_json` writes text that reads
/// back as exactly this grid): one array per row, one string per column.
pub proof fn lemma_json_grid_shape(t: TableView, o: &FormatOptions)
    requires
        rectangular(t),
    ensures
        rendered_grid(t, o).len() == t.height,
        forall|i: int| 0 <= i < t.height ==> (#[trigger] rendered_grid(t, o)[i]).len() == t.width,
{
}

impl Table {
    /// Reads JSON that is an array of arrays of strings; each string is inferred and short rows
    /// are padded with blank cells. Any other text is a `Json` error.
    pub fn from_json(raw: &str, additional_data: &Option<String>) -> (r: Result<Table, ParseTableError>)
        ensures
            match json_rows(raw@) {
                Some(rows) => r is Ok && r->Ok_0.wf() && r->Ok_0@ == rectangularized(
                    inferred_rows(rows),
                ),
                None => r is Err && r->Err_0 is Json,
            },
    {
        match parse_json_rows(raw) {
            Ok(rows) => Ok(Table::from_rows(infer_rows(&rows))),
            Err(e) => Err(ParseTableError::Json(e)),
        }
    }

    /// Writes the table as a pretty-printed JSON array of arrays holding every rendered cell
    /// as a string, whatever its kind; the text reads back as the grid of rendered cells.
    pub fn to_json(&self, format_options: &FormatOptions) -> (r: String)
        requires
            self.wf(),
        ensures
            r@ == json_pretty(rendered_grid(self@, format_options)),
            json_rows(r@) == Some(rendered_grid(self@, format_options)),
    {
        let ghost grid = rendered_grid(self@, format_options);
        let rows = self.rows();
        let mut table: Vec<Vec<String>> = Vec::new();
        let mut i: usize = 0;
        while i < rows.len()
            invariant
                i <= rows.len(),
                rows_view(rows@) == self@.rows,
                grid == rendered_grid(self@, format_options),
                strings_view(table@) == grid.subrange(0, i as int),
            decreases rows.len() - i,
        {
            let cells = render_row(&rows[i], format_options);
            assert(chars_view(cells@) == grid[i as int]);
            let mut texts: Vec<String> = Vec::new();
            let mut j: usize = 0;
            while j < cells.len()
                invariant
                    j <= cells.len(),
                    texts@.map_values(|s: String| s@) == chars_view(cells@).subrange(0, j as int),
                decreases cells.len() - j,
            {
                let ghost prev = texts@;
                let s = string_of(&cells[j]);
                texts.push(s);
                j = j + 1;
                assert(texts@.map_values(|s: String| s@) =~= prev.map_values(|s: String| s@).push(
                    s@,
                ));
                assert(texts@.map_values(|s: String| s@) =~= chars_view(cells@).subrange(
                    0,
                    j as int,
                ));
            }
            assert(chars_view(cells@).subrange(0, cells.len() as int) =~= chars_view(cells@));
            let ghost prev = table@;
            table.push(texts);
            i = i + 1;
            assert(strings_view(table@) =~= strings_view(prev).push(grid[i - 1]));
            assert(strings_view(table@) =~= grid.subrange(0, i as int));
        }
        assert(grid.subrange(0, rows.len() as int) =~= grid);
        pretty_json(&table)
    }
}

} // verus!
