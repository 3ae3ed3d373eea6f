//! The tab-separated format: one line per row, cells separated by tabs.
use crate::cell::{inferred, Cell, CellView};
use crate::error::ParseTableError;
use crate::format::FormatOptions;
use crate::render::{chars_view, render_row, rendered_grid};
use crate::table::{
    lemma_max_len_uniform, lemma_row_push, lemma_rows_push, pad_row, rectangular, rectangularized,
    row_view, rows_view, Table, TableView,
};
use crate::text::{
    append_chars, chars_of, concat_all, join, joined, lemma_joined_free,
    lemma_lines_of_terminated, lemma_split_joined, lines_of, split_chars, split_lines,
    split_on, string_of, strip_cr,
};
use vstd::prelude::*;

verus! {

/// Each piece inferred as a cell.
pub open spec fn inferred_pieces(pieces: Seq<Seq<char>>) -> Seq<CellView> {
    pieces.map_values(|c: Seq<char>| inferred(c))
}

/// The cells of one line of the tab-separated format: the line split at tabs, each piece
/// inferred.
pub open spec fn dat_row(line: Seq<char>) -> Seq<CellView> {
    inferred_pieces(split_on(line, '\t'))
}

/// The rows of a text in the tab-separated format, before padding.
pub open spec fn dat_rows(raw: Seq<char>) -> Seq<Seq<CellView>> {
    lines_of(raw).map_values(|l: Seq<char>| dat_row(l))
}

/// Each row's texts joined by tabs, and each row ended by a newline.
pub open spec fn dat_text(grid: Seq<Seq<Seq<char>>>) -> Seq<char> {
    concat_all(grid.map_values(|row: Seq<Seq<char>>| joined(row, seq!['\t']).push('\n')))
}

pub fn infer_pieces(pieces: &Vec<Vec<char>>) -> (r: Vec<Cell>)
    ensures
        row_view(r) == inferred_pieces(chars_view(pieces@)),
{
    let ghost pv = chars_view(pieces@);
    let mut cells: Vec<Cell> = Vec::new();
    let mut i: usize = 0;
    while i < pieces.len()
        invariant
            i <= pieces.len(),
            chars_view(pieces@) == pv,
            row_view(cells) == pv.subrange(0, i as int).map_values(|c: Seq<char>| inferred(c)),
        decreases pieces.len() - i,
    {
        let ghost prev = cells@;
        assert(pieces[i as int]@ == pv[i as int]);
        let c = Cell::from_chars(&pieces[i]);
        cells.push(c);
        proof {
            lemma_row_push(cells, prev, c);
        }
        i = i + 1;
        assert(pv.subrange(0, i as int).map_values(|c: Seq<char>| inferred(c)) =~= pv.subrange(
            0,
            i - 1,
        ).map_values(|c: Seq<char>| inferred(c)).push(inferred(pv[i - 1])));
    }
    assert(pv.subrange(0, pieces.len() as int) =~= pv);
    cells
}

/// Reading back what `to_dat` writes gives a table of the same size whose cells are inferred
/// from their rendered texts. This holds where the table has at least one cell and no rendered
/// text holds a tab, a newline or a carriage return (which the writer does not escape).
pub proof fn lemma_dat_round_trip(t: TableView, o: &FormatOptions)
    requires
        rectangular(t),
        t.height > 0,
        t.width > 0,
        forall|i: int, j: int|
            0 <= i < t.height && 0 <= j < t.width ==> {
                let c = #[trigger] rendered_grid(t, o)[i][j];
                !c.contains('\t') && !c.contains('\n') && !c.contains('\r')
            },
    ensures
        rectangularized(dat_rows(dat_text(rendered_grid(t, o)))) == (TableView {
            width: t.width,
            height: t.height,
            rows: rendered_grid(t, o).map_values(
                |r: Seq<Seq<char>>| r.map_values(|c: Seq<char>| inferred(c)),
            ),
        }),
{
    let g = rendered_grid(t, o);
    let ls = g.map_values(|row: Seq<Seq<char>>| joined(row, seq!['\t']));
    assert(g.map_values(|row: Seq<Seq<char>>| joined(row, seq!['\t']).push('\n')) =~= ls.map_values(
        |l: Seq<char>| l.push('\n'),
    ));
    assert forall|i: int| 0 <= i < ls.len() implies !(#[trigger] ls[i]).contains('\n') && strip_cr(
        ls[i],
    ) == ls[i] by {
        assert(ls[i] == joined(g[i], seq!['\t']));
        assert(!seq!['\t'].contains('\n')) by {
            if seq!['\t'].contains('\n') {
                assert(seq!['\t'][0] == '\t');
            }
        }
        assert(!seq!['\t'].contains('\r')) by {
            if seq!['\t'].contains('\r') {
                assert(seq!['\t'][0] == '\t');
            }
        }
        assert forall|j: int| 0 <= j < g[i].len() implies !(#[trigger] g[i][j]).contains('\n') by {}
        assert forall|j: int| 0 <= j < g[i].len() implies !(#[trigger] g[i][j]).contains('\r') by {}
        lemma_joined_free(g[i], seq!['\t'], '\n');
        lemma_joined_free(g[i], seq!['\t'], '\r');
        if ls[i].len() > 0 {
            assert(ls[i][ls[i].len() - 1] == ls[i].last());
        }
    }
    lemma_lines_of_terminated(ls);
    let rows = dat_rows(dat_text(g));
    assert(rows =~= ls.map_values(|l: Seq<char>| dat_row(l)));
    let target = g.map_values(|r: Seq<Seq<char>>| r.map_values(|c: Seq<char>| inferred(c)));
    assert forall|i: int| 0 <= i < rows.len() implies #[trigger] rows[i] == target[i] by {
        assert(ls[i] == joined(g[i], seq!['\t']));
        assert(g[i].len() == t.width);
        assert forall|j: int| 0 <= j < g[i].len() implies !(#[trigger] g[i][j]).contains('\t') by {}
        lemma_split_joined(g[i], '\t');
    }
    assert(rows =~= target);
    assert forall|i: int| 0 <= i < target.len() implies (#[trigger] target[i]).len() == t.width by {
        assert(g[i].len() == t.width);
    }
    lemma_max_len_uniform(target, t.width);
    assert(target.map_values(|r: Seq<CellView>| pad_row(r, t.width)) =~= target);
}

impl Table {
    /// Reads the tab-separated format: each line (see `lines_of`) is split at tabs,
    /// each piece is inferred, and short rows are padded with blank cells. Never fails.
    pub fn from_dat(raw: &str, additional_data: &Option<String>) -> (r: Result<Table, ParseTableError>)
        ensures
            r is Ok,
            r->Ok_0.wf(),
            r->Ok_0@ == rectangularized(dat_rows(raw@)),
    {
        let lines = split_lines(&chars_of(raw));
        let ghost lv = lines_of(raw@);
        let mut rows: Vec<Vec<Cell>> = Vec::new();
        let mut i: usize = 0;
        while i < lines.len()
            invariant
                i <= lines.len(),
                chars_view(lines@) == lv,
                rows_view(rows@) == lv.subrange(0, i as int).map_values(|l: Seq<char>| dat_row(l)),
            decreases lines.len() - i,
        {
            assert(lines[i as int]@ == lv[i as int]);
            let ghost prev = rows@;
            let row = infer_pieces(&split_chars(&lines[i], '\t'));
            rows.push(row);
            proof {
                lemma_rows_push(prev, row);
            }
            i = i + 1;
            assert(lv.subrange(0, i as int).map_values(|l: Seq<char>| dat_row(l)) =~= lv.subrange(
                0,
                i - 1,
            ).map_values(|l: Seq<char>| dat_row(l)).push(dat_row(lv[i - 1])));
        }
        assert(lv.subrange(0, lines.len() as int) =~= lv);
        Ok(Table::from_rows(rows))
    }

    /// Writes the tab-separated format: each row's rendered cells joined by tabs, each row
    /// followed by a newline.
    pub fn to_dat(&self, format_options: &FormatOptions) -> (r: String)
        requires
            self.wf(),
        ensures
            r@ == dat_text(rendered_grid(self@, format_options)),
    {
        let ghost grid = rendered_grid(self@, format_options);
        let rows = self.rows();
        let tab = vec!['\t'];
        let mut out: Vec<char> = Vec::new();
        let mut i: usize = 0;
        while i < rows.len()
            invariant
                i <= rows.len(),
                rows_view(rows@) == self@.rows,
                grid == rendered_grid(self@, format_options),
                tab@ == seq!['\t'],
                out@ == dat_text(grid.subrange(0, i as int)),
            decreases rows.len() - i,
        {
            let cells = render_row(&rows[i], format_options);
            assert(chars_view(cells@) == grid[i as int]);
            let mut line = join(&cells, &tab);
            line.push('\n');
            append_chars(&mut out, &line);
            i = i + 1;
            let ghost lines = grid.subrange(0, i as int).map_values(
                |row: Seq<Seq<char>>| joined(row, seq!['\t']).push('\n'),
            );
            assert(lines.drop_last() =~= grid.subrange(0, i - 1).map_values(
                |row: Seq<Seq<char>>| joined(row, seq!['\t']).push('\n'),
            ));
        }
        assert(grid.subrange(0, rows.len() as int) =~= grid);
        string_of(&out)
    }
}

} // verus!
