//! A rectangular grid of cells, and its horizontal (`concat`) and vertical (`stack`) merges,
//! which pad the smaller operand with blank cells.
use crate::cell::{Cell, CellView};
use vstd::prelude::*;

verus! {

/// A grid of cells whose rows all have the same length.
pub struct Table {
    height: usize,
    width: usize,
    values: Vec<Vec<Cell>>,
}

/// A table as the contracts see it: its declared size and its rows.
pub struct TableView {
    pub width: nat,
    pub height: nat,
    pub rows: Seq<Seq<CellView>>,
}

pub open spec fn row_view(r: Vec<Cell>) -> Seq<CellView> {
    r@.map_values(|c: Cell| c@)
}

pub open spec fn rows_view(rows: Seq<Vec<Cell>>) -> Seq<Seq<CellView>> {
    rows.map_values(|r: Vec<Cell>| row_view(r))
}

pub open spec fn blanks(n: nat) -> Seq<CellView> {
    Seq::new(n, |j: int| CellView::Blank)
}

/// `r` with blank cells added on the right up to length `w`.
pub open spec fn pad_row(r: Seq<CellView>, w: nat) -> Seq<CellView> {
    if r.len() < w {
        r + blanks((w - r.len()) as nat)
    } else {
        r
    }
}

/// `height` rows, each of `width` cells.
pub open spec fn rectangular(t: TableView) -> bool {
    &&& t.rows.len() == t.height
    &&& forall|i: int| 0 <= i < t.height ==> (#[trigger] t.rows[i]).len() == t.width
}

pub open spec fn max_nat(a: nat, b: nat) -> nat {
    if a >= b {
        a
    } else {
        b
    }
}

/// Row `i` of `t`, or a blank row of its width below its last row.
pub open spec fn row_or_blank(t: TableView, i: int) -> Seq<CellView> {
    if i < t.height {
        t.rows[i]
    } else {
        blanks(t.width)
    }
}

/// `b` to the right of `a`, the shorter one padded at the bottom with blank rows.
pub open spec fn concatenated(a: TableView, b: TableView) -> TableView {
    let h = max_nat(a.height, b.height);
    TableView {
        width: a.width + b.width,
        height: h,
        rows: Seq::new(h, |i: int| row_or_blank(a, i) + row_or_blank(b, i)),
    }
}

/// `b` below `a`, the narrower one's rows padded on the right with blank cells.
pub open spec fn stacked(a: TableView, b: TableView) -> TableView {
    let w = max_nat(a.width, b.width);
    TableView {
        width: w,
        height: a.height + b.height,
        rows: a.rows.map_values(|r: Seq<CellView>| pad_row(r, w)) + b.rows.map_values(
            |r: Seq<CellView>| pad_row(r, w),
        ),
    }
}

/// The length of the longest row.
pub open spec fn max_len(rows: Seq<Seq<CellView>>) -> nat
    decreases rows.len(),
{
    if rows.len() == 0 {
        0
    } else {
        max_nat(max_len(rows.drop_last()), rows.last().len())
    }
}

pub proof fn lemma_max_len(rows: Seq<Seq<CellView>>)
    ensures
        forall|i: int| 0 <= i < rows.len() ==> (#[trigger] rows[i]).len() <= max_len(rows),
        rows.len() > 0 ==> exists|i: int| 0 <= i < rows.len() && (#[trigger] rows[i]).len()
            == max_len(rows),
    decreases rows.len(),
{
    if rows.len() > 0 {
        lemma_max_len(rows.drop_last());
        assert forall|i: int| 0 <= i < rows.len() implies (#[trigger] rows[i]).len() <= max_len(
            rows,
        ) by {
            if i < rows.len() - 1 {
                assert(rows.drop_last()[i] == rows[i]);
            }
        }
        if max_len(rows) == rows.last().len() {
            assert(rows[rows.len() - 1].len() == max_len(rows));
        } else {
            let j = choose|j: int|
                0 <= j < rows.drop_last().len() && (#[trigger] rows.drop_last()[j]).len()
                    == max_len(rows.drop_last());
            assert(rows[j] == rows.drop_last()[j]);
        }
    }
}

/// Rows that all have length `w` are at most and at least `w` long.
pub proof fn lemma_max_len_uniform(rows: Seq<Seq<CellView>>, w: nat)
    requires
        rows.len() > 0,
        forall|i: int| 0 <= i < rows.len() ==> (#[trigger] rows[i]).len() == w,
    ensures
        max_len(rows) == w,
{
    lemma_max_len(rows);
}

/// The table that a list of rows of any lengths makes: as wide as the longest row, the
/// shorter rows padded on the right with blank cells.
pub open spec fn rectangularized(rows: Seq<Seq<CellView>>) -> TableView {
    let w = max_len(rows);
    TableView { width: w, height: rows.len(), rows: rows.map_values(|r: Seq<CellView>| pad_row(r, w)) }
}

pub proof fn lemma_row_push(r: Vec<Cell>, s: Seq<Cell>, c: Cell)
    requires
        r@ == s.push(c),
    ensures
        row_view(r) == s.map_values(|c: Cell| c@).push(c@),
{
    assert(row_view(r) =~= s.map_values(|c: Cell| c@).push(c@));
}

pub proof fn lemma_rows_update(rows: Seq<Vec<Cell>>, i: int, r: Vec<Cell>)
    requires
        0 <= i < rows.len(),
    ensures
        rows_view(rows.update(i, r)) == rows_view(rows).update(i, row_view(r)),
{
    assert(rows_view(rows.update(i, r)) =~= rows_view(rows).update(i, row_view(r)));
}

pub proof fn lemma_rows_push(rows: Seq<Vec<Cell>>, r: Vec<Cell>)
    ensures
        rows_view(rows.push(r)) == rows_view(rows).push(row_view(r)),
{
    assert(rows_view(rows.push(r)) =~= rows_view(rows).push(row_view(r)));
}

/// Appends blank cells to `row` up to length `w`.
fn pad_cells(row: &mut Vec<Cell>, w: usize)
    ensures
        row_view(*final(row)) == pad_row(row_view(*old(row)), w as nat),
{
    let ghost start = row_view(*row);
    let ghost n0 = row.len();
    while row.len() < w
        invariant
            n0 <= row.len(),
            n0 == start.len(),
            n0 < w ==> row.len() <= w,
            n0 >= w ==> row.len() == n0,
            row_view(*row) == start + blanks((row.len() - n0) as nat),
        decreases w - row.len(),
    {
        let ghost prev = row@;
        let ghost n = (row.len() - n0) as nat;
        row.push(Cell::Blank);
        proof {
            lemma_row_push(*row, prev, Cell::Blank);
            assert(start + blanks(n + 1) =~= (start + blanks(n)).push(CellView::Blank));
        }
    }
    proof {
        if n0 >= w {
            assert(start + blanks(0) =~= start);
            assert(row_view(*row) == start);
        } else {
            assert(row.len() == w);
            assert(row_view(*row) == start + blanks((w - n0) as nat));
        }
    }
}

/// A row of `width` blank cells.
fn create_blank_row(width: usize) -> (r: Vec<Cell>)
    ensures
        row_view(r) == blanks(width as nat),
{
    let mut row: Vec<Cell> = Vec::new();
    assert(row_view(row) =~= Seq::<CellView>::empty());
    pad_cells(&mut row, width);
    assert(Seq::<CellView>::empty() + blanks(width as nat) =~= blanks(width as nat));
    row
}

proof fn lemma_row_or_blank_concat(a: TableView, b: TableView, i: int)
    requires
        0 <= i,
    ensures
        row_or_blank(concatenated(a, b), i) == row_or_blank(a, i) + row_or_blank(b, i),
{
    if i >= max_nat(a.height, b.height) {
        assert(blanks(a.width + b.width) =~= blanks(a.width) + blanks(b.width));
    }
}

/// Concatenating is associative: merging three tables left to right gives the same table as
/// first merging the last two.
pub proof fn lemma_concat_associative(a: TableView, b: TableView, c: TableView)
    ensures
        concatenated(concatenated(a, b), c) == concatenated(a, concatenated(b, c)),
{
    let l = concatenated(concatenated(a, b), c);
    let r = concatenated(a, concatenated(b, c));
    assert forall|i: int| 0 <= i < l.rows.len() implies #[trigger] l.rows[i] == r.rows[i] by {
        lemma_row_or_blank_concat(a, b, i);
        lemma_row_or_blank_concat(b, c, i);
        assert(row_or_blank(a, i) + row_or_blank(b, i) + row_or_blank(c, i) =~= row_or_blank(a, i)
            + (row_or_blank(b, i) + row_or_blank(c, i)));
    }
    assert(l.rows =~= r.rows);
}

proof fn lemma_pad_row_twice(r: Seq<CellView>, x: nat, y: nat)
    requires
        x <= y,
    ensures
        pad_row(pad_row(r, x), y) == pad_row(r, y),
{
    if r.len() < x {
        assert(r + blanks((x - r.len()) as nat) + blanks((y - x) as nat) =~= r + blanks(
            (y - r.len()) as nat,
        ));
        if x == y {
            assert(pad_row(r, x) + blanks(0) =~= pad_row(r, x));
        }
    }
}

/// Stacking is associative: merging three tables left to right gives the same table as first
/// merging the last two.
pub proof fn lemma_stack_associative(a: TableView, b: TableView, c: TableView)
    ensures
        stacked(stacked(a, b), c) == stacked(a, stacked(b, c)),
{
    let w1 = max_nat(a.width, b.width);
    let w2 = max_nat(b.width, c.width);
    let w = max_nat(w1, c.width);
    assert(w == max_nat(a.width, w2));
    let l = stacked(stacked(a, b), c);
    let r = stacked(a, stacked(b, c));
    assert forall|i: int| 0 <= i < l.rows.len() implies #[trigger] l.rows[i] == r.rows[i] by {
        if i < a.rows.len() {
            lemma_pad_row_twice(a.rows[i], w1, w);
        } else if i < a.rows.len() + b.rows.len() {
            lemma_pad_row_twice(b.rows[i - a.rows.len()], w1, w);
            lemma_pad_row_twice(b.rows[i - a.rows.len()], w2, w);
        } else {
            lemma_pad_row_twice(c.rows[i - a.rows.len() - b.rows.len()], w2, w);
        }
    }
    assert(l.rows =~= r.rows);
}

impl View for Table {
    type V = TableView;

    closed spec fn view(&self) -> TableView {
        TableView {
            width: self.width as nat,
            height: self.height as nat,
            rows: rows_view(self.values@),
        }
    }
}

impl Table {
    /// Every row as long as the table is wide, and as many rows as it is high.
    pub open spec fn wf(&self) -> bool {
        rectangular(self@)
    }

    /// A table of `height` rows of `width` blank cells.
    pub fn new(width: usize, height: usize) -> (r: Table)
        ensures
            r.wf(),
            r@.width == width,
            r@.height == height,
            r@.rows == Seq::new(height as nat, |i: int| blanks(width as nat)),
    {
        let mut values: Vec<Vec<Cell>> = Vec::new();
        while values.len() < height
            invariant
                values.len() <= height,
                rows_view(values@) == Seq::new(values.len() as nat, |i: int| blanks(width as nat)),
            decreases height - values.len(),
        {
            let ghost prev = values@;
            let row = create_blank_row(width);
            values.push(row);
            proof {
                lemma_rows_push(prev, row);
            }
            assert(rows_view(values@) =~= Seq::new(
                values.len() as nat,
                |i: int| blanks(width as nat),
            ));
        }
        let t = Table { height, width, values };
        assert(t@.rows =~= Seq::new(height as nat, |i: int| blanks(width as nat)));
        t
    }

    /// Builds a table from rows of any lengths; see `rectangularized`.
    pub fn from_rows(rows: Vec<Vec<Cell>>) -> (r: Table)
        ensures
            r.wf(),
            r@ == rectangularized(rows_view(rows@)),
    {
        let ghost input = rows_view(rows@);
        let mut width: usize = 0;
        let mut i: usize = 0;
        while i < rows.len()
            invariant
                i <= rows.len(),
                input == rows_view(rows@),
                width == max_len(input.subrange(0, i as int)),
            decreases rows.len() - i,
        {
            assert(input.subrange(0, i + 1).drop_last() =~= input.subrange(0, i as int));
            if rows[i].len() > width {
                width = rows[i].len();
            }
            i = i + 1;
        }
        assert(input.subrange(0, rows.len() as int) =~= input);
        let mut values = rows;
        let mut k: usize = 0;
        while k < values.len()
            invariant
                k <= values.len(),
                values.len() == input.len(),
                width == max_len(input),
                forall|j: int| 0 <= j < k ==> #[trigger] row_view(values@[j]) == pad_row(
                    input[j],
                    width as nat,
                ),
                forall|j: int| k <= j < values.len() ==> #[trigger] row_view(values@[j])
                    == input[j],
            decreases values.len() - k,
        {
            let ghost prev = values@;
            let mut row: Vec<Cell> = Vec::new();
            values.set_and_swap(k, &mut row);
            pad_cells(&mut row, width);
            let ghost padded = row;
            values.set_and_swap(k, &mut row);
            proof {
                assert(values@ =~= prev.update(k as int, padded));
                lemma_rows_update(prev, k as int, padded);
            }
            k = k + 1;
        }
        let t = Table { height: values.len(), width, values };
        proof {
            lemma_max_len(input);
            let target = rectangularized(input);
            assert(t@.rows =~= target.rows);
            assert forall|j: int| 0 <= j < t@.height implies (#[trigger] t@.rows[j]).len()
                == t@.width by {
                assert(input[j].len() <= width);
            }
        }
        t
    }

    pub fn height(&self) -> (r: usize)
        ensures
            r == self@.height,
    {
        self.height
    }

    pub fn width(&self) -> (r: usize)
        ensures
            r == self@.width,
    {
        self.width
    }

    /// The rows of the table.
    pub fn rows(&self) -> (r: &Vec<Vec<Cell>>)
        ensures
            rows_view(r@) == self@.rows,
    {
        &self.values
    }

    /// The cell in row `row`, column `col`.
    pub fn cell(&self, row: usize, col: usize) -> (r: &Cell)
        requires
            self.wf(),
            row < self@.height,
            col < self@.width,
        ensures
            r@ == self@.rows[row as int][col as int],
    {
        assert(self@.rows[row as int] == row_view(self.values@[row as int]));
        &self.values[row][col]
    }

    /// Replaces the cell in row `row`, column `col`.
    pub fn set_cell(&mut self, row: usize, col: usize, cell: Cell)
        requires
            old(self).wf(),
            row < old(self)@.height,
            col < old(self)@.width,
        ensures
            final(self).wf(),
            final(self)@.width == old(self)@.width,
            final(self)@.height == old(self)@.height,
            final(self)@.rows == old(self)@.rows.update(
                row as int,
                old(self)@.rows[row as int].update(col as int, cell@),
            ),
    {
        let ghost before = self@;
        let ghost cv = cell@;
        let mut r: Vec<Cell> = Vec::new();
        self.values.set_and_swap(row, &mut r);
        assert(row_view(r) == before.rows[row as int]);
        r.set(col, cell);
        assert(row_view(r) =~= before.rows[row as int].update(col as int, cv));
        self.values.set_and_swap(row, &mut r);
        assert(self@.rows =~= before.rows.update(
            row as int,
            before.rows[row as int].update(col as int, cv),
        ));
    }

    /// Adds blank rows at the bottom up to `height` rows.
    fn pad_bottom(&mut self, height: usize)
        requires
            old(self).wf(),
            old(self)@.height <= height,
        ensures
            final(self).wf(),
            final(self)@.width == old(self)@.width,
            final(self)@.height == height,
            forall|i: int| 0 <= i < height ==> #[trigger] final(self)@.rows[i] == row_or_blank(
                old(self)@,
                i,
            ),
    {
        let ghost before = self@;
        while self.values.len() < height
            invariant
                before.height <= self.values.len() <= height,
                self.width == before.width,
                self.height == before.height,
                forall|i: int| 0 <= i < self.values.len() ==> #[trigger] rows_view(
                    self.values@,
                )[i] == row_or_blank(before, i),
                before.rows.len() == before.height,
            decreases height - self.values.len(),
        {
            let row = create_blank_row(self.width);
            let ghost prev = self.values@;
            self.values.push(row);
            proof {
                lemma_rows_push(prev, row);
            }
        }
        self.height = height;
    }

    /// Adds blank cells on the right of every row up to `width` cells.
    fn pad_right(&mut self, width: usize)
        requires
            old(self).wf(),
            old(self)@.width <= width,
        ensures
            final(self).wf(),
            final(self)@.width == width,
            final(self)@.height == old(self)@.height,
            final(self)@.rows == old(self)@.rows.map_values(
                |r: Seq<CellView>| pad_row(r, width as nat),
            ),
    {
        let ghost before = self@;
        let mut i: usize = 0;
        while i < self.values.len()
            invariant
                i <= self.values.len(),
                self.values.len() == before.height,
                self.width == before.width,
                self.height == before.height,
                rectangular(before),
                forall|j: int| 0 <= j < i ==> #[trigger] rows_view(self.values@)[j] == pad_row(
                    before.rows[j],
                    width as nat,
                ),
                forall|j: int| i <= j < self.values.len() ==> #[trigger] rows_view(
                    self.values@,
                )[j] == before.rows[j],
            decreases self.values.len() - i,
        {
            let ghost prev = self.values@;
            let mut row: Vec<Cell> = Vec::new();
            self.values.set_and_swap(i, &mut row);
            pad_cells(&mut row, width);
            let ghost padded = row;
            self.values.set_and_swap(i, &mut row);
            proof {
                assert(self.values@ =~= prev.update(i as int, padded));
                lemma_rows_update(prev, i as int, padded);
                assert(rows_view(prev)[i as int] == row_view(prev[i as int]));
                assert(rows_view(self.values@)[i as int] == pad_row(
                    before.rows[i as int],
                    width as nat,
                ));
            }
            i = i + 1;
        }
        self.width = width;
        proof {
            assert(self@.rows =~= before.rows.map_values(
                |r: Seq<CellView>| pad_row(r, width as nat),
            ));
            assert forall|j: int| 0 <= j < self@.height implies (#[trigger] self@.rows[j]).len()
                == self@.width by {
                assert(before.rows[j].len() == before.width);
            }
        }
    }

    /// Puts `other` to the right of this table. The shorter of the two is first padded at the
    /// bottom with blank rows; each row of `other` is then appended to the row of this table at
    /// the same height.
    pub fn concat(&mut self, other: Table)
        requires
            old(self).wf(),
            other.wf(),
            old(self)@.width + other@.width <= usize::MAX,
        ensures
            final(self).wf(),
            final(self)@ == concatenated(old(self)@, other@),
    {
        let ghost a = self@;
        let ghost b = other@;
        let mut other = other;
        let height = if self.height >= other.height {
            self.height
        } else {
            other.height
        };
        self.pad_bottom(height);
        other.pad_bottom(height);
        let mut i: usize = 0;
        while i < height
            invariant
                i <= height,
                self.values.len() == height,
                other.values.len() == height,
                self.height == height,
                self.width == a.width,
                other.width == b.width,
                height == max_nat(a.height, b.height),
                forall|j: int| 0 <= j < i ==> #[trigger] rows_view(self.values@)[j] == row_or_blank(
                    a,
                    j,
                ) + row_or_blank(b, j),
                forall|j: int| i <= j < height ==> #[trigger] rows_view(self.values@)[j]
                    == row_or_blank(a, j),
                forall|j: int| i <= j < height ==> #[trigger] rows_view(other.values@)[j]
                    == row_or_blank(b, j),
            decreases height - i,
        {
            let ghost prev_self = self.values@;
            let ghost prev_other = other.values@;
            let mut extra: Vec<Cell> = Vec::new();
            let ghost e0 = extra;
            other.values.set_and_swap(i, &mut extra);
            proof {
                lemma_rows_update(prev_other, i as int, e0);
            }
            let mut row: Vec<Cell> = Vec::new();
            self.values.set_and_swap(i, &mut row);
            let ghost left = row@;
            let ghost right = extra@;
            row.append(&mut extra);
            assert(row_view(row) =~= left.map_values(|c: Cell| c@) + right.map_values(
                |c: Cell| c@,
            ));
            let ghost joined_row = row;
            self.values.set_and_swap(i, &mut row);
            proof {
                assert(self.values@ =~= prev_self.update(i as int, joined_row));
                lemma_rows_update(prev_self, i as int, joined_row);
                assert(rows_view(prev_self)[i as int] == row_view(prev_self[i as int]));
                assert(rows_view(prev_other)[i as int] == row_view(prev_other[i as int]));
                assert(rows_view(self.values@)[i as int] == row_or_blank(a, i as int)
                    + row_or_blank(b, i as int));
            }
            i = i + 1;
        }
        self.width = self.width + other.width;
        proof {
            let target = concatenated(a, b);
            assert(self@.rows =~= target.rows);
            assert forall|j: int| 0 <= j < self@.height implies (#[trigger] self@.rows[j]).len()
                == self@.width by {
                if j < a.height {
                    assert(a.rows[j].len() == a.width);
                }
                if j < b.height {
                    assert(b.rows[j].len() == b.width);
                }
            }
        }
    }

    /// Puts `other` below this table. The narrower of the two first has its rows padded on the
    /// right with blank cells; the rows of `other` then follow this table's rows in order.
    pub fn stack(&mut self, other: Table)
        requires
            old(self).wf(),
            other.wf(),
            old(self)@.height + other@.height <= usize::MAX,
        ensures
            final(self).wf(),
            final(self)@ == stacked(old(self)@, other@),
    {
        let ghost a = self@;
        let ghost b = other@;
        let mut other = other;
        let width = if self.width >= other.width {
            self.width
        } else {
            other.width
        };
        self.pad_right(width);
        other.pad_right(width);
        let ghost top = self.values@;
        let ghost bottom = other.values@;
        self.values.append(&mut other.values);
        self.height = self.height + other.height;
        proof {
            let target = stacked(a, b);
            assert(rows_view(top + bottom) =~= rows_view(top) + rows_view(bottom));
            assert(self@.rows =~= target.rows);
            assert forall|j: int| 0 <= j < self@.height implies (#[trigger] self@.rows[j]).len()
                == self@.width by {
                if j < a.height {
                    assert(self@.rows[j] == pad_row(a.rows[j], width as nat));
                } else {
                    assert(self@.rows[j] == pad_row(b.rows[j - a.height], width as nat));
                }
            }
        }
    }
}

/// The size that a merge adds up: widths side by side, heights one below the other.
pub open spec fn merged_size(t: TableView, vertical: bool) -> nat {
    if vertical {
        t.height
    } else {
        t.width
    }
}

/// The tables merged pairwise from left to right, by `stack` or by `concat`.
pub open spec fn merged(views: Seq<TableView>, vertical: bool) -> TableView
    decreases views.len(),
{
    if views.len() <= 1 {
        views[0]
    } else if vertical {
        stacked(merged(views.drop_last(), vertical), views.last())
    } else {
        concatenated(merged(views.drop_last(), vertical), views.last())
    }
}

/// Whether every step of the left-to-right merge keeps the summed size within `usize`.
pub open spec fn merge_fits(views: Seq<TableView>, vertical: bool) -> bool
    decreases views.len(),
{
    views.len() <= 1 || (merge_fits(views.drop_last(), vertical) && merged_size(
        merged(views.drop_last(), vertical),
        vertical,
    ) + merged_size(views.last(), vertical) <= usize::MAX)
}

pub open spec fn tables_view(tables: Seq<Table>) -> Seq<TableView> {
    tables.map_values(|t: Table| t@)
}

/// Merges all tables from left to right: `stack` where `vertical`, `concat` otherwise. Gives
/// `None`, leaving the merge undone, where a summed width (or height) would exceed
/// `usize::MAX`.
pub fn merge_all(tables: Vec<Table>, vertical: bool) -> (r: Option<Table>)
    requires
        tables.len() > 0,
        forall|i: int| 0 <= i < tables.len() ==> (#[trigger] tables[i]).wf(),
    ensures
        r is Some <==> merge_fits(tables_view(tables@), vertical),
        r is Some ==> r->0.wf() && r->0@ == merged(tables_view(tables@), vertical),
{
    let ghost views = tables_view(tables@);
    let n = tables.len();
    let mut rest = tables;
    let mut acc = rest.remove(0);
    let mut i: usize = 1;
    assert(views.subrange(0, 1) =~= seq![views[0]]);
    while i < n
        invariant
            1 <= i <= n,
            rest.len() == n - i,
            views == tables_view(tables@),
            views.len() == n,
            forall|j: int| 0 <= j < rest.len() ==> #[trigger] rest@[j]@ == views[i + j] && rest@[j].wf(),
            forall|j: int| 0 <= j < n ==> (#[trigger] views[j]).rows.len() == views[j].height,
            acc.wf(),
            merge_fits(views.subrange(0, i as int), vertical),
            acc@ == merged(views.subrange(0, i as int), vertical),
        decreases n - i,
    {
        let ghost before = rest@;
        let next = rest.remove(0);
        assert(next@ == views[i as int] && next.wf()) by {
            assert(before[0]@ == views[i + 0]);
        }
        assert forall|j: int| 0 <= j < rest.len() implies #[trigger] rest@[j]@ == views[i + 1 + j]
            && rest@[j].wf() by {
            assert(rest@[j] == before[j + 1]);
        }
        let ghost pre = views.subrange(0, i as int);
        assert(views.subrange(0, i + 1).drop_last() =~= pre);
        assert(views.subrange(0, i + 1).last() == views[i as int]);
        if vertical {
            if acc.height() > usize::MAX - next.height() {
                assert(!merge_fits(views.subrange(0, i + 1), vertical));
                proof {
                    lemma_merge_fits_prefix(views, vertical, i + 1);
                }
                return None;
            }
            acc.stack(next);
        } else {
            if acc.width() > usize::MAX - next.width() {
                assert(!merge_fits(views.subrange(0, i + 1), vertical));
                proof {
                    lemma_merge_fits_prefix(views, vertical, i + 1);
                }
                return None;
            }
            acc.concat(next);
        }
        i = i + 1;
    }
    assert(views.subrange(0, n as int) =~= views);
    Some(acc)
}

/// The merge of all tables fits only where the merge of each prefix does.
proof fn lemma_merge_fits_prefix(views: Seq<TableView>, vertical: bool, k: int)
    requires
        1 <= k <= views.len(),
        !merge_fits(views.subrange(0, k), vertical),
    ensures
        !merge_fits(views, vertical),
    decreases views.len() - k,
{
    if k < views.len() {
        assert(views.subrange(0, k + 1).drop_last() =~= views.subrange(0, k));
        lemma_merge_fits_prefix(views, vertical, k + 1);
    } else {
        assert(views.subrange(0, k) =~= views);
    }
}

} // verus!
