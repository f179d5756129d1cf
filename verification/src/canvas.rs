//! The character grid that a plot is drawn on.
//!
//! A [`Canvas`] is a fixed block of `rows × columns` bytes, stored row after
//! row. Its view is the grid as a sequence of rows, each a sequence of bytes;
//! every contract in this crate that speaks of drawing speaks of that view.

use vstd::prelude::*;

verus! {

/// The byte of a cell that nothing has been drawn on.
pub const BLANK: u8 = 32;

/// The byte that ends a row in the rendered text.
pub const NEWLINE: u8 = 10;

/// How samples are drawn onto the canvas.
#[derive(Debug, Clone, Copy, PartialEq, Eq, Structural)]
pub enum Mode {
    /// Every series writes its own mark; on a shared cell the later series wins.
    Dot,
    /// Every cell counts how many samples fell into it.
    Count,
}

impl Default for Mode {
    fn default() -> (mode: Mode)
        ensures
            mode == Mode::Dot,
    {
        Mode::Dot
    }
}

/// A grid with every cell blank.
pub open spec fn blank_grid(rows: nat, columns: nat) -> Seq<Seq<u8>> {
    Seq::new(rows, |r: int| Seq::new(columns, |c: int| BLANK))
}

/// The text of a grid: every row in order from the top, each followed by a newline.
pub open spec fn grid_text(grid: Seq<Seq<u8>>) -> Seq<u8>
    decreases grid.len(),
{
    if grid.len() == 0 {
        Seq::empty()
    } else {
        grid_text(grid.drop_last()) + grid.last().push(NEWLINE)
    }
}

/// The rows that `cells` holds when it is read as `rows` rows of `columns` cells.
pub open spec fn grid_of(cells: Seq<u8>, rows: nat, columns: nat) -> Seq<Seq<u8>> {
    Seq::new(rows, |r: int| cells.subrange(r * columns, r * columns + columns))
}

proof fn lemma_row_within(rows: nat, columns: nat, r: int)
    requires
        0 <= r < rows,
    ensures
        0 <= r * columns,
        r * columns + columns <= rows * columns,
{
    assert(0 <= r * columns && r * columns + columns <= rows * columns) by (nonlinear_arith)
        requires
            0 <= r < rows,
            0 <= columns,
    ;
}

/// Writing one byte of the storage changes one cell of one row of the grid.
proof fn lemma_grid_update(cells: Seq<u8>, rows: nat, columns: nat, row: int, column: int, v: u8)
    requires
        cells.len() == rows * columns,
        0 <= row < rows,
        0 <= column < columns,
    ensures
        grid_of(cells.update(row * columns + column, v), rows, columns) == grid_of(
            cells,
            rows,
            columns,
        ).update(row, grid_of(cells, rows, columns)[row].update(column, v)),
{
    let before = grid_of(cells, rows, columns);
    let after = grid_of(cells.update(row * columns + column, v), rows, columns);
    assert forall|r: int| 0 <= r < rows implies #[trigger] after[r] == (if r == row {
        before[row].update(column, v)
    } else {
        before[r]
    }) by {
        lemma_row_within(rows, columns, r);
        lemma_row_within(rows, columns, row);
        if r == row {
            assert(after[r] =~= before[row].update(column, v));
        } else {
            assert(r * columns + columns <= row * columns || row * columns + columns <= r
                * columns) by (nonlinear_arith)
                requires
                    r != row,
                    0 <= columns,
            ;
            assert(after[r] =~= before[r]);
        }
    }
    assert(after =~= before.update(row, before[row].update(column, v)));
}

/// A fixed-size grid of single-byte cells.
#[derive(Debug)]
pub struct Canvas {
    height: usize,
    stride: usize,
    cells: Vec<u8>,
    mode: Mode,
}

impl View for Canvas {
    type V = Seq<Seq<u8>>;

    closed spec fn view(&self) -> Seq<Seq<u8>> {
        grid_of(self.cells@, self.height as nat, self.stride as nat)
    }
}

impl Canvas {
    /// Number of rows of the grid.
    pub closed spec fn nrows(&self) -> nat {
        self.height as nat
    }

    /// Number of columns of the grid.
    pub closed spec fn ncols(&self) -> nat {
        self.stride as nat
    }

    /// The drawing policy that the canvas was made for.
    pub closed spec fn policy(&self) -> Mode {
        self.mode
    }

    /// The cell storage holds exactly `nrows() × ncols()` bytes.
    #[verifier::type_invariant]
    pub closed spec fn backed(&self) -> bool {
        self.cells.len() == self.height * self.stride
    }

    /// The grid is rectangular: `nrows()` rows of `ncols()` cells each. This
    /// holds of every canvas; the functions that hand a canvas out or take one
    /// say so, for the benefit of contracts that speak of its rows.
    pub open spec fn wf(&self) -> bool {
        &&& self.backed()
        &&& self@.len() == self.nrows()
        &&& forall|r: int| 0 <= r < self.nrows() ==> (#[trigger] self@[r]).len() == self.ncols()
    }

    proof fn lemma_row_bounds(&self, r: int)
        requires
            self.backed(),
            0 <= r < self.height,
        ensures
            0 <= r * self.stride,
            r * self.stride + self.stride <= self.cells@.len() <= usize::MAX,
    {
        let s = self.stride as int;
        let h = self.height as int;
        assert(0 <= r * s && r * s + s <= h * s) by (nonlinear_arith)
            requires
                0 <= r < h,
                0 <= s,
        ;
    }

    proof fn lemma_shape(&self)
        requires
            self.backed(),
        ensures
            self.wf(),
    {
        assert forall|r: int| 0 <= r < self.nrows() implies (#[trigger] self@[r]).len()
            == self.ncols() by {
            self.lemma_row_bounds(r);
        }
    }

    /// A canvas of `rows × columns` blank cells.
    pub fn new(rows: usize, columns: usize, mode: Mode) -> (canvas: Canvas)
        requires
            rows * columns <= usize::MAX,
        ensures
            canvas.wf(),
            canvas.nrows() == rows,
            canvas.ncols() == columns,
            canvas.policy() == mode,
            canvas@ == blank_grid(rows as nat, columns as nat),
    {
        let cells = vec![BLANK; rows * columns];
        let canvas = Canvas { height: rows, stride: columns, cells, mode };
        proof {
            canvas.lemma_shape();
            assert forall|r: int| 0 <= r < rows implies #[trigger] canvas@[r] == Seq::new(
                columns as nat,
                |c: int| BLANK,
            ) by {
                canvas.lemma_row_bounds(r);
                assert(canvas@[r] =~= Seq::new(columns as nat, |c: int| BLANK));
            }
            assert(canvas@ =~= blank_grid(rows as nat, columns as nat));
        }
        canvas
    }

    /// The drawing policy.
    pub fn mode(&self) -> (mode: Mode)
        ensures
            self.wf(),
            mode == self.policy(),
    {
        proof {
            use_type_invariant(self);
            self.lemma_shape();
        }
        self.mode
    }

    /// Number of rows.
    pub fn height(&self) -> (n: usize)
        ensures
            self.wf(),
            n == self.nrows(),
    {
        proof {
            use_type_invariant(self);
            self.lemma_shape();
        }
        self.height
    }

    /// Number of columns.
    pub fn width(&self) -> (n: usize)
        ensures
            self.wf(),
            n == self.ncols(),
    {
        proof {
            use_type_invariant(self);
            self.lemma_shape();
        }
        self.stride
    }

    /// The rows of the grid, top row first.
    pub fn rows(&self) -> (rows: Vec<Vec<u8>>)
        ensures
            self.wf(),
            rows@.len() == self.nrows(),
            forall|r: int| 0 <= r < rows@.len() ==> (#[trigger] rows@[r])@ == self@[r],
    {
        proof {
            use_type_invariant(self);
            self.lemma_shape();
        }
        let mut rows: Vec<Vec<u8>> = Vec::new();
        let mut r: usize = 0;
        while r < self.height
            invariant
                self.wf(),
                r <= self.height,
                rows@.len() == r,
                forall|i: int| 0 <= i < r ==> (#[trigger] rows@[i])@ == self@[i],
            decreases self.height - r,
        {
            proof {
                self.lemma_row_bounds(r as int);
            }
            let start = r * self.stride;
            let mut row: Vec<u8> = Vec::new();
            let mut c: usize = 0;
            while c < self.stride
                invariant
                    self.wf(),
                    r < self.height,
                    start == r * self.stride,
                    start + self.stride <= self.cells@.len(),
                    c <= self.stride,
                    row@ == self.cells@.subrange(start as int, start + c),
                decreases self.stride - c,
            {
                row.push(self.cells[start + c]);
                c += 1;
                assert(row@ =~= self.cells@.subrange(start as int, start + c));
            }
            rows.push(row);
            r += 1;
        }
        rows
    }

    /// The byte of the cell at `row`, `column`; `None` when either index lies
    /// outside the grid.
    pub fn get(&self, row: usize, column: usize) -> (byte: Option<u8>)
        ensures
            self.wf(),
            byte == (if row < self.nrows() && column < self.ncols() {
                Some(self@[row as int][column as int])
            } else {
                None
            }),
    {
        proof {
            use_type_invariant(self);
            self.lemma_shape();
        }
        if row < self.height && column < self.stride {
            proof {
                self.lemma_row_bounds(row as int);
            }
            Some(self.cells[row * self.stride + column])
        } else {
            None
        }
    }

    /// The cell at `row`, `column`, to read or to overwrite; `None` when either
    /// index lies outside the grid.
    pub fn cell(&mut self, row: usize, column: usize) -> (cell: Option<&mut u8>)
        ensures
            old(self).wf(),
            final(self).wf(),
            final(self).nrows() == old(self).nrows(),
            final(self).ncols() == old(self).ncols(),
            final(self).policy() == old(self).policy(),
            cell.is_some() <==> row < old(self).nrows() && column < old(self).ncols(),
            match cell {
                Some(c) => *c == old(self)@[row as int][column as int] && final(self)@ == old(
                    self,
                )@.update(row as int, old(self)@[row as int].update(column as int, *final(c))),
                None => final(self)@ == old(self)@,
            },
    {
        proof {
            use_type_invariant(&*self);
            self.lemma_shape();
        }
        if row < self.height && column < self.stride {
            proof {
                self.lemma_row_bounds(row as int);
            }
            let index = row * self.stride + column;
            proof {
                let cells = self.cells@;
                let rows = self.height as nat;
                let columns = self.stride as nat;
                assert forall|v: u8| #[trigger]
                    grid_of(cells.update(index as int, v), rows, columns) == grid_of(
                        cells,
                        rows,
                        columns,
                    ).update(
                        row as int,
                        grid_of(cells, rows, columns)[row as int].update(column as int, v),
                    ) by {
                    lemma_grid_update(cells, rows, columns, row as int, column as int, v);
                }
                assert forall|v: u8|
                    (#[trigger] grid_of(cells.update(index as int, v), rows, columns)).len()
                        == rows && (forall|r: int|
                        0 <= r < rows ==> (#[trigger] grid_of(
                            cells.update(index as int, v),
                            rows,
                            columns,
                        )[r]).len() == columns) by {
                    assert forall|r: int| 0 <= r < rows implies (#[trigger] grid_of(
                        cells.update(index as int, v),
                        rows,
                        columns,
                    )[r]).len() == columns by {
                        lemma_row_within(rows, columns, r);
                    }
                }
            }
            let cell = &mut self.cells[index];
            Some(cell)
        } else {
            None
        }
    }

    /// The grid as text: every row from the top, each followed by a newline.
    pub fn text(&self) -> (text: Vec<u8>)
        ensures
            self.wf(),
            text@ == grid_text(self@),
    {
        proof {
            use_type_invariant(self);
            self.lemma_shape();
        }
        let mut text: Vec<u8> = Vec::new();
        let mut r: usize = 0;
        while r < self.height
            invariant
                self.wf(),
                r <= self.height,
                text@ == grid_text(self@.take(r as int)),
            decreases self.height - r,
        {
            proof {
                self.lemma_row_bounds(r as int);
            }
            let start = r * self.stride;
            let ghost head = text@;
            let mut c: usize = 0;
            while c < self.stride
                invariant
                    self.wf(),
                    r < self.height,
                    start == r * self.stride,
                    start + self.stride <= self.cells@.len(),
                    c <= self.stride,
                    text@ == head + self.cells@.subrange(start as int, start + c),
                decreases self.stride - c,
            {
                text.push(self.cells[start + c]);
                c += 1;
                assert(text@ =~= head + self.cells@.subrange(start as int, start + c));
            }
            text.push(NEWLINE);
            r += 1;
            proof {
                let taken = self@.take(r as int);
                assert(taken.drop_last() =~= self@.take(r - 1));
                assert(taken.last() == self@[r - 1]);
                assert(text@ =~= grid_text(taken.drop_last()) + taken.last().push(NEWLINE));
            }
        }
        assert(self@.take(r as int) =~= self@);
        text
    }
}

} // verus!
