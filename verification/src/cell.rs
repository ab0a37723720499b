//! Character cell types matching VGA text-mode memory layout.
//!
//! A `Cell` is exactly 2 bytes: character byte + attribute byte.
//! The attribute byte matches VGA's native format (bits 0-3 fg, 4-6 bg, 7 blink),
//! which means `CellBuffer::as_bytes()` is directly comparable to a
//! captured 0xB8000 memory dump from a real VGA display.
use vstd::prelude::*;

verus! {

#[derive(Debug, Clone, Copy, PartialEq, Eq, Structural)]
pub struct Cell {
    pub ch: u8,
    pub attr: u8,
}

/// The attribute byte that packs a foreground, a background and a blink bit.
pub open spec fn pack_attr(fg: u8, bg: u8, blink: bool) -> u8 {
    (fg & 0x0F) | ((bg & 0x07) << 4u8) | (if blink { 0x80u8 } else { 0u8 })
}

impl Cell {
    pub open spec fn spec_blank() -> Cell {
        Cell { ch: 32u8, attr: 7u8 }
    }

    /// The blank cell: a space, light gray on black.
    #[verifier::when_used_as_spec(spec_blank)]
    pub fn blank() -> (c: Cell)
        ensures
            c == Cell::spec_blank(),
    {
        Cell { ch: 32u8, attr: 7u8 }
    }

    pub fn new(ch: u8, fg: u8, bg: u8, blink: bool) -> (c: Cell)
        ensures
            c.ch == ch,
            c.attr == pack_attr(fg, bg, blink),
    {
        let attr = (fg & 0x0F) | ((bg & 0x07) << 4u8) | if blink {
            0x80u8
        } else {
            0u8
        };
        Cell { ch, attr }
    }

    pub open spec fn spec_fg(self) -> u8 {
        self.attr & 0x0F
    }

    pub open spec fn spec_bg(self) -> u8 {
        (self.attr >> 4u8) & 0x07
    }

    pub open spec fn spec_blink(self) -> bool {
        (self.attr & 0x80) != 0
    }

    #[verifier::when_used_as_spec(spec_fg)]
    pub fn fg(self) -> (v: u8)
        ensures
            v == self.attr & 0x0F,
    {
        self.attr & 0x0F
    }

    #[verifier::when_used_as_spec(spec_bg)]
    pub fn bg(self) -> (v: u8)
        ensures
            v == (self.attr >> 4u8) & 0x07,
    {
        (self.attr >> 4u8) & 0x07
    }

    #[verifier::when_used_as_spec(spec_blink)]
    pub fn blink(self) -> (v: bool)
        ensures
            v == ((self.attr & 0x80) != 0),
    {
        (self.attr & 0x80) != 0
    }
}

/// Reading an attribute back gives what was packed into it: the low nibble of
/// the foreground, the low three bits of the background, and the blink flag.
pub proof fn lemma_attr_round_trip(fg: u8, bg: u8, blink: bool)
    ensures
        pack_attr(fg, bg, blink) & 0x0F == fg & 0x0F,
        (pack_attr(fg, bg, blink) >> 4u8) & 0x07 == bg & 0x07,
        ((pack_attr(fg, bg, blink) & 0x80) != 0) == blink,
{
    let b: u8 = if blink { 0x80u8 } else { 0u8 };
    assert(((fg & 0x0F) | ((bg & 0x07) << 4u8) | b) & 0x0F == fg & 0x0F) by (bit_vector)
        requires b == 0 || b == 0x80;
    assert(((((fg & 0x0F) | ((bg & 0x07) << 4u8) | b) >> 4u8) & 0x07) == bg & 0x07) by (bit_vector)
        requires b == 0 || b == 0x80;
    assert(((((fg & 0x0F) | ((bg & 0x07) << 4u8) | b) & 0x80) != 0) == (b == 0x80)) by (bit_vector)
        requires b == 0 || b == 0x80;
}

/// Row-major index of `(col, row)` in a grid `cols` wide.
pub open spec fn grid_index(cols: u16, col: int, row: int) -> int {
    row * cols + col
}

/// Distinct cells of a grid have distinct indices.
pub proof fn lemma_grid_index_injective(cols: u16, c1: int, r1: int, c2: int, r2: int)
    requires
        0 <= c1 < cols,
        0 <= c2 < cols,
        0 <= r1,
        0 <= r2,
        grid_index(cols, c1, r1) == grid_index(cols, c2, r2),
    ensures
        c1 == c2,
        r1 == r2,
{
    if r1 < r2 {
        assert(r1 * cols + cols <= r2 * cols) by (nonlinear_arith)
            requires
                r1 < r2,
                0 <= cols,
        ;
    } else if r2 < r1 {
        assert(r2 * cols + cols <= r1 * cols) by (nonlinear_arith)
            requires
                r2 < r1,
                0 <= cols,
        ;
    }
}

pub proof fn lemma_grid_index_bounds(cols: u16, rows: u16, col: int, row: int)
    requires
        0 <= col < cols,
        0 <= row < rows,
    ensures
        0 <= grid_index(cols, col, row) < cols * rows,
        grid_index(cols, col, row) + (cols - col) <= cols * rows,
{
    assert(row * cols + col < cols * rows) by (nonlinear_arith)
        requires
            0 <= col < cols,
            0 <= row < rows,
    ;
    assert(row * cols + cols <= cols * rows) by (nonlinear_arith)
        requires
            0 <= row < rows,
            0 <= cols,
    ;
    assert(0 <= row * cols) by (nonlinear_arith)
        requires
            0 <= row,
            0 <= cols,
    ;
}

/// A whole grid's cell count fits in a `usize`.
pub proof fn lemma_grid_fits(cols: u16, rows: u16)
    ensures
        0 <= cols * rows <= usize::MAX,
{
    assert(0 <= cols * rows <= 65535 * 65535) by (nonlinear_arith)
        requires
            cols <= 65535,
            rows <= 65535,
    ;
}

/// A row of a grid starts and ends inside the grid.
pub proof fn lemma_row_in_grid(cols: u16, rows: u16, row: int)
    requires
        0 <= row < rows,
    ensures
        0 <= row * cols,
        row * cols + cols <= cols * rows,
        (row + 1) * cols == row * cols + cols,
        cols * rows <= usize::MAX,
{
    lemma_grid_fits(cols, rows);
    assert(row * cols + cols <= cols * rows) by (nonlinear_arith)
        requires
            0 <= row < rows,
            0 <= cols,
    ;
    assert(0 <= row * cols) by (nonlinear_arith)
        requires
            0 <= row,
            0 <= cols,
    ;
    assert((row + 1) * cols == row * cols + cols) by (nonlinear_arith);
}

/// A 2D grid of character cells with VGA byte layout.
///
/// Cells are stored row-major: index = row * cols + col.
#[derive(Debug, Clone)]
pub struct CellBuffer {
    pub cells: Vec<Cell>,
    pub cols: u16,
    pub rows: u16,
}

impl CellBuffer {
    /// The cell vector holds exactly one cell per grid position.
    pub open spec fn wf(&self) -> bool {
        self.cells@.len() == self.cols * self.rows
    }

    /// The cell at `(col, row)`.
    pub open spec fn at(&self, col: int, row: int) -> Cell {
        self.cells@[grid_index(self.cols, col, row)]
    }

    /// Create a new buffer filled with `Cell::blank()`.
    pub fn new(cols: u16, rows: u16) -> (b: Self)
        ensures
            b.wf(),
            b.cols == cols,
            b.rows == rows,
            forall|i: int| 0 <= i < b.cells@.len() ==> b.cells@[i] == Cell::blank(),
    {
        proof {
            lemma_grid_fits(cols, rows);
        }
        let n = cols as usize * rows as usize;
        let mut cells: Vec<Cell> = Vec::new();
        let mut i: usize = 0;
        while i < n
            invariant
                i <= n,
                cells@.len() == i,
                forall|j: int| 0 <= j < i ==> cells@[j] == Cell::blank(),
            decreases n - i,
        {
            cells.push(Cell::blank());
            i = i + 1;
        }
        Self { cells, cols, rows }
    }

    /// Get a cell at (col, row).
    pub fn get(&self, col: u16, row: u16) -> (c: Cell)
        requires
            self.wf(),
            col < self.cols,
            row < self.rows,
        ensures
            c == self.at(col as int, row as int),
    {
        proof {
            lemma_grid_index_bounds(self.cols, self.rows, col as int, row as int);
            lemma_row_in_grid(self.cols, self.rows, row as int);
        }
        self.cells[row as usize * self.cols as usize + col as usize]
    }

    /// Set a cell at (col, row).
    pub fn set(&mut self, col: u16, row: u16, cell: Cell)
        requires
            old(self).wf(),
            col < old(self).cols,
            row < old(self).rows,
        ensures
            final(self).cols == old(self).cols,
            final(self).rows == old(self).rows,
            final(self).cells@ == old(self).cells@.update(
                grid_index(old(self).cols, col as int, row as int),
                cell,
            ),
            final(self).wf(),
            forall|x: int, y: int|
                #![trigger final(self).at(x, y)]
                0 <= x < old(self).cols && 0 <= y < old(self).rows ==> final(self).at(x, y) == if x
                    == col && y == row {
                    cell
                } else {
                    old(self).at(x, y)
                },
    {
        proof {
            lemma_grid_index_bounds(self.cols, self.rows, col as int, row as int);
            lemma_row_in_grid(self.cols, self.rows, row as int);
        }
        let i = row as usize * self.cols as usize + col as usize;
        self.cells.set(i, cell);
        proof {
            assert forall|x: int, y: int|
                0 <= x < old(self).cols && 0 <= y < old(self).rows implies #[trigger] self.at(x, y)
                    == if x == col && y == row {
                    cell
                } else {
                    old(self).at(x, y)
                } by {
                lemma_grid_index_bounds(self.cols, self.rows, x, y);
                if grid_index(self.cols, x, y) == i {
                    lemma_grid_index_injective(self.cols, x, y, col as int, row as int);
                }
            }
        }
    }

    /// Fill the entire buffer with a single cell value.
    pub fn fill(&mut self, cell: Cell)
        ensures
            final(self).cols == old(self).cols,
            final(self).rows == old(self).rows,
            final(self).cells@.len() == old(self).cells@.len(),
            forall|i: int| 0 <= i < final(self).cells@.len() ==> final(self).cells@[i] == cell,
    {
        let n = self.cells.len();
        let mut i: usize = 0;
        while i < n
            invariant
                i <= n,
                n == self.cells@.len(),
                self.cols == old(self).cols,
                self.rows == old(self).rows,
                forall|j: int| 0 <= j < i ==> self.cells@[j] == cell,
            decreases n - i,
        {
            self.cells.set(i, cell);
            i = i + 1;
        }
    }

    /// Fill a single row with a cell value. No-op if `row >= self.rows`.
    pub fn fill_row(&mut self, row: u16, cell: Cell)
        requires
            old(self).wf(),
        ensures
            final(self).cols == old(self).cols,
            final(self).rows == old(self).rows,
            final(self).cells@.len() == old(self).cells@.len(),
            forall|i: int|
                #![trigger final(self).cells@[i]]
                0 <= i < final(self).cells@.len() ==> final(self).cells@[i] == if row
                    < old(self).rows && row * old(self).cols <= i < (row + 1) * old(self).cols {
                    cell
                } else {
                    old(self).cells@[i]
                },
    {
        if row >= self.rows {
            return;
        }
        proof {
            lemma_row_in_grid(self.cols, self.rows, row as int);
        }
        let start = row as usize * self.cols as usize;
        let end = start + self.cols as usize;
        let mut i = start;
        while i < end
            invariant
                start <= i <= end,
                end <= self.cells@.len(),
                start == row * old(self).cols,
                end == (row + 1) * old(self).cols,
                self.cols == old(self).cols,
                self.rows == old(self).rows,
                self.cells@.len() == old(self).cells@.len(),
                forall|j: int|
                    #![trigger self.cells@[j]]
                    0 <= j < self.cells@.len() ==> self.cells@[j] == if start <= j < i {
                        cell
                    } else {
                        old(self).cells@[j]
                    },
            decreases end - i,
        {
            self.cells.set(i, cell);
            i = i + 1;
        }
    }

    /// The raw bytes, two per cell: char byte, attr byte, row by row.
    ///
    /// The layout matches VGA text-mode memory exactly.
    pub fn as_bytes(&self) -> (bytes: Vec<u8>)
        ensures
            bytes@.len() == 2 * self.cells@.len(),
            forall|i: int|
                #![trigger self.cells@[i]]
                0 <= i < self.cells@.len() ==> bytes@[2 * i] == self.cells@[i].ch && bytes@[2 * i
                    + 1] == self.cells@[i].attr,
    {
        let mut bytes: Vec<u8> = Vec::new();
        let n = self.cells.len();
        let mut i: usize = 0;
        while i < n
            invariant
                i <= n,
                n == self.cells@.len(),
                bytes@.len() == 2 * i,
                forall|j: int|
                    #![trigger self.cells@[j]]
                    0 <= j < i ==> bytes@[2 * j] == self.cells@[j].ch && bytes@[2 * j + 1]
                        == self.cells@[j].attr,
            decreases n - i,
        {
            let c = self.cells[i];
            bytes.push(c.ch);
            bytes.push(c.attr);
            i = i + 1;
        }
        bytes
    }

    /// Shift all rows up by `n`. Exposed rows at the bottom are filled with
    /// BLANK; if `n >= rows`, the whole buffer is cleared.
    pub fn shift_up(&mut self, n: usize)
        requires
            old(self).wf(),
        ensures
            final(self).cols == old(self).cols,
            final(self).rows == old(self).rows,
            final(self).cells@.len() == old(self).cells@.len(),
            forall|i: int|
                #![trigger final(self).cells@[i]]
                0 <= i < final(self).cells@.len() ==> final(self).cells@[i] == if i + n
                    * old(self).cols < old(self).cells@.len() {
                    old(self).cells@[i + n * old(self).cols]
                } else {
                    Cell::blank()
                },
    {
        if n == 0 {
            assert(n * self.cols == 0);
            return;
        }
        if n >= self.rows as usize {
            proof {
                assert(n * self.cols >= self.cols * self.rows) by (nonlinear_arith)
                    requires
                        n >= self.rows,
                ;
            }
            self.fill(Cell::blank());
            return;
        }
        proof {
            assert(n * self.cols <= self.cols * self.rows) by (nonlinear_arith)
                requires
                    n < self.rows,
            ;
            lemma_grid_fits(self.cols, self.rows);
        }
        let shift = n * self.cols as usize;
        let len = self.cells.len();
        let mut i: usize = 0;
        while i < len
            invariant
                i <= len,
                len == self.cells@.len(),
                len == old(self).cells@.len(),
                shift == n * old(self).cols,
                shift <= len,
                self.cols == old(self).cols,
                self.rows == old(self).rows,
                forall|j: int|
                    #![trigger self.cells@[j]]
                    0 <= j < len ==> self.cells@[j] == if j < i {
                        if j + shift < len {
                            old(self).cells@[j + shift]
                        } else {
                            Cell::blank()
                        }
                    } else {
                        old(self).cells@[j]
                    },
            decreases len - i,
        {
            if i < len - shift {
                let c = self.cells[i + shift];
                self.cells.set(i, c);
            } else {
                self.cells.set(i, Cell::blank());
            }
            i = i + 1;
        }
    }

    /// Shift all rows down by `n`. Exposed rows at the top are filled with
    /// BLANK; if `n >= rows`, the whole buffer is cleared.
    pub fn shift_down(&mut self, n: usize)
        requires
            old(self).wf(),
        ensures
            final(self).cols == old(self).cols,
            final(self).rows == old(self).rows,
            final(self).cells@.len() == old(self).cells@.len(),
            forall|i: int|
                #![trigger final(self).cells@[i]]
                0 <= i < final(self).cells@.len() ==> final(self).cells@[i] == if i >= n
                    * old(self).cols {
                    old(self).cells@[i - n * old(self).cols]
                } else {
                    Cell::blank()
                },
    {
        if n == 0 {
            assert(n * self.cols == 0);
            return;
        }
        if n >= self.rows as usize {
            proof {
                assert(n * self.cols >= self.cols * self.rows) by (nonlinear_arith)
                    requires
                        n >= self.rows,
                ;
            }
            self.fill(Cell::blank());
            return;
        }
        proof {
            assert(n * self.cols <= self.cols * self.rows) by (nonlinear_arith)
                requires
                    n < self.rows,
            ;
            lemma_grid_fits(self.cols, self.rows);
        }
        let shift = n * self.cols as usize;
        let len = self.cells.len();
        let mut i: usize = len;
        while i > 0
            invariant
                i <= len,
                len == self.cells@.len(),
                len == old(self).cells@.len(),
                shift == n * old(self).cols,
                shift <= len,
                self.cols == old(self).cols,
                self.rows == old(self).rows,
                forall|j: int|
                    #![trigger self.cells@[j]]
                    0 <= j < len ==> self.cells@[j] == if j >= i {
                        if j >= shift {
                            old(self).cells@[j - shift]
                        } else {
                            Cell::blank()
                        }
                    } else {
                        old(self).cells@[j]
                    },
            decreases i,
        {
            i = i - 1;
            if i >= shift {
                let c = self.cells[i - shift];
                self.cells.set(i, c);
            } else {
                self.cells.set(i, Cell::blank());
            }
        }
    }

    /// Write cells into a row: up to `min(cells.len(), self.cols)` of them.
    /// No-op if `row >= self.rows`.
    pub fn write_row(&mut self, row: u16, cells: &[Cell])
        requires
            old(self).wf(),
        ensures
            final(self).cols == old(self).cols,
            final(self).rows == old(self).rows,
            final(self).cells@.len() == old(self).cells@.len(),
            forall|i: int|
                #![trigger final(self).cells@[i]]
                0 <= i < final(self).cells@.len() ==> final(self).cells@[i] == if row
                    < old(self).rows && row * old(self).cols <= i < row * old(self).cols
                    + cells@.len() && i < (row + 1) * old(self).cols {
                    cells@[i - row * old(self).cols]
                } else {
                    old(self).cells@[i]
                },
    {
        if row >= self.rows {
            return;
        }
        proof {
            lemma_row_in_grid(self.cols, self.rows, row as int);
        }
        let start = row as usize * self.cols as usize;
        let count = if cells.len() < self.cols as usize {
            cells.len()
        } else {
            self.cols as usize
        };
        let mut k: usize = 0;
        while k < count
            invariant
                k <= count,
                count <= cells@.len(),
                count <= old(self).cols,
                start == row * old(self).cols,
                start + old(self).cols <= self.cells@.len(),
                self.cells@.len() <= usize::MAX,
                (row + 1) * old(self).cols == start + old(self).cols,
                self.cols == old(self).cols,
                self.rows == old(self).rows,
                self.cells@.len() == old(self).cells@.len(),
                forall|j: int|
                    #![trigger self.cells@[j]]
                    0 <= j < self.cells@.len() ==> self.cells@[j] == if start <= j < start + k {
                        cells@[j - start]
                    } else {
                        old(self).cells@[j]
                    },
            decreases count - k,
        {
            self.cells.set(start + k, cells[k]);
            k = k + 1;
        }
    }

    /// Resize the buffer, clearing content to BLANK.
    pub fn resize(&mut self, cols: u16, rows: u16)
        ensures
            final(self).wf(),
            final(self).cols == cols,
            final(self).rows == rows,
            forall|i: int|
                0 <= i < final(self).cells@.len() ==> final(self).cells@[i] == Cell::blank(),
    {
        *self = CellBuffer::new(cols, rows);
    }
}

} // verus!
