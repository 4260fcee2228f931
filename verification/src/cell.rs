//! The cell data model: style modifiers, a single grid cell, and the
//! grid snapshot that the render engine keeps.

use vstd::prelude::*;

use crate::color::Color;
use crate::pixmap::lemma_row_major_index_bound;

verus! {

/// The set of style flags a cell can carry, one field per flag.
#[derive(Clone, Copy, Debug, PartialEq, Eq, Structural)]
pub struct Modifier {
    pub bold: bool,
    pub dim: bool,
    pub italic: bool,
    pub underlined: bool,
    pub slow_blink: bool,
    pub rapid_blink: bool,
    pub reversed: bool,
    pub hidden: bool,
    pub crossed_out: bool,
}

impl Modifier {
    /// The modifier set with every flag cleared.
    pub open spec fn spec_empty() -> Modifier {
        Modifier {
            bold: false,
            dim: false,
            italic: false,
            underlined: false,
            slow_blink: false,
            rapid_blink: false,
            reversed: false,
            hidden: false,
            crossed_out: false,
        }
    }

    /// Returns the modifier set with every flag cleared.
    pub fn empty() -> (r: Modifier)
        ensures
            r == Modifier::spec_empty(),
    {
        Modifier {
            bold: false,
            dim: false,
            italic: false,
            underlined: false,
            slow_blink: false,
            rapid_blink: false,
            reversed: false,
            hidden: false,
            crossed_out: false,
        }
    }
}

/// The mathematical value of a cell: its text as a sequence of
/// characters, its two colors, and its modifier flags.
pub ghost struct CellView {
    pub symbol: Seq<char>,
    pub fg: Color,
    pub bg: Color,
    pub modifier: Modifier,
}

/// One character position of the grid: a short text fragment plus
/// foreground color, background color and style modifiers.
#[derive(Debug, PartialEq)]
pub struct Cell {
    pub symbol: Vec<char>,
    pub fg: Color,
    pub bg: Color,
    pub modifier: Modifier,
}

impl View for Cell {
    type V = CellView;

    open spec fn view(&self) -> CellView {
        CellView { symbol: self.symbol@, fg: self.fg, bg: self.bg, modifier: self.modifier }
    }
}

impl Clone for Cell {
    fn clone(&self) -> (r: Self)
        ensures
            r@ == self@,
    {
        Cell { symbol: self.symbol.clone(), fg: self.fg, bg: self.bg, modifier: self.modifier }
    }
}

impl Cell {
    /// The value of the default cell: a single space with both colors
    /// reset and no modifiers.
    pub open spec fn spec_empty() -> CellView {
        CellView {
            symbol: seq![' '],
            fg: Color::Reset,
            bg: Color::Reset,
            modifier: Modifier::spec_empty(),
        }
    }

    /// Returns the default cell: a single space with both colors reset
    /// and no modifiers.
    pub fn empty() -> (r: Cell)
        ensures
            r@ == Cell::spec_empty(),
    {
        let mut symbol: Vec<char> = Vec::new();
        symbol.push(' ');
        proof {
            assert(symbol@ =~= seq![' ']);
        }
        Cell { symbol, fg: Color::Reset, bg: Color::Reset, modifier: Modifier::empty() }
    }

    /// Builds a cell from its parts.
    pub fn new(symbol: Vec<char>, fg: Color, bg: Color, modifier: Modifier) -> (r: Cell)
        ensures
            r@ == (CellView { symbol: symbol@, fg, bg, modifier }),
    {
        Cell { symbol, fg, bg, modifier }
    }
}

/// The grid snapshot: the last-known cell contents of the whole
/// terminal, `width` columns by `height` rows in row-major order.
#[derive(Debug)]
pub struct Grid {
    pub width: u16,
    pub height: u16,
    pub cells: Vec<Cell>,
}

impl Grid {
    /// The cell vector holds exactly one cell per grid position.
    pub open spec fn wf(self) -> bool {
        self.cells.len() == self.width * self.height
    }

    /// The value of the cell at (col, row).
    pub open spec fn cell_at(self, col: int, row: int) -> CellView {
        self.cells[row * self.width + col]@
    }

    /// Creates a grid of the given dimensions filled with default cells.
    pub fn empty(width: u16, height: u16) -> (r: Grid)
        ensures
            r.wf(),
            r.width == width,
            r.height == height,
            forall|c: int, row: int|
                0 <= c < width && 0 <= row < height ==> r.cell_at(c, row) == Cell::spec_empty(),
    {
        proof {
            assert(width * height <= 0xffff * 0xffff) by (nonlinear_arith)
                requires
                    width <= 0xffff && height <= 0xffff,
            ;
        }
        let n: usize = width as usize * height as usize;
        let mut cells: Vec<Cell> = Vec::new();
        let mut i: usize = 0;
        while i < n
            invariant
                0 <= i <= n,
                cells.len() == i,
                forall|q: int| 0 <= q < i ==> #[trigger] cells[q]@ == Cell::spec_empty(),
            decreases n - i,
        {
            cells.push(Cell::empty());
            i = i + 1;
        }
        let r = Grid { width, height, cells };
        proof {
            assert forall|c: int, row: int| 0 <= c < width && 0 <= row < height implies r.cell_at(
                c,
                row,
            ) == Cell::spec_empty() by {
                lemma_row_major_index_bound(c, row, width as int, height as int);
            }
        }
        r
    }

    /// Reads the cell at (col, row).
    pub fn get(&self, col: u16, row: u16) -> (r: &Cell)
        requires
            self.wf(),
            col < self.width,
            row < self.height,
        ensures
            r@ == self.cell_at(col as int, row as int),
    {
        proof {
            lemma_row_major_index_bound(
                col as int,
                row as int,
                self.width as int,
                self.height as int,
            );
        }
        &self.cells[row as usize * self.width as usize + col as usize]
    }

    /// Replaces the cell at (col, row), leaving every other cell as it
    /// was.
    pub fn set_cell(&mut self, col: u16, row: u16, cell: Cell)
        requires
            old(self).wf(),
            col < old(self).width,
            row < old(self).height,
        ensures
            final(self).wf(),
            final(self).width == old(self).width,
            final(self).height == old(self).height,
            final(self).cell_at(col as int, row as int) == cell@,
            forall|c: int, r: int|
                0 <= c < final(self).width && 0 <= r < final(self).height && !(c == col && r == row)
                    ==> final(self).cell_at(c, r) == old(self).cell_at(c, r),
    {
        proof {
            lemma_row_major_index_bound(
                col as int,
                row as int,
                self.width as int,
                self.height as int,
            );
        }
        let idx: usize = row as usize * self.width as usize + col as usize;
        self.cells.set(idx, cell);
        proof {
            assert forall|c: int, r: int|
                0 <= c < self.width && 0 <= r < self.height && !(c == col && r == row) implies self
                .cell_at(c, r) == old(self).cell_at(c, r) by {
                lemma_row_major_index_bound(c, r, self.width as int, self.height as int);
                crate::pixmap::lemma_row_major_index_injective(
                    c,
                    r,
                    col as int,
                    row as int,
                    self.width as int,
                );
            }
        }
    }

    /// Resets every cell to the default cell.
    pub fn reset(&mut self)
        requires
            old(self).wf(),
        ensures
            final(self).wf(),
            final(self).width == old(self).width,
            final(self).height == old(self).height,
            forall|c: int, row: int|
                0 <= c < final(self).width && 0 <= row < final(self).height
                    ==> final(self).cell_at(c, row) == Cell::spec_empty(),
    {
        *self = Grid::empty(self.width, self.height);
    }
}

} // verus!
