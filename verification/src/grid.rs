//! The grid: cell states, the toroidal neighbour count, and the
//! generation-transition rule.

use vstd::prelude::*;
use vstd::pervasive::VecAdditionalExecFns;

verus! {

/// The state of one cell: `Dead` or `Alive`.
#[derive(Copy, Clone, Debug, Eq, PartialEq, Structural)]
pub enum Cell {
    Dead,
    Alive,
}

impl Cell {
    /// The numeric weight of a cell when neighbours are summed:
    /// `Alive` contributes 1, `Dead` contributes 0.
    pub open spec fn weight(self) -> int {
        match self {
            Cell::Dead => 0,
            Cell::Alive => 1,
        }
    }

    /// The explicit numeric encoding of a cell state (`Dead` is 0,
    /// `Alive` is 1).
    pub fn as_u8(self) -> (v: u8)
        ensures
            v as int == self.weight(),
    {
        match self {
            Cell::Dead => 0,
            Cell::Alive => 1,
        }
    }
}

/// Why a seeding request was rejected.
#[derive(Copy, Clone, Debug, Eq, PartialEq, Structural)]
pub enum SeedError {
    /// Some position in the request had `row >= height` or
    /// `column >= width`.
    CoordinateOutOfBounds,
}

/// The mathematical model of a grid: its two dimensions and the cell
/// states as a row-major sequence.
pub struct GridModel {
    pub width: int,
    pub height: int,
    pub cells: Seq<Cell>,
}

impl GridModel {
    /// A well-formed grid has positive dimensions, exactly
    /// `width * height` cells, and is small enough that every row-major
    /// index fits in a `u32`.
    pub open spec fn wf(self) -> bool {
        &&& 1 <= self.width
        &&& 1 <= self.height
        &&& self.width * self.height <= u32::MAX as int
        &&& self.cells.len() as int == self.width * self.height
    }

    /// Row-major addressing: the flat index of `(row, col)`.
    pub open spec fn idx_of(self, row: int, col: int) -> int {
        row * self.width + col
    }

    /// The position addressed by flat index `k` (the inverse of
    /// `idx_of` on in-range positions).
    pub open spec fn pos_of(self, k: int) -> (u32, u32) {
        ((k / self.width) as u32, (k % self.width) as u32)
    }

    /// Whether `(row, col)` lies on the grid.
    pub open spec fn valid_pos(self, row: int, col: int) -> bool {
        &&& 0 <= row < self.height
        &&& 0 <= col < self.width
    }

    /// The state of the cell at `(row, col)`.
    pub open spec fn cell_at(self, row: int, col: int) -> Cell {
        self.cells[self.idx_of(row, col)]
    }

    /// The numeric weight of the cell at `(row, col)`.
    pub open spec fn weight_at(self, row: int, col: int) -> int {
        self.cell_at(row, col).weight()
    }

    /// The row above `row` on the torus: offset -1 wraps to
    /// `height - 1`.
    pub open spec fn row_above(self, row: int) -> int {
        if row == 0 {
            self.height - 1
        } else {
            row - 1
        }
    }

    /// The row below `row` on the torus: offset +1 wraps to 0.
    pub open spec fn row_below(self, row: int) -> int {
        if row == self.height - 1 {
            0
        } else {
            row + 1
        }
    }

    /// The column left of `col` on the torus.
    pub open spec fn col_left(self, col: int) -> int {
        if col == 0 {
            self.width - 1
        } else {
            col - 1
        }
    }

    /// The column right of `col` on the torus.
    pub open spec fn col_right(self, col: int) -> int {
        if col == self.width - 1 {
            0
        } else {
            col + 1
        }
    }

    /// The number of live cells among the eight toroidal neighbours of
    /// `(row, col)`. On grids narrower than three cells in a dimension
    /// the eight offsets can address the same cell more than once; it
    /// is then counted once per offset, as the offsets are enumerated.
    pub open spec fn live_neighbours(self, row: int, col: int) -> int {
        let ra = self.row_above(row);
        let rb = self.row_below(row);
        let cl = self.col_left(col);
        let cr = self.col_right(col);
        self.weight_at(ra, cl) + self.weight_at(ra, col) + self.weight_at(ra, cr)
            + self.weight_at(row, cl) + self.weight_at(row, cr) + self.weight_at(rb, cl)
            + self.weight_at(rb, col) + self.weight_at(rb, cr)
    }

    /// The positions of the live cells among the first `n` cells, in
    /// ascending flat-index order (which is row-major order).
    pub open spec fn live_prefix(self, n: int) -> Seq<(u32, u32)>
        decreases n,
    {
        if n <= 0 {
            Seq::empty()
        } else if self.cells[n - 1] == Cell::Alive {
            self.live_prefix(n - 1).push(self.pos_of(n - 1))
        } else {
            self.live_prefix(n - 1)
        }
    }

    /// The positions of all live cells, in row-major order.
    pub open spec fn live_positions(self) -> Seq<(u32, u32)> {
        self.live_prefix(self.cells.len() as int)
    }

    /// Every cell of the grid is `Dead`.
    pub open spec fn all_dead(self) -> bool {
        forall|r: int, c: int| self.valid_pos(r, c) ==> self.cell_at(r, c) == Cell::Dead
    }
}

/// The standard Life rule: a live cell survives with two or three live
/// neighbours and otherwise dies; a dead cell is born with exactly
/// three live neighbours and otherwise stays dead.
pub open spec fn next_cell(c: Cell, n: int) -> Cell {
    match c {
        Cell::Alive => if 2 <= n <= 3 {
            Cell::Alive
        } else {
            Cell::Dead
        },
        Cell::Dead => if n == 3 {
            Cell::Alive
        } else {
            Cell::Dead
        },
    }
}

/// The relation between one generation and the next: the dimensions
/// are kept, the result is well-formed, and every cell of the new
/// generation is the Life rule applied to that cell's old state and
/// its old neighbour count — the new generation is a function of the
/// old one alone.
pub open spec fn step(g: GridModel, g2: GridModel) -> bool {
    &&& g2.wf()
    &&& g2.width == g.width
    &&& g2.height == g.height
    &&& forall|r: int, c: int|
        g.valid_pos(r, c) ==> g2.cell_at(r, c) == next_cell(
            g.cell_at(r, c),
            g.live_neighbours(r, c),
        )
}

/// Whether the position list `s` holds the pair `(row, col)`.
pub open spec fn lists_pos(s: Seq<(u32, u32)>, row: int, col: int) -> bool {
    exists|i: int| 0 <= i < s.len() && s[i].0 as int == row && s[i].1 as int == col
}

/// A fixed-size toroidal Game of Life grid.
pub struct Universe {
    width: u32,
    height: u32,
    cells: Vec<Cell>,
}

impl View for Universe {
    type V = GridModel;

    closed spec fn view(&self) -> GridModel {
        GridModel { width: self.width as int, height: self.height as int, cells: self.cells@ }
    }
}

impl Universe {
    /// A new grid of the given dimensions with every cell `Dead`.
    pub fn new(width: u32, height: u32) -> (u: Universe)
        requires
            1 <= width,
            1 <= height,
            width as int * height as int <= u32::MAX as int,
        ensures
            u@.wf(),
            u@.width == width as int,
            u@.height == height as int,
            forall|k: int| 0 <= k < u@.cells.len() ==> u@.cells[k] == Cell::Dead,
            u@.all_dead(),
    {
        let n: usize = (width as usize) * (height as usize);
        let mut cells: Vec<Cell> = Vec::new();
        while cells.len() < n
            invariant
                cells@.len() <= n,
                forall|k: int| 0 <= k < cells@.len() ==> cells@[k] == Cell::Dead,
            decreases n - cells@.len(),
        {
            cells.push(Cell::Dead);
        }
        let u = Universe { width, height, cells };
        proof {
            assert forall|r: int, c: int| u@.valid_pos(r, c) implies u@.cell_at(r, c)
                == Cell::Dead by {
                lemma_idx_bounds(u@, r, c);
            }
        }
        u
    }

    /// The grid's width.
    pub fn width(&self) -> (w: u32)
        ensures
            w as int == self@.width,
    {
        self.width
    }

    /// The grid's height.
    pub fn height(&self) -> (h: u32)
        ensures
            h as int == self@.height,
    {
        self.height
    }

    /// A read-only view of the full cell sequence, row-major.
    pub fn cells(&self) -> (r: &Vec<Cell>)
        ensures
            r@ == self@.cells,
    {
        &self.cells
    }

    /// The flat row-major index of `(row, column)`.
    fn get_index(&self, row: u32, column: u32) -> (i: usize)
        requires
            self@.wf(),
            self@.valid_pos(row as int, column as int),
        ensures
            i as int == self@.idx_of(row as int, column as int),
            i < self@.cells.len(),
    {
        proof {
            lemma_idx_bounds(self@, row as int, column as int);
        }
        (row * self.width + column) as usize
    }

    /// The position addressed by the flat index `index`.
    fn get_position(&self, index: u32) -> (p: (u32, u32))
        requires
            self@.wf(),
            (index as int) < self@.cells.len(),
        ensures
            p == self@.pos_of(index as int),
            self@.valid_pos(p.0 as int, p.1 as int),
            self@.idx_of(p.0 as int, p.1 as int) == index as int,
    {
        let row = index / self.width;
        proof {
            vstd::arithmetic::div_mod::lemma_fundamental_div_mod(index as int, self@.width);
            lemma_row_of_index(self@.width, self@.height, index as int);
            assert(row as int * self@.width <= index as int);
        }
        let column = index - (row * self.width);
        (row, column)
    }

    /// The numeric weight of the cell at `(row, column)`.
    fn cell_weight(&self, row: u32, column: u32) -> (v: u8)
        requires
            self@.wf(),
            self@.valid_pos(row as int, column as int),
        ensures
            v as int == self@.weight_at(row as int, column as int),
            v <= 1,
    {
        let i = self.get_index(row, column);
        self.cells[i].as_u8()
    }

    /// The number of live cells among the eight toroidal neighbours of
    /// `(row, column)`: each of the eight offsets wraps at the edges,
    /// so a border cell counts cells on the opposite border.
    pub fn count_live_neighbours(&self, row: u32, column: u32) -> (n: u8)
        requires
            self@.wf(),
            self@.valid_pos(row as int, column as int),
        ensures
            n as int == self@.live_neighbours(row as int, column as int),
            n <= 8,
    {
        let ra = if row == 0 { self.height - 1 } else { row - 1 };
        let rb = if row == self.height - 1 { 0 } else { row + 1 };
        let cl = if column == 0 { self.width - 1 } else { column - 1 };
        let cr = if column == self.width - 1 { 0 } else { column + 1 };
        let mut count: u8 = 0;
        count = count + self.cell_weight(ra, cl);
        count = count + self.cell_weight(ra, column);
        count = count + self.cell_weight(ra, cr);
        count = count + self.cell_weight(row, cl);
        count = count + self.cell_weight(row, cr);
        count = count + self.cell_weight(rb, cl);
        count = count + self.cell_weight(rb, column);
        count = count + self.cell_weight(rb, cr);
        count
    }

    /// Sets every listed `(row, column)` position to `Alive` and leaves
    /// all other cells untouched. When any position lies outside the
    /// grid the whole request is rejected and no cell changes.
    pub fn set_live_cells(&mut self, cells: &Vec<(u32, u32)>) -> (result: Result<(), SeedError>)
        requires
            old(self)@.wf(),
        ensures
            final(self)@.wf(),
            final(self)@.width == old(self)@.width,
            final(self)@.height == old(self)@.height,
            (result is Ok) <==> (forall|i: int|
                0 <= i < cells@.len() ==> old(self)@.valid_pos(
                    cells@[i].0 as int,
                    cells@[i].1 as int,
                )),
            result is Ok ==> forall|r: int, c: int|
                old(self)@.valid_pos(r, c) ==> final(self)@.cell_at(r, c) == (if lists_pos(
                    cells@,
                    r,
                    c,
                ) {
                    Cell::Alive
                } else {
                    old(self)@.cell_at(r, c)
                }),
            result is Err ==> *final(self) == *old(self) && result == Err::<(), SeedError>(
                SeedError::CoordinateOutOfBounds,
            ),
    {
        let mut i: usize = 0;
        while i < cells.len()
            invariant
                *self == *old(self),
                self@.wf(),
                i <= cells@.len(),
                forall|j: int|
                    0 <= j < i ==> self@.valid_pos(cells@[j].0 as int, cells@[j].1 as int),
            decreases cells@.len() - i,
        {
            let p = cells[i];
            if p.0 >= self.height || p.1 >= self.width {
                return Err(SeedError::CoordinateOutOfBounds);
            }
            i += 1;
        }
        let mut i: usize = 0;
        while i < cells.len()
            invariant
                self@.wf(),
                self@.width == old(self)@.width,
                self@.height == old(self)@.height,
                i <= cells@.len(),
                forall|j: int|
                    0 <= j < cells@.len() ==> self@.valid_pos(
                        cells@[j].0 as int,
                        cells@[j].1 as int,
                    ),
                forall|r: int, c: int|
                    old(self)@.valid_pos(r, c) ==> self@.cell_at(r, c) == (if lists_pos(
                        cells@.take(i as int),
                        r,
                        c,
                    ) {
                        Cell::Alive
                    } else {
                        old(self)@.cell_at(r, c)
                    }),
            decreases cells@.len() - i,
        {
            let p = cells[i];
            let ghost pre = self@;
            let idx = self.get_index(p.0, p.1);
            self.cells.set(idx, Cell::Alive);
            proof {
                let s0 = cells@.take(i as int);
                let s1 = cells@.take(i as int + 1);
                assert(s1 =~= s0.push(cells@[i as int]));
                assert forall|r: int, c: int| old(self)@.valid_pos(r, c) implies self@.cell_at(
                    r,
                    c,
                ) == (if lists_pos(s1, r, c) {
                    Cell::Alive
                } else {
                    old(self)@.cell_at(r, c)
                }) by {
                    lemma_idx_bounds(pre, r, c);
                    if r == p.0 as int && c == p.1 as int {
                        assert(s1[i as int].0 as int == r && s1[i as int].1 as int == c);
                        assert(lists_pos(s1, r, c));
                    } else {
                        if pre.idx_of(r, c) == idx as int {
                            lemma_idx_injective(pre, r, c, p.0 as int, p.1 as int);
                        }
                        if lists_pos(s1, r, c) {
                            let j = choose|j: int|
                                0 <= j < s1.len() && s1[j].0 as int == r && s1[j].1 as int == c;
                            assert(j < i || j == i);
                            assert(s0[j] == s1[j] || j == i as int);
                            assert(lists_pos(s0, r, c));
                        }
                        if lists_pos(s0, r, c) {
                            let j = choose|j: int|
                                0 <= j < s0.len() && s0[j].0 as int == r && s0[j].1 as int == c;
                            assert(s1[j] == s0[j]);
                            assert(lists_pos(s1, r, c));
                        }
                    }
                }
            }
            i += 1;
        }
        proof {
            assert(cells@.take(cells@.len() as int) =~= cells@);
        }
        Ok(())
    }

    /// The positions of all live cells, in row-major order: row
    /// ascending, and column ascending within a row.
    pub fn get_live_cells(&self) -> (live: Vec<(u32, u32)>)
        requires
            self@.wf(),
        ensures
            live@ == self@.live_positions(),
    {
        let mut live_cells: Vec<(u32, u32)> = Vec::new();
        let mut index: usize = 0;
        while index < self.cells.len()
            invariant
                self@.wf(),
                index <= self@.cells.len(),
                live_cells@ == self@.live_prefix(index as int),
            decreases self@.cells.len() - index,
        {
            let cell = self.cells[index];
            if cell == Cell::Alive {
                let position = self.get_position(index as u32);
                live_cells.push(position);
            }
            index += 1;
        }
        live_cells
    }

    /// Sets every cell to `Dead`, preserving the dimensions.
    pub fn reset(&mut self)
        requires
            old(self)@.wf(),
        ensures
            final(self)@.wf(),
            final(self)@.width == old(self)@.width,
            final(self)@.height == old(self)@.height,
            forall|k: int|
                0 <= k < final(self)@.cells.len() ==> final(self)@.cells[k] == Cell::Dead,
            final(self)@.all_dead(),
    {
        let n: usize = self.cells.len();
        let mut cells: Vec<Cell> = Vec::new();
        while cells.len() < n
            invariant
                cells@.len() <= n,
                forall|k: int| 0 <= k < cells@.len() ==> cells@[k] == Cell::Dead,
            decreases n - cells@.len(),
        {
            cells.push(Cell::Dead);
        }
        self.cells = cells;
        proof {
            assert forall|r: int, c: int| self@.valid_pos(r, c) implies self@.cell_at(r, c)
                == Cell::Dead by {
                lemma_idx_bounds(self@, r, c);
            }
        }
    }

    /// Advances the grid by one generation: every cell of the new
    /// generation is the Life rule applied to that cell's previous
    /// state and its previous-generation neighbour count. The new
    /// generation is computed into a fresh buffer, so no cell's update
    /// can influence another cell's neighbour count within the same
    /// step.
    pub fn tick(&mut self)
        requires
            old(self)@.wf(),
        ensures
            step(old(self)@, final(self)@),
    {
        let mut next: Vec<Cell> = Vec::new();
        let mut row: u32 = 0;
        while row < self.height
            invariant
                *self == *old(self),
                self@.wf(),
                row as int <= self@.height,
                next@.len() as int == row as int * self@.width,
                forall|r: int, c: int|
                    self@.valid_pos(r, c) && r < row as int ==> #[trigger] next@[self@.idx_of(
                        r,
                        c,
                    )] == next_cell(self@.cell_at(r, c), self@.live_neighbours(r, c)),
            decreases self@.height - row as int,
        {
            let mut col: u32 = 0;
            while col < self.width
                invariant
                    *self == *old(self),
                    self@.wf(),
                    (row as int) < self@.height,
                    col as int <= self@.width,
                    next@.len() as int == row as int * self@.width + col as int,
                    forall|r: int, c: int|
                        self@.valid_pos(r, c) && (r < row as int || (r == row as int && c
                            < col as int)) ==> #[trigger] next@[self@.idx_of(r, c)] == next_cell(
                            self@.cell_at(r, c),
                            self@.live_neighbours(r, c),
                        ),
                decreases self@.width - col as int,
            {
                let live_neighbours = self.count_live_neighbours(row, col);
                let idx = self.get_index(row, col);
                let cell = self.cells[idx];
                let updated = match cell {
                    Cell::Alive => if live_neighbours == 2 || live_neighbours == 3 {
                        Cell::Alive
                    } else {
                        Cell::Dead
                    },
                    Cell::Dead => if live_neighbours == 3 {
                        Cell::Alive
                    } else {
                        Cell::Dead
                    },
                };
                let ghost len0 = next@.len() as int;
                next.push(updated);
                proof {
                    assert forall|r: int, c: int|
                        self@.valid_pos(r, c) && (r < row as int || (r == row as int && c < col
                            as int + 1)) implies #[trigger] next@[self@.idx_of(r, c)] == next_cell(
                        self@.cell_at(r, c),
                        self@.live_neighbours(r, c),
                    ) by {
                        lemma_idx_bounds(self@, r, c);
                        if r == row as int && c == col as int {
                            assert(self@.idx_of(r, c) == len0);
                        } else {
                            lemma_idx_lex(self@, r, c, row as int, col as int);
                            assert(self@.idx_of(r, c) < len0);
                        }
                    }
                }
                col += 1;
            }
            proof {
                assert((row as int + 1) * self@.width == row as int * self@.width + self@.width)
                    by (nonlinear_arith);
            }
            row += 1;
        }
        proof {
            assert(self@.height * self@.width == self@.width * self@.height) by (nonlinear_arith);
        }
        self.cells = next;
        proof {
            assert forall|r: int, c: int| old(self)@.valid_pos(r, c) implies self@.cell_at(r, c)
                == next_cell(old(self)@.cell_at(r, c), old(self)@.live_neighbours(r, c)) by {
                lemma_idx_bounds(old(self)@, r, c);
            }
        }
    }

    /// Advances the grid by one generation; the same transition as
    /// `tick`.
    pub fn my_tick(&mut self)
        requires
            old(self)@.wf(),
        ensures
            step(old(self)@, final(self)@),
    {
        self.tick()
    }
}

/// A valid position's flat index lies in `[0, width * height)`.
pub proof fn lemma_idx_bounds(g: GridModel, row: int, col: int)
    by (nonlinear_arith)
    requires
        g.valid_pos(row, col),
    ensures
        0 <= g.idx_of(row, col) < g.width * g.height,
{
}

/// Dividing an index below `w * h` by the positive width `w` gives a
/// row below `h`.
pub proof fn lemma_row_of_index(w: int, h: int, k: int)
    by (nonlinear_arith)
    requires
        1 <= w,
        1 <= h,
        0 <= k < w * h,
    ensures
        0 <= k / w < h,
        0 <= k % w < w,
        (k / w) * w + k % w == k,
{
}

/// Row-major addressing is strictly monotonic in row-major order: a
/// position strictly before another (smaller row, or same row and
/// smaller column) has the strictly smaller flat index.
pub proof fn lemma_idx_lex(g: GridModel, r1: int, c1: int, r2: int, c2: int)
    by (nonlinear_arith)
    requires
        g.valid_pos(r1, c1),
        0 <= r2,
        0 <= c2 <= g.width,
        r1 < r2 || (r1 == r2 && c1 < c2),
    ensures
        g.idx_of(r1, c1) < g.idx_of(r2, c2),
{
}

/// Row-major addressing is injective on the grid: two valid positions
/// with the same flat index are the same position.
pub proof fn lemma_idx_injective(g: GridModel, r1: int, c1: int, r2: int, c2: int)
    by (nonlinear_arith)
    requires
        g.valid_pos(r1, c1),
        g.valid_pos(r2, c2),
        g.idx_of(r1, c1) == g.idx_of(r2, c2),
    ensures
        r1 == r2,
        c1 == c2,
{
}

} // verus!
