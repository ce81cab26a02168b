use vstd::prelude::*;
use vstd::string::StringExecFns;

verus! {

/// One cell of a Game of Life board.
#[derive(Debug, Clone, Copy, PartialEq, Eq, Structural)]
pub enum Cell {
    Alive,
    Dead,
}

impl Cell {
    /// The cell's symbol: `0` alive, `X` dead.
    pub fn to_string(&self) -> (r: String)
        ensures
            r@ == cell_symbol(*self),
    {
        match self {
            Cell::Alive => String::from_str("0"),
            Cell::Dead => String::from_str("X"),
        }
    }
}

pub open spec fn cell_symbol(c: Cell) -> Seq<char> {
    match c {
        Cell::Alive => "0"@,
        Cell::Dead => "X"@,
    }
}

/// A Game of Life board stored row by row.
pub struct Matrix {
    flat_matrix: Vec<Cell>,
    width: usize,
    height: usize,
}

/// 1 when `(x, y)` is on the board and alive, else 0.
pub open spec fn alive_at(s: Seq<Cell>, w: int, h: int, x: int, y: int) -> int {
    if 0 <= x < w && 0 <= y < h && s[y * w + x] == Cell::Alive {
        1
    } else {
        0
    }
}

/// How many of the (up to eight) on-board neighbours of `(x, y)` are alive.
pub open spec fn live_neighbors(s: Seq<Cell>, w: int, h: int, x: int, y: int) -> int {
    alive_at(s, w, h, x - 1, y - 1) + alive_at(s, w, h, x, y - 1) + alive_at(s, w, h, x + 1, y - 1)
        + alive_at(s, w, h, x - 1, y) + alive_at(s, w, h, x + 1, y) + alive_at(s, w, h, x - 1, y + 1)
        + alive_at(s, w, h, x, y + 1) + alive_at(s, w, h, x + 1, y + 1)
}

/// Conway's rule: a live cell with two or three live neighbours survives, a
/// dead cell with exactly three is born, every other cell is dead.
pub open spec fn life_rule(c: Cell, n: int) -> Cell {
    if (c == Cell::Alive && (n == 2 || n == 3)) || (c == Cell::Dead && n == 3) {
        Cell::Alive
    } else {
        Cell::Dead
    }
}

/// A cell on a `w` by `h` board has a row-major index within the board.
proof fn lemma_cell_index(x: int, y: int, w: int, h: int)
    requires
        0 <= x < w,
        0 <= y < h,
    ensures
        0 <= y * w + x < w * h,
{
    assert(0 <= y * w + x < w * h) by (nonlinear_arith)
        requires
            0 <= x < w,
            0 <= y < h,
    ;
}

impl Matrix {
    pub closed spec fn cells(&self) -> Seq<Cell> {
        self.flat_matrix@
    }

    pub closed spec fn width_spec(&self) -> int {
        self.width as int
    }

    pub closed spec fn height_spec(&self) -> int {
        self.height as int
    }

    /// The board holds exactly `width * height` cells.
    pub closed spec fn wf(&self) -> bool {
        self.flat_matrix@.len() == self.width * self.height
    }

    /// An all-dead board.
    pub fn new(width: usize, height: usize) -> (r: Matrix)
        requires
            width * height <= usize::MAX,
        ensures
            r.wf(),
            r.width_spec() == width,
            r.height_spec() == height,
            r.cells() == Seq::new((width * height) as nat, |i: int| Cell::Dead),
    {
        let n = width * height;
        let mut flat_matrix: Vec<Cell> = Vec::new();
        let mut i: usize = 0;
        while i < n
            invariant
                i <= n,
                flat_matrix@ == Seq::new(i as nat, |k: int| Cell::Dead),
            decreases n - i,
        {
            flat_matrix.push(Cell::Dead);
            i = i + 1;
        }
        Matrix { flat_matrix, width, height }
    }

    /// Sets the cell at column `x`, row `y`.
    pub fn set_cell(&mut self, x: usize, y: usize, cell: Cell)
        requires
            old(self).wf(),
            x < old(self).width_spec(),
            y < old(self).height_spec(),
        ensures
            final(self).wf(),
            final(self).width_spec() == old(self).width_spec(),
            final(self).height_spec() == old(self).height_spec(),
            final(self).cells() == old(self).cells().update(y * old(self).width_spec() + x, cell),
    {
        proof {
            lemma_cell_index(x as int, y as int, self.width as int, self.height as int);
        }
        let idx = self.transform_2d_coordinate_into_flat_idx(x, y);
        self.flat_matrix.set(idx, cell);
    }

    /// The cell at column `x`, row `y`.
    pub fn get_cell(&mut self, x: usize, y: usize) -> (r: Cell)
        requires
            old(self).wf(),
            x < old(self).width_spec(),
            y < old(self).height_spec(),
        ensures
            *final(self) == *old(self),
            r == old(self).cells()[y * old(self).width_spec() + x],
    {
        proof {
            lemma_cell_index(x as int, y as int, self.width as int, self.height as int);
        }
        let idx = self.transform_2d_coordinate_into_flat_idx(x, y);
        self.flat_matrix[idx]
    }

    fn transform_2d_coordinate_into_flat_idx(&self, x: usize, y: usize) -> (r: usize)
        requires
            y * self.width + x < self.flat_matrix@.len(),
        ensures
            r == y * self.width + x,
    {
        let len = self.flat_matrix.len();
        assert(y * self.width + x <= usize::MAX);
        y * self.width + x
    }

    fn alive_count_at(&self, x: usize, y: usize) -> (r: u8)
        requires
            self.wf(),
            x < self.width,
            y < self.height,
        ensures
            r == alive_at(self.cells(), self.width as int, self.height as int, x as int, y as int),
    {
        let w = self.width;
        let len = self.flat_matrix.len();
        assert(y * w + x < self.width * self.height) by (nonlinear_arith)
            requires
                x < w,
                y < self.height,
                w == self.width,
        ;
        match self.flat_matrix[y * w + x] {
            Cell::Alive => 1,
            Cell::Dead => 0,
        }
    }

    /// The next generation under Conway's rule; cells beyond the edge count
    /// as dead.
    pub fn calculate_next_generation(&self) -> (r: Matrix)
        requires
            self.wf(),
        ensures
            r.wf(),
            r.width_spec() == self.width_spec(),
            r.height_spec() == self.height_spec(),
            forall|x: int, y: int|
                0 <= x < self.width_spec() && 0 <= y < self.height_spec() ==> #[trigger] r.cells()[y
                    * self.width_spec() + x] == life_rule(
                    self.cells()[y * self.width_spec() + x],
                    live_neighbors(self.cells(), self.width_spec(), self.height_spec(), x, y),
                ),
    {
        let w = self.width;
        let h = self.height;
        let len = self.flat_matrix.len();
        assert(w * h <= usize::MAX);
        let mut next_generation = Matrix::new(w, h);
        let ghost s = self.cells();
        let mut cell_idx: usize = 0;
        while cell_idx < self.flat_matrix.len()
            invariant
                self.wf(),
                w == self.width,
                h == self.height,
                s == self.cells(),
                0 <= cell_idx <= s.len(),
                next_generation.wf(),
                next_generation.width == w,
                next_generation.height == h,
                forall|i: int|
                    0 <= i < cell_idx ==> #[trigger] next_generation.cells()[i] == life_rule(
                        s[i],
                        live_neighbors(s, w as int, h as int, i % (w as int), i / (w as int)),
                    ),
            decreases s.len() - cell_idx,
        {
            let x = cell_idx % w;
            let y = cell_idx / w;
            assert(y * w + x == cell_idx && y < h) by (nonlinear_arith)
                requires
                    x == cell_idx % w,
                    y == cell_idx / w,
                    cell_idx < w * h,
                    w > 0,
            {
                vstd::arithmetic::div_mod::lemma_fundamental_div_mod(cell_idx as int, w as int);
                if y >= h {
                    assert(y * w >= h * w) by (nonlinear_arith)
                        requires
                            y >= h,
                            w > 0,
                    ;
                }
            }
            let mut n: u8 = 0;
            if y > 0 {
                if x > 0 {
                    n = n + self.alive_count_at(x - 1, y - 1);
                }
                n = n + self.alive_count_at(x, y - 1);
                if x + 1 < w {
                    n = n + self.alive_count_at(x + 1, y - 1);
                }
            }
            if x > 0 {
                n = n + self.alive_count_at(x - 1, y);
            }
            if x + 1 < w {
                n = n + self.alive_count_at(x + 1, y);
            }
            if y + 1 < h {
                if x > 0 {
                    n = n + self.alive_count_at(x - 1, y + 1);
                }
                n = n + self.alive_count_at(x, y + 1);
                if x + 1 < w {
                    n = n + self.alive_count_at(x + 1, y + 1);
                }
            }
            assert(n == live_neighbors(s, w as int, h as int, x as int, y as int));
            let cell = self.flat_matrix[cell_idx];
            let next_cell = match (cell, n) {
                (Cell::Alive, 2) => Cell::Alive,
                (Cell::Alive, 3) => Cell::Alive,
                (Cell::Dead, 3) => Cell::Alive,
                (_, _) => Cell::Dead,
            };
            next_generation.set_cell(x, y, next_cell);
            cell_idx = cell_idx + 1;
        }
        assert forall|x: int, y: int|
            0 <= x < w && 0 <= y < h implies #[trigger] next_generation.cells()[y * w + x]
            == life_rule(s[y * w + x], live_neighbors(s, w as int, h as int, x, y)) by {
            let i = y * w + x;
            assert(0 <= i < w * h && i % (w as int) == x && i / (w as int) == y) by (nonlinear_arith)
                requires
                    i == y * w + x,
                    0 <= x < w,
                    0 <= y < h,
            {
                vstd::arithmetic::div_mod::lemma_fundamental_div_mod_converse(i, w as int, y, x);
                assert(y * w + x < (h - 1) * w + w) by (nonlinear_arith)
                    requires
                        0 <= x < w,
                        0 <= y < h,
                ;
            }
        }
        next_generation
    }
}

/// The board as text: each row on a new line, each cell's symbol followed by
/// a space, and a final newline.
pub open spec fn board_text(cells: Seq<Cell>, w: int, n: int) -> Seq<char>
    decreases n,
{
    if n <= 0 {
        Seq::empty()
    } else {
        let before = board_text(cells, w, n - 1);
        let lead = if (n - 1) % w == 0 { "\n"@ } else { Seq::empty() };
        before + lead + cell_symbol(cells[n - 1]) + " "@
    }
}

impl Matrix {
    /// The board as text (see `board_text`).
    pub fn to_string(&self) -> (r: String)
        requires
            self.wf(),
        ensures
            r@ == board_text(self.cells(), self.width_spec(), self.cells().len() as int) + "\n"@,
    {
        let mut out = String::from_str("");
        proof {
            reveal_strlit("");
        }
        let mut i: usize = 0;
        while i < self.flat_matrix.len()
            invariant
                self.wf(),
                0 <= i <= self.flat_matrix@.len(),
                out@ == board_text(self.flat_matrix@, self.width as int, i as int),
            decreases self.flat_matrix@.len() - i,
        {
            let ghost before = out@;
            if self.width > 0 && i % self.width == 0 {
                out.append("\n");
            }
            proof {
                if self.width == 0 {
                    assert(self.flat_matrix@.len() == 0) by (nonlinear_arith)
                        requires
                            self.flat_matrix@.len() == self.width * self.height,
                            self.width == 0,
                    ;
                }
            }
            let symbol = self.flat_matrix[i].to_string();
            out.append(symbol.as_str());
            out.append(" ");
            assert(out@ == board_text(self.flat_matrix@, self.width as int, i + 1));
            i = i + 1;
        }
        out.append("\n");
        out
    }
}

} // verus!
