use vstd::prelude::*;

verus! {

/// The side of the square grid.
pub const GRID_SIDE: usize = 32;

/// The number of cells of the grid.
pub const GRID_CELLS: usize = 1024;

/// The value of the cell at `row`, `col` under a named pattern: a
/// checkerboard, a cross through the middle, or the border.
pub open spec fn pattern_cell(pattern: Seq<char>, row: int, col: int) -> u8 {
    let last = GRID_SIDE as int - 1;
    let mid = GRID_SIDE as int / 2;
    if pattern == "checkerboard"@ {
        if (row + col) % 2 == 0 { 1 } else { 0 }
    } else if pattern == "cross"@ {
        if row == mid || col == mid { 1 } else { 0 }
    } else {
        if row == 0 || row == last || col == 0 || col == last { 1 } else { 0 }
    }
}

pub open spec fn is_pattern(pattern: Seq<char>) -> bool {
    pattern == "checkerboard"@ || pattern == "cross"@ || pattern == "border"@
}

/// The number of cells of `s` that are set to 1.
pub open spec fn count_active(s: Seq<u8>) -> nat
    decreases s.len(),
{
    if s.len() == 0 {
        0
    } else {
        count_active(s.drop_last()) + if s.last() == 1 { 1nat } else { 0nat }
    }
}

/// A square grid of cells, each 0 or any other byte, stored row by row.
pub struct Grid {
    width: usize,
    height: usize,
    cells: Vec<u8>,
}

impl Grid {
    pub closed spec fn wf(&self) -> bool {
        &&& self.width == GRID_SIDE
        &&& self.height == GRID_SIDE
        &&& self.cells@.len() == GRID_CELLS
    }

    /// The cells, row by row.
    pub closed spec fn cells(&self) -> Seq<u8> {
        self.cells@
    }

    /// A grid holds one cell per position.
    pub proof fn lemma_cells_len(&self)
        requires
            self.wf(),
        ensures
            self.cells().len() == GRID_CELLS,
    {
    }

    /// A grid with every cell 0.
    pub fn new() -> (r: Grid)
        ensures
            r.wf(),
            r.cells() == Seq::new(GRID_CELLS as nat, |i: int| 0u8),
    {
        let cells = vec![0u8; GRID_CELLS];
        assert(cells@ =~= Seq::new(GRID_CELLS as nat, |i: int| 0u8));
        Grid { width: GRID_SIDE, height: GRID_SIDE, cells }
    }

    pub fn width(&self) -> (r: usize)
        requires
            self.wf(),
        ensures
            r == GRID_SIDE,
    {
        self.width
    }

    pub fn height(&self) -> (r: usize)
        requires
            self.wf(),
        ensures
            r == GRID_SIDE,
    {
        self.height
    }

    /// The position of cell `row`, `col` among the cells (row by row); the
    /// position must fit a `usize`.
    pub fn get_index(&self, row: usize, col: usize) -> (r: usize)
        requires
            self.wf(),
            row * GRID_SIDE + col <= usize::MAX,
        ensures
            r == row * GRID_SIDE + col,
    {
        row * self.width + col
    }

    pub fn get_cell(&self, row: usize, col: usize) -> (r: u8)
        requires
            self.wf(),
            row < GRID_SIDE,
            col < GRID_SIDE,
        ensures
            r == self.cells()[row * GRID_SIDE + col],
    {
        let idx = self.get_index(row, col);
        assert(idx < GRID_CELLS) by (nonlinear_arith)
            requires
                idx == row * GRID_SIDE + col,
                row < GRID_SIDE,
                col < GRID_SIDE,
        {
        }
        self.cells[idx]
    }

    pub fn set_cell(&mut self, row: usize, col: usize, value: u8)
        requires
            old(self).wf(),
            row < GRID_SIDE,
            col < GRID_SIDE,
        ensures
            final(self).wf(),
            final(self).cells() == old(self).cells().update(row * GRID_SIDE + col, value),
    {
        let idx = self.get_index(row, col);
        assert(idx < GRID_CELLS) by (nonlinear_arith)
            requires
                idx == row * GRID_SIDE + col,
                row < GRID_SIDE,
                col < GRID_SIDE,
        {
        }
        self.cells.set(idx, value);
    }

    /// Sets a 0 cell to 1 and any other to 0, and returns the new value.
    pub fn toggle_cell(&mut self, row: usize, col: usize) -> (r: u8)
        requires
            old(self).wf(),
            row < GRID_SIDE,
            col < GRID_SIDE,
        ensures
            final(self).wf(),
            r == (if old(self).cells()[row * GRID_SIDE + col] == 0 { 1u8 } else { 0u8 }),
            final(self).cells() == old(self).cells().update(row * GRID_SIDE + col, r),
    {
        let idx = self.get_index(row, col);
        assert(idx < GRID_CELLS) by (nonlinear_arith)
            requires
                idx == row * GRID_SIDE + col,
                row < GRID_SIDE,
                col < GRID_SIDE,
        {
        }
        let v: u8 = if self.cells[idx] == 0 { 1 } else { 0 };
        self.cells.set(idx, v);
        v
    }

    /// Sets every cell to 0.
    pub fn clear(&mut self)
        requires
            old(self).wf(),
        ensures
            final(self).wf(),
            final(self).cells() == Seq::new(GRID_CELLS as nat, |i: int| 0u8),
    {
        self.cells = vec![0u8; self.width * self.height];
        assert(self.cells@ =~= Seq::new(GRID_CELLS as nat, |i: int| 0u8));
    }

    /// Sets each cell from a coin: 1 where its coin came up true, else 0.
    pub fn randomize(&mut self, coins: &Vec<bool>)
        requires
            old(self).wf(),
            coins@.len() == GRID_CELLS,
        ensures
            final(self).wf(),
            final(self).cells() == Seq::new(GRID_CELLS as nat, |i: int| if coins@[i] { 1u8 } else { 0u8 }),
    {
        let n = self.cells.len();
        let mut i: usize = 0;
        while i < n
            invariant
                self.wf(),
                n == GRID_CELLS,
                coins@.len() == GRID_CELLS,
                i <= n,
                forall|j: int| 0 <= j < i ==> self.cells@[j] == (if coins@[j] { 1u8 } else { 0u8 }),
            decreases n - i,
        {
            let v: u8 = if coins[i] { 1 } else { 0 };
            self.cells.set(i, v);
            i = i + 1;
        }
        assert(self.cells@ =~= Seq::new(GRID_CELLS as nat, |i: int| if coins@[i] { 1u8 } else { 0u8 }));
    }

    /// The number of cells set to 1.
    pub fn count_active_cells(&self) -> (r: usize)
        requires
            self.wf(),
        ensures
            r == count_active(self.cells()),
    {
        let n = self.cells.len();
        let mut count: usize = 0;
        let mut i: usize = 0;
        while i < n
            invariant
                n == self.cells@.len(),
                n == GRID_CELLS,
                i <= n,
                count == count_active(self.cells@.take(i as int)),
                count <= i,
            decreases n - i,
        {
            assert(self.cells@.take(i + 1).drop_last() =~= self.cells@.take(i as int));
            if self.cells[i] == 1 {
                count = count + 1;
            }
            i = i + 1;
        }
        assert(self.cells@.take(n as int) =~= self.cells@);
        count
    }

    /// Fills the grid with a named pattern ("checkerboard", "cross" or
    /// "border"); any other name leaves it unchanged.
    pub fn fill_pattern(&mut self, pattern: &str)
        requires
            old(self).wf(),
        ensures
            final(self).wf(),
            is_pattern(pattern@) ==> final(self).cells() == Seq::new(
                GRID_CELLS as nat,
                |i: int| pattern_cell(pattern@, i / GRID_SIDE as int, i % GRID_SIDE as int),
            ),
            !is_pattern(pattern@) ==> final(self).cells() == old(self).cells(),
    {
        proof {
            reveal_strlit("checkerboard");
            reveal_strlit("cross");
            reveal_strlit("border");
        }
        let p = pattern.to_owned();
        let kind: u8 = if p == String::from_str("checkerboard") {
            0
        } else if p == String::from_str("cross") {
            1
        } else if p == String::from_str("border") {
            2
        } else {
            return;
        };
        assert("checkerboard"@.len() != "cross"@.len() && "checkerboard"@.len() != "border"@.len());
        assert("cross"@.len() != "border"@.len());
        let n = self.cells.len();
        let mut i: usize = 0;
        while i < n
            invariant
                self.wf(),
                n == GRID_CELLS,
                i <= n,
                "checkerboard"@ != "cross"@,
                "checkerboard"@ != "border"@,
                "cross"@ != "border"@,
                kind == 0 ==> pattern@ == "checkerboard"@,
                kind == 1 ==> pattern@ == "cross"@,
                kind == 2 ==> pattern@ == "border"@,
                kind <= 2,
                forall|j: int|
                    0 <= j < i ==> self.cells@[j] == pattern_cell(
                        pattern@,
                        j / GRID_SIDE as int,
                        j % GRID_SIDE as int,
                    ),
            decreases n - i,
        {
            let row = i / GRID_SIDE;
            let col = i % GRID_SIDE;
            let last = GRID_SIDE - 1;
            let mid = GRID_SIDE / 2;
            let v: u8 = if kind == 0 {
                if (row + col) % 2 == 0 { 1 } else { 0 }
            } else if kind == 1 {
                if row == mid || col == mid { 1 } else { 0 }
            } else {
                if row == 0 || row == last || col == 0 || col == last { 1 } else { 0 }
            };
            assert(v == pattern_cell(pattern@, (i as int) / (GRID_SIDE as int), (i as int) % (GRID_SIDE as int)));
            self.cells.set(i, v);
            i = i + 1;
        }
        assert(self.cells@ =~= Seq::new(
            GRID_CELLS as nat,
            |i: int| pattern_cell(pattern@, i / GRID_SIDE as int, i % GRID_SIDE as int),
        ));
    }
}

} // verus!
