use vstd::prelude::*;

verus! {

/// The view of a vector of rows: each row replaced by its own view.
pub open spec fn view_of(cells: Seq<Vec<u8>>) -> Seq<Seq<u8>> {
    cells.map(|i: int, r: Vec<u8>| r@)
}

/// A rectangular board: at least one row, at least one column, and every
/// row of the same length as the first.
pub open spec fn rect<T>(g: Seq<Seq<T>>) -> bool {
    &&& g.len() > 0
    &&& g[0].len() > 0
    &&& forall|i: int| 0 <= i < g.len() ==> #[trigger] g[i].len() == g[0].len()
}

/// Every cell holds 0 (dead) or 1 (alive).
pub open spec fn bits(g: Seq<Seq<u8>>) -> bool {
    forall|i: int, j: int|
        0 <= i < g.len() && 0 <= j < g[i].len() ==> #[trigger] g[i][j] <= 1
}

/// A well-formed plaintext grid: rectangular, with 0/1 cells only.
pub open spec fn wf_grid(g: Seq<Seq<u8>>) -> bool {
    rect(g) && bits(g)
}

/// Why a caller-supplied board was rejected.
#[derive(Clone, Copy, Debug, PartialEq, Eq, Structural)]
pub enum GridError {
    /// No rows, an empty first row, or rows of unequal lengths.
    BadDimensions,
    /// A cell value other than 0 or 1.
    BadCell,
}

/// A plaintext Game of Life board, fixed in shape once built.
#[derive(Debug)]
pub struct Grid {
    pub cells: Vec<Vec<u8>>,
}

impl View for Grid {
    type V = Seq<Seq<u8>>;

    open spec fn view(&self) -> Seq<Seq<u8>> {
        view_of(self.cells@)
    }
}

impl Grid {
    pub open spec fn wf(&self) -> bool {
        wf_grid(self@)
    }

    /// Builds a board from rows of cells, accepting exactly the well-formed
    /// ones: a rectangular shape with at least one row and one column, and
    /// every cell 0 or 1. A shape fault is reported before a cell fault.
    pub fn from_cells(cells: Vec<Vec<u8>>) -> (r: Result<Grid, GridError>)
        ensures
            r is Ok <==> wf_grid(view_of(cells@)),
            r matches Ok(g) ==> g@ == view_of(cells@),
            r matches Err(e) ==> (e == GridError::BadDimensions <==> !rect(view_of(cells@))),
            r matches Err(e) ==> (e == GridError::BadCell <==> rect(view_of(cells@)) && !bits(view_of(cells@))),
    {
        if cells.len() == 0 {
            return Err(GridError::BadDimensions);
        }
        let cols = cells[0].len();
        if cols == 0 {
            return Err(GridError::BadDimensions);
        }
        let mut i: usize = 0;
        while i < cells.len()
            invariant
                cells@.len() > 0,
                cols == view_of(cells@)[0].len(),
                cols > 0,
                i <= cells@.len(),
                forall|a: int| 0 <= a < i ==> #[trigger] view_of(cells@)[a].len() == cols,
            decreases cells@.len() - i,
        {
            if cells[i].len() != cols {
                assert(view_of(cells@)[i as int].len() != cols);
                assert(!rect(view_of(cells@)));
                return Err(GridError::BadDimensions);
            }
            i = i + 1;
        }
        assert(rect(view_of(cells@)));
        let mut a: usize = 0;
        while a < cells.len()
            invariant
                rect(view_of(cells@)),
                a <= cells@.len(),
                forall|x: int, y: int|
                    0 <= x < a && 0 <= y < view_of(cells@)[x].len()
                        ==> #[trigger] view_of(cells@)[x][y] <= 1,
            decreases cells@.len() - a,
        {
            let mut b: usize = 0;
            while b < cells[a].len()
                invariant
                    rect(view_of(cells@)),
                    a < cells@.len(),
                    b <= view_of(cells@)[a as int].len(),
                    forall|x: int, y: int|
                        0 <= x < a && 0 <= y < view_of(cells@)[x].len()
                            ==> #[trigger] view_of(cells@)[x][y] <= 1,
                    forall|y: int|
                        0 <= y < b ==> #[trigger] view_of(cells@)[a as int][y] <= 1,
                decreases view_of(cells@)[a as int].len() - b,
            {
                if cells[a][b] > 1 {
                    assert(!bits(view_of(cells@)));
                    return Err(GridError::BadCell);
                }
                b = b + 1;
            }
            a = a + 1;
        }
        assert(bits(view_of(cells@)));
        Ok(Grid { cells })
    }

    /// Number of rows.
    pub fn rows(&self) -> (r: usize)
        ensures
            r == self@.len(),
    {
        self.cells.len()
    }

    /// Number of columns.
    pub fn cols(&self) -> (r: usize)
        requires
            self.wf(),
        ensures
            r == self@[0].len(),
    {
        self.cells[0].len()
    }

    /// The cell at row `i`, column `j`.
    pub fn cell(&self, i: usize, j: usize) -> (r: u8)
        requires
            i < self@.len(),
            j < self@[i as int].len(),
        ensures
            r == self@[i as int][j as int],
    {
        self.cells[i][j]
    }

    /// A copy of the board's rows as plain vectors.
    pub fn to_rows(&self) -> (r: Vec<Vec<u8>>)
        ensures
            view_of(r@) == self@,
    {
        let mut out: Vec<Vec<u8>> = Vec::new();
        let mut i: usize = 0;
        while i < self.cells.len()
            invariant
                i <= self.cells@.len(),
                out@.len() == i,
                forall|a: int| 0 <= a < i ==> #[trigger] out@[a]@ == self@[a],
            decreases self.cells@.len() - i,
        {
            let mut row: Vec<u8> = Vec::new();
            let mut j: usize = 0;
            while j < self.cells[i].len()
                invariant
                    i < self.cells@.len(),
                    j <= self.cells@[i as int]@.len(),
                    row@.len() == j,
                    forall|b: int| 0 <= b < j ==> #[trigger] row@[b] == self@[i as int][b],
                decreases self.cells@[i as int]@.len() - j,
            {
                let c = self.cells[i][j];
                row.push(c);
                j = j + 1;
            }
            proof {
                assert(row@ =~= self@[i as int]);
            }
            out.push(row);
            i = i + 1;
        }
        proof {
            assert(view_of(out@) =~= self@);
        }
        out
    }

    /// A `rows` by `cols` board with every cell drawn independently and
    /// uniformly from {0, 1}.
    pub fn random(rows: u32, cols: u32) -> (g: Grid)
        requires
            rows >= 1,
            cols >= 1,
        ensures
            g.wf(),
            g@.len() == rows,
            forall|i: int| 0 <= i < g@.len() ==> #[trigger] g@[i].len() == cols,
    {
        let mut cells: Vec<Vec<u8>> = Vec::new();
        let mut i: u32 = 0;
        while i < rows
            invariant
                i <= rows,
                cells@.len() == i,
                forall|a: int| 0 <= a < i ==> #[trigger] cells@[a]@.len() == cols,
                forall|a: int, b: int|
                    0 <= a < i && 0 <= b < cells@[a]@.len() ==> #[trigger] cells@[a]@[b] <= 1,
            decreases rows - i,
        {
            let mut row: Vec<u8> = Vec::new();
            let mut j: u32 = 0;
            while j < cols
                invariant
                    j <= cols,
                    row@.len() == j,
                    forall|b: int| 0 <= b < j ==> #[trigger] row@[b] <= 1,
                decreases cols - j,
            {
                let c = random_bit();
                row.push(c);
                j = j + 1;
            }
            cells.push(row);
            i = i + 1;
        }
        Grid { cells }
    }
}

/// Relies on `rand::random_range` over the inclusive range 0..=1 with the
/// thread-local generator: the draw is uniform over {0, 1}; only the range
/// is stated, since nothing more holds of a random value.
#[verifier::external_body]
fn random_bit() -> (r: u8)
    ensures
        r <= 1,
{
    rand::random_range(0..=1u8)
}

} // verus!
