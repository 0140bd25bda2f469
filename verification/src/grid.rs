//! A rectangular grid of cells stored row by row.

use vstd::prelude::*;

verus! {

/// A `width` by `height` grid; the cell at column `x` of row `y` is `at(x, y)`.
pub struct Grid<T> {
    width: usize,
    height: usize,
    cells: Vec<T>,
}

/// A cell's position in row-major storage lies inside the storage.
pub proof fn lemma_cell_index(x: int, y: int, w: int, h: int)
    requires
        0 <= x < w,
        0 <= y < h,
    ensures
        0 <= y * w + x < w * h,
{
    assert(y * w + x < w * h) by (nonlinear_arith)
        requires
            0 <= x < w,
            0 <= y < h,
    ;
    assert(0 <= y * w) by (nonlinear_arith)
        requires
            0 <= y,
            0 <= w,
    ;
}

/// Two cells stored at the same position are the same cell.
pub proof fn lemma_cell_index_injective(x1: int, y1: int, x2: int, y2: int, w: int)
    requires
        0 <= x1 < w,
        0 <= x2 < w,
        0 <= y1,
        0 <= y2,
        y1 * w + x1 == y2 * w + x2,
    ensures
        x1 == x2,
        y1 == y2,
{
    if y1 < y2 {
        assert(y2 * w >= (y1 + 1) * w) by (nonlinear_arith)
            requires
                y2 >= y1 + 1,
                w >= 0,
        ;
        assert((y1 + 1) * w == y1 * w + w) by (nonlinear_arith);
    } else if y2 < y1 {
        assert(y1 * w >= (y2 + 1) * w) by (nonlinear_arith)
            requires
                y1 >= y2 + 1,
                w >= 0,
        ;
        assert((y2 + 1) * w == y2 * w + w) by (nonlinear_arith);
    }
}

impl<T: Copy> Grid<T> {
    /// The storage holds exactly one cell per position.
    pub closed spec fn wf(&self) -> bool {
        self.cells.len() == self.width * self.height
    }

    pub closed spec fn cols(&self) -> nat {
        self.width as nat
    }

    pub closed spec fn rows(&self) -> nat {
        self.height as nat
    }

    /// The cell at column `x` of row `y`.
    pub closed spec fn at(&self, x: int, y: int) -> T {
        self.cells@[y * self.width + x]
    }

    /// The cells in storage order, row after row.
    pub closed spec fn view(&self) -> Seq<T> {
        self.cells@
    }

    pub open spec fn contains(&self, x: int, y: int) -> bool {
        0 <= x < self.cols() && 0 <= y < self.rows()
    }

    pub open spec fn same_shape<U: Copy>(&self, other: &Grid<U>) -> bool {
        self.cols() == other.cols() && self.rows() == other.rows()
    }

    /// Every cell of the grid holds `value`.
    pub open spec fn every_cell_is(&self, value: T) -> bool {
        forall|x: int, y: int| self.contains(x, y) ==> #[trigger] self.at(x, y) == value
    }

    /// How `at` reads the storage.
    pub proof fn lemma_at(&self, x: int, y: int)
        requires
            self.wf(),
            self.contains(x, y),
        ensures
            0 <= y * self.cols() + x < self@.len(),
            self@.len() == self.cols() * self.rows(),
            self.at(x, y) == self@[y * self.cols() + x],
    {
        lemma_cell_index(x, y, self.width as int, self.height as int);
    }

    /// A grid with every cell set to `value`.
    pub fn filled(width: usize, height: usize, value: T) -> (g: Self)
        requires
            width * height <= usize::MAX,
        ensures
            g.wf(),
            g.cols() == width,
            g.rows() == height,
            g.every_cell_is(value),
    {
        let n: usize = width * height;
        let mut cells: Vec<T> = Vec::new();
        let mut i: usize = 0;
        while i < n
            invariant
                i <= n,
                cells.len() == i,
                forall|k: int| 0 <= k < i ==> cells@[k] == value,
            decreases n - i,
        {
            cells.push(value);
            i = i + 1;
        }
        let g = Grid { width, height, cells };
        proof {
            assert forall|x: int, y: int| g.contains(x, y) implies #[trigger] g.at(x, y)
                == value by {
                lemma_cell_index(x, y, width as int, height as int);
            }
        }
        g
    }

    /// A grid over the given cells, where there is one cell for each position.
    pub fn from_cells(width: usize, height: usize, cells: Vec<T>) -> (g: Option<Self>)
        ensures
            g.is_some() <==> cells.len() == width * height,
            g.is_some() ==> {
                &&& g.unwrap().wf()
                &&& g.unwrap().cols() == width
                &&& g.unwrap().rows() == height
                &&& g.unwrap()@ == cells@
            },
    {
        match width.checked_mul(height) {
            Some(n) => {
                if cells.len() == n {
                    Some(Grid { width, height, cells })
                } else {
                    None
                }
            },
            None => None,
        }
    }

    pub fn width(&self) -> (w: usize)
        ensures
            w == self.cols(),
    {
        self.width
    }

    pub fn height(&self) -> (h: usize)
        ensures
            h == self.rows(),
    {
        self.height
    }

    /// The cells in storage order.
    pub fn cells(&self) -> (c: &Vec<T>)
        ensures
            c@ == self@,
    {
        &self.cells
    }

    pub fn get(&self, x: usize, y: usize) -> (value: T)
        requires
            self.wf(),
            self.contains(x as int, y as int),
        ensures
            value == self.at(x as int, y as int),
    {
        proof {
            lemma_cell_index(x as int, y as int, self.width as int, self.height as int);
        }
        self.cells[y * self.width + x]
    }

    /// Writes one cell and leaves every other cell as it was.
    pub fn set(&mut self, x: usize, y: usize, value: T)
        requires
            old(self).wf(),
            old(self).contains(x as int, y as int),
        ensures
            final(self).wf(),
            final(self).cols() == old(self).cols(),
            final(self).rows() == old(self).rows(),
            final(self).at(x as int, y as int) == value,
            forall|i: int, j: int|
                old(self).contains(i, j) && !(i == x && j == y) ==> #[trigger] final(self).at(i, j)
                    == old(self).at(i, j),
    {
        let w: usize = self.width;
        proof {
            lemma_cell_index(x as int, y as int, self.width as int, self.height as int);
        }
        let ghost before = *self;
        self.cells.set(y * w + x, value);
        proof {
            assert forall|i: int, j: int|
                before.contains(i, j) && !(i == x && j == y) implies #[trigger] self.at(i, j)
                == before.at(i, j) by {
                lemma_cell_index(i, j, w as int, self.height as int);
                if j * w + i == y * w + x {
                    lemma_cell_index_injective(i, j, x as int, y as int, w as int);
                }
            }
        }
    }

    /// Sets every cell to `value`.
    pub fn fill(&mut self, value: T)
        requires
            old(self).wf(),
        ensures
            final(self).wf(),
            final(self).cols() == old(self).cols(),
            final(self).rows() == old(self).rows(),
            final(self).every_cell_is(value),
    {
        let n: usize = self.cells.len();
        let mut i: usize = 0;
        while i < n
            invariant
                i <= n,
                n == self.cells.len(),
                self.width == old(self).width,
                self.height == old(self).height,
                self.wf(),
                forall|k: int| 0 <= k < i ==> self.cells@[k] == value,
            decreases n - i,
        {
            self.cells.set(i, value);
            i = i + 1;
        }
        proof {
            assert forall|x: int, y: int| self.contains(x, y) implies #[trigger] self.at(x, y)
                == value by {
                lemma_cell_index(x, y, self.width as int, self.height as int);
            }
        }
    }
}

} // verus!
