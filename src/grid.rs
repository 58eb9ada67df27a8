//! A rectangular grid of values, stored row by row.
use vstd::prelude::*;

verus! {

/// A rectangular grid of objects of size `width` x `height`.
///
/// The cell at column `x` and row `y` is stored at `y * width + x`.
#[derive(Clone, PartialEq, Eq, PartialOrd, Ord)]
pub struct Grid<T> {
    width: usize,
    height: usize,
    data: Vec<T>,
}

/// Position in row-major storage of the cell at column `x`, row `y`.
pub open spec fn cell_index(width: nat, x: nat, y: nat) -> nat {
    y * width + x
}


/// A cell inside the grid lies inside its row-major storage.
proof fn lemma_cell_in_storage(width: nat, height: nat, x: nat, y: nat)
    requires
        x < width,
        y < height,
    ensures
        cell_index(width, x, y) < width * height,
{
    assert(y * width + x < width * height) by (nonlinear_arith)
        requires
            x < width,
            y < height,
    ;
}

/// Distinct cells of the grid lie at distinct positions of the storage.
proof fn lemma_cells_distinct(width: nat, x1: nat, y1: nat, x2: nat, y2: nat)
    requires
        x1 < width,
        x2 < width,
        x1 != x2 || y1 != y2,
    ensures
        cell_index(width, x1, y1) != cell_index(width, x2, y2),
{
    if y1 == y2 {
    } else if y1 < y2 {
        assert(y1 * width + width <= y2 * width) by (nonlinear_arith)
            requires
                y1 < y2,
        ;
    } else {
        assert(y2 * width + width <= y1 * width) by (nonlinear_arith)
            requires
                y2 < y1,
        ;
    }
}

impl<T: Clone> Grid<T> {
    /// Create a grid of given width and height, with each entry set to the
    /// supplied value.
    pub fn with_value(width: usize, height: usize, val: T) -> (g: Self)
        requires
            width * height <= usize::MAX,
        ensures
            g.wf(),
            g.spec_width() == width,
            g.spec_height() == height,
            forall|i: int| 0 <= i < g.cells().len() ==> cloned(val, #[trigger] g.cells()[i]),
    {
        let n: usize = width * height;
        let data = vec![val; n];
        Grid { width, height, data }
    }
}

impl<T: Default> Grid<T> {
    /// Create a grid of given width and height, with each entry set to the
    /// type's default.
    pub fn with_default(width: usize, height: usize) -> (g: Self)
        requires
            width * height <= usize::MAX,
        ensures
            g.wf(),
            g.spec_width() == width,
            g.spec_height() == height,
            forall|i: int|
                0 <= i < g.cells().len() ==> call_ensures(T::default, (), #[trigger] g.cells()[i]),
    {
        let n: usize = width * height;
        let mut data: Vec<T> = Vec::new();
        let mut i: usize = 0;
        while i < n
            invariant
                i <= n,
                data@.len() == i,
                forall|k: int| 0 <= k < i ==> call_ensures(T::default, (), #[trigger] data@[k]),
            decreases n - i,
        {
            data.push(T::default());
            i = i + 1;
        }
        Grid { width, height, data }
    }
}

impl<T> Grid<T> {
    /// The cells of the grid, row by row.
    pub closed spec fn cells(&self) -> Seq<T> {
        self.data@
    }

    pub closed spec fn spec_width(&self) -> nat {
        self.width as nat
    }

    pub closed spec fn spec_height(&self) -> nat {
        self.height as nat
    }

    /// The grid holds exactly one cell per (column, row) pair.
    pub open spec fn wf(&self) -> bool {
        self.cells().len() == self.spec_width() * self.spec_height()
    }

    /// The value stored at column `x`, row `y`.
    pub open spec fn cell(&self, x: nat, y: nat) -> T {
        self.cells()[cell_index(self.spec_width(), x, y) as int]
    }

    /// Returns the width of this grid.
    pub fn width(&self) -> (r: usize)
        ensures
            r == self.spec_width(),
    {
        self.width
    }

    /// Returns the height of this grid.
    pub fn height(&self) -> (r: usize)
        ensures
            r == self.spec_height(),
    {
        self.height
    }
    /// Perform checked indexing into the grid.
    /// This will return `None` if x or y is out of bounds.
    pub fn get(&self, x: usize, y: usize) -> (r: Option<&T>)
        requires
            self.wf(),
        ensures
            (x < self.spec_width() && y < self.spec_height()) <==> r.is_some(),
            r.is_some() ==> *r.unwrap() == self.cell(x as nat, y as nat),
    {
        if x >= self.width || y >= self.height {
            return None;
        }
        Some(self.get_unchecked(x, y))
    }

    /// Perform checked mutable indexing into the grid.
    /// This will return `None` if x or y is out of bounds.
    pub fn get_mut(&mut self, x: usize, y: usize) -> (r: Option<&mut T>)
        requires
            old(self).wf(),
        ensures
            (x < old(self).spec_width() && y < old(self).spec_height()) <==> r.is_some(),
            r.is_none() ==> *final(self) == *old(self),
            r.is_some() ==> *r.unwrap() == old(self).cell(x as nat, y as nat),
    {
        if x >= self.width || y >= self.height {
            return None;
        }
        Some(self.get_unchecked_mut(x, y))
    }

    /// Stores `val` at column `x`, row `y`; returns whether the position is
    /// in bounds. Out of bounds the grid is left unchanged.
    pub fn set(&mut self, x: usize, y: usize, val: T) -> (r: bool)
        requires
            old(self).wf(),
        ensures
            r == (x < old(self).spec_width() && y < old(self).spec_height()),
            final(self).wf(),
            final(self).spec_width() == old(self).spec_width(),
            final(self).spec_height() == old(self).spec_height(),
            r ==> final(self).cell(x as nat, y as nat) == val,
            forall|x2: nat, y2: nat|
                x2 < old(self).spec_width() && y2 < old(self).spec_height() && (x2 != x || y2 != y)
                    ==> #[trigger] final(self).cell(x2, y2) == old(self).cell(x2, y2),
    {
        if x >= self.width || y >= self.height {
            return false;
        }
        proof {
            lemma_cell_in_storage(self.width as nat, self.height as nat, x as nat, y as nat);
            assert(self.data@.len() == self.data.len());
            assert((y * self.width) as nat == y as nat * self.width as nat);
        }
        let i: usize = y * self.width + x;
        self.data.set(i, val);
        proof {
            assert forall|x2: nat, y2: nat|
                x2 < self.spec_width() && y2 < self.spec_height() && (x2 != x || y2 != y)
                    implies #[trigger] self.cell(x2, y2) == old(self).cell(x2, y2) by {
                lemma_cell_in_storage(self.width as nat, self.height as nat, x2, y2);
                lemma_cells_distinct(self.width as nat, x as nat, y as nat, x2, y2);
            }
        }
        true
    }

    /// Indexing into the grid for a position known to be in bounds.
    pub fn get_unchecked(&self, x: usize, y: usize) -> (r: &T)
        requires
            self.wf(),
            x < self.spec_width(),
            y < self.spec_height(),
        ensures
            *r == self.cell(x as nat, y as nat),
    {
        proof {
            lemma_cell_in_storage(self.width as nat, self.height as nat, x as nat, y as nat);
            assert(self.data@.len() == self.data.len());
            assert((y * self.width) as nat == y as nat * self.width as nat);
        }
        &self.data[y * self.width + x]
    }

    /// Mutable indexing into the grid for a position known to be in bounds.
    pub fn get_unchecked_mut(&mut self, x: usize, y: usize) -> (r: &mut T)
        requires
            old(self).wf(),
            x < old(self).spec_width(),
            y < old(self).spec_height(),
        ensures
            *r == old(self).cell(x as nat, y as nat),
    {
        proof {
            lemma_cell_in_storage(self.width as nat, self.height as nat, x as nat, y as nat);
            assert(self.data@.len() == self.data.len());
            assert((y * self.width) as nat == y as nat * self.width as nat);
        }
        let i: usize = y * self.width + x;
        &mut self.data[i]
    }
}

} // verus!
