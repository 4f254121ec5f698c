//! A fixed-extent, cube-shaped, index-addressable container of cell values:
//! `extent` cells along each axis, stored in one flat buffer in x-major,
//! then y, then z order.

use vstd::prelude::*;

verus! {

/// The failures that input validation reports before any grid is touched.
#[derive(Clone, Copy, PartialEq, Eq, Structural, Debug)]
pub enum GridError {
    /// A grid was requested with extent zero.
    InvalidExtent,
    /// A slice mask's length differs from the grid's extent.
    MalformedSliceMask,
}

/// A cube of cells with a fixed extent per axis. The value at `(x, y, z)`
/// lives at flat index `(x * extent + y) * extent + z`.
pub struct Grid<A> {
    pub extent: usize,
    pub cells: Vec<A>,
}

/// The flat index stays inside the cube's cell count.
pub proof fn lemma_flat_range(e: int, x: int, y: int, z: int)
    by (nonlinear_arith)
    requires
        1 <= e,
        0 <= x < e,
        0 <= y < e,
        0 <= z < e,
    ensures
        0 <= x * e + y < e * e,
        e * e <= e * e * e,
        0 <= (x * e + y) * e + z < e * e * e,
{
}

impl<A: Copy> Grid<A> {
    /// Flat index of the cell at `(x, y, z)`.
    pub open spec fn sidx(self, x: int, y: int, z: int) -> int {
        (x * self.extent + y) * self.extent + z
    }

    /// The cell value stored at `(x, y, z)`.
    pub open spec fn cell(self, x: int, y: int, z: int) -> A {
        self.cells@[self.sidx(x, y, z)]
    }

    /// Well-formed: positive extent, a cell count that fits the machine, and
    /// exactly one stored value for every coordinate of the cube.
    pub open spec fn wf(self) -> bool {
        &&& self.extent >= 1
        &&& self.extent * self.extent * self.extent <= usize::MAX
        &&& self.cells@.len() == self.extent * self.extent * self.extent
    }

    /// Builds a grid of the given extent with every cell set to `fill`.
    /// A zero extent is rejected before any storage is created.
    pub fn new(extent: usize, fill: A) -> (r: Result<Grid<A>, GridError>)
        requires
            extent * extent * extent <= usize::MAX,
        ensures
            match r {
                Ok(g) => {
                    &&& extent >= 1
                    &&& g.wf()
                    &&& g.extent == extent
                    &&& forall|t: int| 0 <= t < g.cells@.len() ==> g.cells@[t] == fill
                },
                Err(e) => extent == 0 && e == GridError::InvalidExtent,
            },
    {
        if extent == 0 {
            return Err(GridError::InvalidExtent);
        }
        assert(extent * extent <= extent * extent * extent) by (nonlinear_arith)
            requires
                extent >= 1,
        ;
        let square = extent * extent;
        let n = square * extent;
        let mut cells: Vec<A> = Vec::new();
        for t in 0..n
            invariant
                cells@.len() == t,
                forall|u: int| 0 <= u < t ==> cells@[u] == fill,
        {
            cells.push(fill);
        }
        Ok(Grid { extent, cells })
    }

    /// Reads the cell at `(x, y, z)`; the coordinate must address a cell.
    pub fn get(&self, x: usize, y: usize, z: usize) -> (v: A)
        requires
            self.wf(),
            x < self.extent,
            y < self.extent,
            z < self.extent,
        ensures
            v == self.cell(x as int, y as int, z as int),
    {
        proof {
            lemma_flat_range(self.extent as int, x as int, y as int, z as int);
        }
        let i = (x * self.extent + y) * self.extent + z;
        self.cells[i]
    }

    /// Writes `v` into the cell at `(x, y, z)`, leaving every other cell as
    /// it was.
    pub fn set(&mut self, x: usize, y: usize, z: usize, v: A)
        requires
            old(self).wf(),
            x < old(self).extent,
            y < old(self).extent,
            z < old(self).extent,
        ensures
            final(self).wf(),
            final(self).extent == old(self).extent,
            final(self).cells@ == old(self).cells@.update(
                old(self).sidx(x as int, y as int, z as int),
                v,
            ),
    {
        proof {
            lemma_flat_range(self.extent as int, x as int, y as int, z as int);
        }
        let i = (x * self.extent + y) * self.extent + z;
        self.cells[i] = v;
    }
}

impl<A: Copy> Clone for Grid<A> {
    /// An independent copy with the same extent and the same cell values.
    fn clone(&self) -> (r: Self)
        ensures
            r.extent == self.extent,
            r.cells@ == self.cells@,
    {
        let mut cells: Vec<A> = Vec::new();
        for t in 0..self.cells.len()
            invariant
                cells@.len() == t,
                forall|u: int| 0 <= u < t ==> cells@[u] == self.cells@[u],
        {
            cells.push(self.cells[t]);
        }
        proof {
            assert(cells@ =~= self.cells@);
        }
        Grid { extent: self.extent, cells }
    }
}

} // verus!
