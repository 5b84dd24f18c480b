//! The dense voxel grid: fixed dimensions and one flat run of cells, with the
//! cell at `(x, y, z)` stored at `x + y * size_x + z * size_x * size_y`.

use vstd::prelude::*;
use crate::voxel::Voxel;

verus! {

/// How many cells a grid has along each axis.
#[derive(Clone, Copy, Debug)]
pub struct BlockCount {
    pub x: usize,
    pub y: usize,
    pub z: usize,
}

impl BlockCount {
    /// The number of cells of a grid with these counts.
    pub open spec fn volume(self) -> nat {
        (self.x * self.y * self.z) as nat
    }

    /// The counts `x`, `y` and `z` along the three axes.
    pub fn new(x: usize, y: usize, z: usize) -> (count: Self)
        ensures
            count == (BlockCount { x, y, z }),
    {
        Self { x, y, z }
    }

    /// The number of cells, where it fits a `usize`.
    pub fn total(&self) -> (total: usize)
        requires
            self.volume() <= usize::MAX,
        ensures
            total == self.volume(),
    {
        if self.x == 0 || self.y == 0 {
            assert(self.x * self.y == 0) by (nonlinear_arith)
                requires
                    self.x == 0 || self.y == 0,
            ;
            return 0;
        }
        if self.z == 0 {
            assert(self.x * self.y * self.z == 0) by (nonlinear_arith)
                requires
                    self.z == 0,
            ;
            return 0;
        }
        assert(self.x * self.y <= self.x * self.y * self.z) by (nonlinear_arith)
            requires
                self.z >= 1,
        ;
        self.x * self.y * self.z
    }

    /// The number of cells, or `None` where it does not fit a `usize`.
    pub fn checked_total(&self) -> (total: Option<usize>)
        ensures
            total is Some <==> self.volume() <= usize::MAX,
            total matches Some(t) ==> t == self.volume(),
    {
        if self.x == 0 || self.y == 0 || self.z == 0 {
            assert(self.x * self.y * self.z == 0) by (nonlinear_arith)
                requires
                    self.x == 0 || self.y == 0 || self.z == 0,
            ;
            return Some(0);
        }
        match self.x.checked_mul(self.y) {
            None => {
                assert(self.x * self.y * self.z >= self.x * self.y) by (nonlinear_arith)
                    requires
                        self.z >= 1,
                ;
                None
            },
            Some(xy) => xy.checked_mul(self.z),
        }
    }
}

/// The place of one cell in a grid.
#[derive(Clone, Copy, Debug, PartialEq, Eq, Structural)]
pub struct Position {
    pub x: usize,
    pub y: usize,
    pub z: usize,
}

impl Position {
    /// The place with the coordinates `x`, `y` and `z`.
    pub fn new(x: usize, y: usize, z: usize) -> (pos: Self)
        ensures
            pos == (Position { x, y, z }),
    {
        Self { x, y, z }
    }
}

/// What a grid is: its three sizes and its cells in storage order.
pub struct Grid {
    pub size_x: nat,
    pub size_y: nat,
    pub size_z: nat,
    pub cells: Seq<Voxel>,
}

impl Grid {
    /// The grid holds exactly one cell per position, and its sizes and the
    /// number of its cells are numbers that a `usize` holds.
    pub open spec fn wf(self) -> bool {
        &&& self.cells.len() == self.size_x * self.size_y * self.size_z
        &&& self.cells.len() <= usize::MAX
        &&& self.size_x <= usize::MAX
        &&& self.size_y <= usize::MAX
        &&& self.size_z <= usize::MAX
    }

    /// Whether `(x, y, z)` is a position of the grid.
    pub open spec fn contains(self, x: int, y: int, z: int) -> bool {
        &&& 0 <= x < self.size_x
        &&& 0 <= y < self.size_y
        &&& 0 <= z < self.size_z
    }

    /// Where the cell at `(x, y, z)` is stored.
    pub open spec fn index(self, x: int, y: int, z: int) -> int {
        x + y * self.size_x + z * self.size_x * self.size_y
    }

    /// The cell at `(x, y, z)`.
    pub open spec fn at(self, x: int, y: int, z: int) -> Voxel {
        self.cells[self.index(x, y, z)]
    }

    /// The grid with the cell at `(x, y, z)` replaced by `v`.
    pub open spec fn update(self, x: int, y: int, z: int, v: Voxel) -> Grid {
        Grid { cells: self.cells.update(self.index(x, y, z), v), ..self }
    }

    /// The grid of the given sizes whose cells are all empty.
    pub open spec fn empty(size_x: nat, size_y: nat, size_z: nat) -> Grid {
        Grid {
            size_x,
            size_y,
            size_z,
            cells: Seq::new(size_x * size_y * size_z, |i: int| Voxel::Empty),
        }
    }

    /// Every position of a well-formed grid has a storage index inside the
    /// run of cells.
    pub proof fn index_in_range(self, x: int, y: int, z: int)
        requires
            self.contains(x, y, z),
        ensures
            0 <= self.index(x, y, z) < self.size_x * self.size_y * self.size_z,
            0 <= y * self.size_x <= x + y * self.size_x < self.size_x * self.size_y,
            0 <= z * self.size_x,
            z * self.size_x * self.size_y == z * (self.size_x * self.size_y),
            0 <= z * self.size_x * self.size_y,
            z * self.size_x <= z * self.size_x * self.size_y,
            self.size_x * self.size_y <= self.size_x * self.size_y * self.size_z,
    {
        let sx = self.size_x as int;
        let sy = self.size_y as int;
        let sz = self.size_z as int;
        assert(0 <= y * sx && y * sx + sx <= sx * sy) by (nonlinear_arith)
            requires
                0 <= y < sy,
                0 < sx,
        ;
        assert(z * sx * sy == z * (sx * sy) && 0 <= z * sx <= z * sx * sy) by (nonlinear_arith)
            requires
                0 <= z,
                0 < sx,
                0 < sy,
        ;
        assert(0 <= z * (sx * sy) && z * (sx * sy) + sx * sy <= sx * sy * sz
            && sx * sy <= sx * sy * sz) by (nonlinear_arith)
            requires
                0 <= z < sz,
                0 < sx * sy,
        ;
    }

    /// Two positions of a grid that share a storage index are the same
    /// position.
    pub proof fn index_is_injective(self, x1: int, y1: int, z1: int, x2: int, y2: int, z2: int)
        requires
            self.contains(x1, y1, z1),
            self.contains(x2, y2, z2),
            self.index(x1, y1, z1) == self.index(x2, y2, z2),
        ensures
            x1 == x2,
            y1 == y2,
            z1 == z2,
    {
        let sx = self.size_x as int;
        let sy = self.size_y as int;
        self.index_in_range(x1, y1, z1);
        self.index_in_range(x2, y2, z2);
        if z1 < z2 {
            assert(z1 * (sx * sy) + sx * sy <= z2 * (sx * sy)) by (nonlinear_arith)
                requires
                    z1 < z2,
                    0 < sx * sy,
            ;
        }
        if z2 < z1 {
            assert(z2 * (sx * sy) + sx * sy <= z1 * (sx * sy)) by (nonlinear_arith)
                requires
                    z2 < z1,
                    0 < sx * sy,
            ;
        }
        if y1 < y2 {
            assert(y1 * sx + sx <= y2 * sx) by (nonlinear_arith)
                requires
                    y1 < y2,
                    0 < sx,
            ;
        }
        if y2 < y1 {
            assert(y2 * sx + sx <= y1 * sx) by (nonlinear_arith)
                requires
                    y2 < y1,
                    0 < sx,
            ;
        }
    }

    /// The position whose cell is stored at index `i`.
    pub open spec fn position_of(self, i: int) -> (int, int, int) {
        let row = self.size_x as int;
        let layer = self.size_x * self.size_y;
        (i % row, (i / row) % (self.size_y as int), i / (layer as int))
    }

    /// Every storage index inside the run of cells is the index of a
    /// position of the grid. With `index_is_injective`: each stored cell
    /// belongs to exactly one position.
    pub proof fn index_has_position(self, i: int)
        requires
            0 <= i < self.size_x * self.size_y * self.size_z,
        ensures
            self.contains(self.position_of(i).0, self.position_of(i).1, self.position_of(i).2),
            self.index(self.position_of(i).0, self.position_of(i).1, self.position_of(i).2) == i,
    {
        let sx = self.size_x as int;
        let sy = self.size_y as int;
        let sz = self.size_z as int;
        assert(sx > 0 && sy > 0 && sz > 0) by (nonlinear_arith)
            requires
                0 <= sx,
                0 <= sy,
                0 <= sz,
                0 < sx * sy * sz,
        ;
        let q = i / sx;
        let (x, y, z) = self.position_of(i);
        vstd::arithmetic::div_mod::lemma_fundamental_div_mod(i, sx);
        vstd::arithmetic::div_mod::lemma_mod_bound(i, sx);
        vstd::arithmetic::div_mod::lemma_div_pos_is_pos(i, sx);
        vstd::arithmetic::div_mod::lemma_fundamental_div_mod(q, sy);
        vstd::arithmetic::div_mod::lemma_mod_bound(q, sy);
        vstd::arithmetic::div_mod::lemma_div_pos_is_pos(q, sy);
        vstd::arithmetic::div_mod::lemma_div_denominator(i, sx, sy);
        assert(z == q / sy);
        assert(sx * sy * sz == sx * (sy * sz)) by (nonlinear_arith);
        vstd::arithmetic::div_mod::lemma_multiply_divide_lt(i, sx, sy * sz);
        vstd::arithmetic::div_mod::lemma_multiply_divide_lt(q, sy, sz);
        assert(x + y * sx + z * sx * sy == i) by (nonlinear_arith)
            requires
                i == sx * q + x,
                q == sy * z + y,
        ;
    }

    /// Replacing one cell changes that cell and no other.
    pub proof fn update_changes_one_cell(
        self,
        x: int,
        y: int,
        z: int,
        v: Voxel,
        x2: int,
        y2: int,
        z2: int,
    )
        requires
            self.wf(),
            self.contains(x, y, z),
            self.contains(x2, y2, z2),
        ensures
            self.update(x, y, z, v).wf(),
            self.update(x, y, z, v).at(x2, y2, z2) == if x2 == x && y2 == y && z2 == z {
                v
            } else {
                self.at(x2, y2, z2)
            },
    {
        self.index_in_range(x, y, z);
        self.index_in_range(x2, y2, z2);
        if self.index(x, y, z) == self.index(x2, y2, z2) {
            self.index_is_injective(x, y, z, x2, y2, z2);
        }
    }
}

/// A dense grid of voxels.
#[derive(Debug)]
pub struct Matrix {
    block_count: BlockCount,
    voxels: Vec<Voxel>,
}

impl View for Matrix {
    type V = Grid;

    /// The grid that the matrix holds.
    closed spec fn view(&self) -> Grid {
        Grid {
            size_x: self.block_count.x as nat,
            size_y: self.block_count.y as nat,
            size_z: self.block_count.z as nat,
            cells: self.voxels@,
        }
    }
}

impl Matrix {
    /// Every matrix holds exactly one cell per position.
    #[verifier::type_invariant]
    spec fn is_whole(&self) -> bool {
        self@.wf()
    }

    /// A matrix of the given sizes whose cells are all empty.
    pub fn new(size_x: usize, size_y: usize, size_z: usize) -> (matrix: Self)
        requires
            size_x * size_y * size_z <= usize::MAX,
        ensures
            matrix@.wf(),
            matrix@ == Grid::empty(size_x as nat, size_y as nat, size_z as nat),
    {
        let block_count = BlockCount::new(size_x, size_y, size_z);
        let capacity = block_count.total();
        let matrix = Self { block_count, voxels: vec![Voxel::Empty; capacity] };
        assert(matrix@.cells =~= Grid::empty(
            size_x as nat,
            size_y as nat,
            size_z as nat,
        ).cells);
        matrix
    }

    /// The three sizes of the matrix.
    pub fn block_count(&self) -> (count: BlockCount)
        ensures
            self@.wf(),
            count.x == self@.size_x,
            count.y == self@.size_y,
            count.z == self@.size_z,
    {
        proof {
            use_type_invariant(self);
        }
        self.block_count
    }

    /// Where the cell at `pos` is stored.
    fn offset(&self, pos: Position) -> (index: usize)
        requires
            self@.contains(pos.x as int, pos.y as int, pos.z as int),
        ensures
            self@.wf(),
            index == self@.index(pos.x as int, pos.y as int, pos.z as int),
            index < self.voxels@.len(),
    {
        proof {
            use_type_invariant(self);
            self@.index_in_range(pos.x as int, pos.y as int, pos.z as int);
            assert(self.voxels@.len() == self.voxels.len() <= usize::MAX);
        }
        pos.x + pos.y * self.block_count.x + pos.z * self.block_count.x * self.block_count.y
    }

    /// Overwrites the cell at `pos`.
    pub fn set(&mut self, pos: Position, v: Voxel)
        requires
            old(self)@.contains(pos.x as int, pos.y as int, pos.z as int),
        ensures
            old(self)@.wf(),
            final(self)@.wf(),
            final(self)@ == old(self)@.update(pos.x as int, pos.y as int, pos.z as int, v),
    {
        let index = self.offset(pos);
        self.voxels[index] = v;
    }

    /// The cell at `pos`.
    pub fn lookup(&self, pos: Position) -> (v: &Voxel)
        requires
            self@.contains(pos.x as int, pos.y as int, pos.z as int),
        ensures
            self@.wf(),
            *v == self@.at(pos.x as int, pos.y as int, pos.z as int),
    {
        let index = self.offset(pos);
        &self.voxels[index]
    }
}

} // verus!
