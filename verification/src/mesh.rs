//! The greedy mesher: the parts that cover the visible faces of a grid.
//!
//! The grid is swept six times, once for each side. A sweep looks at every
//! plane across its axis, from the one before the first layer of cells to the
//! one behind the last. In a plane, a cell shows a face to the side where the
//! cell on the near side of the plane is solid, unless the cell on the far
//! side is its equal. The faces of a plane are merged greedily into
//! rectangles, and each rectangle becomes one part.

use vstd::prelude::*;
use crate::greedy::{blank, merge, merge_of_blank, merge_plane, parts_on, rectangular, rows};
use crate::matrix::{Grid, Matrix, Position};
use crate::quad::{arrange, place, Quad, Side};
use crate::voxel::{Color, Voxel};

verus! {

impl Grid {
    /// The number of cells along `axis`: 0 for x, 1 for y, 2 for z.
    pub open spec fn size(self, axis: int) -> nat {
        if axis == 0 {
            self.size_x
        } else if axis == 1 {
            self.size_y
        } else {
            self.size_z
        }
    }

    /// The number of layers of cells that a sweep for `side` goes through.
    pub open spec fn depth(self, side: Side) -> nat {
        self.size(side.axis())
    }

    /// The number of columns of a plane of `side`.
    pub open spec fn width(self, side: Side) -> nat {
        self.size((side.axis() + 1) % 3)
    }

    /// The number of rows of a plane of `side`.
    pub open spec fn height(self, side: Side) -> nat {
        self.size((side.axis() + 2) % 3)
    }

    /// The cell in layer `u` along `axis`, column `a` and row `b`, where the
    /// grid has such a layer.
    pub open spec fn layer(self, axis: int, u: int, a: int, b: int) -> Option<Voxel> {
        if 0 <= u < self.size(axis) {
            let (x, y, z) = place(axis, u, a, b);
            Some(self.at(x, y, z))
        } else {
            None
        }
    }

    /// What shows to `side` in the plane at `plane`, in column `a` of row
    /// `b`. The plane lies between the layers `plane - 1` and `plane`. A front
    /// side sees the cell before the plane, a back side the cell behind it;
    /// nothing shows where that cell is missing or empty, nor where the cells
    /// on both sides of the plane are equal.
    pub open spec fn face(self, side: Side, plane: int, a: int, b: int) -> Voxel {
        let before = self.layer(side.axis(), plane - 1, a, b);
        let after = self.layer(side.axis(), plane, a, b);
        let seen = if side.is_back() {
            after
        } else {
            before
        };
        if before is Some && after is Some && before == after {
            Voxel::Empty
        } else {
            match seen {
                Some(v) => v,
                None => Voxel::Empty,
            }
        }
    }

    /// The faces that show to `side` in the plane at `plane`.
    pub open spec fn plane(self, side: Side, plane: int) -> Seq<Seq<Voxel>> {
        Seq::new(
            self.height(side),
            |b: int| Seq::new(self.width(side), |a: int| self.face(side, plane, a, b)),
        )
    }

    /// The parts on `side` in the plane at `plane`.
    pub open spec fn slab(self, side: Side, plane: int) -> Seq<(Quad, Color)> {
        parts_on(
            side,
            plane,
            merge(self.plane(side, plane), self.width(side) as int, self.height(side) as int),
        )
    }

    /// The parts on `side` in the first `n` planes.
    pub open spec fn sweep_to(self, side: Side, n: nat) -> Seq<(Quad, Color)>
        decreases n,
    {
        if n == 0 {
            Seq::empty()
        } else {
            self.sweep_to(side, (n - 1) as nat) + self.slab(side, n - 1)
        }
    }

    /// The parts on `side`: those of every plane, from the plane before the
    /// first layer to the plane behind the last.
    pub open spec fn sweep(self, side: Side) -> Seq<(Quad, Color)> {
        self.sweep_to(side, self.depth(side) + 1)
    }

    /// The mesh of the grid: the parts of the six sides, one side after the
    /// other.
    pub open spec fn mesh(self) -> Seq<(Quad, Color)> {
        self.sweep(Side::Right) + self.sweep(Side::Top) + self.sweep(Side::Front) + self.sweep(
            Side::Left,
        ) + self.sweep(Side::Bottom) + self.sweep(Side::Back)
    }

    /// Whether every cell of the grid is empty.
    pub open spec fn is_blank(self) -> bool {
        forall|x: int, y: int, z: int| self.contains(x, y, z) ==> self.at(x, y, z) == Voxel::Empty
    }

    /// A cell of a layer of the grid is a cell of the grid.
    pub proof fn layer_is_inside(self, axis: int, u: int, a: int, b: int)
        requires
            0 <= axis < 3,
            0 <= u < self.size(axis),
            0 <= a < self.size((axis + 1) % 3),
            0 <= b < self.size((axis + 2) % 3),
        ensures
            self.contains(place(axis, u, a, b).0, place(axis, u, a, b).1, place(axis, u, a, b).2),
    {
    }

    /// A plane of a grid without an empty side has no more cells than the
    /// grid.
    pub proof fn plane_fits(self, side: Side)
        requires
            self.wf(),
            self.size_x >= 1,
            self.size_y >= 1,
            self.size_z >= 1,
        ensures
            self.width(side) * self.height(side) <= usize::MAX,
    {
        let x = self.size_x as int;
        let y = self.size_y as int;
        let z = self.size_z as int;
        assert(y * z <= x * y * z && z * x <= x * y * z && x * y <= x * y * z) by (nonlinear_arith)
            requires
                x >= 1,
                y >= 1,
                z >= 1,
        ;
    }

    /// Every plane of a grid has the grid's width and height for that side.
    pub proof fn plane_is_rectangular(self, side: Side, plane: int)
        ensures
            rectangular(
                self.plane(side, plane),
                self.width(side) as int,
                self.height(side) as int,
            ),
    {
    }

    /// The mesh is fixed by the sizes of the grid and the cells at its
    /// positions: two grids that agree in these have the same faces in every
    /// plane.
    pub proof fn same_cells_same_plane(self, other: Grid, side: Side, plane: int)
        requires
            self.size_x == other.size_x,
            self.size_y == other.size_y,
            self.size_z == other.size_z,
            forall|x: int, y: int, z: int|
                self.contains(x, y, z) ==> self.at(x, y, z) == other.at(x, y, z),
        ensures
            self.plane(side, plane) == other.plane(side, plane),
            self.slab(side, plane) == other.slab(side, plane),
    {
        let mine = self.plane(side, plane);
        let theirs = other.plane(side, plane);
        assert forall|b: int| 0 <= b < mine.len() implies #[trigger] mine[b] =~= theirs[b] by {
            assert forall|a: int| 0 <= a < mine[b].len() implies #[trigger] mine[b][a]
                == theirs[b][a] by {
                if 0 <= plane - 1 < self.size(side.axis()) {
                    self.layer_is_inside(side.axis(), plane - 1, a, b);
                }
                if 0 <= plane < self.size(side.axis()) {
                    self.layer_is_inside(side.axis(), plane, a, b);
                }
            }
        }
        assert(mine =~= theirs);
    }

    /// Two grids of the same sizes whose cells agree at every position have
    /// the same parts in the first `n` planes of a side.
    pub proof fn same_cells_same_sweep(self, other: Grid, side: Side, n: nat)
        requires
            self.size_x == other.size_x,
            self.size_y == other.size_y,
            self.size_z == other.size_z,
            forall|x: int, y: int, z: int|
                self.contains(x, y, z) ==> self.at(x, y, z) == other.at(x, y, z),
        ensures
            self.sweep_to(side, n) == other.sweep_to(side, n),
        decreases n,
    {
        if n > 0 {
            self.same_cells_same_sweep(other, side, (n - 1) as nat);
            self.same_cells_same_plane(other, side, n - 1);
        }
    }

    /// The mesh is a function of the grid, and of nothing in it but its sizes
    /// and the cells at its positions: two grids that agree in these have the
    /// same mesh, part for part and in the same order.
    pub proof fn same_cells_same_mesh(self, other: Grid)
        requires
            self.size_x == other.size_x,
            self.size_y == other.size_y,
            self.size_z == other.size_z,
            forall|x: int, y: int, z: int|
                self.contains(x, y, z) ==> self.at(x, y, z) == other.at(x, y, z),
        ensures
            self.mesh() == other.mesh(),
    {
        self.same_cells_same_sweep(other, Side::Right, self.depth(Side::Right) + 1);
        self.same_cells_same_sweep(other, Side::Top, self.depth(Side::Top) + 1);
        self.same_cells_same_sweep(other, Side::Front, self.depth(Side::Front) + 1);
        self.same_cells_same_sweep(other, Side::Left, self.depth(Side::Left) + 1);
        self.same_cells_same_sweep(other, Side::Bottom, self.depth(Side::Bottom) + 1);
        self.same_cells_same_sweep(other, Side::Back, self.depth(Side::Back) + 1);
    }

    /// Nothing shows in any plane of a grid whose cells are all empty.
    pub proof fn blank_grid_shows_nothing(self, side: Side, plane: int)
        requires
            self.is_blank(),
        ensures
            blank(self.plane(side, plane)),
            self.slab(side, plane) == Seq::<(Quad, Color)>::empty(),
    {
        let faces = self.plane(side, plane);
        assert forall|a: int, b: int|
            0 <= b < faces.len() && 0 <= a < faces[b].len() implies #[trigger] faces[b][a]
            == Voxel::Empty by {
            if 0 <= plane - 1 < self.size(side.axis()) {
                self.layer_is_inside(side.axis(), plane - 1, a, b);
            }
            if 0 <= plane < self.size(side.axis()) {
                self.layer_is_inside(side.axis(), plane, a, b);
            }
        }
        self.plane_is_rectangular(side, plane);
        merge_of_blank(faces, self.width(side) as int, self.height(side) as int, 0, 0);
        assert(self.slab(side, plane) =~= Seq::<(Quad, Color)>::empty());
    }

    /// A sweep of a grid whose cells are all empty finds no part.
    pub proof fn blank_grid_sweeps_empty(self, side: Side, n: nat)
        requires
            self.is_blank(),
        ensures
            self.sweep_to(side, n) == Seq::<(Quad, Color)>::empty(),
        decreases n,
    {
        if n > 0 {
            self.blank_grid_sweeps_empty(side, (n - 1) as nat);
            self.blank_grid_shows_nothing(side, n - 1);
        }
    }

    /// A grid whose cells are all empty, whatever its sizes, has the empty
    /// mesh.
    pub proof fn blank_grid_has_empty_mesh(self)
        requires
            self.is_blank(),
        ensures
            self.mesh() == Seq::<(Quad, Color)>::empty(),
    {
        self.blank_grid_sweeps_empty(Side::Right, self.depth(Side::Right) + 1);
        self.blank_grid_sweeps_empty(Side::Top, self.depth(Side::Top) + 1);
        self.blank_grid_sweeps_empty(Side::Front, self.depth(Side::Front) + 1);
        self.blank_grid_sweeps_empty(Side::Left, self.depth(Side::Left) + 1);
        self.blank_grid_sweeps_empty(Side::Bottom, self.depth(Side::Bottom) + 1);
        self.blank_grid_sweeps_empty(Side::Back, self.depth(Side::Back) + 1);
    }
}

impl Matrix {
    /// The number of layers, of columns and of rows that a sweep for `side`
    /// goes through.
    fn extents(&self, side: Side) -> (e: (usize, usize, usize))
        ensures
            e.0 == self@.depth(side),
            e.1 == self@.width(side),
            e.2 == self@.height(side),
    {
        let count = self.block_count();
        match side {
            Side::Right | Side::Left => (count.x, count.y, count.z),
            Side::Top | Side::Bottom => (count.y, count.z, count.x),
            Side::Front | Side::Back => (count.z, count.x, count.y),
        }
    }

    /// The cell in layer `u` across the axis of `side`, column `a` and row
    /// `b`.
    fn cell(&self, side: Side, u: usize, a: usize, b: usize) -> (v: Voxel)
        requires
            self@.wf(),
            u < self@.depth(side),
            a < self@.width(side),
            b < self@.height(side),
        ensures
            Some(v) == self@.layer(side.axis(), u as int, a as int, b as int),
    {
        proof {
            self@.layer_is_inside(side.axis(), u as int, a as int, b as int);
        }
        let (x, y, z) = arrange(side.axis_index(), u, a, b);
        *self.lookup(Position::new(x, y, z))
    }

    /// What shows to `side` in the plane at `plane`, in column `a` of row
    /// `b`.
    fn face(&self, side: Side, plane: usize, a: usize, b: usize) -> (v: Voxel)
        requires
            self@.wf(),
            plane <= self@.depth(side),
            a < self@.width(side),
            b < self@.height(side),
        ensures
            v == self@.face(side, plane as int, a as int, b as int),
    {
        let (depth, _, _) = self.extents(side);
        let before = if plane >= 1 {
            Some(self.cell(side, plane - 1, a, b))
        } else {
            None
        };
        let after = if plane < depth {
            Some(self.cell(side, plane, a, b))
        } else {
            None
        };
        match (before, after) {
            (Some(near), Some(far)) => {
                if near == far {
                    Voxel::Empty
                } else if side.looks_back() {
                    far
                } else {
                    near
                }
            },
            (Some(near), None) => {
                if side.looks_back() {
                    Voxel::Empty
                } else {
                    near
                }
            },
            (None, Some(far)) => {
                if side.looks_back() {
                    far
                } else {
                    Voxel::Empty
                }
            },
            (None, None) => Voxel::Empty,
        }
    }

    /// Fills `mask` with the faces that show to `side` in the plane at
    /// `plane`, row after row.
    fn fill_mask(&self, side: Side, plane: usize, mask: &mut Vec<Voxel>)
        requires
            self@.wf(),
            plane <= self@.depth(side),
            old(mask).len() == self@.width(side) * self@.height(side),
        ensures
            final(mask).len() == old(mask).len(),
            rows(final(mask)@, self@.width(side) as int, self@.height(side) as int)
                == self@.plane(side, plane as int),
    {
        let (_, width, height) = self.extents(side);
        let mut n: usize = 0;
        let mut b: usize = 0;
        while b < height
            invariant
                self@.wf(),
                plane <= self@.depth(side),
                width == self@.width(side),
                height == self@.height(side),
                mask.len() == width * height,
                b <= height,
                n == b * width,
                forall|i: int, j: int|
                    0 <= i < width && 0 <= j < b ==> #[trigger] mask@[i + j * width]
                        == self@.face(side, plane as int, i, j),
            decreases height - b,
        {
            let mut a: usize = 0;
            while a < width
                invariant
                    self@.wf(),
                    plane <= self@.depth(side),
                    width == self@.width(side),
                    height == self@.height(side),
                    mask.len() == width * height,
                    b < height,
                    a <= width,
                    n == a + b * width,
                    forall|i: int, j: int|
                        0 <= i < width && 0 <= j < b ==> #[trigger] mask@[i + j * width]
                            == self@.face(side, plane as int, i, j),
                    forall|i: int|
                        0 <= i < a ==> #[trigger] mask@[i + b * width] == self@.face(
                            side,
                            plane as int,
                            i,
                            b as int,
                        ),
                decreases width - a,
            {
                let v = self.face(side, plane, a, b);
                let ghost before = mask@;
                proof {
                    crate::greedy::cell_has_place(width as int, height as int, a as int, b as int);
                }
                mask.set(n, v);
                proof {
                    assert forall|i: int, j: int|
                        0 <= i < width && 0 <= j < b implies #[trigger] mask@[i + j * width]
                        == self@.face(side, plane as int, i, j) by {
                        crate::greedy::cell_has_place(width as int, height as int, i, j);
                        if i + j * width == n {
                            crate::greedy::cells_apart(width as int, i, j, a as int, b as int);
                        }
                        assert(mask@[i + j * width] == before[i + j * width]);
                    }
                    assert forall|i: int| 0 <= i < a + 1 implies #[trigger] mask@[i + b * width]
                        == self@.face(side, plane as int, i, b as int) by {
                        if i < a {
                            assert(mask@[i + b * width] == before[i + b * width]);
                        }
                    }
                }
                a = a + 1;
                n = n + 1;
            }
            proof {
                assert((b + 1) * width == b * width + width) by (nonlinear_arith);
            }
            b = b + 1;
        }
        proof {
            let stored = rows(mask@, width as int, height as int);
            let faces = self@.plane(side, plane as int);
            assert(stored.len() == faces.len());
            assert forall|j: int| 0 <= j < stored.len() implies #[trigger] stored[j]
                =~= faces[j] by {
                assert forall|i: int| 0 <= i < stored[j].len() implies #[trigger] stored[j][i]
                    == faces[j][i] by {
                    assert(stored[j][i] == mask@[i + j * width]);
                }
            }
            assert(stored =~= faces);
        }
    }

    /// Appends the parts on `side` in the plane at `plane` to `parts`, with
    /// `mask` as scratch space.
    fn slab(&self, side: Side, plane: usize, mask: &mut Vec<Voxel>, parts: &mut Vec<(Quad, Color)>)
        requires
            self@.wf(),
            plane <= self@.depth(side),
            old(mask).len() == self@.width(side) * self@.height(side),
        ensures
            final(mask).len() == old(mask).len(),
            final(parts)@ == old(parts)@ + self@.slab(side, plane as int),
    {
        let (_, width, height) = self.extents(side);
        self.fill_mask(side, plane, mask);
        merge_plane(mask, width, height, side, plane, parts);
    }

    /// Appends the parts on `side` to `parts`.
    fn sweep(&self, side: Side, parts: &mut Vec<(Quad, Color)>)
        requires
            self@.wf(),
            self@.size_x >= 1,
            self@.size_y >= 1,
            self@.size_z >= 1,
        ensures
            final(parts)@ == old(parts)@ + self@.sweep(side),
    {
        let (depth, width, height) = self.extents(side);
        proof {
            self@.plane_fits(side);
        }
        let mut mask: Vec<Voxel> = vec![Voxel::Empty; width * height];
        assert(parts@ + self@.sweep_to(side, 0) =~= parts@);
        let mut plane: usize = 0;
        while plane < depth
            invariant
                self@.wf(),
                depth == self@.depth(side),
                mask.len() == self@.width(side) * self@.height(side),
                plane <= depth,
                parts@ == old(parts)@ + self@.sweep_to(side, plane as nat),
            decreases depth - plane,
        {
            self.slab(side, plane, &mut mask, parts);
            assert(parts@ =~= old(parts)@ + self@.sweep_to(side, (plane + 1) as nat));
            plane = plane + 1;
        }
        self.slab(side, depth, &mut mask, parts);
        assert(parts@ =~= old(parts)@ + self@.sweep_to(side, (depth + 1) as nat));
    }

    /// The mesh of the matrix: one part for each rectangle of faces that
    /// greedy merging finds, side by side and plane by plane. The result is
    /// the mesh of the grid that the matrix holds, so that meshing the same
    /// matrix again gives the same parts in the same order.
    pub fn mesh_parts(&self) -> (parts: Vec<(Quad, Color)>)
        ensures
            self@.wf(),
            parts@ == self@.mesh(),
    {
        let mut parts: Vec<(Quad, Color)> = Vec::new();
        let count = self.block_count();
        if count.x == 0 || count.y == 0 || count.z == 0 {
            proof {
                self@.blank_grid_has_empty_mesh();
            }
            return parts;
        }
        self.sweep(Side::Right, &mut parts);
        self.sweep(Side::Top, &mut parts);
        self.sweep(Side::Front, &mut parts);
        self.sweep(Side::Left, &mut parts);
        self.sweep(Side::Bottom, &mut parts);
        self.sweep(Side::Back, &mut parts);
        assert(parts@ =~= self@.mesh());
        parts
    }
}

} // verus!
