//! The mesh of a box filled with one color: six parts, one over each side of
//! the box, however long the sides are.

use vstd::prelude::*;
use crate::greedy::{merge_of_blank, merge_of_uniform, uniform};
use crate::matrix::Grid;
use crate::quad::{Normal, Quad, Side};
use crate::voxel::{Color, Voxel};

verus! {

impl Grid {
    /// Whether every cell of the grid is solid with `color`.
    pub open spec fn is_filled(self, color: Color) -> bool {
        forall|x: int, y: int, z: int|
            self.contains(x, y, z) ==> self.at(x, y, z) == Voxel::Solid(color)
    }

    /// The plane in which the outside of the grid shows to `side`: behind the
    /// last layer for a front side, before the first layer for a back side.
    pub open spec fn outer_plane(self, side: Side) -> int {
        if side.is_back() {
            0
        } else {
            self.depth(side) as int
        }
    }

    /// The part that covers the whole of `side` with `color`.
    pub open spec fn cover_of(self, side: Side, color: Color) -> (Quad, Color) {
        (
            Quad::on(
                side,
                self.outer_plane(side),
                0,
                0,
                self.width(side) as int,
                self.height(side) as int,
            ),
            color,
        )
    }

    /// In a filled box every face of the outer plane of a side shows, and no
    /// face of any other plane: the outer plane gives one part, the others
    /// none.
    pub proof fn filled_box_slab(self, side: Side, plane: int, color: Color)
        requires
            self.size_x >= 1,
            self.size_y >= 1,
            self.size_z >= 1,
            self.is_filled(color),
            0 <= plane <= self.depth(side),
        ensures
            self.slab(side, plane) == if plane == self.outer_plane(side) {
                seq![self.cover_of(side, color)]
            } else {
                Seq::<(Quad, Color)>::empty()
            },
    {
        let faces = self.plane(side, plane);
        let width = self.width(side) as int;
        let height = self.height(side) as int;
        self.plane_is_rectangular(side, plane);
        let shown = if plane == self.outer_plane(side) {
            Voxel::Solid(color)
        } else {
            Voxel::Empty
        };
        assert forall|a: int, b: int|
            0 <= b < faces.len() && 0 <= a < faces[b].len() implies #[trigger] faces[b][a]
            == shown by {
            if 0 <= plane - 1 < self.size(side.axis()) {
                self.layer_is_inside(side.axis(), plane - 1, a, b);
            }
            if 0 <= plane < self.size(side.axis()) {
                self.layer_is_inside(side.axis(), plane, a, b);
            }
        }
        if plane == self.outer_plane(side) {
            assert(uniform(faces, color));
            merge_of_uniform(faces, width, height, color);
            assert(self.slab(side, plane) =~= seq![self.cover_of(side, color)]);
        } else {
            merge_of_blank(faces, width, height, 0, 0);
            assert(self.slab(side, plane) =~= Seq::<(Quad, Color)>::empty());
        }
    }

    /// The sweep of a filled box for a side has found its one part once it
    /// has passed the outer plane of the side, and nothing before.
    pub proof fn filled_box_sweep(self, side: Side, n: nat, color: Color)
        requires
            self.size_x >= 1,
            self.size_y >= 1,
            self.size_z >= 1,
            self.is_filled(color),
            n <= self.depth(side) + 1,
        ensures
            self.sweep_to(side, n) == if n > self.outer_plane(side) {
                seq![self.cover_of(side, color)]
            } else {
                Seq::<(Quad, Color)>::empty()
            },
        decreases n,
    {
        if n > 0 {
            self.filled_box_sweep(side, (n - 1) as nat, color);
            self.filled_box_slab(side, n - 1, color);
            assert(self.sweep_to(side, n) =~= if n > self.outer_plane(side) {
                seq![self.cover_of(side, color)]
            } else {
                Seq::<(Quad, Color)>::empty()
            });
        }
    }

    /// The mesh of a box filled with one color has six parts of that color,
    /// one over each side of the box, in the order of the sides.
    pub proof fn filled_box_has_six_parts(self, color: Color)
        requires
            self.size_x >= 1,
            self.size_y >= 1,
            self.size_z >= 1,
            self.is_filled(color),
        ensures
            self.mesh() == seq![
                self.cover_of(Side::Right, color),
                self.cover_of(Side::Top, color),
                self.cover_of(Side::Front, color),
                self.cover_of(Side::Left, color),
                self.cover_of(Side::Bottom, color),
                self.cover_of(Side::Back, color),
            ],
    {
        self.filled_box_sweep(Side::Right, self.depth(Side::Right) + 1, color);
        self.filled_box_sweep(Side::Top, self.depth(Side::Top) + 1, color);
        self.filled_box_sweep(Side::Front, self.depth(Side::Front) + 1, color);
        self.filled_box_sweep(Side::Left, self.depth(Side::Left) + 1, color);
        self.filled_box_sweep(Side::Bottom, self.depth(Side::Bottom) + 1, color);
        self.filled_box_sweep(Side::Back, self.depth(Side::Back) + 1, color);
        assert(self.mesh() =~= seq![
            self.cover_of(Side::Right, color),
            self.cover_of(Side::Top, color),
            self.cover_of(Side::Front, color),
            self.cover_of(Side::Left, color),
            self.cover_of(Side::Bottom, color),
            self.cover_of(Side::Back, color),
        ]);
    }

    /// A row of `n` cells of one color along x has six parts: one over each
    /// of its four long sides, `n` cells long and one cell wide, and one over
    /// each of its two ends.
    pub proof fn row_has_six_parts(self, n: int, color: Color)
        requires
            1 <= n <= usize::MAX,
            self.size_x == n,
            self.size_y == 1,
            self.size_z == 1,
            self.is_filled(color),
        ensures
            self.mesh() == seq![
                (Quad::on(Side::Right, n, 0, 0, 1, 1), color),
                (Quad::on(Side::Top, 1, 0, 0, 1, n), color),
                (Quad::on(Side::Front, 1, 0, 0, n, 1), color),
                (Quad::on(Side::Left, 0, 0, 0, 1, 1), color),
                (Quad::on(Side::Bottom, 0, 0, 0, 1, n), color),
                (Quad::on(Side::Back, 0, 0, 0, n, 1), color),
            ],
            self.mesh()[0].0.area() == 1,
            self.mesh()[1].0.area() == n,
            self.mesh()[2].0.area() == n,
            self.mesh()[3].0.area() == 1,
            self.mesh()[4].0.area() == n,
            self.mesh()[5].0.area() == n,
    {
        self.filled_box_has_six_parts(color);
        assert(1 * n == n && n * 1 == n && 1 * 1 == 1) by (nonlinear_arith);
    }

    /// A single cell of one color has six parts, each over one face of the
    /// cell, and their normals are the six directions along the axes.
    pub proof fn single_cell_has_six_unit_parts(self, color: Color)
        requires
            self.size_x == 1,
            self.size_y == 1,
            self.size_z == 1,
            self.is_filled(color),
        ensures
            self.mesh().len() == 6,
            forall|k: int|
                0 <= k < 6 ==> (#[trigger] self.mesh()[k]).0.area() == 1 && self.mesh()[k].1
                    == color,
            self.mesh()[0].0.normal == (Normal { x: 1, y: 0, z: 0 }),
            self.mesh()[1].0.normal == (Normal { x: 0, y: 1, z: 0 }),
            self.mesh()[2].0.normal == (Normal { x: 0, y: 0, z: 1 }),
            self.mesh()[3].0.normal == (Normal { x: -1i8, y: 0, z: 0 }),
            self.mesh()[4].0.normal == (Normal { x: 0, y: -1i8, z: 0 }),
            self.mesh()[5].0.normal == (Normal { x: 0, y: 0, z: -1i8 }),
    {
        self.row_has_six_parts(1, color);
    }
}

} // verus!
