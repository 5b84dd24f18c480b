//! What a mesh covers.
//!
//! A face shows to a side in a plane of the grid, in one column and row. The
//! mesh covers the faces that show, each with exactly one part, and its parts
//! cover nothing else: no face of another color, no place where nothing
//! shows, and so no seam between two equal cells.

use vstd::prelude::*;
use crate::greedy::{merge, merge_is_complete, merge_is_disjoint, merge_is_sound, Patch};
use crate::matrix::Grid;
use crate::quad::{Quad, Side};
use crate::voxel::{Color, Voxel};

verus! {

/// Where a part of a mesh comes from: the side and the plane whose faces it
/// covers, and its place among the parts of that plane.
pub struct Origin {
    pub side: Side,
    pub plane: int,
    pub index: int,
}

impl Origin {
    /// Whether the part from this origin is found before the part from
    /// `other`: on an earlier side, or on the same side in an earlier plane,
    /// or in the same plane as an earlier rectangle.
    pub open spec fn comes_before(self, other: Origin) -> bool {
        ||| self.side.rank() < other.side.rank()
        ||| self.side == other.side && self.plane < other.plane
        ||| self.side == other.side && self.plane == other.plane && self.index < other.index
    }
}

impl Grid {
    /// The parts of the sides that are swept before `side`.
    pub open spec fn before(self, side: Side) -> Seq<(Quad, Color)> {
        match side {
            Side::Right => Seq::empty(),
            Side::Top => self.sweep(Side::Right),
            Side::Front => self.sweep(Side::Right) + self.sweep(Side::Top),
            Side::Left => self.sweep(Side::Right) + self.sweep(Side::Top) + self.sweep(Side::Front),
            Side::Bottom => self.sweep(Side::Right) + self.sweep(Side::Top) + self.sweep(
                Side::Front,
            ) + self.sweep(Side::Left),
            Side::Back => self.sweep(Side::Right) + self.sweep(Side::Top) + self.sweep(Side::Front)
                + self.sweep(Side::Left) + self.sweep(Side::Bottom),
        }
    }

    /// The rectangles that the faces of one plane are merged into.
    pub open spec fn patches(self, side: Side, plane: int) -> Seq<Patch> {
        merge(self.plane(side, plane), self.width(side) as int, self.height(side) as int)
    }

    /// Whether `origin` names a part of the mesh.
    pub open spec fn has(self, origin: Origin) -> bool {
        &&& 0 <= origin.plane <= self.depth(origin.side)
        &&& 0 <= origin.index < self.patches(origin.side, origin.plane).len()
    }

    /// The place in the mesh of the part that comes from `origin`.
    pub open spec fn place_of(self, origin: Origin) -> int {
        self.before(origin.side).len() + self.sweep_to(origin.side, origin.plane as nat).len()
            + origin.index
    }

    /// The part that comes from `origin`.
    pub open spec fn part_from(self, origin: Origin) -> (Quad, Color) {
        let patch = self.patches(origin.side, origin.plane)[origin.index];
        (Quad::on(origin.side, origin.plane, patch.a, patch.b, patch.w, patch.h), patch.color)
    }

    /// The parts of one plane stand together in a sweep, behind the parts of
    /// the planes before it.
    pub proof fn slab_lies_in_sweep(self, side: Side, n: nat, plane: int)
        requires
            0 <= plane < n,
        ensures
            self.sweep_to(side, plane as nat).len() + self.slab(side, plane).len()
                <= self.sweep_to(side, n).len(),
            forall|j: int|
                0 <= j < self.slab(side, plane).len() ==> self.sweep_to(side, n)[self.sweep_to(
                    side,
                    plane as nat,
                ).len() + j] == #[trigger] self.slab(side, plane)[j],
        decreases n,
    {
        if plane < n - 1 {
            self.slab_lies_in_sweep(side, (n - 1) as nat, plane);
        }
    }

    /// Every part of a sweep belongs to one of its planes. The result is that
    /// plane.
    pub proof fn plane_of_part(self, side: Side, n: nat, k: int) -> (plane: int)
        requires
            0 <= k < self.sweep_to(side, n).len(),
        ensures
            0 <= plane < n,
            self.sweep_to(side, plane as nat).len() <= k < self.sweep_to(side, plane as nat).len()
                + self.slab(side, plane).len(),
        decreases n,
    {
        if k < self.sweep_to(side, (n - 1) as nat).len() {
            self.plane_of_part(side, (n - 1) as nat, k)
        } else {
            n - 1
        }
    }

    /// The parts of one side stand together in the mesh, behind the parts of
    /// the sides before it.
    pub proof fn sweep_lies_in_mesh(self, side: Side)
        ensures
            self.before(side).len() + self.sweep(side).len() <= self.mesh().len(),
            forall|j: int|
                0 <= j < self.sweep(side).len() ==> self.mesh()[self.before(side).len() + j]
                    == #[trigger] self.sweep(side)[j],
    {
    }

    /// Every part of the mesh belongs to one of the sides. The result is that
    /// side.
    pub proof fn side_of_part(self, k: int) -> (side: Side)
        requires
            0 <= k < self.mesh().len(),
        ensures
            self.before(side).len() <= k < self.before(side).len() + self.sweep(side).len(),
    {
        if k < self.before(Side::Top).len() {
            Side::Right
        } else if k < self.before(Side::Front).len() {
            Side::Top
        } else if k < self.before(Side::Left).len() {
            Side::Front
        } else if k < self.before(Side::Bottom).len() {
            Side::Left
        } else if k < self.before(Side::Back).len() {
            Side::Bottom
        } else {
            Side::Back
        }
    }

    /// Every part of the mesh comes from one rectangle of one plane of one
    /// side. The result names them.
    pub proof fn origin_of(self, k: int) -> (origin: Origin)
        requires
            0 <= k < self.mesh().len(),
        ensures
            self.has(origin),
            self.place_of(origin) == k,
            self.mesh()[k] == self.part_from(origin),
    {
        let side = self.side_of_part(k);
        let ks = k - self.before(side).len();
        self.sweep_lies_in_mesh(side);
        assert(self.mesh()[k] == self.sweep(side)[ks]);
        let plane = self.plane_of_part(side, self.depth(side) + 1, ks);
        let index = ks - self.sweep_to(side, plane as nat).len();
        self.slab_lies_in_sweep(side, self.depth(side) + 1, plane);
        assert(self.sweep(side)[ks] == self.slab(side, plane)[index]);
        Origin { side, plane, index }
    }

    /// Every rectangle of every plane of every side has its part in the
    /// mesh.
    pub proof fn part_is_in_mesh(self, origin: Origin)
        requires
            self.has(origin),
        ensures
            0 <= self.place_of(origin) < self.mesh().len(),
            self.mesh()[self.place_of(origin)] == self.part_from(origin),
    {
        let side = origin.side;
        self.slab_lies_in_sweep(side, self.depth(side) + 1, origin.plane);
        self.sweep_lies_in_mesh(side);
        let ks = self.sweep_to(side, origin.plane as nat).len() + origin.index;
        assert(self.sweep(side)[ks] == self.slab(side, origin.plane)[origin.index]);
        assert(self.mesh()[self.before(side).len() + ks] == self.sweep(side)[ks]);
    }

    /// Two origins with the same place in the mesh are the same origin.
    pub proof fn place_is_origin(self, first: Origin, second: Origin)
        requires
            self.has(first),
            self.has(second),
            self.place_of(first) == self.place_of(second),
        ensures
            first == second,
    {
        self.side_is_unique(first, second);
        let side = first.side;
        if first.plane < second.plane {
            self.sweep_grows(side, first.plane + 1, second.plane);
        }
        if second.plane < first.plane {
            self.sweep_grows(side, second.plane + 1, first.plane);
        }
    }

    /// The parts of the mesh stand in the order of the sweeps: side after
    /// side, in each side plane after plane, and in each plane in the order in
    /// which the rectangles are found.
    pub proof fn parts_stand_in_sweep_order(self, first: Origin, second: Origin)
        requires
            self.has(first),
            self.has(second),
        ensures
            self.place_of(first) < self.place_of(second) <==> first.comes_before(second),
    {
        if first.comes_before(second) {
            self.origins_in_order(first, second);
        } else if second.comes_before(first) {
            self.origins_in_order(second, first);
        } else {
            assert(first == second);
        }
    }

    /// An origin that comes before another has the earlier place in the
    /// mesh.
    proof fn origins_in_order(self, first: Origin, second: Origin)
        requires
            self.has(first),
            self.has(second),
            first.comes_before(second),
        ensures
            self.place_of(first) < self.place_of(second),
    {
        self.slab_lies_in_sweep(first.side, self.depth(first.side) + 1, first.plane);
        if first.side == second.side && first.plane < second.plane {
            self.sweep_grows(first.side, first.plane + 1, second.plane);
        }
    }

    /// The parts of the first `m` planes are the first parts of the first
    /// `n` planes, where `m <= n`.
    pub proof fn sweep_grows(self, side: Side, m: int, n: int)
        requires
            0 <= m <= n,
        ensures
            self.sweep_to(side, m as nat).len() <= self.sweep_to(side, n as nat).len(),
        decreases n - m,
    {
        if m < n {
            self.sweep_grows(side, m, n - 1);
        }
    }

    /// Two origins with the same place in the mesh lie on the same side.
    proof fn side_is_unique(self, first: Origin, second: Origin)
        requires
            self.has(first),
            self.has(second),
            self.place_of(first) == self.place_of(second),
        ensures
            first.side == second.side,
    {
        self.slab_lies_in_sweep(first.side, self.depth(first.side) + 1, first.plane);
        self.slab_lies_in_sweep(second.side, self.depth(second.side) + 1, second.plane);
    }

    /// The quad over a rectangle covers the cells of the rectangle in its
    /// own plane on its own side, and nothing else.
    pub proof fn quad_covers_its_patch(
        side: Side,
        plane: int,
        patch: Patch,
        other: Side,
        at: int,
        a: int,
        b: int,
    )
        requires
            0 <= plane <= usize::MAX,
            0 <= patch.a,
            0 <= patch.b,
            0 <= patch.w,
            0 <= patch.h,
            patch.a + patch.w <= usize::MAX,
            patch.b + patch.h <= usize::MAX,
        ensures
            Quad::on(side, plane, patch.a, patch.b, patch.w, patch.h).covers(other, at, a, b) <==> (
            other == side && at == plane && patch.covers(a, b)),
    {
    }

    /// Soundness of the mesh: where a part covers a column and row of a plane
    /// on a side, a face of the part's color shows there.
    pub proof fn part_covers_faces_of_its_color(
        self,
        k: int,
        side: Side,
        plane: int,
        a: int,
        b: int,
    )
        requires
            self.wf(),
            0 <= k < self.mesh().len(),
            self.mesh()[k].0.covers(side, plane, a, b),
        ensures
            0 <= plane <= self.depth(side),
            0 <= a < self.width(side),
            0 <= b < self.height(side),
            self.face(side, plane, a, b) == Voxel::Solid(self.mesh()[k].1),
    {
        let origin = self.origin_of(k);
        let faces = self.plane(origin.side, origin.plane);
        let width = self.width(origin.side) as int;
        let height = self.height(origin.side) as int;
        let patch = self.patches(origin.side, origin.plane)[origin.index];
        self.plane_is_rectangular(origin.side, origin.plane);
        merge_is_sound(faces, width, height, 0, 0);
        assert(patch.fits(faces, width));
        Self::quad_covers_its_patch(origin.side, origin.plane, patch, side, plane, a, b);
        assert(patch.covers(a, b));
        assert(faces[b][a] == Voxel::Solid(patch.color));
    }

    /// Completeness of the mesh: where a face shows, a part covers it. The
    /// result is the place of that part in the mesh.
    pub proof fn face_is_covered(self, side: Side, plane: int, a: int, b: int) -> (k: int)
        requires
            self.wf(),
            0 <= plane <= self.depth(side),
            0 <= a < self.width(side),
            0 <= b < self.height(side),
            self.face(side, plane, a, b) is Solid,
        ensures
            0 <= k < self.mesh().len(),
            self.mesh()[k].0.covers(side, plane, a, b),
            self.face(side, plane, a, b) == Voxel::Solid(self.mesh()[k].1),
    {
        let faces = self.plane(side, plane);
        let width = self.width(side) as int;
        let height = self.height(side) as int;
        self.plane_is_rectangular(side, plane);
        assert(faces[b][a] == self.face(side, plane, a, b));
        let index = merge_is_complete(faces, width, height, 0, 0, a, b);
        merge_is_sound(faces, width, height, 0, 0);
        let origin = Origin { side, plane, index };
        let patch = self.patches(side, plane)[index];
        assert(patch.fits(faces, width));
        self.part_is_in_mesh(origin);
        Self::quad_covers_its_patch(side, plane, patch, side, plane, a, b);
        self.place_of(origin)
    }

    /// No face is covered twice: two parts that cover the same column and row
    /// of the same plane on the same side are one part.
    pub proof fn parts_share_no_face(
        self,
        k: int,
        m: int,
        side: Side,
        plane: int,
        a: int,
        b: int,
    )
        requires
            self.wf(),
            0 <= k < self.mesh().len(),
            0 <= m < self.mesh().len(),
            self.mesh()[k].0.covers(side, plane, a, b),
            self.mesh()[m].0.covers(side, plane, a, b),
        ensures
            k == m,
    {
        let first = self.origin_of(k);
        let second = self.origin_of(m);
        let width = self.width(side) as int;
        let height = self.height(side) as int;
        self.plane_is_rectangular(first.side, first.plane);
        self.plane_is_rectangular(second.side, second.plane);
        merge_is_sound(
            self.plane(first.side, first.plane),
            self.width(first.side) as int,
            self.height(first.side) as int,
            0,
            0,
        );
        merge_is_sound(
            self.plane(second.side, second.plane),
            self.width(second.side) as int,
            self.height(second.side) as int,
            0,
            0,
        );
        let p = self.patches(first.side, first.plane)[first.index];
        let q = self.patches(second.side, second.plane)[second.index];
        assert(p.fits(self.plane(first.side, first.plane), self.width(first.side) as int));
        assert(q.fits(self.plane(second.side, second.plane), self.width(second.side) as int));
        Self::quad_covers_its_patch(first.side, first.plane, p, side, plane, a, b);
        Self::quad_covers_its_patch(second.side, second.plane, q, side, plane, a, b);
        merge_is_disjoint(self.plane(side, plane), width, height, 0, 0);
        if first.index < second.index {
            assert(!p.overlaps(q));
        }
        if second.index < first.index {
            assert(!q.overlaps(p));
        }
    }

    /// Two cells that follow each other along an axis and are equal have no
    /// part between them: no part covers, on either side across that axis,
    /// the column and row of the two cells in the plane that parts them.
    pub proof fn equal_neighbours_share_no_part(
        self,
        side: Side,
        layer: int,
        a: int,
        b: int,
        k: int,
    )
        requires
            self.wf(),
            0 <= layer,
            layer + 1 < self.depth(side),
            self.layer(side.axis(), layer, a, b) == self.layer(side.axis(), layer + 1, a, b),
            0 <= k < self.mesh().len(),
        ensures
            !self.mesh()[k].0.covers(side, layer + 1, a, b),
    {
        if self.mesh()[k].0.covers(side, layer + 1, a, b) {
            self.part_covers_faces_of_its_color(k, side, layer + 1, a, b);
        }
    }
}

} // verus!
