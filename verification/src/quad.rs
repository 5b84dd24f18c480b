//! The geometry of a mesh part: the six sides of a grid and the quad that
//! covers a rectangle of visible cell faces on one of them.

use vstd::prelude::*;

verus! {

/// A corner of a quad, in grid coordinates: the cell at `(x, y, z)` fills
/// the cube from `(x, y, z)` to `(x + 1, y + 1, z + 1)`.
#[derive(Clone, Copy, Debug, PartialEq, Eq, Structural)]
pub struct Vertex {
    pub x: usize,
    pub y: usize,
    pub z: usize,
}

/// A direction along one axis: one component is `1` or `-1`, the others are
/// zero.
#[derive(Clone, Copy, Debug, PartialEq, Eq, Structural)]
pub struct Normal {
    pub x: i8,
    pub y: i8,
    pub z: i8,
}

/// A texture coordinate.
#[derive(Clone, Copy, Debug, PartialEq, Eq, Structural)]
pub struct TexCoord {
    pub u: u8,
    pub v: u8,
}

/// The side of the grid that a face looks out of. The three front sides look
/// along an axis, the three back sides against it.
#[derive(Clone, Copy, Debug, PartialEq, Eq, Structural)]
pub enum Side {
    Right,
    Top,
    Front,
    Left,
    Bottom,
    Back,
}

/// The point with coordinate `u` along `axis`, `a` along the axis after it and
/// `b` along the axis after that, the axes taken in the cycle x, y, z.
pub open spec fn place(axis: int, u: int, a: int, b: int) -> (int, int, int) {
    if axis == 0 {
        (u, a, b)
    } else if axis == 1 {
        (b, u, a)
    } else {
        (a, b, u)
    }
}

/// The cross product of two vectors.
pub open spec fn cross(u: (int, int, int), v: (int, int, int)) -> (int, int, int) {
    (u.1 * v.2 - u.2 * v.1, u.2 * v.0 - u.0 * v.2, u.0 * v.1 - u.1 * v.0)
}

/// Two vectors in a plane across `axis` have a cross product along `axis`.
pub proof fn cross_of_steps(axis: int, s1: int, t1: int, s2: int, t2: int)
    ensures
        cross(place(axis, 0, s1, t1), place(axis, 0, s2, t2)) == place(
            axis,
            s1 * t2 - t1 * s2,
            0,
            0,
        ),
{
    assert(0 * s1 == 0 && 0 * s2 == 0 && 0 * t1 == 0 && 0 * t2 == 0 && s1 * 0 == 0 && s2 * 0 == 0
        && t1 * 0 == 0 && t2 * 0 == 0 && t1 * s2 == s2 * t1 && s1 * t2 == t2 * s1)
        by (nonlinear_arith);
}

/// The coordinates of `place(axis, u, a, b)`.
pub(crate) fn arrange(axis: usize, u: usize, a: usize, b: usize) -> (p: (usize, usize, usize))
    requires
        axis < 3,
    ensures
        (p.0 as int, p.1 as int, p.2 as int) == place(axis as int, u as int, a as int, b as int),
{
    if axis == 0 {
        (u, a, b)
    } else if axis == 1 {
        (b, u, a)
    } else {
        (a, b, u)
    }
}

impl Side {
    /// The axis that the side is perpendicular to: 0 for x, 1 for y, 2 for z.
    pub open spec fn axis(self) -> int {
        match self {
            Side::Right | Side::Left => 0,
            Side::Top | Side::Bottom => 1,
            Side::Front | Side::Back => 2,
        }
    }

    /// The place of the side in the order in which the sides are swept.
    pub open spec fn rank(self) -> int {
        match self {
            Side::Right => 0,
            Side::Top => 1,
            Side::Front => 2,
            Side::Left => 3,
            Side::Bottom => 4,
            Side::Back => 5,
        }
    }

    /// Whether the side looks against its axis.
    pub open spec fn is_back(self) -> bool {
        match self {
            Side::Right | Side::Top | Side::Front => false,
            Side::Left | Side::Bottom | Side::Back => true,
        }
    }

    /// The direction that the side looks in.
    pub open spec fn normal(self) -> Normal {
        match self {
            Side::Right => Normal { x: 1, y: 0, z: 0 },
            Side::Left => Normal { x: -1i8, y: 0, z: 0 },
            Side::Top => Normal { x: 0, y: 1, z: 0 },
            Side::Bottom => Normal { x: 0, y: -1i8, z: 0 },
            Side::Front => Normal { x: 0, y: 0, z: 1 },
            Side::Back => Normal { x: 0, y: 0, z: -1i8 },
        }
    }

    /// The order in which the corners of a quad on this side make its two
    /// triangles, so that both face outward.
    pub open spec fn indices(self) -> [u32; 6] {
        if self.is_back() {
            [2, 0, 1, 1, 3, 2]
        } else {
            [2, 3, 1, 1, 0, 2]
        }
    }

    /// The axis that the side is perpendicular to: 0 for x, 1 for y, 2 for z.
    pub fn axis_index(self) -> (axis: usize)
        ensures
            axis == self.axis(),
    {
        match self {
            Side::Right | Side::Left => 0,
            Side::Top | Side::Bottom => 1,
            Side::Front | Side::Back => 2,
        }
    }

    /// Whether the side looks against its axis.
    pub fn looks_back(self) -> (back: bool)
        ensures
            back == self.is_back(),
    {
        match self {
            Side::Right | Side::Top | Side::Front => false,
            Side::Left | Side::Bottom | Side::Back => true,
        }
    }

    /// The direction that the side looks in.
    pub fn facing(self) -> (normal: Normal)
        ensures
            normal == self.normal(),
    {
        match self {
            Side::Right => Normal { x: 1, y: 0, z: 0 },
            Side::Left => Normal { x: -1, y: 0, z: 0 },
            Side::Top => Normal { x: 0, y: 1, z: 0 },
            Side::Bottom => Normal { x: 0, y: -1, z: 0 },
            Side::Front => Normal { x: 0, y: 0, z: 1 },
            Side::Back => Normal { x: 0, y: 0, z: -1 },
        }
    }

    /// The order in which the corners of a quad on this side make its two
    /// triangles.
    pub fn winding(self) -> (indices: [u32; 6])
        ensures
            indices == self.indices(),
    {
        if self.looks_back() {
            [2, 0, 1, 1, 3, 2]
        } else {
            [2, 3, 1, 1, 0, 2]
        }
    }
}

impl Vertex {
    /// The vertex at `place(axis, u, a, b)`.
    pub open spec fn at(axis: int, u: int, a: int, b: int) -> Vertex {
        let (x, y, z) = place(axis, u, a, b);
        Vertex { x: x as usize, y: y as usize, z: z as usize }
    }

    /// The number of unit steps along the axes from one vertex to the other.
    pub open spec fn distance(self, other: Vertex) -> nat {
        vstd::math::abs(self.x - other.x) + vstd::math::abs(self.y - other.y) + vstd::math::abs(
            self.z - other.z,
        )
    }

    /// The steps along x, y and z from the vertex to `other`.
    pub open spec fn to(self, other: Vertex) -> (int, int, int) {
        (other.x - self.x, other.y - self.y, other.z - self.z)
    }

    /// The coordinate of the vertex along `axis`.
    pub open spec fn along(self, axis: int) -> int {
        if axis == 0 {
            self.x as int
        } else if axis == 1 {
            self.y as int
        } else {
            self.z as int
        }
    }

    /// The vertex at `place(axis, u, a, b)`.
    fn place(axis: usize, u: usize, a: usize, b: usize) -> (v: Vertex)
        requires
            axis < 3,
        ensures
            v == Vertex::at(axis as int, u as int, a as int, b as int),
    {
        let (x, y, z) = arrange(axis, u, a, b);
        Vertex { x, y, z }
    }
}

/// Two triangles that cover a rectangle of cell faces.
#[derive(Clone, Copy, Debug)]
pub struct Quad {
    /// The corners: the origin, the origin moved along the second in-plane
    /// axis, the origin moved along the first, and the origin moved along
    /// both.
    pub positions: [Vertex; 4],
    /// The direction that all four corners face.
    pub normal: Normal,
    /// The texture coordinate of all four corners.
    pub uv: TexCoord,
    /// The corners of the two triangles, as indices into `positions`.
    pub indices: [u32; 6],
}

impl Quad {
    /// The quad on `side`, in the plane at `plane` along the side's axis, that
    /// covers the columns `a .. a + w` of the rows `b .. b + h`.
    pub open spec fn on(side: Side, plane: int, a: int, b: int, w: int, h: int) -> Quad {
        let axis = side.axis();
        Quad {
            positions: [
                Vertex::at(axis, plane, a, b),
                Vertex::at(axis, plane, a, b + h),
                Vertex::at(axis, plane, a + w, b),
                Vertex::at(axis, plane, a + w, b + h),
            ],
            normal: side.normal(),
            uv: TexCoord { u: 0, v: 0 },
            indices: side.indices(),
        }
    }

    /// Whether the quad lies on `side` in the plane at `plane` and covers the
    /// cell in column `a` of row `b` there.
    pub open spec fn covers(self, side: Side, plane: int, a: int, b: int) -> bool {
        let first = (side.axis() + 1) % 3;
        let second = (side.axis() + 2) % 3;
        &&& self.normal == side.normal()
        &&& self.positions[0].along(side.axis()) == plane
        &&& self.positions[0].along(first) <= a < self.positions[3].along(first)
        &&& self.positions[0].along(second) <= b < self.positions[3].along(second)
    }

    /// How far the quad reaches along its first in-plane axis.
    pub open spec fn width(self) -> nat {
        self.positions[0].distance(self.positions[2])
    }

    /// How far the quad reaches along its second in-plane axis.
    pub open spec fn height(self) -> nat {
        self.positions[0].distance(self.positions[1])
    }

    /// The number of cell faces that the quad covers.
    pub open spec fn area(self) -> nat {
        self.width() * self.height()
    }

    /// The quad over a rectangle is as wide and as high as the rectangle, and
    /// covers as many cell faces as the rectangle has cells.
    pub proof fn quad_spans_its_rectangle(side: Side, plane: int, a: int, b: int, w: int, h: int)
        requires
            0 <= plane <= usize::MAX,
            0 <= a,
            0 <= b,
            0 <= w,
            0 <= h,
            a + w <= usize::MAX,
            b + h <= usize::MAX,
        ensures
            Quad::on(side, plane, a, b, w, h).width() == w,
            Quad::on(side, plane, a, b, w, h).height() == h,
            Quad::on(side, plane, a, b, w, h).area() == w * h,
    {
    }

    /// Twice the area of the triangle with the corners `i`, `j` and `k` of the
    /// quad, as a vector that stands on the side of the triangle from which
    /// the three corners are seen to follow each other counter-clockwise: the
    /// cross product of the edges from `i` to `j` and from `i` to `k`.
    pub open spec fn turn(self, i: int, j: int, k: int) -> (int, int, int) {
        cross(self.positions[i].to(self.positions[j]), self.positions[i].to(self.positions[k]))
    }

    /// Both triangles of a quad face the way of its normal: seen from the
    /// side that the normal points to, the corners of each follow each other
    /// counter-clockwise, and each triangle is half of the rectangle.
    pub proof fn triangles_face_outward(side: Side, plane: int, a: int, b: int, w: int, h: int)
        requires
            0 <= plane <= usize::MAX,
            0 <= a,
            0 <= b,
            0 <= w,
            0 <= h,
            a + w <= usize::MAX,
            b + h <= usize::MAX,
        ensures
            ({
                let quad = Quad::on(side, plane, a, b, w, h);
                let n = quad.normal;
                let out = (w * h * n.x, w * h * n.y, w * h * n.z);
                &&& quad.turn(
                    quad.indices[0] as int,
                    quad.indices[1] as int,
                    quad.indices[2] as int,
                ) == out
                &&& quad.turn(
                    quad.indices[3] as int,
                    quad.indices[4] as int,
                    quad.indices[5] as int,
                ) == out
            }),
    {
        let quad = Quad::on(side, plane, a, b, w, h);
        let origin = quad.positions[0];
        let up = quad.positions[1];
        let right = quad.positions[2];
        let far = quad.positions[3];
        // The edges of the two triangles, as steps along the two axes of the
        // plane: `s` along the first and `t` along the second.
        let step = |s: int, t: int| place(side.axis(), 0, s, t);
        assert(right.to(far) == step(0, h));
        assert(right.to(up) == step(-w, h));
        assert(right.to(origin) == step(-w, 0));
        assert(up.to(origin) == step(0, -h));
        assert(up.to(right) == step(w, -h));
        assert(up.to(far) == step(w, 0));
        cross_of_steps(side.axis(), 0, h, -w, h);
        cross_of_steps(side.axis(), 0, -h, w, -h);
        cross_of_steps(side.axis(), -w, 0, -w, h);
        cross_of_steps(side.axis(), w, 0, w, -h);
        assert(w * h * 0 == 0 && w * h * 1 == w * h && w * h * (-1) == -(w * h) && 0 * h - h * (-w)
            == w * h && 0 * (-h) - (-h) * w == w * h && (-w) * h - 0 * (-w) == -(w * h) && w * (-h)
            - 0 * w == -(w * h)) by (nonlinear_arith);
    }

    /// The quad on `side`, in the plane at `plane` along the side's axis, that
    /// covers the columns `a .. a + w` of the rows `b .. b + h`.
    pub fn new(side: Side, plane: usize, a: usize, b: usize, w: usize, h: usize) -> (quad: Quad)
        requires
            a + w <= usize::MAX,
            b + h <= usize::MAX,
        ensures
            quad == Quad::on(side, plane as int, a as int, b as int, w as int, h as int),
    {
        let axis = side.axis_index();
        Quad {
            positions: [
                Vertex::place(axis, plane, a, b),
                Vertex::place(axis, plane, a, b + h),
                Vertex::place(axis, plane, a + w, b),
                Vertex::place(axis, plane, a + w, b + h),
            ],
            normal: side.facing(),
            uv: TexCoord { u: 0, v: 0 },
            indices: side.winding(),
        }
    }
}

} // verus!
