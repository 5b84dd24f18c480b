//! Greedy merging of one plane of cell faces into rectangles.
//!
//! A plane is a sequence of rows of equal length; a cell is `Solid(c)` where a
//! face of color `c` shows and `Empty` where none does. The plane is scanned
//! row by row. At the first cell that still shows a face, a rectangle is
//! grown to the right as far as the color goes on, then downward as long as
//! the whole next row under it has that color; its cells are cleared, and the
//! scan goes on behind it.

use vstd::prelude::*;
use crate::quad::{Quad, Side};
use crate::voxel::{Color, Voxel};

verus! {

/// A rectangle of cells in a plane: the columns `a .. a + w` of the rows
/// `b .. b + h`, all showing a face of one color.
pub struct Patch {
    pub a: int,
    pub b: int,
    pub w: int,
    pub h: int,
    pub color: Color,
}

impl Patch {
    /// Whether the cell in column `a` of row `b` lies in the rectangle.
    pub open spec fn covers(self, a: int, b: int) -> bool {
        self.a <= a < self.a + self.w && self.b <= b < self.b + self.h
    }

    /// Whether the two rectangles, each at least one cell wide and high,
    /// share a cell.
    pub open spec fn overlaps(self, other: Patch) -> bool {
        &&& self.a < other.a + other.w
        &&& other.a < self.a + self.w
        &&& self.b < other.b + other.h
        &&& other.b < self.b + self.h
    }

    /// Whether the rectangle lies inside `plane`, is at least one cell wide
    /// and high, and every cell of it shows a face of the rectangle's color.
    pub open spec fn fits(self, plane: Seq<Seq<Voxel>>, width: int) -> bool {
        &&& 0 <= self.a
        &&& 1 <= self.w
        &&& self.a + self.w <= width
        &&& 0 <= self.b
        &&& 1 <= self.h
        &&& self.b + self.h <= plane.len()
        &&& forall|a: int, b: int| #[trigger]
            self.covers(a, b) ==> plane[b][a] == Voxel::Solid(self.color)
    }
}

/// The plane has `height` rows of `width` cells each.
pub open spec fn rectangular(plane: Seq<Seq<Voxel>>, width: int, height: int) -> bool {
    &&& plane.len() == height
    &&& forall|b: int| 0 <= b < plane.len() ==> (#[trigger] plane[b]).len() == width
}

/// Whether no cell of `plane` shows a face.
pub open spec fn blank(plane: Seq<Seq<Voxel>>) -> bool {
    forall|a: int, b: int|
        0 <= b < plane.len() && 0 <= a < plane[b].len() ==> #[trigger] plane[b][a] == Voxel::Empty
}

/// Whether the cells `a .. a + w` of `row` all equal `v`.
pub open spec fn row_matches(row: Seq<Voxel>, a: int, w: int, v: Voxel) -> bool {
    forall|k: int| a <= k < a + w ==> #[trigger] row[k] == v
}

/// How many cells of `row`, from column `k` on, go on with the value of the
/// cell in column `a` without a break.
pub open spec fn run_right(row: Seq<Voxel>, a: int, k: int) -> nat
    decreases row.len() - k,
{
    if 0 <= a < k < row.len() && row[k] == row[a] {
        1 + run_right(row, a, k + 1)
    } else {
        0
    }
}

/// How many rows of `plane`, from row `k` on, hold in their columns
/// `a .. a + w` the value of the cell in column `a` of row `b`, without a
/// break.
pub open spec fn run_down(plane: Seq<Seq<Voxel>>, a: int, w: int, b: int, k: int) -> nat
    decreases plane.len() - k,
{
    if 0 <= b < k < plane.len() && row_matches(plane[k], a, w, plane[b][a]) {
        1 + run_down(plane, a, w, b, k + 1)
    } else {
        0
    }
}

/// The plane with the cells of `patch` emptied.
pub open spec fn clear(plane: Seq<Seq<Voxel>>, patch: Patch) -> Seq<Seq<Voxel>> {
    Seq::new(
        plane.len(),
        |b: int|
            Seq::new(
                plane[b].len(),
                |a: int|
                    if patch.covers(a, b) {
                        Voxel::Empty
                    } else {
                        plane[b][a]
                    },
            ),
    )
}

/// The rectangle that the scan cuts out at column `a` of row `b`, where the
/// cell there shows a face of `color`.
pub open spec fn patch_at(plane: Seq<Seq<Voxel>>, a: int, b: int, color: Color) -> Patch {
    let w = 1 + run_right(plane[b], a, a + 1) as int;
    let h = 1 + run_down(plane, a, w, b, b + 1) as int;
    Patch { a, b, w, h, color }
}

/// How many columns of a row of `width` cells lie at or behind column `a`.
pub open spec fn gap(width: int, a: int) -> nat {
    if a < width {
        (width - a) as nat
    } else {
        0
    }
}

/// The rectangles that the scan cuts out of `plane` from column `a` of row
/// `b` on, in the order in which it finds them.
pub open spec fn merge_from(
    plane: Seq<Seq<Voxel>>,
    width: int,
    height: int,
    a: int,
    b: int,
) -> Seq<Patch>
    decreases height - b, gap(width, a),
{
    if a < 0 || b < 0 || b >= height {
        Seq::empty()
    } else if a >= width {
        merge_from(plane, width, height, 0, b + 1)
    } else {
        match plane[b][a] {
            Voxel::Empty => merge_from(plane, width, height, a + 1, b),
            Voxel::Solid(color) => {
                let patch = patch_at(plane, a, b, color);
                seq![patch] + merge_from(clear(plane, patch), width, height, a + patch.w, b)
            },
        }
    }
}

/// The rectangles that greedy merging cuts out of `plane`.
pub open spec fn merge(plane: Seq<Seq<Voxel>>, width: int, height: int) -> Seq<Patch> {
    merge_from(plane, width, height, 0, 0)
}

/// A run to the right ends inside the row, holds one value, and stops only at
/// the end of the row or before a cell with another value.
pub proof fn run_right_is_maximal(row: Seq<Voxel>, a: int, k: int)
    requires
        0 <= a < k <= row.len(),
    ensures
        k + run_right(row, a, k) <= row.len(),
        forall|m: int| k <= m < k + run_right(row, a, k) ==> #[trigger] row[m] == row[a],
        k + run_right(row, a, k) == row.len() || row[k + run_right(row, a, k)] != row[a],
    decreases row.len() - k,
{
    if k < row.len() && row[k] == row[a] {
        run_right_is_maximal(row, a, k + 1);
    }
}

/// A run downward ends inside the plane, every row of it holds one value in
/// the columns of the run, and it stops only at the end of the plane or before
/// a row that does not.
pub proof fn run_down_is_maximal(plane: Seq<Seq<Voxel>>, a: int, w: int, b: int, k: int)
    requires
        0 <= b < k <= plane.len(),
    ensures
        k + run_down(plane, a, w, b, k) <= plane.len(),
        forall|m: int|
            k <= m < k + run_down(plane, a, w, b, k) ==> row_matches(
                #[trigger] plane[m],
                a,
                w,
                plane[b][a],
            ),
        k + run_down(plane, a, w, b, k) == plane.len() || !row_matches(
            plane[k + run_down(plane, a, w, b, k)],
            a,
            w,
            plane[b][a],
        ),
    decreases plane.len() - k,
{
    if k < plane.len() && row_matches(plane[k], a, w, plane[b][a]) {
        run_down_is_maximal(plane, a, w, b, k + 1);
    }
}

/// The rectangle cut out at a cell that shows a face lies in the plane and
/// covers only cells that show a face of the same color.
pub proof fn patch_at_fits(
    plane: Seq<Seq<Voxel>>,
    width: int,
    height: int,
    a: int,
    b: int,
    color: Color,
)
    requires
        rectangular(plane, width, height),
        0 <= b < plane.len(),
        0 <= a < width,
        plane[b][a] == Voxel::Solid(color),
    ensures
        patch_at(plane, a, b, color).fits(plane, width),
{
    let patch = patch_at(plane, a, b, color);
    run_right_is_maximal(plane[b], a, a + 1);
    run_down_is_maximal(plane, a, patch.w, b, b + 1);
    assert forall|i: int, j: int| #[trigger] patch.covers(i, j) implies plane[j][i]
        == Voxel::Solid(color) by {
        if j == b {
            if i > a {
                assert(plane[b][i] == plane[b][a]);
            }
        } else {
            assert(row_matches(plane[j], a, patch.w, plane[b][a]));
            assert(plane[j][i] == plane[b][a]);
        }
    }
}

/// Clearing a rectangle keeps the shape of the plane.
pub proof fn clear_is_rectangular(plane: Seq<Seq<Voxel>>, width: int, height: int, patch: Patch)
    requires
        rectangular(plane, width, height),
    ensures
        rectangular(clear(plane, patch), width, height),
        clear(plane, patch).len() == plane.len(),
{
    assert forall|b: int| 0 <= b < clear(plane, patch).len() implies (#[trigger] clear(
        plane,
        patch,
    )[b]).len() == width by {
        assert(plane[b].len() == width);
    }
}

/// A rectangle that fits the plane after another was cleared fits the plane
/// before, and shares no cell with the cleared one.
pub proof fn fits_before_clear(
    plane: Seq<Seq<Voxel>>,
    width: int,
    height: int,
    cleared: Patch,
    patch: Patch,
)
    requires
        rectangular(plane, width, height),
        1 <= cleared.w,
        1 <= cleared.h,
        patch.fits(clear(plane, cleared), width),
    ensures
        patch.fits(plane, width),
        !cleared.overlaps(patch),
{
    let after = clear(plane, cleared);
    assert forall|a: int, b: int| #[trigger] patch.covers(a, b) implies plane[b][a]
        == Voxel::Solid(patch.color) by {
        assert(plane[b].len() == width);
        assert(after[b][a] == Voxel::Solid(patch.color));
    }
    if cleared.overlaps(patch) {
        let a = if cleared.a < patch.a {
            patch.a
        } else {
            cleared.a
        };
        let b = if cleared.b < patch.b {
            patch.b
        } else {
            cleared.b
        };
        assert(patch.covers(a, b));
        assert(cleared.covers(a, b));
        assert(plane[b].len() == width);
        assert(after[b][a] == Voxel::Empty);
    }
}

/// Soundness of the merge: every rectangle lies in the plane, its origin is
/// not before the place where the scan started, and every cell of it shows a
/// face of the rectangle's color.
pub proof fn merge_is_sound(plane: Seq<Seq<Voxel>>, width: int, height: int, a: int, b: int)
    requires
        rectangular(plane, width, height),
    ensures
        forall|k: int|
            0 <= k < merge_from(plane, width, height, a, b).len() ==> {
                let patch = #[trigger] merge_from(plane, width, height, a, b)[k];
                &&& patch.fits(plane, width)
                &&& patch.b > b || (patch.b == b && patch.a >= a)
            },
    decreases height - b, width - a,
{
    if a < 0 || b < 0 || b >= height {
    } else if a >= width {
        merge_is_sound(plane, width, height, 0, b + 1);
        assert(merge_from(plane, width, height, a, b) == merge_from(
            plane,
            width,
            height,
            0,
            b + 1,
        ));
    } else {
        match plane[b][a] {
            Voxel::Empty => {
                merge_is_sound(plane, width, height, a + 1, b);
                assert(merge_from(plane, width, height, a, b) == merge_from(
                    plane,
                    width,
                    height,
                    a + 1,
                    b,
                ));
            },
            Voxel::Solid(color) => {
                let patch = patch_at(plane, a, b, color);
                let after = clear(plane, patch);
                let rest = merge_from(after, width, height, a + patch.w, b);
                patch_at_fits(plane, width, height, a, b, color);
                clear_is_rectangular(plane, width, height, patch);
                merge_is_sound(after, width, height, a + patch.w, b);
                let all = merge_from(plane, width, height, a, b);
                assert forall|k: int| 0 <= k < all.len() implies {
                    let p = #[trigger] all[k];
                    &&& p.fits(plane, width)
                    &&& p.b > b || (p.b == b && p.a >= a)
                } by {
                    if k > 0 {
                        assert(all[k] == rest[k - 1]);
                        fits_before_clear(plane, width, height, patch, rest[k - 1]);
                    }
                }
            },
        }
    }
}

/// No two rectangles of the merge share a cell.
pub proof fn merge_is_disjoint(plane: Seq<Seq<Voxel>>, width: int, height: int, a: int, b: int)
    requires
        rectangular(plane, width, height),
    ensures
        forall|k: int, m: int|
            0 <= k < m < merge_from(plane, width, height, a, b).len() ==> !(#[trigger] merge_from(
                plane,
                width,
                height,
                a,
                b,
            )[k]).overlaps(#[trigger] merge_from(plane, width, height, a, b)[m]),
    decreases height - b, width - a,
{
    if a < 0 || b < 0 || b >= height {
    } else if a >= width {
        merge_is_disjoint(plane, width, height, 0, b + 1);
        assert(merge_from(plane, width, height, a, b) == merge_from(
            plane,
            width,
            height,
            0,
            b + 1,
        ));
    } else {
        match plane[b][a] {
            Voxel::Empty => {
                merge_is_disjoint(plane, width, height, a + 1, b);
                assert(merge_from(plane, width, height, a, b) == merge_from(
                    plane,
                    width,
                    height,
                    a + 1,
                    b,
                ));
            },
            Voxel::Solid(color) => {
                let patch = patch_at(plane, a, b, color);
                let after = clear(plane, patch);
                let rest = merge_from(after, width, height, a + patch.w, b);
                let all = merge_from(plane, width, height, a, b);
                patch_at_fits(plane, width, height, a, b, color);
                clear_is_rectangular(plane, width, height, patch);
                merge_is_disjoint(after, width, height, a + patch.w, b);
                merge_is_sound(after, width, height, a + patch.w, b);
                assert forall|k: int, m: int| 0 <= k < m < all.len() implies !(#[trigger] all[k])
                    .overlaps(#[trigger] all[m]) by {
                    assert(all[m] == rest[m - 1]);
                    if k == 0 {
                        fits_before_clear(plane, width, height, patch, rest[m - 1]);
                    } else {
                        assert(all[k] == rest[k - 1]);
                    }
                }
            },
        }
    }
}

/// Completeness of the merge: a cell that shows a face, at or behind the
/// place where the scan starts, lies in one of the rectangles. The result is
/// the rectangle's place in the sequence.
pub proof fn merge_is_complete(
    plane: Seq<Seq<Voxel>>,
    width: int,
    height: int,
    a: int,
    b: int,
    i: int,
    j: int,
) -> (k: int)
    requires
        rectangular(plane, width, height),
        0 <= a,
        0 <= b,
        0 <= j < plane.len(),
        0 <= i < width,
        plane[j][i] is Solid,
        j > b || (j == b && i >= a),
    ensures
        0 <= k < merge_from(plane, width, height, a, b).len(),
        merge_from(plane, width, height, a, b)[k].covers(i, j),
    decreases height - b, width - a,
{
    if a >= width {
        merge_is_complete(plane, width, height, 0, b + 1, i, j)
    } else {
        match plane[b][a] {
            Voxel::Empty => merge_is_complete(plane, width, height, a + 1, b, i, j),
            Voxel::Solid(color) => {
                let patch = patch_at(plane, a, b, color);
                patch_at_fits(plane, width, height, a, b, color);
                if patch.covers(i, j) {
                    0
                } else {
                    let after = clear(plane, patch);
                    clear_is_rectangular(plane, width, height, patch);
                    assert(plane[j].len() == width);
                    assert(after[j][i] == plane[j][i]);
                    let k = merge_is_complete(after, width, height, a + patch.w, b, i, j);
                    assert(merge_from(plane, width, height, a, b)[k + 1] == merge_from(
                        after,
                        width,
                        height,
                        a + patch.w,
                        b,
                    )[k]);
                    k + 1
                }
            },
        }
    }
}

/// The rectangles of the merge stand in the order of the scan: each starts
/// in a later row than the one before it, or further right in the same row.
pub proof fn merge_is_ordered(
    plane: Seq<Seq<Voxel>>,
    width: int,
    height: int,
    a: int,
    b: int,
    k: int,
    m: int,
)
    requires
        rectangular(plane, width, height),
        0 <= k < m < merge_from(plane, width, height, a, b).len(),
    ensures
        ({
            let first = merge_from(plane, width, height, a, b)[k];
            let second = merge_from(plane, width, height, a, b)[m];
            first.b < second.b || (first.b == second.b && first.a < second.a)
        }),
    decreases height - b, gap(width, a),
{
    if a < 0 || b < 0 || b >= height {
    } else if a >= width {
        merge_is_ordered(plane, width, height, 0, b + 1, k, m);
    } else {
        match plane[b][a] {
            Voxel::Empty => {
                merge_is_ordered(plane, width, height, a + 1, b, k, m);
            },
            Voxel::Solid(color) => {
                let patch = patch_at(plane, a, b, color);
                let after = clear(plane, patch);
                let rest = merge_from(after, width, height, a + patch.w, b);
                let all = merge_from(plane, width, height, a, b);
                patch_at_fits(plane, width, height, a, b, color);
                clear_is_rectangular(plane, width, height, patch);
                assert(all[m] == rest[m - 1]);
                if k == 0 {
                    merge_is_sound(after, width, height, a + patch.w, b);
                } else {
                    assert(all[k] == rest[k - 1]);
                    merge_is_ordered(after, width, height, a + patch.w, b, k - 1, m - 1);
                }
            },
        }
    }
}

/// What the cell in column `a` of row `b` still shows once the rectangles
/// `taken` are cut out of the plane.
pub open spec fn left_over(plane: Seq<Seq<Voxel>>, taken: Seq<Patch>, a: int, b: int) -> Voxel {
    if exists|k: int| 0 <= k < taken.len() && (#[trigger] taken[k]).covers(a, b) {
        Voxel::Empty
    } else {
        plane[b][a]
    }
}

/// Whether `patch` cannot grow once the rectangles `taken` are cut out of the
/// plane: to its right the plane ends or a cell shows no face of its color,
/// and so does the plane or a cell in the row under it.
pub open spec fn is_maximal(
    plane: Seq<Seq<Voxel>>,
    width: int,
    height: int,
    taken: Seq<Patch>,
    patch: Patch,
) -> bool {
    &&& patch.a + patch.w == width || left_over(plane, taken, patch.a + patch.w, patch.b)
        != Voxel::Solid(patch.color)
    &&& patch.b + patch.h == height || exists|a: int|
        patch.a <= a < patch.a + patch.w && #[trigger] left_over(
            plane,
            taken,
            a,
            patch.b + patch.h,
        ) != Voxel::Solid(patch.color)
}

/// Cutting a rectangle out of the plane first, or counting it among the
/// rectangles that are cut out, leaves the same.
pub proof fn left_over_after_clear(
    plane: Seq<Seq<Voxel>>,
    width: int,
    height: int,
    cleared: Patch,
    taken: Seq<Patch>,
    a: int,
    b: int,
)
    requires
        rectangular(plane, width, height),
        0 <= a < width,
        0 <= b < height,
    ensures
        left_over(plane, seq![cleared] + taken, a, b) == left_over(
            clear(plane, cleared),
            taken,
            a,
            b,
        ),
{
    let all = seq![cleared] + taken;
    assert(plane[b].len() == width);
    if cleared.covers(a, b) {
        assert(all[0].covers(a, b));
    } else if exists|k: int| 0 <= k < taken.len() && (#[trigger] taken[k]).covers(a, b) {
        let k = choose|k: int| 0 <= k < taken.len() && (#[trigger] taken[k]).covers(a, b);
        assert(all[k + 1] == taken[k]);
        assert(all[k + 1].covers(a, b));
    } else {
        if exists|k: int| 0 <= k < all.len() && (#[trigger] all[k]).covers(a, b) {
            let k = choose|k: int| 0 <= k < all.len() && (#[trigger] all[k]).covers(a, b);
            assert(k > 0);
            assert(all[k] == taken[k - 1]);
            assert(taken[k - 1].covers(a, b));
        }
    }
}

/// Every rectangle of the merge is maximal in what the rectangles before it
/// have left: it could not be wider, and as wide as it is it could not be
/// higher.
pub proof fn merge_is_maximal(
    plane: Seq<Seq<Voxel>>,
    width: int,
    height: int,
    a: int,
    b: int,
    k: int,
)
    requires
        rectangular(plane, width, height),
        0 <= k < merge_from(plane, width, height, a, b).len(),
    ensures
        is_maximal(
            plane,
            width,
            height,
            merge_from(plane, width, height, a, b).take(k),
            merge_from(plane, width, height, a, b)[k],
        ),
    decreases height - b, gap(width, a),
{
    if a < 0 || b < 0 || b >= height {
    } else if a >= width {
        merge_is_maximal(plane, width, height, 0, b + 1, k);
    } else {
        match plane[b][a] {
            Voxel::Empty => {
                merge_is_maximal(plane, width, height, a + 1, b, k);
            },
            Voxel::Solid(color) => {
                let patch = patch_at(plane, a, b, color);
                let after = clear(plane, patch);
                let rest = merge_from(after, width, height, a + patch.w, b);
                let all = merge_from(plane, width, height, a, b);
                patch_at_fits(plane, width, height, a, b, color);
                clear_is_rectangular(plane, width, height, patch);
                if k == 0 {
                    let taken = all.take(0);
                    run_right_is_maximal(plane[b], a, a + 1);
                    run_down_is_maximal(plane, a, patch.w, b, b + 1);
                    if patch.b + patch.h < height {
                        let row = plane[b + patch.h];
                        let i = choose|i: int|
                            a <= i < a + patch.w && #[trigger] row[i] != plane[b][a];
                        assert(left_over(plane, taken, i, b + patch.h) != Voxel::Solid(color));
                    }
                } else {
                    let p = rest[k - 1];
                    assert(all[k] == p);
                    assert(all.take(k) =~= seq![patch] + rest.take(k - 1));
                    merge_is_maximal(after, width, height, a + patch.w, b, k - 1);
                    merge_is_sound(after, width, height, a + patch.w, b);
                    assert(p.fits(after, width));
                    if p.a + p.w < width {
                        left_over_after_clear(
                            plane,
                            width,
                            height,
                            patch,
                            rest.take(k - 1),
                            p.a + p.w,
                            p.b,
                        );
                    }
                    if p.b + p.h < height {
                        let i = choose|i: int|
                            p.a <= i < p.a + p.w && #[trigger] left_over(
                                after,
                                rest.take(k - 1),
                                i,
                                p.b + p.h,
                            ) != Voxel::Solid(p.color);
                        left_over_after_clear(
                            plane,
                            width,
                            height,
                            patch,
                            rest.take(k - 1),
                            i,
                            p.b + p.h,
                        );
                        assert(left_over(plane, all.take(k), i, p.b + p.h) != Voxel::Solid(
                            p.color,
                        ));
                    }
                }
            },
        }
    }
}

/// A plane that shows no face yields no rectangle.
pub proof fn merge_of_blank(plane: Seq<Seq<Voxel>>, width: int, height: int, a: int, b: int)
    requires
        rectangular(plane, width, height),
        blank(plane),
    ensures
        merge_from(plane, width, height, a, b) == Seq::<Patch>::empty(),
    decreases height - b, width - a,
{
    if a < 0 || b < 0 || b >= height {
    } else if a >= width {
        merge_of_blank(plane, width, height, 0, b + 1);
    } else {
        assert(plane[b].len() == width);
        assert(plane[b][a] == Voxel::Empty);
        merge_of_blank(plane, width, height, a + 1, b);
    }
}

/// Whether every cell of `plane` shows a face of `color`.
pub open spec fn uniform(plane: Seq<Seq<Voxel>>, color: Color) -> bool {
    forall|a: int, b: int|
        0 <= b < plane.len() && 0 <= a < plane[b].len() ==> #[trigger] plane[b][a] == Voxel::Solid(
            color,
        )
}

/// A plane of one color, at least one cell wide and high, is merged into the
/// one rectangle that covers it.
pub proof fn merge_of_uniform(plane: Seq<Seq<Voxel>>, width: int, height: int, color: Color)
    requires
        rectangular(plane, width, height),
        uniform(plane, color),
        1 <= width,
        1 <= height,
    ensures
        merge(plane, width, height) == seq![Patch { a: 0, b: 0, w: width, h: height, color }],
{
    assert(plane[0].len() == width);
    assert(plane[0][0] == Voxel::Solid(color));
    run_right_is_maximal(plane[0], 0, 1);
    let w = 1 + run_right(plane[0], 0, 1) as int;
    if w < width {
        assert(plane[0][w] == Voxel::Solid(color));
    }
    run_down_is_maximal(plane, 0, w, 0, 1);
    let h = 1 + run_down(plane, 0, w, 0, 1) as int;
    if h < height {
        assert(plane[h].len() == width);
        assert forall|k: int| 0 <= k < w implies #[trigger] plane[h][k] == plane[0][0] by {
            assert(plane[h][k] == Voxel::Solid(color));
        }
        assert(row_matches(plane[h], 0, w, plane[0][0]));
    }
    let patch = patch_at(plane, 0, 0, color);
    assert(patch == Patch { a: 0, b: 0, w: width, h: height, color });
    let after = clear(plane, patch);
    clear_is_rectangular(plane, width, height, patch);
    assert forall|a: int, b: int|
        0 <= b < after.len() && 0 <= a < after[b].len() implies #[trigger] after[b][a]
        == Voxel::Empty by {
        assert(plane[b].len() == width);
        assert(patch.covers(a, b));
    }
    merge_of_blank(after, width, height, width, 0);
    assert(merge(plane, width, height) =~= seq![patch]);
}

/// The plane whose rows are stored in `cells` one after the other.
pub open spec fn rows(cells: Seq<Voxel>, width: int, height: int) -> Seq<Seq<Voxel>> {
    Seq::new(height as nat, |b: int| Seq::new(width as nat, |a: int| cells[a + b * width]))
}

/// The parts that cover the rectangles `patches` on `side`, in the plane at
/// `plane` along the side's axis.
pub open spec fn parts_on(side: Side, plane: int, patches: Seq<Patch>) -> Seq<(Quad, Color)> {
    Seq::new(
        patches.len(),
        |k: int|
            (
                Quad::on(side, plane, patches[k].a, patches[k].b, patches[k].w, patches[k].h),
                patches[k].color,
            ),
    )
}

/// In a plane stored row after row, the cell in column `a` of row `b` has a
/// place of its own inside the store.
pub proof fn cell_has_place(width: int, height: int, a: int, b: int)
    requires
        0 <= a < width,
        0 <= b < height,
    ensures
        0 <= b * width,
        0 <= a + b * width < width * height,
{
    assert(0 <= b * width && b * width + width <= width * height) by (nonlinear_arith)
        requires
            0 <= b < height,
            0 < width,
    ;
}

/// Two cells of a plane stored row after row share a place only if they are
/// the same cell.
pub proof fn cells_apart(width: int, a1: int, b1: int, a2: int, b2: int)
    requires
        0 <= a1 < width,
        0 <= a2 < width,
        a1 + b1 * width == a2 + b2 * width,
    ensures
        a1 == a2,
        b1 == b2,
{
    if b1 < b2 {
        assert(b1 * width + width <= b2 * width) by (nonlinear_arith)
            requires
                b1 < b2,
                0 < width,
        ;
    }
    if b2 < b1 {
        assert(b2 * width + width <= b1 * width) by (nonlinear_arith)
            requires
                b2 < b1,
                0 < width,
        ;
    }
}

/// Where the cell in column `a` of row `b` is stored.
fn cell_index(width: usize, height: usize, a: usize, b: usize) -> (n: usize)
    requires
        a < width,
        b < height,
        width * height <= usize::MAX,
    ensures
        n == a + b * width,
        n < width * height,
{
    proof {
        cell_has_place(width as int, height as int, a as int, b as int);
    }
    a + b * width
}

/// The width of the rectangle that starts in column `a` of row `b`.
fn scan_width(mask: &Vec<Voxel>, width: usize, height: usize, a: usize, b: usize) -> (w: usize)
    requires
        mask.len() == width * height,
        a < width,
        b < height,
    ensures
        w == 1 + run_right(rows(mask@, width as int, height as int)[b as int], a as int, a + 1),
        a + w <= width,
{
    let n = cell_index(width, height, a, b);
    let ghost row = rows(mask@, width as int, height as int)[b as int];
    let mut w: usize = 1;
    proof {
        if a + 1 < width {
            cell_has_place(width as int, height as int, a + 1, b as int);
        }
    }
    while a + w < width && mask[n + w] == mask[n]
        invariant
            mask.len() == width * height,
            a < width,
            b < height,
            n == a + b * width,
            n < width * height,
            1 <= w <= width - a,
            row == rows(mask@, width as int, height as int)[b as int],
            run_right(row, a as int, a + 1) == (w - 1) + run_right(row, a as int, a + w),
            a + w < width ==> n + w < mask@.len(),
        decreases width - a - w,
    {
        assert(row[a + w] == mask@[n + w]);
        assert(row[a as int] == mask@[n as int]);
        w = w + 1;
        proof {
            if a + w < width {
                cell_has_place(width as int, height as int, a + w, b as int);
            }
        }
    }
    proof {
        if a + w < width {
            assert(row[a + w] == mask@[n + w]);
            assert(row[a as int] == mask@[n as int]);
        }
    }
    w
}

/// Whether the cells `a .. a + w` of row `b` all equal `v`.
fn row_holds(
    mask: &Vec<Voxel>,
    width: usize,
    height: usize,
    a: usize,
    w: usize,
    b: usize,
    v: Voxel,
) -> (holds: bool)
    requires
        mask.len() == width * height,
        a + w <= width,
        b < height,
    ensures
        holds == row_matches(
            rows(mask@, width as int, height as int)[b as int],
            a as int,
            w as int,
            v,
        ),
{
    let ghost row = rows(mask@, width as int, height as int)[b as int];
    let mut k: usize = 0;
    while k < w
        invariant
            mask.len() == width * height,
            a + w <= width,
            b < height,
            k <= w,
            row == rows(mask@, width as int, height as int)[b as int],
            row_matches(row, a as int, k as int, v),
        decreases w - k,
    {
        let n = cell_index(width, height, a + k, b);
        assert(row[a + k] == mask@[n as int]);
        if mask[n] != v {
            return false;
        }
        k = k + 1;
    }
    true
}

/// The height of the rectangle of width `w` that starts in column `a` of
/// row `b`.
fn scan_height(mask: &Vec<Voxel>, width: usize, height: usize, a: usize, b: usize, w: usize) -> (h:
    usize)
    requires
        mask.len() == width * height,
        a < width,
        a + w <= width,
        b < height,
    ensures
        h == 1 + run_down(
            rows(mask@, width as int, height as int),
            a as int,
            w as int,
            b as int,
            b + 1,
        ),
        b + h <= height,
{
    let n = cell_index(width, height, a, b);
    let v = mask[n];
    let ghost plane = rows(mask@, width as int, height as int);
    assert(plane[b as int][a as int] == v);
    let mut h: usize = 1;
    while b + h < height
        invariant
            mask.len() == width * height,
            a + w <= width,
            b < height,
            1 <= h <= height - b,
            plane == rows(mask@, width as int, height as int),
            plane[b as int][a as int] == v,
            run_down(plane, a as int, w as int, b as int, b + 1) == (h - 1) + run_down(
                plane,
                a as int,
                w as int,
                b as int,
                b + h,
            ),
        ensures
            1 <= h <= height - b,
            run_down(plane, a as int, w as int, b as int, b + 1) == (h - 1) as int,
        decreases height - b - h,
    {
        if !row_holds(mask, width, height, a, w, b + h, v) {
            break;
        }
        h = h + 1;
    }
    h
}

/// Empties the cells `a .. a + w` of row `b`.
fn clear_row(mask: &mut Vec<Voxel>, width: usize, height: usize, a: usize, w: usize, b: usize)
    requires
        old(mask).len() == width * height,
        a + w <= width,
        b < height,
    ensures
        final(mask).len() == old(mask).len(),
        forall|i: int, j: int|
            0 <= i < width && 0 <= j < height ==> #[trigger] final(mask)@[i + j * width] == if j
                == b && a <= i < a + w {
                Voxel::Empty
            } else {
                old(mask)@[i + j * width]
            },
{
    let mut k: usize = 0;
    while k < w
        invariant
            mask.len() == width * height,
            a + w <= width,
            b < height,
            k <= w,
            forall|i: int, j: int|
                0 <= i < width && 0 <= j < height ==> #[trigger] mask@[i + j * width] == if j == b
                    && a <= i < a + k {
                    Voxel::Empty
                } else {
                    old(mask)@[i + j * width]
                },
        decreases w - k,
    {
        let n = cell_index(width, height, a + k, b);
        let ghost before = mask@;
        mask.set(n, Voxel::Empty);
        proof {
            assert forall|i: int, j: int|
                0 <= i < width && 0 <= j < height implies #[trigger] mask@[i + j * width] == if j
                == b && a <= i < a + k + 1 {
                Voxel::Empty
            } else {
                old(mask)@[i + j * width]
            } by {
                cell_has_place(width as int, height as int, i, j);
                if i + j * width == n {
                    cells_apart(width as int, i, j, a + k, b as int);
                } else {
                    assert(mask@[i + j * width] == before[i + j * width]);
                }
            }
        }
        k = k + 1;
    }
}

/// Empties the cells of the rectangle of width `w` and height `h` that starts
/// in column `a` of row `b`.
fn clear_patch(
    mask: &mut Vec<Voxel>,
    width: usize,
    height: usize,
    a: usize,
    b: usize,
    w: usize,
    h: usize,
    Ghost(patch): Ghost<Patch>,
)
    requires
        old(mask).len() == width * height,
        a + w <= width,
        b + h <= height,
        patch.a == a,
        patch.b == b,
        patch.w == w,
        patch.h == h,
    ensures
        final(mask).len() == old(mask).len(),
        rows(final(mask)@, width as int, height as int) == clear(
            rows(old(mask)@, width as int, height as int),
            patch,
        ),
{
    let mut l: usize = 0;
    while l < h
        invariant
            mask.len() == width * height,
            a + w <= width,
            b + h <= height,
            l <= h,
            forall|i: int, j: int|
                0 <= i < width && 0 <= j < height ==> #[trigger] mask@[i + j * width] == if b <= j
                    < b + l && a <= i < a + w {
                    Voxel::Empty
                } else {
                    old(mask)@[i + j * width]
                },
        decreases h - l,
    {
        clear_row(mask, width, height, a, w, b + l);
        l = l + 1;
    }
    proof {
        let after = rows(mask@, width as int, height as int);
        let cleared = clear(rows(old(mask)@, width as int, height as int), patch);
        assert(after.len() == cleared.len());
        assert forall|j: int| 0 <= j < after.len() implies #[trigger] after[j] =~= cleared[j] by {
            assert forall|i: int| 0 <= i < after[j].len() implies #[trigger] after[j][i]
                == cleared[j][i] by {
                assert(after[j][i] == mask@[i + j * width]);
            }
        }
        assert(after =~= cleared);
    }
}

/// Merges the plane stored in `mask` and appends to `parts` one part for each
/// rectangle, on `side` in the plane at `plane`. The mask is used up.
pub(crate) fn merge_plane(
    mask: &mut Vec<Voxel>,
    width: usize,
    height: usize,
    side: Side,
    plane: usize,
    parts: &mut Vec<(Quad, Color)>,
)
    requires
        old(mask).len() == width * height,
    ensures
        final(mask).len() == old(mask).len(),
        final(parts)@ == old(parts)@ + parts_on(
            side,
            plane as int,
            merge(rows(old(mask)@, width as int, height as int), width as int, height as int),
        ),
{
    let ghost all = parts_on(
        side,
        plane as int,
        merge(rows(old(mask)@, width as int, height as int), width as int, height as int),
    );
    let mut b: usize = 0;
    while b < height
        invariant
            mask.len() == width * height,
            b <= height,
            old(parts)@ + all == parts@ + parts_on(
                side,
                plane as int,
                merge_from(
                    rows(mask@, width as int, height as int),
                    width as int,
                    height as int,
                    0,
                    b as int,
                ),
            ),
        decreases height - b,
    {
        let mut a: usize = 0;
        while a < width
            invariant
                mask.len() == width * height,
                b < height,
                a <= width,
                old(parts)@ + all == parts@ + parts_on(
                    side,
                    plane as int,
                    merge_from(
                        rows(mask@, width as int, height as int),
                        width as int,
                        height as int,
                        a as int,
                        b as int,
                    ),
                ),
            decreases width - a,
        {
            let n = cell_index(width, height, a, b);
            let ghost cells = rows(mask@, width as int, height as int);
            assert(cells[b as int][a as int] == mask@[n as int]);
            match mask[n] {
                Voxel::Empty => {
                    a = a + 1;
                },
                Voxel::Solid(color) => {
                    let w = scan_width(mask, width, height, a, b);
                    let h = scan_height(mask, width, height, a, b, w);
                    let ghost patch = patch_at(cells, a as int, b as int, color);
                    let ghost rest = merge_from(
                        clear(cells, patch),
                        width as int,
                        height as int,
                        a + w,
                        b as int,
                    );
                    let ghost part = (
                        Quad::on(side, plane as int, a as int, b as int, w as int, h as int),
                        color,
                    );
                    assert(parts_on(
                        side,
                        plane as int,
                        merge_from(cells, width as int, height as int, a as int, b as int),
                    ) =~= seq![part] + parts_on(side, plane as int, rest));
                    parts.push((Quad::new(side, plane, a, b, w, h), color));
                    clear_patch(mask, width, height, a, b, w, h, Ghost(patch));
                    a = a + w;
                },
            }
        }
        b = b + 1;
    }
    assert(parts@ + Seq::<(Quad, Color)>::empty() =~= parts@);
}

} // verus!
