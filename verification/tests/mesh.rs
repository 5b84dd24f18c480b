use zville::{Color, Matrix, Normal, Position, Quad, Side, Vertex, Voxel};

type Part = ([[usize; 3]; 4], [i8; 3], [u32; 6], [u8; 3]);

fn flatten(parts: &[(Quad, Color)]) -> Vec<Part> {
    parts
        .iter()
        .map(|(quad, color)| {
            assert_eq!((quad.uv.u, quad.uv.v), (0, 0));
            (
                quad.positions.map(|v| [v.x, v.y, v.z]),
                [quad.normal.x, quad.normal.y, quad.normal.z],
                quad.indices,
                [color.r, color.g, color.b],
            )
        })
        .collect()
}

fn filled(size: (usize, usize, usize), color: Color) -> Matrix {
    let mut matrix = Matrix::new(size.0, size.1, size.2);
    for z in 0..size.2 {
        for y in 0..size.1 {
            for x in 0..size.0 {
                matrix.set(Position::new(x, y, z), Voxel::Solid(color));
            }
        }
    }
    matrix
}

/// A grid whose cells are drawn from `palette` by a fixed sequence of numbers.
fn scattered(size: (usize, usize, usize), palette: &[Voxel], seed: u64) -> Matrix {
    let mut state = seed;
    let mut matrix = Matrix::new(size.0, size.1, size.2);
    for z in 0..size.2 {
        for y in 0..size.1 {
            for x in 0..size.0 {
                state = state.wrapping_mul(6364136223846793005).wrapping_add(1442695040888963407);
                let pick = (state >> 33) as usize % palette.len();
                matrix.set(Position::new(x, y, z), palette[pick]);
            }
        }
    }
    matrix
}

fn cell(matrix: &Matrix, p: [isize; 3]) -> Option<Voxel> {
    let count = matrix.block_count();
    let size = [count.x as isize, count.y as isize, count.z as isize];
    if (0..3).all(|i| 0 <= p[i] && p[i] < size[i]) {
        Some(*matrix.lookup(Position::new(p[0] as usize, p[1] as usize, p[2] as usize)))
    } else {
        None
    }
}

/// The color that the cell at `p` shows in the direction `normal`, if any:
/// the cell is solid, and the cell next to it in that direction is missing or
/// differs from it.
fn shows(matrix: &Matrix, p: [isize; 3], normal: [isize; 3]) -> Option<Color> {
    let own = cell(matrix, p)?;
    let next = cell(matrix, [p[0] + normal[0], p[1] + normal[1], p[2] + normal[2]]);
    match own {
        Voxel::Solid(color) if next != Some(own) => Some(color),
        _ => None,
    }
}

/// The cells whose faces in the direction of the quad's normal lie under the
/// quad.
fn cells_under(quad: &Quad) -> Vec<[isize; 3]> {
    let normal = [quad.normal.x as isize, quad.normal.y as isize, quad.normal.z as isize];
    let low = quad.positions[0];
    let high = quad.positions[3];
    let low = [low.x as isize, low.y as isize, low.z as isize];
    let high = [high.x as isize, high.y as isize, high.z as isize];
    let axis = (0..3).find(|&i| normal[i] != 0).unwrap();
    let mut cells = Vec::new();
    let span = |i: usize| if i == axis { low[i]..low[i] + 1 } else { low[i]..high[i] };
    for x in span(0) {
        for y in span(1) {
            for z in span(2) {
                let mut p = [x, y, z];
                if normal[axis] > 0 {
                    p[axis] -= 1;
                }
                cells.push(p);
            }
        }
    }
    cells
}

/// Checks that the parts cover each face that shows exactly once, with its
/// color, and nothing else.
fn assert_covers_what_shows(matrix: &Matrix) {
    let count = matrix.block_count();
    let parts = matrix.mesh_parts();
    let mut covered = std::collections::HashMap::new();
    for (quad, color) in parts.iter() {
        let normal = [quad.normal.x as isize, quad.normal.y as isize, quad.normal.z as isize];
        assert_eq!(normal.iter().map(|n| n.abs()).sum::<isize>(), 1);
        let under = cells_under(quad);
        assert!(!under.is_empty());
        for p in under {
            assert_eq!(shows(matrix, p, normal), Some(*color), "cell {:?} to {:?}", p, normal);
            assert!(covered.insert((p, normal), *color).is_none(), "covered twice");
        }
    }
    let mut showing = 0;
    for z in 0..count.z as isize {
        for y in 0..count.y as isize {
            for x in 0..count.x as isize {
                for normal in [[1, 0, 0], [-1, 0, 0], [0, 1, 0], [0, -1, 0], [0, 0, 1], [0, 0, -1]] {
                    if let Some(color) = shows(matrix, [x, y, z], normal) {
                        assert_eq!(covered.get(&([x, y, z], normal)), Some(&color));
                        showing += 1;
                    }
                }
            }
        }
    }
    assert_eq!(covered.len(), showing);
}

const RED: Color = Color { r: 200, g: 10, b: 10 };
const GREEN: Color = Color { r: 10, g: 200, b: 10 };

#[test]
fn empty_grid_has_no_parts() {
    for size in [(1, 1, 1), (3, 2, 4), (5, 1, 1), (0, 0, 0), (0, 3, 2), (2, 0, 5), (4, 4, 0)] {
        let matrix = Matrix::new(size.0, size.1, size.2);
        assert!(matrix.mesh_parts().is_empty());
    }
}

#[test]
fn single_voxel_has_six_unit_parts() {
    let red = Color::new(255, 0, 0);
    let mut matrix = Matrix::new(1, 1, 1);
    matrix.set(Position::new(0, 0, 0), Voxel::Solid(red));
    let parts = matrix.mesh_parts();
    assert_eq!(parts.len(), 6);
    let normals: Vec<Normal> = parts.iter().map(|(quad, _)| quad.normal).collect();
    assert_eq!(
        normals,
        vec![
            Normal { x: 1, y: 0, z: 0 },
            Normal { x: 0, y: 1, z: 0 },
            Normal { x: 0, y: 0, z: 1 },
            Normal { x: -1, y: 0, z: 0 },
            Normal { x: 0, y: -1, z: 0 },
            Normal { x: 0, y: 0, z: -1 },
        ]
    );
    for (quad, color) in parts.iter() {
        assert_eq!(*color, red);
        assert_eq!(cells_under(quad), vec![[0, 0, 0]]);
    }
    assert_eq!(
        parts[0].0.positions,
        [
            Vertex { x: 1, y: 0, z: 0 },
            Vertex { x: 1, y: 0, z: 1 },
            Vertex { x: 1, y: 1, z: 0 },
            Vertex { x: 1, y: 1, z: 1 },
        ]
    );
    assert_eq!(parts[0].0.indices, [2, 3, 1, 1, 0, 2]);
    assert_eq!(parts[3].0.indices, [2, 0, 1, 1, 3, 2]);
}

#[test]
fn equal_neighbours_have_no_part_between_them() {
    let matrix = filled((2, 1, 1), RED);
    for (quad, _) in matrix.mesh_parts() {
        if quad.normal.x != 0 {
            assert_ne!(quad.positions[0].x, 1);
        }
    }
    let matrix = filled((3, 3, 3), GREEN);
    for (quad, _) in matrix.mesh_parts() {
        let low = quad.positions[0];
        if quad.normal.x != 0 {
            assert!(low.x == 0 || low.x == 3);
        }
        if quad.normal.y != 0 {
            assert!(low.y == 0 || low.y == 3);
        }
        if quad.normal.z != 0 {
            assert!(low.z == 0 || low.z == 3);
        }
    }
}

#[test]
fn meshing_twice_gives_the_same_parts() {
    let palette = [Voxel::Empty, Voxel::Solid(RED), Voxel::Solid(GREEN)];
    let matrix = scattered((4, 3, 5), &palette, 11);
    let first = flatten(&matrix.mesh_parts());
    let second = flatten(&matrix.mesh_parts());
    assert!(!first.is_empty());
    assert_eq!(first, second);
}

#[test]
fn a_row_has_one_part_on_each_long_side() {
    for n in 2..7usize {
        let matrix = filled((n, 1, 1), RED);
        let expected: Vec<Part> = vec![
            ([[n, 0, 0], [n, 0, 1], [n, 1, 0], [n, 1, 1]], [1, 0, 0], [2, 3, 1, 1, 0, 2], [200, 10, 10]),
            ([[0, 1, 0], [n, 1, 0], [0, 1, 1], [n, 1, 1]], [0, 1, 0], [2, 3, 1, 1, 0, 2], [200, 10, 10]),
            ([[0, 0, 1], [0, 1, 1], [n, 0, 1], [n, 1, 1]], [0, 0, 1], [2, 3, 1, 1, 0, 2], [200, 10, 10]),
            ([[0, 0, 0], [0, 0, 1], [0, 1, 0], [0, 1, 1]], [-1, 0, 0], [2, 0, 1, 1, 3, 2], [200, 10, 10]),
            ([[0, 0, 0], [n, 0, 0], [0, 0, 1], [n, 0, 1]], [0, -1, 0], [2, 0, 1, 1, 3, 2], [200, 10, 10]),
            ([[0, 0, 0], [0, 1, 0], [n, 0, 0], [n, 1, 0]], [0, 0, -1], [2, 0, 1, 1, 3, 2], [200, 10, 10]),
        ];
        assert_eq!(flatten(&matrix.mesh_parts()), expected);
    }
}

#[test]
fn a_filled_box_has_one_part_on_each_side() {
    let matrix = filled((2, 3, 4), GREEN);
    let expected: Vec<Part> = vec![
        ([[2, 0, 0], [2, 0, 4], [2, 3, 0], [2, 3, 4]], [1, 0, 0], [2, 3, 1, 1, 0, 2], [10, 200, 10]),
        ([[0, 3, 0], [2, 3, 0], [0, 3, 4], [2, 3, 4]], [0, 1, 0], [2, 3, 1, 1, 0, 2], [10, 200, 10]),
        ([[0, 0, 4], [0, 3, 4], [2, 0, 4], [2, 3, 4]], [0, 0, 1], [2, 3, 1, 1, 0, 2], [10, 200, 10]),
        ([[0, 0, 0], [0, 0, 4], [0, 3, 0], [0, 3, 4]], [-1, 0, 0], [2, 0, 1, 1, 3, 2], [10, 200, 10]),
        ([[0, 0, 0], [2, 0, 0], [0, 0, 4], [2, 0, 4]], [0, -1, 0], [2, 0, 1, 1, 3, 2], [10, 200, 10]),
        ([[0, 0, 0], [0, 3, 0], [2, 0, 0], [2, 3, 0]], [0, 0, -1], [2, 0, 1, 1, 3, 2], [10, 200, 10]),
    ];
    assert_eq!(flatten(&matrix.mesh_parts()), expected);
}

#[test]
fn parts_cover_each_showing_face_once() {
    let palette = [Voxel::Empty, Voxel::Solid(RED), Voxel::Solid(GREEN)];
    let sizes = [(1, 1, 1), (2, 2, 2), (3, 1, 4), (4, 4, 4), (5, 3, 2), (1, 6, 1), (0, 2, 2)];
    for (i, size) in sizes.into_iter().enumerate() {
        for seed in 0..6 {
            assert_covers_what_shows(&scattered(size, &palette, 31 * seed + i as u64));
        }
    }
    let dense = [Voxel::Solid(RED), Voxel::Solid(RED), Voxel::Solid(RED), Voxel::Empty];
    for seed in 0..6 {
        assert_covers_what_shows(&scattered((4, 5, 3), &dense, seed));
    }
}

#[test]
fn set_changes_one_cell_only() {
    let mut matrix = Matrix::new(3, 4, 5);
    matrix.set(Position::new(2, 3, 4), Voxel::Solid(RED));
    matrix.set(Position::new(1, 0, 2), Voxel::Solid(GREEN));
    matrix.set(Position::new(2, 3, 4), Voxel::Solid(GREEN));
    for z in 0..5 {
        for y in 0..4 {
            for x in 0..3 {
                let expected = if (x, y, z) == (2, 3, 4) || (x, y, z) == (1, 0, 2) {
                    Voxel::Solid(GREEN)
                } else {
                    Voxel::Empty
                };
                assert_eq!(*matrix.lookup(Position::new(x, y, z)), expected);
            }
        }
    }
}

#[test]
fn sides_come_with_axis_direction_and_winding() {
    let sides = [Side::Right, Side::Top, Side::Front, Side::Left, Side::Bottom, Side::Back];
    let axes: Vec<usize> = sides.iter().map(|side| side.axis_index()).collect();
    assert_eq!(axes, vec![0, 1, 2, 0, 1, 2]);
    let backs: Vec<bool> = sides.iter().map(|side| side.looks_back()).collect();
    assert_eq!(backs, vec![false, false, false, true, true, true]);
    for side in sides {
        let normal = side.facing();
        let along = [normal.x, normal.y, normal.z];
        for axis in 0..3 {
            let expected = if axis != side.axis_index() {
                0
            } else if side.looks_back() {
                -1
            } else {
                1
            };
            assert_eq!(along[axis], expected);
        }
        let expected = if side.looks_back() { [2, 0, 1, 1, 3, 2] } else { [2, 3, 1, 1, 0, 2] };
        assert_eq!(side.winding(), expected);
    }
}

#[test]
fn a_quad_spans_its_rectangle_in_its_plane() {
    let quad = Quad::new(Side::Top, 7, 2, 3, 4, 5);
    assert_eq!(
        quad.positions,
        [
            Vertex { x: 3, y: 7, z: 2 },
            Vertex { x: 8, y: 7, z: 2 },
            Vertex { x: 3, y: 7, z: 6 },
            Vertex { x: 8, y: 7, z: 6 },
        ]
    );
    assert_eq!(quad.normal, Normal { x: 0, y: 1, z: 0 });
    assert_eq!((quad.uv.u, quad.uv.v), (0, 0));
    assert_eq!(quad.indices, [2, 3, 1, 1, 0, 2]);

    let quad = Quad::new(Side::Left, 0, 1, 2, 3, 4);
    assert_eq!(
        quad.positions,
        [
            Vertex { x: 0, y: 1, z: 2 },
            Vertex { x: 0, y: 1, z: 6 },
            Vertex { x: 0, y: 4, z: 2 },
            Vertex { x: 0, y: 4, z: 6 },
        ]
    );
    assert_eq!(quad.normal, Normal { x: -1, y: 0, z: 0 });
    assert_eq!(quad.indices, [2, 0, 1, 1, 3, 2]);

    let quad = Quad::new(Side::Back, 9, 1, 2, 3, 4);
    assert_eq!(
        quad.positions,
        [
            Vertex { x: 1, y: 2, z: 9 },
            Vertex { x: 1, y: 6, z: 9 },
            Vertex { x: 4, y: 2, z: 9 },
            Vertex { x: 4, y: 6, z: 9 },
        ]
    );
    assert_eq!(quad.normal, Normal { x: 0, y: 0, z: -1 });
}

#[test]
fn voxels_are_equal_by_kind_and_color() {
    assert_eq!(Voxel::Empty, Voxel::Empty);
    assert_eq!(Voxel::Solid(RED), Voxel::Solid(Color::new(200, 10, 10)));
    assert_ne!(Voxel::Solid(RED), Voxel::Solid(GREEN));
    assert_ne!(Voxel::Empty, Voxel::Solid(RED));
    assert_ne!(Voxel::Solid(RED), Voxel::Empty);
}

#[test]
fn block_count_multiplies_its_sizes() {
    let count = zville::BlockCount::new(3, 4, 5);
    assert_eq!((count.x, count.y, count.z), (3, 4, 5));
    assert_eq!(count.total(), 60);
    assert_eq!(count.checked_total(), Some(60));
    assert_eq!(zville::BlockCount::new(7, 0, 9).total(), 0);
    assert_eq!(zville::BlockCount::new(usize::MAX, 0, usize::MAX).checked_total(), Some(0));
    assert_eq!(zville::BlockCount::new(usize::MAX, 2, 1).checked_total(), None);
    assert_eq!(zville::BlockCount::new(usize::MAX, 1, 1).checked_total(), Some(usize::MAX));
}

#[test]
fn two_cells_of_one_color_share_their_parts() {
    let mut matrix = Matrix::new(2, 1, 1);
    matrix.set(Position::new(0, 0, 0), Voxel::Solid(Color::new(200, 10, 10)));
    matrix.set(Position::new(1, 0, 0), Voxel::Solid(Color::new(200, 10, 10)));
    let expected: Vec<Part> = vec![
        ([[2, 0, 0], [2, 0, 1], [2, 1, 0], [2, 1, 1]], [1, 0, 0], [2, 3, 1, 1, 0, 2], [200, 10, 10]),
        ([[0, 1, 0], [2, 1, 0], [0, 1, 1], [2, 1, 1]], [0, 1, 0], [2, 3, 1, 1, 0, 2], [200, 10, 10]),
        ([[0, 0, 1], [0, 1, 1], [2, 0, 1], [2, 1, 1]], [0, 0, 1], [2, 3, 1, 1, 0, 2], [200, 10, 10]),
        ([[0, 0, 0], [0, 0, 1], [0, 1, 0], [0, 1, 1]], [-1, 0, 0], [2, 0, 1, 1, 3, 2], [200, 10, 10]),
        ([[0, 0, 0], [2, 0, 0], [0, 0, 1], [2, 0, 1]], [0, -1, 0], [2, 0, 1, 1, 3, 2], [200, 10, 10]),
        ([[0, 0, 0], [0, 1, 0], [2, 0, 0], [2, 1, 0]], [0, 0, -1], [2, 0, 1, 1, 3, 2], [200, 10, 10]),
    ];
    assert_eq!(flatten(&matrix.mesh_parts()), expected);
}

#[test]
fn two_cells_of_two_colors_show_to_each_other() {
    let mut matrix = Matrix::new(2, 1, 1);
    matrix.set(Position::new(0, 0, 0), Voxel::Solid(Color::new(200, 10, 10)));
    matrix.set(Position::new(1, 0, 0), Voxel::Solid(Color::new(10, 200, 10)));
    let expected: Vec<Part> = vec![
        ([[1, 0, 0], [1, 0, 1], [1, 1, 0], [1, 1, 1]], [1, 0, 0], [2, 3, 1, 1, 0, 2], [200, 10, 10]),
        ([[2, 0, 0], [2, 0, 1], [2, 1, 0], [2, 1, 1]], [1, 0, 0], [2, 3, 1, 1, 0, 2], [10, 200, 10]),
        ([[0, 1, 0], [1, 1, 0], [0, 1, 1], [1, 1, 1]], [0, 1, 0], [2, 3, 1, 1, 0, 2], [200, 10, 10]),
        ([[1, 1, 0], [2, 1, 0], [1, 1, 1], [2, 1, 1]], [0, 1, 0], [2, 3, 1, 1, 0, 2], [10, 200, 10]),
        ([[0, 0, 1], [0, 1, 1], [1, 0, 1], [1, 1, 1]], [0, 0, 1], [2, 3, 1, 1, 0, 2], [200, 10, 10]),
        ([[1, 0, 1], [1, 1, 1], [2, 0, 1], [2, 1, 1]], [0, 0, 1], [2, 3, 1, 1, 0, 2], [10, 200, 10]),
        ([[0, 0, 0], [0, 0, 1], [0, 1, 0], [0, 1, 1]], [-1, 0, 0], [2, 0, 1, 1, 3, 2], [200, 10, 10]),
        ([[1, 0, 0], [1, 0, 1], [1, 1, 0], [1, 1, 1]], [-1, 0, 0], [2, 0, 1, 1, 3, 2], [10, 200, 10]),
        ([[0, 0, 0], [1, 0, 0], [0, 0, 1], [1, 0, 1]], [0, -1, 0], [2, 0, 1, 1, 3, 2], [200, 10, 10]),
        ([[1, 0, 0], [2, 0, 0], [1, 0, 1], [2, 0, 1]], [0, -1, 0], [2, 0, 1, 1, 3, 2], [10, 200, 10]),
        ([[0, 0, 0], [0, 1, 0], [1, 0, 0], [1, 1, 0]], [0, 0, -1], [2, 0, 1, 1, 3, 2], [200, 10, 10]),
        ([[1, 0, 0], [1, 1, 0], [2, 0, 0], [2, 1, 0]], [0, 0, -1], [2, 0, 1, 1, 3, 2], [10, 200, 10]),
    ];
    assert_eq!(flatten(&matrix.mesh_parts()), expected);
}

#[test]
fn an_l_shape_is_cut_into_rectangles() {
    let mut matrix = Matrix::new(2, 2, 1);
    matrix.set(Position::new(0, 0, 0), Voxel::Solid(Color::new(10, 10, 200)));
    matrix.set(Position::new(1, 0, 0), Voxel::Solid(Color::new(10, 10, 200)));
    matrix.set(Position::new(0, 1, 0), Voxel::Solid(Color::new(10, 10, 200)));
    let expected: Vec<Part> = vec![
        ([[1, 1, 0], [1, 1, 1], [1, 2, 0], [1, 2, 1]], [1, 0, 0], [2, 3, 1, 1, 0, 2], [10, 10, 200]),
        ([[2, 0, 0], [2, 0, 1], [2, 1, 0], [2, 1, 1]], [1, 0, 0], [2, 3, 1, 1, 0, 2], [10, 10, 200]),
        ([[1, 1, 0], [2, 1, 0], [1, 1, 1], [2, 1, 1]], [0, 1, 0], [2, 3, 1, 1, 0, 2], [10, 10, 200]),
        ([[0, 2, 0], [1, 2, 0], [0, 2, 1], [1, 2, 1]], [0, 1, 0], [2, 3, 1, 1, 0, 2], [10, 10, 200]),
        ([[0, 0, 1], [0, 1, 1], [2, 0, 1], [2, 1, 1]], [0, 0, 1], [2, 3, 1, 1, 0, 2], [10, 10, 200]),
        ([[0, 1, 1], [0, 2, 1], [1, 1, 1], [1, 2, 1]], [0, 0, 1], [2, 3, 1, 1, 0, 2], [10, 10, 200]),
        ([[0, 0, 0], [0, 0, 1], [0, 2, 0], [0, 2, 1]], [-1, 0, 0], [2, 0, 1, 1, 3, 2], [10, 10, 200]),
        ([[0, 0, 0], [2, 0, 0], [0, 0, 1], [2, 0, 1]], [0, -1, 0], [2, 0, 1, 1, 3, 2], [10, 10, 200]),
        ([[0, 0, 0], [0, 1, 0], [2, 0, 0], [2, 1, 0]], [0, 0, -1], [2, 0, 1, 1, 3, 2], [10, 10, 200]),
        ([[0, 1, 0], [0, 2, 0], [1, 1, 0], [1, 2, 0]], [0, 0, -1], [2, 0, 1, 1, 3, 2], [10, 10, 200]),
    ];
    assert_eq!(flatten(&matrix.mesh_parts()), expected);
}

#[test]
fn a_hollow_ring_shows_inner_faces() {
    let mut matrix = Matrix::new(3, 3, 1);
    matrix.set(Position::new(0, 0, 0), Voxel::Solid(Color::new(200, 10, 10)));
    matrix.set(Position::new(1, 0, 0), Voxel::Solid(Color::new(200, 10, 10)));
    matrix.set(Position::new(2, 0, 0), Voxel::Solid(Color::new(200, 10, 10)));
    matrix.set(Position::new(0, 1, 0), Voxel::Solid(Color::new(200, 10, 10)));
    matrix.set(Position::new(2, 1, 0), Voxel::Solid(Color::new(200, 10, 10)));
    matrix.set(Position::new(0, 2, 0), Voxel::Solid(Color::new(200, 10, 10)));
    matrix.set(Position::new(1, 2, 0), Voxel::Solid(Color::new(200, 10, 10)));
    matrix.set(Position::new(2, 2, 0), Voxel::Solid(Color::new(200, 10, 10)));
    let expected: Vec<Part> = vec![
        ([[1, 1, 0], [1, 1, 1], [1, 2, 0], [1, 2, 1]], [1, 0, 0], [2, 3, 1, 1, 0, 2], [200, 10, 10]),
        ([[3, 0, 0], [3, 0, 1], [3, 3, 0], [3, 3, 1]], [1, 0, 0], [2, 3, 1, 1, 0, 2], [200, 10, 10]),
        ([[1, 1, 0], [2, 1, 0], [1, 1, 1], [2, 1, 1]], [0, 1, 0], [2, 3, 1, 1, 0, 2], [200, 10, 10]),
        ([[0, 3, 0], [3, 3, 0], [0, 3, 1], [3, 3, 1]], [0, 1, 0], [2, 3, 1, 1, 0, 2], [200, 10, 10]),
        ([[0, 0, 1], [0, 1, 1], [3, 0, 1], [3, 1, 1]], [0, 0, 1], [2, 3, 1, 1, 0, 2], [200, 10, 10]),
        ([[0, 1, 1], [0, 3, 1], [1, 1, 1], [1, 3, 1]], [0, 0, 1], [2, 3, 1, 1, 0, 2], [200, 10, 10]),
        ([[2, 1, 1], [2, 3, 1], [3, 1, 1], [3, 3, 1]], [0, 0, 1], [2, 3, 1, 1, 0, 2], [200, 10, 10]),
        ([[1, 2, 1], [1, 3, 1], [2, 2, 1], [2, 3, 1]], [0, 0, 1], [2, 3, 1, 1, 0, 2], [200, 10, 10]),
        ([[0, 0, 0], [0, 0, 1], [0, 3, 0], [0, 3, 1]], [-1, 0, 0], [2, 0, 1, 1, 3, 2], [200, 10, 10]),
        ([[2, 1, 0], [2, 1, 1], [2, 2, 0], [2, 2, 1]], [-1, 0, 0], [2, 0, 1, 1, 3, 2], [200, 10, 10]),
        ([[0, 0, 0], [3, 0, 0], [0, 0, 1], [3, 0, 1]], [0, -1, 0], [2, 0, 1, 1, 3, 2], [200, 10, 10]),
        ([[1, 2, 0], [2, 2, 0], [1, 2, 1], [2, 2, 1]], [0, -1, 0], [2, 0, 1, 1, 3, 2], [200, 10, 10]),
        ([[0, 0, 0], [0, 1, 0], [3, 0, 0], [3, 1, 0]], [0, 0, -1], [2, 0, 1, 1, 3, 2], [200, 10, 10]),
        ([[0, 1, 0], [0, 3, 0], [1, 1, 0], [1, 3, 0]], [0, 0, -1], [2, 0, 1, 1, 3, 2], [200, 10, 10]),
        ([[2, 1, 0], [2, 3, 0], [3, 1, 0], [3, 3, 0]], [0, 0, -1], [2, 0, 1, 1, 3, 2], [200, 10, 10]),
        ([[1, 2, 0], [1, 3, 0], [2, 2, 0], [2, 3, 0]], [0, 0, -1], [2, 0, 1, 1, 3, 2], [200, 10, 10]),
    ];
    assert_eq!(flatten(&matrix.mesh_parts()), expected);
}

#[test]
fn a_mixed_block_matches_the_scan_order() {
    let mut matrix = Matrix::new(3, 2, 2);
    matrix.set(Position::new(0, 0, 0), Voxel::Solid(Color::new(200, 10, 10)));
    matrix.set(Position::new(2, 0, 0), Voxel::Solid(Color::new(200, 10, 10)));
    matrix.set(Position::new(0, 1, 0), Voxel::Solid(Color::new(10, 200, 10)));
    matrix.set(Position::new(0, 0, 1), Voxel::Solid(Color::new(10, 200, 10)));
    matrix.set(Position::new(2, 0, 1), Voxel::Solid(Color::new(200, 10, 10)));
    matrix.set(Position::new(0, 1, 1), Voxel::Solid(Color::new(10, 200, 10)));
    matrix.set(Position::new(2, 1, 1), Voxel::Solid(Color::new(10, 200, 10)));
    let expected: Vec<Part> = vec![
        ([[1, 0, 0], [1, 0, 1], [1, 1, 0], [1, 1, 1]], [1, 0, 0], [2, 3, 1, 1, 0, 2], [200, 10, 10]),
        ([[1, 1, 0], [1, 1, 2], [1, 2, 0], [1, 2, 2]], [1, 0, 0], [2, 3, 1, 1, 0, 2], [10, 200, 10]),
        ([[1, 0, 1], [1, 0, 2], [1, 1, 1], [1, 1, 2]], [1, 0, 0], [2, 3, 1, 1, 0, 2], [10, 200, 10]),
        ([[3, 0, 0], [3, 0, 2], [3, 1, 0], [3, 1, 2]], [1, 0, 0], [2, 3, 1, 1, 0, 2], [200, 10, 10]),
        ([[3, 1, 1], [3, 1, 2], [3, 2, 1], [3, 2, 2]], [1, 0, 0], [2, 3, 1, 1, 0, 2], [10, 200, 10]),
        ([[0, 1, 0], [1, 1, 0], [0, 1, 1], [1, 1, 1]], [0, 1, 0], [2, 3, 1, 1, 0, 2], [200, 10, 10]),
        ([[2, 1, 0], [3, 1, 0], [2, 1, 2], [3, 1, 2]], [0, 1, 0], [2, 3, 1, 1, 0, 2], [200, 10, 10]),
        ([[0, 2, 0], [1, 2, 0], [0, 2, 2], [1, 2, 2]], [0, 1, 0], [2, 3, 1, 1, 0, 2], [10, 200, 10]),
        ([[2, 2, 1], [3, 2, 1], [2, 2, 2], [3, 2, 2]], [0, 1, 0], [2, 3, 1, 1, 0, 2], [10, 200, 10]),
        ([[0, 0, 1], [0, 1, 1], [1, 0, 1], [1, 1, 1]], [0, 0, 1], [2, 3, 1, 1, 0, 2], [200, 10, 10]),
        ([[0, 0, 2], [0, 2, 2], [1, 0, 2], [1, 2, 2]], [0, 0, 1], [2, 3, 1, 1, 0, 2], [10, 200, 10]),
        ([[2, 0, 2], [2, 1, 2], [3, 0, 2], [3, 1, 2]], [0, 0, 1], [2, 3, 1, 1, 0, 2], [200, 10, 10]),
        ([[2, 1, 2], [2, 2, 2], [3, 1, 2], [3, 2, 2]], [0, 0, 1], [2, 3, 1, 1, 0, 2], [10, 200, 10]),
        ([[0, 0, 0], [0, 0, 1], [0, 1, 0], [0, 1, 1]], [-1, 0, 0], [2, 0, 1, 1, 3, 2], [200, 10, 10]),
        ([[0, 1, 0], [0, 1, 2], [0, 2, 0], [0, 2, 2]], [-1, 0, 0], [2, 0, 1, 1, 3, 2], [10, 200, 10]),
        ([[0, 0, 1], [0, 0, 2], [0, 1, 1], [0, 1, 2]], [-1, 0, 0], [2, 0, 1, 1, 3, 2], [10, 200, 10]),
        ([[2, 0, 0], [2, 0, 2], [2, 1, 0], [2, 1, 2]], [-1, 0, 0], [2, 0, 1, 1, 3, 2], [200, 10, 10]),
        ([[2, 1, 1], [2, 1, 2], [2, 2, 1], [2, 2, 2]], [-1, 0, 0], [2, 0, 1, 1, 3, 2], [10, 200, 10]),
        ([[0, 0, 0], [1, 0, 0], [0, 0, 1], [1, 0, 1]], [0, -1, 0], [2, 0, 1, 1, 3, 2], [200, 10, 10]),
        ([[0, 0, 1], [1, 0, 1], [0, 0, 2], [1, 0, 2]], [0, -1, 0], [2, 0, 1, 1, 3, 2], [10, 200, 10]),
        ([[2, 0, 0], [3, 0, 0], [2, 0, 2], [3, 0, 2]], [0, -1, 0], [2, 0, 1, 1, 3, 2], [200, 10, 10]),
        ([[0, 1, 0], [1, 1, 0], [0, 1, 1], [1, 1, 1]], [0, -1, 0], [2, 0, 1, 1, 3, 2], [10, 200, 10]),
        ([[2, 1, 1], [3, 1, 1], [2, 1, 2], [3, 1, 2]], [0, -1, 0], [2, 0, 1, 1, 3, 2], [10, 200, 10]),
        ([[0, 0, 0], [0, 1, 0], [1, 0, 0], [1, 1, 0]], [0, 0, -1], [2, 0, 1, 1, 3, 2], [200, 10, 10]),
        ([[2, 0, 0], [2, 1, 0], [3, 0, 0], [3, 1, 0]], [0, 0, -1], [2, 0, 1, 1, 3, 2], [200, 10, 10]),
        ([[0, 1, 0], [0, 2, 0], [1, 1, 0], [1, 2, 0]], [0, 0, -1], [2, 0, 1, 1, 3, 2], [10, 200, 10]),
        ([[0, 0, 1], [0, 1, 1], [1, 0, 1], [1, 1, 1]], [0, 0, -1], [2, 0, 1, 1, 3, 2], [10, 200, 10]),
        ([[2, 1, 1], [2, 2, 1], [3, 1, 1], [3, 2, 1]], [0, 0, -1], [2, 0, 1, 1, 3, 2], [10, 200, 10]),
    ];
    assert_eq!(flatten(&matrix.mesh_parts()), expected);
}

#[test]
fn a_taller_rectangle_is_found_before_its_neighbour() {
    let mut matrix = Matrix::new(1, 3, 3);
    matrix.set(Position::new(0, 0, 0), Voxel::Solid(Color::new(200, 10, 10)));
    matrix.set(Position::new(0, 1, 0), Voxel::Solid(Color::new(200, 10, 10)));
    matrix.set(Position::new(0, 2, 0), Voxel::Solid(Color::new(10, 200, 10)));
    matrix.set(Position::new(0, 0, 1), Voxel::Solid(Color::new(200, 10, 10)));
    matrix.set(Position::new(0, 1, 1), Voxel::Solid(Color::new(200, 10, 10)));
    matrix.set(Position::new(0, 2, 1), Voxel::Solid(Color::new(200, 10, 10)));
    let expected: Vec<Part> = vec![
        ([[1, 0, 0], [1, 0, 2], [1, 2, 0], [1, 2, 2]], [1, 0, 0], [2, 3, 1, 1, 0, 2], [200, 10, 10]),
        ([[1, 2, 0], [1, 2, 1], [1, 3, 0], [1, 3, 1]], [1, 0, 0], [2, 3, 1, 1, 0, 2], [10, 200, 10]),
        ([[1, 2, 1], [1, 2, 2], [1, 3, 1], [1, 3, 2]], [1, 0, 0], [2, 3, 1, 1, 0, 2], [200, 10, 10]),
        ([[0, 2, 0], [1, 2, 0], [0, 2, 1], [1, 2, 1]], [0, 1, 0], [2, 3, 1, 1, 0, 2], [200, 10, 10]),
        ([[0, 3, 0], [1, 3, 0], [0, 3, 1], [1, 3, 1]], [0, 1, 0], [2, 3, 1, 1, 0, 2], [10, 200, 10]),
        ([[0, 3, 1], [1, 3, 1], [0, 3, 2], [1, 3, 2]], [0, 1, 0], [2, 3, 1, 1, 0, 2], [200, 10, 10]),
        ([[0, 2, 1], [0, 3, 1], [1, 2, 1], [1, 3, 1]], [0, 0, 1], [2, 3, 1, 1, 0, 2], [10, 200, 10]),
        ([[0, 0, 2], [0, 3, 2], [1, 0, 2], [1, 3, 2]], [0, 0, 1], [2, 3, 1, 1, 0, 2], [200, 10, 10]),
        ([[0, 0, 0], [0, 0, 2], [0, 2, 0], [0, 2, 2]], [-1, 0, 0], [2, 0, 1, 1, 3, 2], [200, 10, 10]),
        ([[0, 2, 0], [0, 2, 1], [0, 3, 0], [0, 3, 1]], [-1, 0, 0], [2, 0, 1, 1, 3, 2], [10, 200, 10]),
        ([[0, 2, 1], [0, 2, 2], [0, 3, 1], [0, 3, 2]], [-1, 0, 0], [2, 0, 1, 1, 3, 2], [200, 10, 10]),
        ([[0, 0, 0], [1, 0, 0], [0, 0, 2], [1, 0, 2]], [0, -1, 0], [2, 0, 1, 1, 3, 2], [200, 10, 10]),
        ([[0, 2, 0], [1, 2, 0], [0, 2, 1], [1, 2, 1]], [0, -1, 0], [2, 0, 1, 1, 3, 2], [10, 200, 10]),
        ([[0, 0, 0], [0, 2, 0], [1, 0, 0], [1, 2, 0]], [0, 0, -1], [2, 0, 1, 1, 3, 2], [200, 10, 10]),
        ([[0, 2, 0], [0, 3, 0], [1, 2, 0], [1, 3, 0]], [0, 0, -1], [2, 0, 1, 1, 3, 2], [10, 200, 10]),
        ([[0, 2, 1], [0, 3, 1], [1, 2, 1], [1, 3, 1]], [0, 0, -1], [2, 0, 1, 1, 3, 2], [200, 10, 10]),
    ];
    assert_eq!(flatten(&matrix.mesh_parts()), expected);
}


#[test]
fn a_larger_model_is_covered() {
    let blue = Color::new(10, 10, 200);
    let palette = [
        Voxel::Empty,
        Voxel::Solid(RED),
        Voxel::Solid(RED),
        Voxel::Solid(GREEN),
        Voxel::Solid(blue),
    ];
    let matrix = scattered((16, 16, 16), &palette, 2024);
    assert_covers_what_shows(&matrix);
    let parts = matrix.mesh_parts();
    let faces: usize = parts.iter().map(|(quad, _)| cells_under(quad).len()).sum();
    assert!(parts.len() < faces, "some faces are merged");
}

#[test]
fn parts_come_side_by_side_and_plane_by_plane() {
    let palette = [Voxel::Empty, Voxel::Solid(RED), Voxel::Solid(GREEN)];
    let matrix = scattered((4, 5, 3), &palette, 77);
    let rank = |normal: Normal| match (normal.x, normal.y, normal.z) {
        (1, 0, 0) => 0,
        (0, 1, 0) => 1,
        (0, 0, 1) => 2,
        (-1, 0, 0) => 3,
        (0, -1, 0) => 4,
        (0, 0, -1) => 5,
        other => panic!("not a direction along an axis: {:?}", other),
    };
    let keys: Vec<(usize, usize, usize, usize)> = matrix
        .mesh_parts()
        .iter()
        .map(|(quad, _)| {
            let origin = quad.positions[0];
            let along = [origin.x, origin.y, origin.z];
            let axis = rank(quad.normal) % 3;
            (rank(quad.normal), along[axis], along[(axis + 2) % 3], along[(axis + 1) % 3])
        })
        .collect();
    assert!(keys.len() > 6);
    for pair in keys.windows(2) {
        assert!(pair[0] < pair[1], "{:?} stands before {:?}", pair[0], pair[1]);
    }
}
