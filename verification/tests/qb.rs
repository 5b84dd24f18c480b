use zville::{Color, FormatError, Matrix, ParseError, Position, QubicleBinaryLoader, Voxel};

fn push_u32(bytes: &mut Vec<u8>, value: u32) {
    bytes.extend_from_slice(&value.to_le_bytes());
}

fn header(compressed: u32, num_matrices: u32) -> Vec<u8> {
    let mut bytes = Vec::new();
    push_u32(&mut bytes, 1);
    push_u32(&mut bytes, 0);
    push_u32(&mut bytes, 1);
    push_u32(&mut bytes, compressed);
    push_u32(&mut bytes, 0);
    push_u32(&mut bytes, num_matrices);
    bytes
}

fn matrix_head(bytes: &mut Vec<u8>, name: &[u8], size: (u32, u32, u32)) {
    bytes.push(name.len() as u8);
    bytes.extend_from_slice(name);
    push_u32(bytes, size.0);
    push_u32(bytes, size.1);
    push_u32(bytes, size.2);
    push_u32(bytes, 7);
    push_u32(bytes, 8);
    push_u32(bytes, 9);
}

fn two_cells() -> Vec<u8> {
    let mut bytes = header(0, 1);
    matrix_head(&mut bytes, b"row", (2, 1, 1));
    bytes.extend_from_slice(&[255, 0, 0, 255]);
    bytes.extend_from_slice(&[255, 0, 0, 0]);
    bytes
}

fn load(bytes: &[u8]) -> Result<Matrix, ParseError> {
    let loaded = QubicleBinaryLoader.from_bytes(bytes);
    match (&loaded, zville::load(bytes)) {
        (Ok(first), Ok(second)) => assert_eq!(cells(first), cells(&second)),
        (Err(first), Err(second)) => assert_eq!(*first, second),
        _ => panic!("the two ways to load disagree"),
    }
    loaded
}

fn cells(matrix: &Matrix) -> Vec<Voxel> {
    let count = matrix.block_count();
    let mut cells = Vec::new();
    for z in 0..count.z {
        for y in 0..count.y {
            for x in 0..count.x {
                cells.push(*matrix.lookup(Position::new(x, y, z)));
            }
        }
    }
    cells
}

#[test]
fn loads_a_row_of_two_cells() {
    let matrix = load(&two_cells()).unwrap();
    let count = matrix.block_count();
    assert_eq!((count.x, count.y, count.z), (2, 1, 1));
    assert_eq!(*matrix.lookup(Position::new(0, 0, 0)), Voxel::Solid(Color::new(255, 0, 0)));
    assert_eq!(*matrix.lookup(Position::new(1, 0, 0)), Voxel::Empty);
}

#[test]
fn compressed_data_is_a_format_error() {
    let mut bytes = header(1, 1);
    matrix_head(&mut bytes, b"row", (2, 1, 1));
    bytes.extend_from_slice(&[255, 0, 0, 255, 255, 0, 0, 0]);
    assert_eq!(load(&bytes).unwrap_err(), ParseError::Format(FormatError::Compressed));
}

#[test]
fn compressed_flag_is_checked_before_the_rest_is_read() {
    let bytes = header(1, 1);
    assert_eq!(load(&bytes[..16]).unwrap_err(), ParseError::Format(FormatError::Compressed));
}

#[test]
fn two_matrices_are_a_format_error() {
    let mut bytes = header(0, 2);
    matrix_head(&mut bytes, b"row", (2, 1, 1));
    bytes.extend_from_slice(&[255, 0, 0, 255, 255, 0, 0, 0]);
    assert_eq!(load(&bytes).unwrap_err(), ParseError::Format(FormatError::MatrixCount));
}

#[test]
fn no_matrix_is_a_format_error() {
    let bytes = header(0, 0);
    assert_eq!(load(&bytes).unwrap_err(), ParseError::Format(FormatError::MatrixCount));
}

#[test]
fn every_proper_prefix_is_truncated() {
    let bytes = two_cells();
    for len in 0..bytes.len() {
        assert_eq!(load(&bytes[..len]).unwrap_err(), ParseError::TruncatedInput, "length {}", len);
    }
}

#[test]
fn bytes_behind_the_last_record_are_ignored() {
    let mut bytes = two_cells();
    bytes.extend_from_slice(&[1, 2, 3]);
    let matrix = load(&bytes).unwrap();
    assert_eq!(*matrix.lookup(Position::new(0, 0, 0)), Voxel::Solid(Color::new(255, 0, 0)));
    assert_eq!(*matrix.lookup(Position::new(1, 0, 0)), Voxel::Empty);
}

#[test]
fn a_name_that_is_not_utf8_is_an_encoding_error() {
    let mut bytes = header(0, 1);
    matrix_head(&mut bytes, &[0xff, 0xfe], (1, 1, 1));
    bytes.extend_from_slice(&[1, 2, 3, 4]);
    assert_eq!(load(&bytes).unwrap_err(), ParseError::Encoding);
}

#[test]
fn a_name_cut_inside_a_character_is_an_encoding_error() {
    let mut bytes = header(0, 1);
    matrix_head(&mut bytes, &"é".as_bytes()[..1], (1, 1, 1));
    bytes.extend_from_slice(&[1, 2, 3, 4]);
    assert_eq!(load(&bytes).unwrap_err(), ParseError::Encoding);
}

#[test]
fn a_name_of_several_scripts_is_accepted() {
    let mut bytes = header(0, 1);
    matrix_head(&mut bytes, "Würfel 立方体".as_bytes(), (1, 1, 1));
    bytes.extend_from_slice(&[1, 2, 3, 4]);
    let matrix = load(&bytes).unwrap();
    assert_eq!(*matrix.lookup(Position::new(0, 0, 0)), Voxel::Solid(Color::new(1, 2, 3)));
}

#[test]
fn an_empty_name_is_accepted() {
    let mut bytes = header(0, 1);
    matrix_head(&mut bytes, b"", (1, 1, 1));
    bytes.extend_from_slice(&[9, 8, 7, 1]);
    let matrix = load(&bytes).unwrap();
    assert_eq!(*matrix.lookup(Position::new(0, 0, 0)), Voxel::Solid(Color::new(9, 8, 7)));
}

#[test]
fn sizes_are_read_in_little_endian_order() {
    let mut bytes = header(0, 1);
    matrix_head(&mut bytes, b"wide", (0x0102, 1, 1));
    for i in 0..0x0102u32 {
        bytes.extend_from_slice(&[(i % 256) as u8, (i / 256) as u8, 0, 1]);
    }
    let matrix = load(&bytes).unwrap();
    let count = matrix.block_count();
    assert_eq!((count.x, count.y, count.z), (258, 1, 1));
    assert_eq!(*matrix.lookup(Position::new(257, 0, 0)), Voxel::Solid(Color::new(1, 1, 0)));
}

#[test]
fn records_fill_x_first_then_y_then_z() {
    let mut bytes = header(0, 1);
    matrix_head(&mut bytes, b"box", (2, 3, 4));
    for z in 0..4u8 {
        for y in 0..3u8 {
            for x in 0..2u8 {
                bytes.extend_from_slice(&[x, y, z, 1 + x]);
            }
        }
    }
    let matrix = load(&bytes).unwrap();
    for z in 0..4u8 {
        for y in 0..3u8 {
            for x in 0..2u8 {
                assert_eq!(
                    *matrix.lookup(Position::new(x as usize, y as usize, z as usize)),
                    Voxel::Solid(Color::new(x, y, z))
                );
            }
        }
    }
}

#[test]
fn a_size_of_zero_gives_a_matrix_without_cells() {
    let mut bytes = header(0, 1);
    matrix_head(&mut bytes, b"flat", (3, 0, 2));
    let matrix = load(&bytes).unwrap();
    let count = matrix.block_count();
    assert_eq!((count.x, count.y, count.z), (3, 0, 2));
    assert!(matrix.mesh_parts().is_empty());
}

#[test]
fn sizes_too_large_for_the_data_are_truncated_input() {
    let mut bytes = header(0, 1);
    matrix_head(&mut bytes, b"huge", (u32::MAX, u32::MAX, u32::MAX));
    bytes.extend_from_slice(&[1, 2, 3, 4]);
    assert_eq!(load(&bytes).unwrap_err(), ParseError::TruncatedInput);
}

#[test]
fn errors_have_messages() {
    assert_eq!(
        ParseError::Format(FormatError::Compressed).message(),
        "compressed Qubicle Binary files are not supported"
    );
    assert_eq!(
        ParseError::Format(FormatError::MatrixCount).message(),
        "only one matrix expected in Qubicle Binary file"
    );
    assert_eq!(ParseError::TruncatedInput.message(), "unexpected end of Qubicle Binary file");
    assert_eq!(ParseError::Encoding.message(), "matrix name is not valid UTF-8");
}
