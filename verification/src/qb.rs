//! Loading a matrix from Qubicle Binary data.
//!
//! The layout, all integers little-endian and nothing padded: six `u32` of
//! header (version, color format, z-axis orientation, compression, visibility
//! mask encoding, number of matrices); then, for the one matrix that is
//! supported, a byte with the length of its name, the name, three `u32` of
//! sizes and three `u32` of position; then one record of four bytes `R, G, B,
//! A` for each cell, the cells of a row along x one after the other, row after
//! row along y, layer after layer along z. A record with `A > 0` is a solid
//! cell of color `(R, G, B)`, one with `A == 0` an empty cell.

use byteorder::ByteOrder;
use vstd::prelude::*;
use vstd::utf8::valid_utf8;
use crate::matrix::{BlockCount, Grid, Matrix, Position};
use crate::voxel::{Color, Voxel};

verus! {

/// What is wrong with data that holds more than this loader supports.
#[derive(Clone, Copy, Debug, PartialEq, Eq, Structural)]
pub enum FormatError {
    /// The data is marked as compressed.
    Compressed,
    /// The data holds another number of matrices than one.
    MatrixCount,
}

/// Why data could not be loaded.
#[derive(Clone, Copy, Debug, PartialEq, Eq, Structural)]
pub enum ParseError {
    /// The data is of a kind that the loader does not support.
    Format(FormatError),
    /// The data ends before a field that it announces is complete.
    TruncatedInput,
    /// The name of the matrix is not valid UTF-8.
    Encoding,
}

impl ParseError {
    /// The text that describes the error.
    pub open spec fn text(self) -> Seq<char> {
        match self {
            ParseError::Format(FormatError::Compressed) =>
                "compressed Qubicle Binary files are not supported"@,
            ParseError::Format(FormatError::MatrixCount) =>
                "only one matrix expected in Qubicle Binary file"@,
            ParseError::TruncatedInput => "unexpected end of Qubicle Binary file"@,
            ParseError::Encoding => "matrix name is not valid UTF-8"@,
        }
    }

    /// A description of the error.
    pub fn message(&self) -> (message: &'static str)
        ensures
            message@ == self.text(),
    {
        match self {
            ParseError::Format(FormatError::Compressed) => {
                "compressed Qubicle Binary files are not supported"
            },
            ParseError::Format(FormatError::MatrixCount) => {
                "only one matrix expected in Qubicle Binary file"
            },
            ParseError::TruncatedInput => "unexpected end of Qubicle Binary file",
            ParseError::Encoding => "matrix name is not valid UTF-8",
        }
    }
}

/// The number that four bytes hold in little-endian order.
pub open spec fn le_u32(bytes: Seq<u8>) -> int {
    bytes[0] + bytes[1] * 0x100 + bytes[2] * 0x1_0000 + bytes[3] * 0x100_0000
}

/// The `u32` that starts at byte `at` of `bytes`.
pub open spec fn u32_at(bytes: Seq<u8>, at: int) -> int {
    le_u32(bytes.subrange(at, at + 4))
}

/// The length of the header, up to the byte with the length of the name.
pub open spec fn header_len() -> int {
    24
}

/// The length of the name of the matrix.
pub open spec fn name_len(bytes: Seq<u8>) -> int {
    bytes[header_len()] as int
}

/// The name of the matrix.
pub open spec fn name(bytes: Seq<u8>) -> Seq<u8> {
    bytes.subrange(header_len() + 1, header_len() + 1 + name_len(bytes))
}

/// Where the sizes of the matrix start.
pub open spec fn sizes_at(bytes: Seq<u8>) -> int {
    header_len() + 1 + name_len(bytes)
}

/// Where the records of the cells start: behind the sizes of the matrix and
/// its position.
pub open spec fn records_at(bytes: Seq<u8>) -> int {
    sizes_at(bytes) + 24
}

/// The sizes of the matrix along x, y and z.
pub open spec fn sizes(bytes: Seq<u8>) -> (nat, nat, nat) {
    (
        u32_at(bytes, sizes_at(bytes)) as nat,
        u32_at(bytes, sizes_at(bytes) + 4) as nat,
        u32_at(bytes, sizes_at(bytes) + 8) as nat,
    )
}

/// The number of cells of the matrix.
pub open spec fn volume(bytes: Seq<u8>) -> nat {
    sizes(bytes).0 * sizes(bytes).1 * sizes(bytes).2
}

/// The cell that a record of four bytes stands for.
pub open spec fn voxel_of(r: u8, g: u8, b: u8, a: u8) -> Voxel {
    if a > 0 {
        Voxel::Solid(Color { r, g, b })
    } else {
        Voxel::Empty
    }
}

/// The cell with storage index `i`.
pub open spec fn record(bytes: Seq<u8>, i: int) -> Voxel {
    let at = records_at(bytes) + 4 * i;
    voxel_of(bytes[at], bytes[at + 1], bytes[at + 2], bytes[at + 3])
}

/// What `bytes` hold: the grid, or the first thing that is wrong with them
/// in the order of the layout.
pub open spec fn decode(bytes: Seq<u8>) -> Result<Grid, ParseError> {
    if bytes.len() < 16 {
        Err(ParseError::TruncatedInput)
    } else if u32_at(bytes, 12) != 0 {
        Err(ParseError::Format(FormatError::Compressed))
    } else if bytes.len() < header_len() {
        Err(ParseError::TruncatedInput)
    } else if u32_at(bytes, 20) != 1 {
        Err(ParseError::Format(FormatError::MatrixCount))
    } else if bytes.len() < header_len() + 1 || bytes.len() < sizes_at(bytes) {
        Err(ParseError::TruncatedInput)
    } else if !valid_utf8(name(bytes)) {
        Err(ParseError::Encoding)
    } else if bytes.len() < records_at(bytes) || bytes.len() < records_at(bytes) + 4 * volume(
        bytes,
    ) {
        Err(ParseError::TruncatedInput)
    } else {
        Ok(
            Grid {
                size_x: sizes(bytes).0,
                size_y: sizes(bytes).1,
                size_z: sizes(bytes).2,
                cells: Seq::new(volume(bytes), |i: int| record(bytes, i)),
            },
        )
    }
}

/// Data that are marked as compressed are refused for that, whatever
/// follows the mark.
pub proof fn compressed_data_is_refused(bytes: Seq<u8>)
    requires
        bytes.len() >= 16,
        u32_at(bytes, 12) != 0,
    ensures
        decode(bytes) == Err::<Grid, ParseError>(ParseError::Format(FormatError::Compressed)),
{
}

/// Data that are not compressed and announce another number of matrices than
/// one are refused for that, whatever follows the header.
pub proof fn other_matrix_count_is_refused(bytes: Seq<u8>)
    requires
        bytes.len() >= header_len(),
        u32_at(bytes, 12) == 0,
        u32_at(bytes, 20) != 1,
    ensures
        decode(bytes) == Err::<Grid, ParseError>(ParseError::Format(FormatError::MatrixCount)),
{
}

/// Data whose header is complete and asks for compression, or for another
/// number of matrices than one, are refused as being of an unsupported kind,
/// whatever else they hold.
pub proof fn unsupported_data_is_a_format_error(bytes: Seq<u8>)
    requires
        bytes.len() >= header_len(),
        u32_at(bytes, 12) != 0 || u32_at(bytes, 20) != 1,
    ensures
        decode(bytes) matches Err(ParseError::Format(_)),
{
}

/// Data that end before the last record are never decoded to a grid.
pub proof fn short_data_is_refused(bytes: Seq<u8>)
    requires
        bytes.len() < header_len() + 25 || bytes.len() < records_at(bytes) + 4 * volume(bytes),
    ensures
        decode(bytes) is Err,
{
}

/// A grid that is decoded is whole: it has the sizes that the data announce
/// and one cell for each position, and each cell is the one that its record
/// stands for.
pub proof fn decoded_grid_is_whole(bytes: Seq<u8>, x: int, y: int, z: int)
    requires
        bytes.len() <= usize::MAX,
        decode(bytes) is Ok,
        decode(bytes)->Ok_0.contains(x, y, z),
    ensures
        decode(bytes)->Ok_0.wf(),
        decode(bytes)->Ok_0.size_x == sizes(bytes).0,
        decode(bytes)->Ok_0.size_y == sizes(bytes).1,
        decode(bytes)->Ok_0.size_z == sizes(bytes).2,
        decode(bytes)->Ok_0.at(x, y, z) == record(bytes, decode(bytes)->Ok_0.index(x, y, z)),
{
    let grid = decode(bytes)->Ok_0;
    grid.index_in_range(x, y, z);
    u32_is_small(bytes.subrange(sizes_at(bytes), sizes_at(bytes) + 4));
    u32_is_small(bytes.subrange(sizes_at(bytes) + 4, sizes_at(bytes) + 8));
    u32_is_small(bytes.subrange(sizes_at(bytes) + 8, sizes_at(bytes) + 12));
}

/// Four bytes hold a number below 2^32.
pub proof fn u32_is_small(bytes: Seq<u8>)
    ensures
        0 <= le_u32(bytes) <= u32::MAX,
{
}

/// Reads a `u32` with `byteorder::LittleEndian::read_u32`. Not proved but
/// taken from the crate's source: the call panics on fewer than four bytes,
/// which `requires` rules out, and otherwise returns the number that the
/// first four bytes of `buf` hold in little-endian order.
#[verifier::external_body]
fn little_endian_u32(buf: &[u8]) -> (value: u32)
    requires
        buf@.len() >= 4,
    ensures
        value == le_u32(buf@),
{
    byteorder::LittleEndian::read_u32(buf)
}

/// Asks `std::str::from_utf8` whether `bytes` are valid UTF-8. Not proved but
/// taken from its documentation: the call succeeds on well-formed UTF-8, for
/// which `valid_utf8` is the definition, and fails on everything else.
#[verifier::external_body]
fn is_utf8(bytes: &[u8]) -> (valid: bool)
    ensures
        valid == valid_utf8(bytes@),
{
    std::str::from_utf8(bytes).is_ok()
}

/// A place in a run of bytes, from which fields are read one after the other.
struct Reader<'a> {
    bytes: &'a [u8],
    pos: usize,
}

impl<'a> Reader<'a> {
    /// The place lies inside the bytes or at their end.
    spec fn wf(&self) -> bool {
        self.pos <= self.bytes@.len()
    }

    /// A reader at the start of `bytes`.
    fn new(bytes: &'a [u8]) -> (reader: Self)
        ensures
            reader.wf(),
            reader.bytes@ == bytes@,
            reader.pos == 0,
    {
        Reader { bytes, pos: 0 }
    }

    /// The number of bytes that are left to read.
    fn remaining(&self) -> (n: usize)
        requires
            self.wf(),
        ensures
            n == self.bytes@.len() - self.pos,
            self.bytes@.len() <= usize::MAX,
    {
        self.bytes.len() - self.pos
    }
}

/// Reads `size` bytes, or fails if fewer are left.
fn read<'a>(reader: &mut Reader<'a>, size: usize) -> (r: Result<&'a [u8], ParseError>)
    requires
        old(reader).wf(),
    ensures
        final(reader).wf(),
        final(reader).bytes@ == old(reader).bytes@,
        old(reader).pos + size <= old(reader).bytes@.len() ==> {
            &&& r matches Ok(chunk)
            &&& chunk@ == old(reader).bytes@.subrange(
                old(reader).pos as int,
                old(reader).pos + size,
            )
            &&& final(reader).pos == old(reader).pos + size
        },
        old(reader).pos + size > old(reader).bytes@.len() ==> {
            &&& r == Err::<&[u8], ParseError>(ParseError::TruncatedInput)
            &&& final(reader).pos == old(reader).pos
        },
{
    if size > reader.remaining() {
        return Err(ParseError::TruncatedInput);
    }
    let start = reader.pos;
    let bytes: &'a [u8] = reader.bytes;
    let chunk = &bytes[start..start + size];
    reader.pos = start + size;
    Ok(chunk)
}

/// Reads one byte.
fn read_byte(reader: &mut Reader) -> (r: Result<u8, ParseError>)
    requires
        old(reader).wf(),
    ensures
        final(reader).wf(),
        final(reader).bytes@ == old(reader).bytes@,
        old(reader).pos + 1 <= old(reader).bytes@.len() ==> {
            &&& r == Ok::<u8, ParseError>(old(reader).bytes@[old(reader).pos as int])
            &&& final(reader).pos == old(reader).pos + 1
        },
        old(reader).pos + 1 > old(reader).bytes@.len() ==> {
            &&& r == Err::<u8, ParseError>(ParseError::TruncatedInput)
            &&& final(reader).pos == old(reader).pos
        },
{
    match read(reader, 1) {
        Ok(chunk) => Ok(chunk[0]),
        Err(e) => Err(e),
    }
}

/// Reads a `u32`.
fn read_u32(reader: &mut Reader) -> (r: Result<u32, ParseError>)
    requires
        old(reader).wf(),
    ensures
        final(reader).wf(),
        final(reader).bytes@ == old(reader).bytes@,
        old(reader).pos + 4 <= old(reader).bytes@.len() ==> {
            &&& r matches Ok(value)
            &&& value == u32_at(old(reader).bytes@, old(reader).pos as int)
            &&& final(reader).pos == old(reader).pos + 4
        },
        old(reader).pos + 4 > old(reader).bytes@.len() ==> {
            &&& r == Err::<u32, ParseError>(ParseError::TruncatedInput)
            &&& final(reader).pos == old(reader).pos
        },
{
    match read(reader, 4) {
        Ok(chunk) => Ok(little_endian_u32(chunk)),
        Err(e) => Err(e),
    }
}

/// The loader for Qubicle Binary data.
#[derive(Clone, Copy, Debug, Default)]
pub struct QubicleBinaryLoader;

impl QubicleBinaryLoader {
    /// Loads the matrix that `bytes` hold, as `load` does.
    pub fn from_bytes(&self, bytes: &[u8]) -> (r: Result<Matrix, ParseError>)
        ensures
            match decode(bytes@) {
                Ok(grid) => r matches Ok(matrix) && matrix@.wf() && matrix@ == grid,
                Err(e) => r matches Err(error) && error == e,
            },
    {
        load(bytes)
    }
}

/// Loads the matrix that `bytes` hold. Compressed data and data with another
/// number of matrices than one are refused; so are data that end early and a
/// name that is not UTF-8. Whatever follows the last record is left unread.
/// No matrix is handed out before its last cell is filled.
pub fn load(bytes: &[u8]) -> (r: Result<Matrix, ParseError>)
    ensures
        match decode(bytes@) {
            Ok(grid) => r matches Ok(matrix) && matrix@.wf() && matrix@ == grid,
            Err(e) => r matches Err(error) && error == e,
        },
{
    let mut reader = Reader::new(bytes);
    let _version = match read_u32(&mut reader) {
        Ok(v) => v,
        Err(e) => return Err(e),
    };
    let _color_format = match read_u32(&mut reader) {
        Ok(v) => v,
        Err(e) => return Err(e),
    };
    let _z_axis_orientation = match read_u32(&mut reader) {
        Ok(v) => v,
        Err(e) => return Err(e),
    };
    let compressed = match read_u32(&mut reader) {
        Ok(v) => v,
        Err(e) => return Err(e),
    };
    if compressed != 0 {
        return Err(ParseError::Format(FormatError::Compressed));
    }
    let _visibility_mask_encoded = match read_u32(&mut reader) {
        Ok(v) => v,
        Err(e) => return Err(e),
    };
    let num_matrices = match read_u32(&mut reader) {
        Ok(v) => v,
        Err(e) => return Err(e),
    };
    if num_matrices != 1 {
        return Err(ParseError::Format(FormatError::MatrixCount));
    }
    let name_len = match read_byte(&mut reader) {
        Ok(v) => v,
        Err(e) => return Err(e),
    };
    let name = match read(&mut reader, name_len as usize) {
        Ok(v) => v,
        Err(e) => return Err(e),
    };
    if !is_utf8(name) {
        return Err(ParseError::Encoding);
    }
    let size_x = match read_u32(&mut reader) {
        Ok(v) => v as usize,
        Err(e) => return Err(e),
    };
    let size_y = match read_u32(&mut reader) {
        Ok(v) => v as usize,
        Err(e) => return Err(e),
    };
    let size_z = match read_u32(&mut reader) {
        Ok(v) => v as usize,
        Err(e) => return Err(e),
    };
    let _matrix_position = match read(&mut reader, 12) {
        Ok(v) => v,
        Err(e) => return Err(e),
    };
    let ghost start = reader.pos as int;
    assert(start == records_at(bytes@));
    assert(sizes(bytes@) == (size_x as nat, size_y as nat, size_z as nat));
    assert(volume(bytes@) == size_x * size_y * size_z);
    let left = reader.remaining();
    let total = match BlockCount::new(size_x, size_y, size_z).checked_total() {
        Some(total) => total,
        None => return Err(ParseError::TruncatedInput),
    };
    match total.checked_mul(4) {
        Some(needed) => {
            if needed > left {
                return Err(ParseError::TruncatedInput);
            }
        },
        None => return Err(ParseError::TruncatedInput),
    }
    let mut matrix = Matrix::new(size_x, size_y, size_z);
    let mut n: usize = 0;
    let mut z: usize = 0;
    assert(0 * size_x * size_y == 0) by (nonlinear_arith);
    while z < size_z
        invariant
            reader.wf(),
            reader.bytes@ == bytes@,
            start + 4 * total <= bytes@.len(),
            total == size_x * size_y * size_z,
            matrix@.wf(),
            matrix@.size_x == size_x,
            matrix@.size_y == size_y,
            matrix@.size_z == size_z,
            z <= size_z,
            n == z * size_x * size_y,
            reader.pos == start + 4 * n,
            forall|i: int| 0 <= i < n ==> #[trigger] matrix@.cells[i] == record(bytes@, i),
            start == records_at(bytes@),
        decreases size_z - z,
    {
        let mut y: usize = 0;
        assert(0 * size_x == 0) by (nonlinear_arith);
        while y < size_y
            invariant
                reader.wf(),
                reader.bytes@ == bytes@,
                start + 4 * total <= bytes@.len(),
                total == size_x * size_y * size_z,
                matrix@.wf(),
                matrix@.size_x == size_x,
                matrix@.size_y == size_y,
                matrix@.size_z == size_z,
                z < size_z,
                y <= size_y,
                n == y * size_x + z * size_x * size_y,
                reader.pos == start + 4 * n,
                forall|i: int| 0 <= i < n ==> #[trigger] matrix@.cells[i] == record(bytes@, i),
                start == records_at(bytes@),
            decreases size_y - y,
        {
            let mut x: usize = 0;
            while x < size_x
                invariant
                    reader.wf(),
                    reader.bytes@ == bytes@,
                    start + 4 * total <= bytes@.len(),
                    total == size_x * size_y * size_z,
                    matrix@.wf(),
                    matrix@.size_x == size_x,
                    matrix@.size_y == size_y,
                    matrix@.size_z == size_z,
                    z < size_z,
                    y < size_y,
                    x <= size_x,
                    n == x + y * size_x + z * size_x * size_y,
                    reader.pos == start + 4 * n,
                    forall|i: int|
                        0 <= i < n ==> #[trigger] matrix@.cells[i] == record(bytes@, i),
                    start == records_at(bytes@),
                decreases size_x - x,
            {
                proof {
                    matrix@.index_in_range(x as int, y as int, z as int);
                }
                let r = match read_byte(&mut reader) {
                    Ok(v) => v,
                    Err(e) => return Err(e),
                };
                let g = match read_byte(&mut reader) {
                    Ok(v) => v,
                    Err(e) => return Err(e),
                };
                let b = match read_byte(&mut reader) {
                    Ok(v) => v,
                    Err(e) => return Err(e),
                };
                let a = match read_byte(&mut reader) {
                    Ok(v) => v,
                    Err(e) => return Err(e),
                };
                let voxel = if a > 0 {
                    Voxel::Solid(Color::new(r, g, b))
                } else {
                    Voxel::Empty
                };
                assert(voxel == record(bytes@, n as int));
                matrix.set(Position::new(x, y, z), voxel);
                x = x + 1;
                n = n + 1;
            }
            proof {
                assert((y + 1) * size_x == y * size_x + size_x) by (nonlinear_arith);
            }
            y = y + 1;
        }
        proof {
            assert((z + 1) * size_x * size_y == z * size_x * size_y + size_y * size_x)
                by (nonlinear_arith);
        }
        z = z + 1;
    }
    proof {
        assert(n == total) by (nonlinear_arith)
            requires
                n == size_z * size_x * size_y,
                total == size_x * size_y * size_z,
        ;
        assert(matrix@.cells =~= Seq::new(volume(bytes@), |i: int| record(bytes@, i)));
    }
    Ok(matrix)
}

} // verus!
