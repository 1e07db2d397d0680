use vstd::prelude::*;

use byteorder::{ByteOrder, LittleEndian};

verus! {

/// The bytes of one stored distance.
pub const WORD_BYTES: usize = 4;

/// The unsigned integer stored little-endian in the four bytes of `bytes`
/// that begin at `offset`.
pub open spec fn le_u32(bytes: Seq<u8>, offset: int) -> int {
    bytes[offset] + 256 * bytes[offset + 1] + 65536 * bytes[offset + 2] + 16777216 * bytes[offset
        + 3]
}

/// The bit pattern of the `index`-th distance of a matrix stored row by
/// row, four little-endian bytes per distance.
pub open spec fn word_at(bytes: Seq<u8>, index: int) -> int {
    le_u32(bytes, WORD_BYTES * index)
}

/// `get_distance(bytes, length, start_pos)` reads a whole row and neither
/// overflows nor reads past the end of `bytes`.
pub open spec fn row_in_bounds(len: nat, length: i64, start_pos: i64) -> bool {
    &&& i64::MIN <= start_pos * length <= i64::MAX
    &&& i64::MIN <= start_pos * length + length <= i64::MAX
    &&& length > 0 ==> (0 <= start_pos && WORD_BYTES * ((start_pos + 1) * length) <= len)
}

/// `get_distance_value(bytes, length, x, y)` reads an entry that lies in
/// `bytes`, with no overflow.
pub open spec fn entry_in_bounds(len: nat, length: i64, x: i64, y: i64) -> bool {
    &&& i64::MIN <= x * length <= i64::MAX
    &&& i64::MIN <= x * length + y <= i64::MAX
    &&& 0 <= x * length + y
    &&& WORD_BYTES * (x * length + y + 1) <= len
}

/// The four bytes at `offset` read as a little-endian `u32`.
///
/// Trusted: `LittleEndian::read_u32` of byteorder is
/// `u32::from_le_bytes(buf[..4])`; the contract claims that the result is the
/// little-endian value of the four bytes at `offset`.
#[verifier::external_body]
fn read_word(bytes: &[u8], offset: usize) -> (w: u32)
    requires
        offset + WORD_BYTES <= bytes@.len(),
    ensures
        w == le_u32(bytes@, offset as int),
{
    LittleEndian::read_u32(&bytes[offset..offset + WORD_BYTES])
}

/// Row `start_pos` of a `length`-wide distance matrix stored row by row in
/// `distances`, as the bit patterns of its `length` distances.
pub fn get_distance(distances: &[u8], length: i64, start_pos: i64) -> (row: Vec<u32>)
    requires
        row_in_bounds(distances@.len(), length, start_pos),
    ensures
        row@.len() == if length > 0 {
            length as int
        } else {
            0
        },
        forall|k: int| 0 <= k < row@.len() ==> #[trigger] row@[k] == word_at(
            distances@,
            start_pos * length + k,
        ),
        forall|k: int|
            0 <= k < row@.len() ==> {
                let o = 4 * (start_pos * length + k);
                #[trigger] row@[k] == distances@[o] + 256 * distances@[o + 1] + 65536 * distances@[o
                    + 2] + 16777216 * distances@[o + 3]
            },
{
    let size = distances.len();
    let base = start_pos * length;
    let end = base + length;
    let mut row: Vec<u32> = Vec::new();
    let mut i = base;
    proof {
        if length > 0 {
            assert((start_pos + 1) * length == start_pos * length + length) by (nonlinear_arith);
            assert(0 <= start_pos * length) by (nonlinear_arith)
                requires
                    0 <= start_pos,
                    length > 0,
            ;
        }
    }
    while i < end
        invariant
            size == distances@.len(),
            base == start_pos * length,
            end == base + length,
            length > 0 ==> (0 <= base <= i <= end && WORD_BYTES * end <= distances@.len()),
            length <= 0 ==> i == base,
            row@.len() == i - base,
            forall|k: int| 0 <= k < row@.len() ==> #[trigger] row@[k] == word_at(distances@, base + k),
        decreases end - i,
    {
        let offset = (i as usize) * WORD_BYTES;
        let w = read_word(distances, offset);
        row.push(w);
        i = i + 1;
        proof {
            assert(row@[row@.len() - 1] == word_at(distances@, base + (row@.len() - 1)));
        }
    }
    row
}

/// Entry `(start_pos_x, start_pos_y)` of a `length`-wide distance matrix
/// stored row by row in `distances`, as the bit pattern of the distance.
pub fn get_distance_value(distances: &[u8], length: i64, start_pos_x: i64, start_pos_y: i64) -> (w:
    u32)
    requires
        entry_in_bounds(distances@.len(), length, start_pos_x, start_pos_y),
    ensures
        w == word_at(distances@, start_pos_x * length + start_pos_y),
        ({
            let o = 4 * (start_pos_x * length + start_pos_y);
            w == distances@[o] + 256 * distances@[o + 1] + 65536 * distances@[o + 2] + 16777216
                * distances@[o + 3]
        }),
{
    let size = distances.len();
    let start_pos = (start_pos_x * length) + start_pos_y;
    assert(start_pos <= size);
    read_word(distances, (start_pos as usize) * WORD_BYTES)
}

/// Law: the four bytes at `offset` read as the little-endian value, the
/// lowest byte first; word `i` of a matrix is that value at byte offset
/// `4 * i`.
pub proof fn word_is_four_little_endian_bytes(bytes: Seq<u8>, i: int, offset: int)
    ensures
        le_u32(bytes, offset) == bytes[offset] + 256 * bytes[offset + 1] + 65536 * bytes[offset + 2]
            + 16777216 * bytes[offset + 3],
        word_at(bytes, i) == bytes[4 * i] + 256 * bytes[4 * i + 1] + 65536 * bytes[4 * i + 2]
            + 16777216 * bytes[4 * i + 3],
        le_u32(bytes, 4 * i) == word_at(bytes, i),
{
}

/// Law: a row can be read exactly when the row index times the width and
/// the end of the row fit in `i64` and, for a positive width, the row is
/// a row of the matrix whose last byte lies in `bytes`; an entry, exactly
/// when its index fits and its four bytes lie in `bytes`.
pub proof fn bounds_are_the_matrix_extent(len: nat, length: i64, x: i64, y: i64)
    ensures
        row_in_bounds(len, length, x) <==> (i64::MIN <= x * length <= i64::MAX && i64::MIN <= x
            * length + length <= i64::MAX && (length > 0 ==> (0 <= x && 4 * ((x + 1) * length)
            <= len))),
        entry_in_bounds(len, length, x, y) <==> (i64::MIN <= x * length <= i64::MAX && i64::MIN
            <= x * length + y <= i64::MAX && 0 <= x * length + y && 4 * (x * length + y + 1)
            <= len),
{
}

/// Law: wherever a whole row can be read, each of its entries can be read
/// alone; by the two contracts, entry `y` of the row is then the value read
/// alone.
pub proof fn entry_agrees_with_row(distances: Seq<u8>, length: i64, x: i64, y: i64)
    requires
        row_in_bounds(distances.len(), length, x),
        0 <= y < length,
    ensures
        entry_in_bounds(distances.len(), length, x, y),
{
    assert((x + 1) * length == x * length + length) by (nonlinear_arith);
    assert(0 <= x * length) by (nonlinear_arith)
        requires
            0 <= x,
            length > 0,
    ;
}

} // verus!
