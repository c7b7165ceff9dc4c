//! The size of a vertex buffer in memory.

use vstd::prelude::*;

verus! {

/// Bytes that one vertex takes: a position and a velocity, each of two
/// 64-bit coordinates.
pub const VERTEX_BYTES: usize = 32;

/// The bytes that a buffer of `count` vertices takes, or `None` where that is
/// more than `isize::MAX`, the most that one allocation or one slice may span.
pub fn buffer_bytes(count: usize) -> (bytes: Option<usize>)
    ensures
        match bytes {
            Some(b) => b == count * VERTEX_BYTES && b <= isize::MAX,
            None => count * VERTEX_BYTES > isize::MAX,
        },
{
    if count > (isize::MAX as usize) / VERTEX_BYTES {
        None
    } else {
        Some(count * VERTEX_BYTES)
    }
}

} // verus!
