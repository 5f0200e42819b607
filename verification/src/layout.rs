//! Address and layout resolution.
//!
//! Pure functions computing effective byte offsets for array elements and
//! nested blocks.  Both renderers consume these; no generation-time error
//! originates here, only the access-time bounds check.

use vstd::prelude::*;

use crate::Error;

verus! {

/// The byte offset of element `index` of an arrayed item placed at `offset`
/// with the given per-element `stride`.
pub open spec fn element_offset_spec(offset: u32, stride: u32, index: u32) -> int {
    offset + index * stride
}

/// The address delta of an array element: `offset + index * stride`, accepted
/// exactly for `index < len` and refused with `RangeError` otherwise.
pub fn array_element_offset(offset: u32, len: u32, stride: u32, index: u32) -> (r: Result<
    u64,
    Error,
>)
    ensures
        index < len ==> (r matches Ok(o) && o == element_offset_spec(offset, stride, index)),
        index >= len ==> (r matches Err(e) && e == (Error::RangeError { index, len })),
{
    if index < len {
        proof {
            assert((index as int) * (stride as int) <= 0xffff_ffff * 0xffff_ffff) by (nonlinear_arith)
                requires
                    0 <= index <= 0xffff_ffff,
                    0 <= stride <= 0xffff_ffff,
            ;
        }
        Ok((offset as u64) + (index as u64) * (stride as u64))
    } else {
        Err(Error::RangeError { index, len })
    }
}

/// The absolute base of an item: the enclosing block's own origin plus the
/// item's relative byte offset.
pub fn item_base_offset(origin: u64, byte_offset: u32) -> (r: u64)
    requires
        origin + byte_offset <= u64::MAX,
    ensures
        r == origin + byte_offset,
{
    origin + (byte_offset as u64)
}

} // verus!
