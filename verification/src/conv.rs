//! Conversions between the wire encoding of booleans and `bool`.
//!
//! COCO files encode flags such as `iscrowd` and `isthing` as the integers
//! `0` and `1`, never as native JSON booleans.

use vstd::prelude::*;

verus! {

/// Decodes a wire integer as a boolean: `0` is `false`, `1` is `true`,
/// everything else is rejected.
pub fn bool_from_int(v: i64) -> (r: Option<bool>)
    ensures
        r == (if v == 0 {
            Some(false)
        } else if v == 1 {
            Some(true)
        } else {
            None::<bool>
        }),
{
    if v == 0 {
        Some(false)
    } else if v == 1 {
        Some(true)
    } else {
        None
    }
}

/// Encodes a boolean in the wire form: `true` is `1`, `false` is `0`.
pub fn bool_to_int(b: bool) -> (r: i64)
    ensures
        r == (if b {
            1int
        } else {
            0int
        }),
{
    if b {
        1
    } else {
        0
    }
}

} // verus!
