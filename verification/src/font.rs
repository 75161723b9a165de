//! Font data.
use vstd::prelude::*;

verus! {

/// Font data copied from `bytes`.
pub fn load_font_from_bytes(bytes: &[u8]) -> (v: Vec<u8>)
    ensures
        v@ == bytes@,
{
    vstd::slice::slice_to_vec(bytes)
}

} // verus!
