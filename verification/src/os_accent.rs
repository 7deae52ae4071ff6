//! The desktop's accent color as the interface takes it.
use vstd::prelude::*;
use crate::engine::{hex_encode, hex_of};
use crate::text::push_all;

verus! {

/// An RGB color (each channel already scaled to 0–255) as `#rrggbb`, in
/// lower-case hexadecimal.
pub fn color_hex(r: u8, g: u8, b: u8) -> (s: String)
    ensures
        s@ == "#"@ + hex_of(seq![r, g, b]),
{
    let bytes: Vec<u8> = vec![r, g, b];
    let hex = hex_encode(bytes.as_slice());
    let mut s = "#".to_owned();
    push_all(&mut s, hex.as_str());
    assert(bytes@ =~= seq![r, g, b]);
    s
}

} // verus!
