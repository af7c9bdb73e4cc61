//! Elements of the finite field of 256 elements, one byte each.

use vstd::prelude::*;

verus! {

/// An element of GF(2^8), carried as its raw byte.
///
/// The field arithmetic lives elsewhere; here an element is only compared
/// and read back as a byte.
#[derive(Clone, Copy, Debug, PartialEq, Eq, Structural)]
pub struct GF256(pub u8);

impl GF256 {
    /// The raw byte of this element.
    pub open spec fn byte(self) -> u8 {
        self.0
    }
}

} // verus!
