//! What can go wrong when an address is read from text.

use vstd::prelude::*;

verus! {

/// Why a text was refused as an address.
#[derive(Clone, Copy, Debug, PartialEq, Eq, Structural)]
pub enum Error {
    /// The text is not six two-digit hexadecimal bytes separated by colons.
    InvalidMacAddress,
    /// The text is not four decimal bytes separated by dots.
    InvalidIpAddress,
}

} // verus!
