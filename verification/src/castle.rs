//! Castling-rights bit flags.
use vstd::prelude::*;

verus! {

pub const WK: u8 = 1;

pub const WQ: u8 = 2;

pub const BK: u8 = 4;

pub const BQ: u8 = 8;

} // verus!
