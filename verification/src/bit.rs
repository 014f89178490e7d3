//! GF(2), the prime field below the tower.
use vstd::prelude::*;

verus! {

/// A single bit; `true` denotes one.
#[derive(Copy, Clone, Default, Debug, PartialEq, Eq, Structural)]
pub struct Bit(pub bool);

} // verus!
