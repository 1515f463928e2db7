//! Residue number system engine for emulating arithmetic of a foreign
//! ("wrong") finite field inside circuits whose native field is another,
//! smaller one. The engine derives sound bit-width bounds from the limb
//! width and the two moduli, represents foreign-field elements as fixed
//! four-limb tuples, and produces the quotient, remainder and residue
//! witnesses a circuit needs to verify reductions, multiplications,
//! subtractions and inversions without native-field overflow.

pub mod big;
pub mod model;
pub mod integer;
pub mod rns;
pub mod ops;
pub mod reduction;
pub mod compare;
pub mod auxiliary;
pub mod construct;
pub mod chip;
pub mod laws;

use vstd::prelude::*;

verus! {

/// Number of limbs in every multi-precision integer of this crate.
pub const NUMBER_OF_LIMBS: usize = 4;

/// Number of lookup windows each limb is split into for range checks.
pub const NUMBER_OF_LOOKUP_LIMBS: usize = 4;

} // verus!
