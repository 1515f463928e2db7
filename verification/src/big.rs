//! Trusted boundary around `num_bigint::BigUint`.
//!
//! Every arbitrary-precision value of this crate is held in a `BigUint`.
//! The type is opaque to the verifier; `big_value` names the natural number
//! a `BigUint` holds, and each wrapper below states, over that name, exactly
//! what the wrapped `num_bigint` operation computes. All other code of the
//! crate is verified against these contracts.

use vstd::prelude::*;
use vstd::arithmetic::power2::pow2;
use num_bigint::BigUint;

verus! {

#[verifier::external_type_specification]
#[verifier::external_body]
pub struct ExBigUint(BigUint);

/// The natural number that a `BigUint` holds.
pub uninterp spec fn big_value(b: BigUint) -> nat;

/// The natural number encoded by a little-endian byte string.
pub open spec fn bytes_le_value(bytes: Seq<u8>) -> nat
    decreases bytes.len(),
{
    if bytes.len() == 0 {
        0
    } else {
        (bytes[0] as nat) + 256 * bytes_le_value(bytes.drop_first())
    }
}

/// Relies on `BigUint: From<u64>`: conversion keeps the value.
#[verifier::external_body]
pub fn big_from_u64(x: u64) -> (r: BigUint)
    ensures
        big_value(r) == x as nat,
{
    BigUint::from(x)
}

/// Relies on `BigUint: Clone`: the copy holds the same value.
#[verifier::external_body]
pub fn big_clone(a: &BigUint) -> (r: BigUint)
    ensures
        big_value(r) == big_value(*a),
{
    a.clone()
}

/// Relies on `BigUint: Add`: exact natural-number addition.
#[verifier::external_body]
pub fn big_add(a: &BigUint, b: &BigUint) -> (r: BigUint)
    ensures
        big_value(r) == big_value(*a) + big_value(*b),
{
    a + b
}

/// Relies on `BigUint: Sub`: exact natural-number subtraction.
/// The operation panics when the subtrahend is larger, so that case is
/// excluded here.
#[verifier::external_body]
pub fn big_sub(a: &BigUint, b: &BigUint) -> (r: BigUint)
    requires
        big_value(*b) <= big_value(*a),
    ensures
        big_value(r) == big_value(*a) - big_value(*b),
{
    a - b
}

/// Relies on `BigUint: Mul`: exact natural-number multiplication.
#[verifier::external_body]
pub fn big_mul(a: &BigUint, b: &BigUint) -> (r: BigUint)
    ensures
        big_value(r) == big_value(*a) * big_value(*b),
{
    a * b
}

/// Relies on `BigUint: Shl<usize>`: a left shift by `k` multiplies by `2^k`.
#[verifier::external_body]
pub fn big_shl(a: &BigUint, k: usize) -> (r: BigUint)
    ensures
        big_value(r) == big_value(*a) * pow2(k as nat),
{
    a << k
}

/// Relies on `BigUint: Shr<usize>`: a right shift by `k` discards the low
/// `k` bits, dividing by `2^k` and rounding down.
#[verifier::external_body]
pub fn big_shr(a: &BigUint, k: usize) -> (r: BigUint)
    ensures
        big_value(r) == big_value(*a) / pow2(k as nat),
{
    a >> k
}

/// Relies on `<BigUint as num_integer::Integer>::div_rem`: simultaneous
/// quotient and remainder of exact natural-number division. Division by
/// zero panics, so it is excluded here.
#[verifier::external_body]
pub fn big_div_rem(a: &BigUint, b: &BigUint) -> (r: (BigUint, BigUint))
    requires
        big_value(*b) != 0,
    ensures
        big_value(*a) == big_value(r.0) * big_value(*b) + big_value(r.1),
        big_value(r.1) < big_value(*b),
{
    num_integer::Integer::div_rem(a, b)
}

/// Relies on `BigUint: PartialOrd`: comparison orders by value.
#[verifier::external_body]
pub fn big_lt(a: &BigUint, b: &BigUint) -> (r: bool)
    ensures
        r == (big_value(*a) < big_value(*b)),
{
    a < b
}

/// Relies on `BigUint: PartialEq`: the digit vectors are kept normalized,
/// so structural equality is value equality.
#[verifier::external_body]
pub fn big_eq(a: &BigUint, b: &BigUint) -> (r: bool)
    ensures
        r == (big_value(*a) == big_value(*b)),
{
    a == b
}

/// Relies on `BigUint::bits`: the fewest bits necessary to express the
/// value, i.e. the unique `r` with `2^(r-1) <= value < 2^r`, and `0` for
/// the value `0`.
#[verifier::external_body]
pub fn big_bits(a: &BigUint) -> (r: u64)
    ensures
        big_value(*a) < pow2(r as nat),
        big_value(*a) > 0 ==> r > 0 && pow2((r - 1) as nat) <= big_value(*a),
        big_value(*a) == 0 ==> r == 0,
{
    a.bits()
}

/// Relies on `BigUint::from_bytes_le`: the bytes are read as one
/// little-endian base-256 number.
#[verifier::external_body]
pub fn big_from_bytes_le(bytes: &[u8]) -> (r: BigUint)
    ensures
        big_value(r) == bytes_le_value(bytes@),
{
    BigUint::from_bytes_le(bytes)
}

/// Relies on `BigUint::modinv`: solves `self * x == 1 (mod modulus)` for
/// `x` in `[0, modulus)`, returning `None` exactly when no solution
/// exists. A zero modulus panics, so it is excluded here.
#[verifier::external_body]
pub fn big_modinv(a: &BigUint, m: &BigUint) -> (r: Option<BigUint>)
    requires
        big_value(*m) != 0,
    ensures
        match r {
            Some(x) => big_value(x) < big_value(*m) && (big_value(*a) * big_value(x))
                % big_value(*m) == 1nat % big_value(*m),
            None => forall|x: nat|
                x < big_value(*m) ==> #[trigger] ((big_value(*a) * x) % big_value(*m)) != 1nat
                    % big_value(*m),
        },
{
    a.modinv(m)
}

/// Remainder of `a` modulo `m`, built on the trusted `big_div_rem`.
pub fn big_mod(a: &BigUint, m: &BigUint) -> (r: BigUint)
    requires
        big_value(*m) != 0,
    ensures
        big_value(r) == big_value(*a) % big_value(*m),
{
    let qr = big_div_rem(a, m);
    proof {
        vstd::arithmetic::div_mod::lemma_fundamental_div_mod_converse(
            big_value(*a) as int,
            big_value(*m) as int,
            big_value(qr.0) as int,
            big_value(qr.1) as int,
        );
    }
    qr.1
}

} // verus!
