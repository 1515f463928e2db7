//! The general laws of the engine, stated over the same specification
//! functions that the operations' contracts use.

use vstd::prelude::*;
use vstd::arithmetic::power2::{pow2, lemma_pow2_adds, lemma_pow2_pos, lemma2_to64};
use vstd::arithmetic::div_mod::{lemma_small_mod, lemma_sub_mod_noop, lemma_mod_multiples_basic};
use crate::model::{limbs_value, decompose_spec, spec_bits, lemma_compose_decompose, lemma_spec_bits};
use crate::rns::{rns_base_aux, rns_binary, rns_max_remainder, rns_aux_ok};
use crate::auxiliary::lemma_base_aux_value;

verus! {

/// Round trip: composing the four-limb decomposition of any value below
/// `2^(4 * bit_len_limb)` gives the value back unchanged.
pub proof fn lemma_decompose_compose_roundtrip(x: nat, bit_len_limb: nat)
    requires
        x < pow2(4 * bit_len_limb),
    ensures
        limbs_value(decompose_spec(x, 4, bit_len_limb), bit_len_limb) == x,
{
    lemma_compose_decompose(x, 4, bit_len_limb);
    assert(4nat * bit_len_limb == 4 * bit_len_limb) by (nonlinear_arith);
    lemma_pow2_pos(4 * bit_len_limb);
    lemma_small_mod(x, pow2(4 * bit_len_limb));
}

/// A value congruent to zero has no multiplicative inverse, so inversion
/// must return the no-inverse signal on it.
pub proof fn lemma_zero_has_no_inverse(a: nat, w: nat)
    requires
        w >= 2,
        a % w == 0,
    ensures
        forall|x: nat| x < w ==> #[trigger] ((a * x) % w) != 1,
{
    assert forall|x: nat| x < w implies #[trigger] ((a * x) % w) != 1 by {
        vstd::arithmetic::div_mod::lemma_mul_mod_noop_left(a as int, x as int, w as int);
        assert((a % w) * x == 0) by (nonlinear_arith)
            requires a % w == 0;
        vstd::arithmetic::div_mod::lemma_small_mod(0, w);
    }
}

/// Division law: a result whose product with the divisor matches the
/// dividend modulo the wrong modulus makes `(c * b - a) mod w` vanish.
pub proof fn lemma_division_residue(c: nat, b: nat, a: nat, w: nat)
    requires
        w >= 1,
        (c * b) % w == a % w,
    ensures
        ((c * b) - a) % (w as int) == 0,
{
    lemma_sub_mod_noop((c * b) as int, a as int, w as int);
    assert((((c * b) % w) - (a % w)) % (w as int) == ((c * b) - a) % (w as int));
    assert((0int) % (w as int) == 0) by (nonlinear_arith)
        requires w >= 1;
}

/// Base auxiliary law: the base auxiliary is congruent to zero modulo
/// the wrong modulus and strictly exceeds the largest remainder.
pub proof fn lemma_base_aux_law(b: nat, w: nat)
    requires
        2 <= w,
        w < rns_binary(b),
        rns_aux_ok(b, w),
    ensures
        limbs_value(rns_base_aux(b, w), b) % w == 0,
        limbs_value(rns_base_aux(b, w), b) > rns_max_remainder(w),
{
    lemma_base_aux_value(b, w);
    lemma_mod_multiples_basic(2, w as int);
    // 2 * w reaches past 2^bits(w) - 1 because 2^(bits(w) - 1) <= w.
    lemma_spec_bits(w);
    let k = spec_bits(w);
    lemma_pow2_adds((k - 1) as nat, 1);
    lemma2_to64();
    assert(pow2(k) == pow2((k - 1) as nat) * 2);
    assert(2 * w >= pow2(k)) by (nonlinear_arith)
        requires w >= pow2((k - 1) as nat), pow2(k) == pow2((k - 1) as nat) * 2;
}

} // verus!
