//! Derivation of the full parameter bundle from the limb width and the
//! two moduli.

use vstd::prelude::*;
use vstd::arithmetic::power2::{pow2, lemma_pow2_adds, lemma_pow2_pos, lemma2_to64};
use vstd::arithmetic::div_mod::{
    lemma_small_mod, lemma_mul_mod_noop_left, lemma_mul_mod_noop,
    lemma_fundamental_div_mod_converse,
};
use vstd::arithmetic::mul::{lemma_mul_is_associative, lemma_mul_is_commutative};
use num_bigint::BigUint;
use crate::big::{
    big_value, big_clone, big_add, big_sub, big_mul, big_shl, big_shr, big_mod, big_div_rem,
    big_bits, big_from_u64, big_modinv,
};
use crate::model::{
    limbs_value, decompose_spec, spec_bits, big_seq, lemma_spec_bits, lemma_spec_bits_unique,
    lemma_bits_le,
};
use crate::integer::{Integer, Limb, Common, decompose, compose};
use crate::rns::{
    Rns, Quotient, four_limbs, rns_binary, rns_crt, rns_max_remainder,
    rns_pre_max_mul_quotient, rns_max_mul_quotient, rns_max_operand, rns_max_reduced_limb,
    rns_max_unreduced_limb, rns_base_aux, rns_aux_step, rns_double_limbs, rns_mul_v_max,
    rns_red_v_max, rns_aux_ok, construct_ok,
};
use crate::NUMBER_OF_LIMBS;
use crate::NUMBER_OF_LOOKUP_LIMBS;

verus! {

/// Bit length of a bounded value, as a machine word.
pub(crate) fn big_bits_usize(a: &BigUint, Ghost(k): Ghost<nat>) -> (r: usize)
    requires
        big_value(*a) < pow2(k),
        k < 0xFFFF_FFFF,
    ensures
        r as nat == spec_bits(big_value(*a)),
{
    let bits64 = big_bits(a);
    proof {
        lemma_spec_bits_unique(big_value(*a), bits64 as nat);
        lemma_bits_le(big_value(*a), k);
    }
    bits64 as usize
}

/// A value of at least two needs at least two bits.
proof fn lemma_bits_ge_two(x: nat)
    requires
        x >= 2,
    ensures
        spec_bits(x) >= 2,
{
    lemma_spec_bits(x);
    lemma2_to64();
    if spec_bits(x) < 2 {
        if spec_bits(x) == 0 {
            assert(x < pow2(0));
        } else {
            assert(x < pow2(1));
        }
        assert(false);
    }
}

/// The product of two bounded values is bounded by the power sum.
proof fn lemma_prod_bound(x: nat, y: nat, k1: nat, k2: nat)
    requires
        x < pow2(k1),
        y < pow2(k2),
    ensures
        x * y < pow2(k1 + k2),
{
    lemma_pow2_adds(k1, k2);
    lemma_pow2_pos(k1);
    lemma_pow2_pos(k2);
    assert(x * y < pow2(k1) * pow2(k2)) by (nonlinear_arith)
        requires x < pow2(k1), y < pow2(k2), pow2(k1) >= 1, pow2(k2) >= 1;
}

/// A two-limb window of bounded terms is bounded.
proof fn lemma_window_bound(t_lo: nat, t_hi: nat, b: nat, k: nat)
    requires
        t_lo < pow2(k),
        t_hi < pow2(k),
    ensures
        t_lo + t_hi * pow2(b) < pow2(k + b + 1),
{
    lemma_pow2_pos(b);
    lemma_pow2_pos(k);
    lemma_pow2_adds(k, b);
    lemma_pow2_adds(k + b, 1);
    lemma2_to64();
    assert(t_lo + t_hi * pow2(b) < pow2(k + b + 1)) by (nonlinear_arith)
        requires
            t_lo < pow2(k),
            t_hi < pow2(k),
            pow2(k + b) == pow2(k) * pow2(b),
            pow2(k + b + 1) == pow2(k + b) * 2,
            pow2(b) >= 1,
            pow2(k) >= 1,
    ;
}

/// Both worst-case residues of a two-window emulation are bounded by
/// `2^(k + b + 2)` when every term is bounded by `2^k`.
proof fn lemma_emulation_bound(t0: nat, t1: nat, t2: nat, t3: nat, b: nat, k: nat)
    requires
        t0 < pow2(k),
        t1 < pow2(k),
        t2 < pow2(k),
        t3 < pow2(k),
    ensures
        (t0 + t1 * pow2(b)) / pow2(2 * b) < pow2(k + b + 2),
        (t2 + t3 * pow2(b) + (t0 + t1 * pow2(b)) / pow2(2 * b)) / pow2(2 * b) < pow2(k + b + 2),
{
    lemma_pow2_pos(2 * b);
    lemma_window_bound(t0, t1, b, k);
    lemma_window_bound(t2, t3, b, k);
    let u0 = t0 + t1 * pow2(b);
    vstd::arithmetic::div_mod::lemma_div_nonincreasing(u0 as int, pow2(2 * b) as int);
    let v0 = u0 / pow2(2 * b);
    assert(v0 <= u0);
    lemma_pow2_adds(k + b + 1, 1);
    lemma2_to64();
    assert(pow2(k + b + 1) + pow2(k + b + 1) == pow2(k + b + 2));
    let u1 = t2 + t3 * pow2(b) + v0;
    assert(u1 < pow2(k + b + 2));
    vstd::arithmetic::div_mod::lemma_div_nonincreasing(u1 as int, pow2(2 * b) as int);
    vstd::arithmetic::power2::lemma_pow2_strictly_increases(k + b + 1, k + b + 2);
}

/// Computes the two residue carries of a worst-case emulation:
/// `v0 = u0 >> 2b` and `v1 = (u1 + (u0 >> 2b)) >> 2b`.
fn emulate_v(t_0: &BigUint, t_1: &BigUint, t_2: &BigUint, t_3: &BigUint, bit_len_limb: usize) -> (r:
    (BigUint, BigUint))
    requires
        bit_len_limb <= 65536,
    ensures
        big_value(r.0) == (big_value(*t_0) + big_value(*t_1) * pow2(bit_len_limb as nat)) / pow2(
            2 * bit_len_limb as nat,
        ),
        big_value(r.1) == (big_value(*t_2) + big_value(*t_3) * pow2(bit_len_limb as nat)
            + (big_value(*t_0) + big_value(*t_1) * pow2(bit_len_limb as nat)) / pow2(
            2 * bit_len_limb as nat,
        )) / pow2(2 * bit_len_limb as nat),
{
    let u0 = big_add(t_0, &big_shl(t_1, bit_len_limb));
    let v0 = big_shr(&u0, 2 * bit_len_limb);
    let u1 = big_add(&big_add(t_2, &big_shl(t_3, bit_len_limb)), &v0);
    let v1 = big_shr(&u1, 2 * bit_len_limb);
    (v0, v1)
}

impl Rns {
    /// The base auxiliary: twice the wrong modulus, decomposed, with one
    /// borrow-protection pass from the most significant limb down.
    fn calculate_base_aux(bit_len_limb: usize, wrong_modulus: &BigUint) -> (r: Integer)
        requires
            4 <= bit_len_limb <= 65536,
            big_value(*wrong_modulus) < rns_binary(bit_len_limb as nat),
            rns_aux_ok(bit_len_limb as nat, big_value(*wrong_modulus)),
        ensures
            r@ == rns_base_aux(bit_len_limb as nat, big_value(*wrong_modulus)),
            r@.len() == 4,
            r.bit_len_limb == bit_len_limb,
    {
        let ghost b = bit_len_limb as nat;
        let ghost w = big_value(*wrong_modulus);
        let one = big_from_u64(1);
        let r_shift = big_shl(&one, bit_len_limb);

        let w_dec = decompose(big_clone(wrong_modulus), NUMBER_OF_LIMBS, bit_len_limb);
        // base aux = 2 * w, limb by limb
        let mut aux: Vec<BigUint> = Vec::new();
        let mut i: usize = 0;
        while i < 4
            invariant
                w_dec@.len() == 4,
                big_seq(w_dec@) == decompose_spec(w, 4, b),
                i <= 4,
                aux@.len() == i,
                forall|j: int| 0 <= j < i ==> big_value(aux@[j]) == 2 * big_value(w_dec@[j]),
            decreases 4 - i,
        {
            proof {
                lemma2_to64();
                assert(big_value(w_dec@[i as int]) * pow2(1) == 2 * big_value(w_dec@[i as int]))
                    by (nonlinear_arith)
                    requires pow2(1) == 2;
            }
            aux.push(big_shl(&w_dec[i], 1));
            i = i + 1;
        }
        let ghost s0 = rns_double_limbs(decompose_spec(w, 4, b));
        proof {
            assert(big_seq(aux@) =~= s0) by {
                assert(forall|j: int| 0 <= j < 4 ==> big_seq(aux@)[j] == big_value(aux@[j]));
                assert(forall|j: int|
                    0 <= j < 4 ==> big_seq(w_dec@)[j] == big_value(w_dec@[j]));
            }
        }

        // Borrow-protection passes, most significant pair first.
        let ghost s1 = rns_aux_step(s0, b, 3);
        let ghost s2 = rns_aux_step(s1, b, 2);
        let ghost s3 = rns_aux_step(s2, b, 1);

        let mut k: usize = 0;
        while k < 3
            invariant
                4 <= bit_len_limb <= 65536,
                b == bit_len_limb as nat,
                big_value(one) == 1,
                big_value(r_shift) == pow2(b),
                s0 == rns_double_limbs(decompose_spec(w, 4, b)),
                s1 == rns_aux_step(s0, b, 3),
                s2 == rns_aux_step(s1, b, 2),
                s3 == rns_aux_step(s2, b, 1),
                rns_aux_ok(b, w),
                k <= 3,
                aux@.len() == 4,
                big_seq(aux@) == (if k == 0 {
                    s0
                } else if k == 1 {
                    s1
                } else if k == 2 {
                    s2
                } else {
                    s3
                }),
            decreases 3 - k,
        {
            let hidx = NUMBER_OF_LIMBS - k - 1;
            let lidx = hidx - 1;
            let ghost pre = big_seq(aux@);
            let low_bits = big_bits(&aux[lidx]);
            proof {
                lemma_spec_bits_unique(big_value(aux@[lidx as int]), low_bits as nat);
                assert(pre[lidx as int] == big_value(aux@[lidx as int]));
            }
            if low_bits < (bit_len_limb as u64) + 1 {
                proof {
                    assert(spec_bits(pre[lidx as int]) < b + 1);
                    assert(pre[hidx as int] >= 1);
                    assert(big_value(aux@[hidx as int]) >= 1);
                }
                let dec = big_sub(&aux[hidx], &one);
                aux.set(hidx, dec);
                let inc = big_add(&aux[lidx], &r_shift);
                aux.set(lidx, inc);
                proof {
                    assert(big_seq(aux@) =~= pre.update(
                        hidx as int,
                        (pre[hidx as int] - 1) as nat,
                    ).update(lidx as int, pre[lidx as int] + pow2(b)));
                }
            } else {
                proof {
                    assert(spec_bits(pre[lidx as int]) >= b + 1);
                    assert(big_seq(aux@) =~= pre);
                }
            }
            proof {
                assert(big_seq(aux@) == rns_aux_step(pre, b, hidx as int));
            }
            k = k + 1;
        }

        let mut limbs: Vec<Limb> = Vec::new();
        let mut j: usize = 0;
        while j < 4
            invariant
                aux@.len() == 4,
                j <= 4,
                limbs@.len() == j,
                forall|m: int| 0 <= m < j ==> limbs@[m].spec_value() == big_value(aux@[m]),
            decreases 4 - j,
        {
            limbs.push(Limb(big_clone(&aux[j])));
            j = j + 1;
        }
        let r = Integer::new(limbs, bit_len_limb);
        proof {
            assert(r@ =~= s3) by {
                assert(forall|m: int| 0 <= m < 4 ==> big_seq(aux@)[m] == big_value(aux@[m]));
            }
        }
        r
    }


    /// The five native-field shifters: `2^(k*b) mod n` and the inverses
    /// of the one- and two-window shifters.
    fn derive_shifters(bit_len_limb: usize, native_modulus: &BigUint, Ghost(b): Ghost<nat>) -> (r:
        (BigUint, BigUint, BigUint, BigUint, BigUint))
        requires
            b == bit_len_limb as nat,
            4 <= bit_len_limb <= 65536,
            big_value(*native_modulus) >= 2,
            exists|x: nat|
                x < big_value(*native_modulus) && #[trigger] ((pow2(b) * x) % big_value(
                    *native_modulus,
                )) == 1,
        ensures
            big_value(r.0) == pow2(b) % big_value(*native_modulus),
            big_value(r.1) == pow2(2 * b) % big_value(*native_modulus),
            big_value(r.2) == pow2(3 * b) % big_value(*native_modulus),
            big_value(r.3) < big_value(*native_modulus),
            (pow2(b) * big_value(r.3)) % big_value(*native_modulus) == 1,
            big_value(r.4) < big_value(*native_modulus),
            (pow2(2 * b) * big_value(r.4)) % big_value(*native_modulus) == 1,
    {
        let ghost n = big_value(*native_modulus);
        let one = big_from_u64(1);
        proof {
            lemma_pow2_pos(b);
            lemma_pow2_pos(2 * b);
            lemma_pow2_pos(3 * b);
            lemma_small_mod(1, n);
        }
        let left_shifter_r = big_mod(&big_shl(&one, bit_len_limb), native_modulus);
        let left_shifter_2r = big_mod(&big_shl(&one, 2 * bit_len_limb), native_modulus);
        let left_shifter_3r = big_mod(&big_shl(&one, 3 * bit_len_limb), native_modulus);

        let right_shifter_r = match big_modinv(&left_shifter_r, native_modulus) {
            Some(x) => x,
            None => {
                proof {
                    let x0 = choose|x: nat| x < n && #[trigger] ((pow2(b) * x) % n) == 1;
                    lemma_mul_mod_noop_left(pow2(b) as int, x0 as int, n as int);
                    assert((big_value(left_shifter_r) * x0) % big_value(*native_modulus) == 1nat
                        % big_value(*native_modulus));
                    assert(false);
                }
                vstd::pervasive::unreached()
            },
        };
        proof {
            let x = big_value(right_shifter_r);
            lemma_mul_mod_noop_left(pow2(b) as int, x as int, n as int);
            assert((pow2(b) * x) % n == 1);
        }

        let right_shifter_2r = match big_modinv(&left_shifter_2r, native_modulus) {
            Some(x) => x,
            None => {
                proof {
                    // The square of the one-window inverse inverts the
                    // two-window shifter.
                    let x = big_value(right_shifter_r);
                    let ni = n as int;
                    let pp = pow2(2 * b) as int;
                    let xx = (x * x) as int;
                    vstd::arithmetic::div_mod::lemma_fundamental_div_mod(xx, ni);
                    vstd::arithmetic::div_mod::lemma_mod_pos_bound(xx, ni);
                    let qd = xx / ni;
                    let rd = xx % ni;
                    lemma_pow2_adds(b, b);
                    let ax = (pow2(b) * x) as int;
                    assert(ax * ax == pp * xx) by (nonlinear_arith)
                        requires
                            pp == pow2(b) as int * pow2(b) as int,
                            xx == (x as int) * (x as int),
                            ax == pow2(b) as int * (x as int),
                    ;
                    assert(pp * xx == ni * (pp * qd) + pp * rd) by (nonlinear_arith)
                        requires xx == ni * qd + rd;
                    vstd::arithmetic::div_mod::lemma_mod_multiples_vanish(pp * qd, pp * rd, ni);
                    assert((pp * rd) % ni == (ax * ax) % ni);
                    lemma_mul_mod_noop(ax, ax, ni);
                    assert((ax * ax) % ni == ((ax % ni) * (ax % ni)) % ni);
                    assert(ax % ni == 1);
                    assert((pp * rd) % ni == 1int % ni);
                    lemma_mul_mod_noop_left(pp, rd, ni);
                    assert(((pp % ni) * rd) % ni == 1int % ni);
                    assert((big_value(left_shifter_2r) * (rd as nat)) % big_value(*native_modulus)
                        == 1nat % big_value(*native_modulus));
                    assert(rd < ni);
                    assert(false);
                }
                vstd::pervasive::unreached()
            },
        };
        proof {
            let x = big_value(right_shifter_2r);
            lemma_mul_mod_noop_left(pow2(2 * b) as int, x as int, n as int);
            assert((pow2(2 * b) * x) % n == 1);
        }
        (left_shifter_r, left_shifter_2r, left_shifter_3r, right_shifter_r, right_shifter_2r)
    }

    /// The remainder, multiplication-quotient, and operand bounds, from
    /// the bit lengths of the moduli.
    fn derive_max_bounds(
        wrong_modulus: &BigUint,
        crt_modulus: &BigUint,
        Ghost(b): Ghost<nat>,
        Ghost(n): Ghost<nat>,
    ) -> (r: (BigUint, BigUint, BigUint))
        requires
            construct_ok(b, big_value(*wrong_modulus), n),
            big_value(*crt_modulus) == rns_crt(b, n),
        ensures
            big_value(r.0) == rns_max_remainder(big_value(*wrong_modulus)),
            big_value(r.1) == rns_max_mul_quotient(b, big_value(*wrong_modulus), n),
            big_value(r.2) == rns_max_operand(b, big_value(*wrong_modulus), n),
    {
        let ghost w = big_value(*wrong_modulus);
        let one = big_from_u64(1);
        proof {
            lemma_pow2_pos(4 * b);
            // crt < 2^(8b+1), for the bit-length casts below.
            vstd::arithmetic::power2::lemma_pow2_strictly_increases(4 * b, 4 * b + 1);
            lemma_prod_bound(n, pow2(4 * b), 4 * b, 4 * b + 1);
            assert(pow2(4 * b) * n == n * pow2(4 * b)) by (nonlinear_arith);
            lemma_pow2_adds(4 * b, 4 * b + 1);
            assert(rns_crt(b, n) < pow2(8 * b + 1));
            lemma_bits_ge_two(w);
            lemma_bits_le(w, 4 * b);
        }

        // n * T > q * w + r: the largest remainder has the wrong modulus'
        // bit length.
        let wrong_modulus_len = big_bits_usize(wrong_modulus, Ghost(4 * b + 1));
        proof {
            lemma_pow2_pos(wrong_modulus_len as nat);
        }
        let max_remainder = big_sub(&big_shl(&one, wrong_modulus_len), &one);

        proof {
            assert(rns_max_mul_quotient(b, w, n) * w >= 0);
            assert(rns_crt(b, n) > rns_max_remainder(w));
        }
        let crt_minus_rem = big_sub(crt_modulus, &max_remainder);
        let pre_qr = big_div_rem(&crt_minus_rem, wrong_modulus);
        let pre_max_mul_quotient = pre_qr.0;
        proof {
            lemma_fundamental_div_mod_converse(
                (rns_crt(b, n) - rns_max_remainder(w)) as int,
                w as int,
                big_value(pre_max_mul_quotient) as int,
                big_value(pre_qr.1) as int,
            );
            assert(big_value(pre_max_mul_quotient) == rns_pre_max_mul_quotient(b, w, n));
            assert(big_value(pre_max_mul_quotient) < pow2(8 * b + 1)) by (nonlinear_arith)
                requires
                    big_value(pre_max_mul_quotient) * w + big_value(pre_qr.1) == rns_crt(b, n)
                        - rns_max_remainder(w),
                    w >= 2,
                    big_value(pre_qr.1) >= 0,
                    rns_crt(b, n) < pow2(8 * b + 1),
            ;
            assert(rns_pre_max_mul_quotient(b, w, n) >= 1);
            lemma_spec_bits(big_value(pre_max_mul_quotient));
        }
        let pre_q_bits = big_bits_usize(&pre_max_mul_quotient, Ghost(8 * b + 1));
        proof {
            lemma_pow2_pos((pre_q_bits - 1) as nat);
        }
        let max_mul_quotient = big_sub(&big_shl(&one, pre_q_bits - 1), &one);
        proof {
            assert(big_value(max_mul_quotient) == rns_max_mul_quotient(b, w, n));
        }

        let quot_acc = big_add(&big_mul(&max_mul_quotient, wrong_modulus), &max_remainder);
        proof {
            assert(big_value(quot_acc) == rns_max_mul_quotient(b, w, n) * w + rns_max_remainder(
                w,
            ));
            assert(big_value(quot_acc) >= 4) by (nonlinear_arith)
                requires
                    rns_max_mul_quotient(b, w, n) > w,
                    w >= 2,
                    big_value(quot_acc) == rns_max_mul_quotient(b, w, n) * w
                        + rns_max_remainder(w),
            ;
            lemma_bits_ge_two(big_value(quot_acc));
            assert(big_value(quot_acc) < pow2(8 * b + 1));
        }
        let acc_bits = big_bits_usize(&quot_acc, Ghost(8 * b + 1));
        let max_operand_bit_len = acc_bits / 2 - 1;
        proof {
            lemma_pow2_pos(max_operand_bit_len as nat);
        }
        let max_operand = big_sub(&big_shl(&one, max_operand_bit_len), &one);
        proof {
            assert(big_value(max_operand) == rns_max_operand(b, w, n));
        }
        (max_remainder, max_mul_quotient, max_operand)
    }

    /// Derives the full parameter bundle. The caller's configuration must
    /// pass every derivation check; each field of the result then equals
    /// its specification-level derivation.
    #[verifier::rlimit(100)]
    pub fn construct(bit_len_limb: usize, wrong_modulus: &BigUint, native_modulus: &BigUint) -> (r:
        Rns)
        requires
            construct_ok(
                bit_len_limb as nat,
                big_value(*wrong_modulus),
                big_value(*native_modulus),
            ),
        ensures
            r.wf(),
            r.bit_len_limb == bit_len_limb,
            r.w() == big_value(*wrong_modulus),
            r.n() == big_value(*native_modulus),
    {
        let ghost b = bit_len_limb as nat;
        let ghost w = big_value(*wrong_modulus);
        let ghost n = big_value(*native_modulus);

        let one = big_from_u64(1);
        let binary_modulus = big_shl(&one, bit_len_limb * 4);
        proof {
            assert((bit_len_limb * 4) as nat == 4 * b) by (nonlinear_arith)
                requires bit_len_limb <= 65536, b == bit_len_limb as nat;
            lemma_pow2_pos(4 * b);
            lemma_pow2_pos(b);
            lemma_pow2_pos(2 * b);
            lemma_pow2_pos(3 * b);
            lemma_pow2_pos(b + b / 2);
        }

        let shifters = Rns::derive_shifters(bit_len_limb, native_modulus, Ghost(b));
        let (left_shifter_r, left_shifter_2r, left_shifter_3r, right_shifter_r, right_shifter_2r) =
            shifters;

        let wrong_modulus_in_native_modulus = big_mod(wrong_modulus, native_modulus);

        let negative_wrong_modulus_decomposed = decompose(
            big_sub(&binary_modulus, wrong_modulus),
            NUMBER_OF_LIMBS,
            bit_len_limb,
        );
        let wrong_modulus_decomposed = decompose(
            big_clone(wrong_modulus),
            NUMBER_OF_LIMBS,
            bit_len_limb,
        );
        let wrong_modulus_minus_one = Integer::from_big(
            big_sub(wrong_modulus, &one),
            NUMBER_OF_LIMBS,
            bit_len_limb,
        );

        let two_limb_mask = big_sub(&big_shl(&one, 2 * bit_len_limb), &one);

        let crt_modulus = big_mul(&binary_modulus, native_modulus);
        let bounds = Rns::derive_max_bounds(wrong_modulus, &crt_modulus, Ghost(b), Ghost(n));
        let (max_remainder, max_mul_quotient, max_operand) = bounds;

        let max_reduced_limb = big_sub(&big_shl(&one, bit_len_limb), &one);
        let max_unreduced_limb = big_sub(
            &big_shl(&one, bit_len_limb + bit_len_limb / 2),
            &one,
        );
        proof {
            assert((bit_len_limb + bit_len_limb / 2) as nat == b + b / 2);
            assert(big_value(max_reduced_limb) == rns_max_reduced_limb(b));
            assert(big_value(max_unreduced_limb) == rns_max_unreduced_limb(b));
        }

        let max_most_significant_reduced_limb = big_shr(&max_remainder, 3 * bit_len_limb);
        let max_most_significant_operand_limb = big_shr(&max_operand, 3 * bit_len_limb);
        let max_most_significant_unreduced_limb = big_clone(&max_unreduced_limb);
        let max_most_significant_mul_quotient_limb = big_shr(&max_mul_quotient, 3 * bit_len_limb);

        // limit reduction quotient by single limb
        let max_reducible_value = big_add(
            &big_mul(&max_reduced_limb, wrong_modulus),
            &max_remainder,
        );

        let mut maxu_vec: Vec<BigUint> = Vec::new();
        let mut maxr_vec: Vec<BigUint> = Vec::new();
        let mut vi: usize = 0;
        while vi < 4
            invariant
                vi <= 4,
                maxu_vec@.len() == vi,
                maxr_vec@.len() == vi,
                forall|j: int|
                    0 <= j < vi ==> big_value(maxu_vec@[j]) == big_value(max_unreduced_limb),
                forall|j: int|
                    0 <= j < vi ==> big_value(maxr_vec@[j]) == big_value(max_reduced_limb),
            decreases 4 - vi,
        {
            maxu_vec.push(big_clone(&max_unreduced_limb));
            maxr_vec.push(big_clone(&max_reduced_limb));
            vi = vi + 1;
        }
        proof {
            assert(big_seq(maxu_vec@) =~= four_limbs(rns_max_unreduced_limb(b))) by {
                assert(forall|j: int|
                    0 <= j < 4 ==> big_seq(maxu_vec@)[j] == big_value(maxu_vec@[j]));
            }
            assert(big_seq(maxr_vec@) =~= four_limbs(rns_max_reduced_limb(b))) by {
                assert(forall|j: int|
                    0 <= j < 4 ==> big_seq(maxr_vec@)[j] == big_value(maxr_vec@[j]));
            }
        }
        let max_with_max_unreduced_limbs = compose(maxu_vec, bit_len_limb);
        let max_dense_value = compose(maxr_vec, bit_len_limb);

        // emulate multiplication and reduction to find the residue overflows
        let overflows = Rns::derive_overflows(
            bit_len_limb,
            &negative_wrong_modulus_decomposed,
            &max_reduced_limb,
            &max_unreduced_limb,
            &max_most_significant_operand_limb,
            &max_most_significant_mul_quotient_limb,
            Ghost(b),
            Ghost(w),
            Ghost(n),
        );
        let (mul_v0_overflow, mul_v1_overflow, red_v0_overflow, red_v1_overflow) = overflows;

        let bit_len_lookup = bit_len_limb / NUMBER_OF_LOOKUP_LIMBS;

        let base_aux = Rns::calculate_base_aux(bit_len_limb, wrong_modulus);

        let rns = Rns {
            bit_len_limb,
            bit_len_lookup,

            right_shifter_r,
            right_shifter_2r,
            left_shifter_r,
            left_shifter_2r,
            left_shifter_3r,

            wrong_modulus: big_clone(wrong_modulus),
            native_modulus: big_clone(native_modulus),
            binary_modulus,
            crt_modulus,

            base_aux,

            negative_wrong_modulus_decomposed,
            wrong_modulus_decomposed,
            wrong_modulus_minus_one,
            wrong_modulus_in_native_modulus,

            max_reduced_limb,
            max_unreduced_limb,
            max_remainder,
            max_operand,
            max_mul_quotient,
            max_reducible_value,
            max_with_max_unreduced_limbs,
            max_dense_value,

            max_most_significant_reduced_limb,
            max_most_significant_operand_limb,
            max_most_significant_unreduced_limb,
            max_most_significant_mul_quotient_limb,

            mul_v0_overflow,
            mul_v1_overflow,
            red_v0_overflow,
            red_v1_overflow,

            two_limb_mask,
        };
        proof {
            assert(rns.wf());
        }

        // Self-test: reduce the worst unreduced value; its quotient must
        // stay below the single-limb bound.
        let mut st_limbs: Vec<BigUint> = Vec::new();
        let mut si: usize = 0;
        while si < 4
            invariant
                si <= 4,
                st_limbs@.len() == si,
                rns.wf(),
                big_value(rns.max_unreduced_limb) == rns_max_unreduced_limb(rns.b()),
                forall|j: int|
                    0 <= j < si ==> big_value(st_limbs@[j]) == rns_max_unreduced_limb(rns.b()),
            decreases 4 - si,
        {
            st_limbs.push(big_clone(&rns.max_unreduced_limb));
            si = si + 1;
        }
        let st_int = rns.new_from_limbs(st_limbs);
        let reduction_result = rns.reduce(&st_int);
        proof {
            assert(reduction_result.quotient matches Quotient::Short(q) && big_value(q)
                < rns_max_reduced_limb(rns.b()));
        }

        rns
    }

    /// The four residue-overflow lengths, from worst-case emulations of a
    /// multiplication and a reduction.
    fn derive_overflows(
        bit_len_limb: usize,
        p_vec: &Vec<BigUint>,
        max_reduced_limb: &BigUint,
        max_unreduced_limb: &BigUint,
        msl_operand: &BigUint,
        msl_mul_quotient: &BigUint,
        Ghost(b): Ghost<nat>,
        Ghost(w): Ghost<nat>,
        Ghost(n): Ghost<nat>,
    ) -> (r: (usize, usize, usize, usize))
        requires
            construct_ok(b, w, n),
            b == bit_len_limb as nat,
            p_vec@.len() == 4,
            big_seq(p_vec@) == decompose_spec((rns_binary(b) - w) as nat, 4, b),
            big_value(*max_reduced_limb) == rns_max_reduced_limb(b),
            big_value(*max_unreduced_limb) == rns_max_unreduced_limb(b),
            big_value(*msl_operand) == rns_max_operand(b, w, n) / pow2(3 * b),
            big_value(*msl_mul_quotient) == rns_max_mul_quotient(b, w, n) / pow2(3 * b),
        ensures
            r.0 + b == spec_bits(rns_mul_v_max(b, w, n).0),
            r.1 + b == spec_bits(rns_mul_v_max(b, w, n).1),
            r.2 + b == spec_bits(rns_red_v_max(b, w, n).0),
            r.3 + b == spec_bits(rns_red_v_max(b, w, n).1),
    {
        let ghost pneg = decompose_spec((rns_binary(b) - w) as nat, 4, b);
        proof {
            lemma_pow2_pos(b);
            crate::model::lemma_decompose_bounded((rns_binary(b) - w) as nat, 4, b);
            assert(forall|j: int| 0 <= j < 4 ==> pneg[j] == big_value(p_vec@[j]));
            lemma_spec_bits(big_value(*msl_operand));
            lemma_spec_bits(big_value(*msl_mul_quotient));
            assert(big_value(*msl_operand) < pow2(b)) by {
                let v = big_value(*msl_operand);
                if v > 0 {
                    if spec_bits(v) < b {
                        vstd::arithmetic::power2::lemma_pow2_strictly_increases(spec_bits(v), b);
                    }
                }
            }
            assert(big_value(*msl_mul_quotient) < pow2(b + 1)) by {
                lemma_pow2_pos(b + 1);
                let v = big_value(*msl_mul_quotient);
                if v > 0 {
                    if spec_bits(v) < b + 1 {
                        vstd::arithmetic::power2::lemma_pow2_strictly_increases(
                            spec_bits(v),
                            b + 1,
                        );
                    }
                }
            }
        }

        let (mul_v0_max, mul_v1_max) = {
            let a3 = msl_operand;
            let q3 = msl_mul_quotient;
            let mr = max_reduced_limb;
            let t_0 = big_add(&big_mul(mr, mr), &big_mul(&p_vec[0], mr));
            let t_1 = big_add(
                &big_add(&big_mul(mr, mr), &big_mul(mr, mr)),
                &big_add(&big_mul(&p_vec[0], mr), &big_mul(&p_vec[1], mr)),
            );
            let t_2 = big_add(
                &big_add(&big_add(&big_mul(mr, mr), &big_mul(mr, mr)), &big_mul(mr, mr)),
                &big_add(
                    &big_add(&big_mul(&p_vec[0], mr), &big_mul(&p_vec[1], mr)),
                    &big_mul(&p_vec[2], mr),
                ),
            );
            let t_3 = big_add(
                &big_add(
                    &big_add(&big_mul(mr, a3), &big_mul(mr, mr)),
                    &big_add(&big_mul(mr, mr), &big_mul(a3, mr)),
                ),
                &big_add(
                    &big_add(&big_mul(&p_vec[0], q3), &big_mul(&p_vec[1], mr)),
                    &big_add(&big_mul(&p_vec[2], mr), &big_mul(&p_vec[3], mr)),
                ),
            );
            emulate_v(&t_0, &t_1, &t_2, &t_3, bit_len_limb)
        };

        let (red_v0_max, red_v1_max) = {
            let mu = max_unreduced_limb;
            let mr = max_reduced_limb;
            let t_0 = big_add(mu, &big_mul(mr, &p_vec[0]));
            let t_1 = big_add(mu, &big_mul(mr, &p_vec[1]));
            let t_2 = big_add(mu, &big_mul(mr, &p_vec[2]));
            let t_3 = big_add(mu, &big_mul(mr, &p_vec[3]));
            emulate_v(&t_0, &t_1, &t_2, &t_3, bit_len_limb)
        };

        proof {
            lemma_construct_emulations(
                b,
                w,
                n,
                pneg,
                big_value(*max_reduced_limb),
                big_value(*max_unreduced_limb),
                big_value(*msl_operand),
                big_value(*msl_mul_quotient),
                big_value(mul_v0_max),
                big_value(mul_v1_max),
                big_value(red_v0_max),
                big_value(red_v1_max),
            );
            lemma_spec_bits(big_value(mul_v0_max));
            lemma_spec_bits(big_value(mul_v1_max));
            lemma_spec_bits(big_value(red_v0_max));
            lemma_spec_bits(big_value(red_v1_max));
        }
        let mul_v0_bits = big_bits_usize(&mul_v0_max, Ghost(4 * b + 8));
        let mul_v1_bits = big_bits_usize(&mul_v1_max, Ghost(4 * b + 8));
        let red_v0_bits = big_bits_usize(&red_v0_max, Ghost(4 * b + 8));
        let red_v1_bits = big_bits_usize(&red_v1_max, Ghost(4 * b + 8));
        (
            mul_v0_bits - bit_len_limb,
            mul_v1_bits - bit_len_limb,
            red_v0_bits - bit_len_limb,
            red_v1_bits - bit_len_limb,
        )
    }

    /// The seven window sizes handed to the range-check collaborator: the
    /// four residue overflows, and the sizes of the three most
    /// significant limbs inside their final lookup window.
    pub fn overflow_lengths(&self) -> (r: Vec<usize>)
        requires
            self.wf(),
        ensures
            r@.len() == 7,
            r@[0] == self.mul_v0_overflow,
            r@[1] == self.mul_v1_overflow,
            r@[2] == self.red_v0_overflow,
            r@[3] == self.red_v1_overflow,
            r@[4] as nat == spec_bits(rns_max_mul_quotient(self.b(), self.w(), self.n()) / pow2(
                3 * self.b(),
            )) % (self.b() / 4),
            r@[5] as nat == spec_bits(rns_max_operand(self.b(), self.w(), self.n()) / pow2(
                3 * self.b(),
            )) % (self.b() / 4),
            r@[6] as nat == spec_bits(rns_max_remainder(self.w()) / pow2(3 * self.b())) % (
            self.b() / 4),
    {
        let ghost b = self.b();
        proof {
            lemma_pow2_pos(b + 1);
            lemma_spec_bits(big_value(self.max_most_significant_mul_quotient_limb));
            lemma_spec_bits(big_value(self.max_most_significant_operand_limb));
            lemma_spec_bits(big_value(self.max_most_significant_reduced_limb));
            assert forall|v: nat|
                spec_bits(v) <= b + 1 implies v < pow2(b + 1) by {
                lemma_spec_bits(v);
                if v > 0 && spec_bits(v) < b + 1 {
                    vstd::arithmetic::power2::lemma_pow2_strictly_increases(spec_bits(v), b + 1);
                }
            }
        }
        let max_most_significant_mul_quotient_limb_size = big_bits_usize(
            &self.max_most_significant_mul_quotient_limb,
            Ghost(b + 1),
        ) % self.bit_len_lookup;
        let max_most_significant_operand_limb_size = big_bits_usize(
            &self.max_most_significant_operand_limb,
            Ghost(b + 1),
        ) % self.bit_len_lookup;
        let max_most_significant_reduced_limb_size = big_bits_usize(
            &self.max_most_significant_reduced_limb,
            Ghost(b + 1),
        ) % self.bit_len_lookup;
        let mut r: Vec<usize> = Vec::new();
        r.push(self.mul_v0_overflow);
        r.push(self.mul_v1_overflow);
        r.push(self.red_v0_overflow);
        r.push(self.red_v1_overflow);
        r.push(max_most_significant_mul_quotient_limb_size);
        r.push(max_most_significant_operand_limb_size);
        r.push(max_most_significant_reduced_limb_size);
        r
    }
}


/// The exec-computed worst-case residues equal their specification
/// mirrors and are small enough for the bit-length casts.
#[verifier::rlimit(100)]
proof fn lemma_construct_emulations(
    b: nat,
    w: nat,
    n: nat,
    pneg: Seq<nat>,
    maxr: nat,
    maxu: nat,
    a3: nat,
    q3: nat,
    mul_v0: nat,
    mul_v1: nat,
    red_v0: nat,
    red_v1: nat,
)
    requires
        construct_ok(b, w, n),
        pneg == decompose_spec((rns_binary(b) - w) as nat, 4, b),
        maxr == rns_max_reduced_limb(b),
        maxu == rns_max_unreduced_limb(b),
        a3 == rns_max_operand(b, w, n) / pow2(3 * b),
        q3 == rns_max_mul_quotient(b, w, n) / pow2(3 * b),
        a3 < pow2(b),
        q3 < pow2(b + 1),
        forall|j: int| 0 <= j < 4 ==> pneg[j] < pow2(b),
        mul_v0 == ({
            let t0 = maxr * maxr + pneg[0] * maxr;
            let t1 = maxr * maxr + maxr * maxr + pneg[0] * maxr + pneg[1] * maxr;
            (t0 + t1 * pow2(b)) / pow2(2 * b)
        }),
        mul_v1 == ({
            let t0 = maxr * maxr + pneg[0] * maxr;
            let t1 = maxr * maxr + maxr * maxr + pneg[0] * maxr + pneg[1] * maxr;
            let t2 = maxr * maxr + maxr * maxr + maxr * maxr + pneg[0] * maxr + pneg[1] * maxr
                + pneg[2] * maxr;
            let t3 = maxr * a3 + maxr * maxr + maxr * maxr + a3 * maxr + pneg[0] * q3 + pneg[1]
                * maxr + pneg[2] * maxr + pneg[3] * maxr;
            (t2 + t3 * pow2(b) + (t0 + t1 * pow2(b)) / pow2(2 * b)) / pow2(2 * b)
        }),
        red_v0 == ({
            let t0 = maxu + maxr * pneg[0];
            let t1 = maxu + maxr * pneg[1];
            (t0 + t1 * pow2(b)) / pow2(2 * b)
        }),
        red_v1 == ({
            let t0 = maxu + maxr * pneg[0];
            let t1 = maxu + maxr * pneg[1];
            let t2 = maxu + maxr * pneg[2];
            let t3 = maxu + maxr * pneg[3];
            (t2 + t3 * pow2(b) + (t0 + t1 * pow2(b)) / pow2(2 * b)) / pow2(2 * b)
        }),
    ensures
        mul_v0 == rns_mul_v_max(b, w, n).0,
        mul_v1 == rns_mul_v_max(b, w, n).1,
        red_v0 == rns_red_v_max(b, w, n).0,
        red_v1 == rns_red_v_max(b, w, n).1,
        mul_v0 < pow2(4 * b + 8),
        mul_v1 < pow2(4 * b + 8),
        red_v0 < pow2(4 * b + 8),
        red_v1 < pow2(4 * b + 8),
{
    lemma_pow2_pos(b);
    lemma_pow2_pos(2 * b);
    // The emulation terms are sums of at most eight products of values
    // below 2^(b+1), so each stays below 2^(2b+5).
    assert forall|x: nat, y: nat|
        x < pow2(b + 1) && y < pow2(b + 1) implies #[trigger] (x * y) < pow2(2 * b + 2) by {
        lemma_prod_bound(x, y, b + 1, b + 1);
        assert(b + 1 + (b + 1) == 2 * b + 2);
    }
    vstd::arithmetic::power2::lemma_pow2_strictly_increases(b, b + 1);
    lemma_pow2_adds(2 * b + 2, 3);
    lemma2_to64();
    assert(pow2(2 * b + 5) == pow2(2 * b + 2) * 8);
    let kb = 2 * b + 5;
    let t0m = maxr * maxr + pneg[0] * maxr;
    let t1m = maxr * maxr + maxr * maxr + pneg[0] * maxr + pneg[1] * maxr;
    let t2m = maxr * maxr + maxr * maxr + maxr * maxr + pneg[0] * maxr + pneg[1] * maxr + pneg[2]
        * maxr;
    let t3m = maxr * a3 + maxr * maxr + maxr * maxr + a3 * maxr + pneg[0] * q3 + pneg[1] * maxr
        + pneg[2] * maxr + pneg[3] * maxr;
    assert(t0m < pow2(kb) && t1m < pow2(kb) && t2m < pow2(kb) && t3m < pow2(kb));
    lemma_emulation_bound(t0m, t1m, t2m, t3m, b, kb);
    let t0r = maxu + maxr * pneg[0];
    let t1r = maxu + maxr * pneg[1];
    let t2r = maxu + maxr * pneg[2];
    let t3r = maxu + maxr * pneg[3];
    assert(maxu < pow2(2 * b + 2)) by {
        lemma_pow2_pos(b + b / 2);
        vstd::arithmetic::power2::lemma_pow2_strictly_increases(b + b / 2, 2 * b + 2);
    }
    assert(t0r < pow2(kb) && t1r < pow2(kb) && t2r < pow2(kb) && t3r < pow2(kb));
    lemma_emulation_bound(t0r, t1r, t2r, t3r, b, kb);
    // kb + b + 2 == 3b + 7 <= 4b + 8.
    vstd::arithmetic::power2::lemma_pow2_strictly_increases(kb + b + 2, 4 * b + 8);
    // The specification mirrors expand to the same terms.
    assert(rns_mul_v_max(b, w, n).0 == mul_v0 && rns_mul_v_max(b, w, n).1 == mul_v1);
    assert(rns_red_v_max(b, w, n).0 == red_v0 && rns_red_v_max(b, w, n).1 == red_v1);
}

} // verus!
