//! The subtraction auxiliary: a value congruent to zero modulo the wrong
//! modulus whose limbs dominate any subtrahend's limbs, so limbwise
//! subtraction never underflows.

use vstd::prelude::*;
use vstd::arithmetic::power2::{pow2, lemma_pow2_adds, lemma_pow2_pos, lemma_pow2_strictly_increases, lemma2_to64};
use vstd::arithmetic::mul::{lemma_mul_inequality, lemma_mul_is_commutative};
use num_bigint::BigUint;
use crate::big::{big_value, big_clone, big_shl, big_lt};
use crate::model::{
    limbs_value, decompose_spec, seq_add, lemma_compose_decompose, lemma_limbs_value_add,
    lemma_limbs_value_scale, lemma_limbs_value4,
};
use crate::integer::{Integer, Limb, Common};
use crate::rns::{Rns, rns_base_aux, rns_aux_step, rns_double_limbs, rns_binary};

verus! {

/// The smallest number of doublings that lifts `aux` to at least `maxv`
/// (zero when `aux` is zero, a case the callers exclude for a positive
/// `maxv`).
pub open spec fn aux_shift(aux: nat, maxv: nat) -> nat
    decreases maxv - aux,
{
    if maxv <= aux || aux == 0 {
        0
    } else if maxv <= 2 * aux {
        1
    } else {
        1 + aux_shift(2 * aux, maxv)
    }
}

/// The largest of the per-limb shifts for the first `i` limbs.
pub open spec fn max_shift_upto(base: Seq<nat>, maxs: Seq<nat>, i: int) -> nat
    decreases i,
{
    if i <= 0 {
        0
    } else {
        let prev = max_shift_upto(base, maxs, i - 1);
        let cur = aux_shift(base[i - 1], maxs[i - 1]);
        if cur > prev {
            cur
        } else {
            prev
        }
    }
}

/// The shift `make_aux` applies: the largest per-limb shift.
pub open spec fn make_aux_shift(base: Seq<nat>, maxs: Seq<nat>) -> nat {
    max_shift_upto(base, maxs, 4)
}

/// After `aux_shift` doublings, the limb dominates its target.
proof fn lemma_aux_shift_reaches(aux: nat, maxv: nat)
    requires
        aux >= 1 || maxv == 0,
    ensures
        aux * pow2(aux_shift(aux, maxv)) >= maxv,
    decreases maxv - aux,
{
    lemma2_to64();
    if maxv <= aux || aux == 0 {
        assert(aux * pow2(0) == aux) by (nonlinear_arith)
            requires pow2(0) == 1;
    } else if maxv <= 2 * aux {
        assert(aux * pow2(1) == 2 * aux) by (nonlinear_arith)
            requires pow2(1) == 2;
    } else {
        lemma_aux_shift_reaches(2 * aux, maxv);
        let s = aux_shift(2 * aux, maxv);
        lemma_pow2_adds(1, s);
        assert(aux * pow2(1 + s) == (2 * aux) * pow2(s)) by (nonlinear_arith)
            requires pow2(1 + s) == 2 * pow2(s);
    }
}

/// Doubling both limbs doubles the composed value.
proof fn lemma_double_value(s: Seq<nat>, b: nat)
    ensures
        limbs_value(rns_double_limbs(s), b) == 2 * limbs_value(s, b),
{
    assert(rns_double_limbs(s) =~= seq_add(s, s));
    lemma_limbs_value_add(s, s, b);
}

/// A borrow-protection pass keeps the composed value, as long as the
/// drained limb is not empty.
proof fn lemma_aux_step_value(s: Seq<nat>, b: nat, hidx: int)
    requires
        s.len() == 4,
        1 <= hidx <= 3,
        crate::model::spec_bits(s[hidx - 1]) < b + 1 ==> s[hidx] >= 1,
    ensures
        rns_aux_step(s, b, hidx).len() == 4,
        limbs_value(rns_aux_step(s, b, hidx), b) == limbs_value(s, b),
        forall|i: int| 0 <= i < 4 ==> rns_aux_step(s, b, hidx)[i] >= s[i] || i == hidx,
{
    let u = rns_aux_step(s, b, hidx);
    lemma_pow2_pos(b);
    if crate::model::spec_bits(s[hidx - 1]) < b + 1 {
        lemma_limbs_value4(s, b);
        lemma_limbs_value4(u, b);
        lemma_pow2_adds(b, (hidx - 1) as nat * b);
        let p = pow2(b);
        if hidx == 1 {
            assert(u[0] == s[0] + p && u[1] == s[1] - 1 && u[2] == s[2] && u[3] == s[3]);
            assert((s[0] + p) + p * ((s[1] - 1) as nat) == s[0] + p * s[1]) by (nonlinear_arith)
                requires s[1] >= 1, p >= 1;
        } else if hidx == 2 {
            assert(u[1] == s[1] + p && u[2] == s[2] - 1 && u[0] == s[0] && u[3] == s[3]);
            lemma_pow2_adds(b, b);
            assert(p * (s[1] + p) + pow2(2 * b) * ((s[2] - 1) as nat) == p * s[1] + pow2(2 * b)
                * s[2]) by (nonlinear_arith)
                requires s[2] >= 1, p >= 1, pow2(2 * b) == p * p;
        } else {
            assert(u[2] == s[2] + p && u[3] == s[3] - 1 && u[0] == s[0] && u[1] == s[1]);
            lemma_pow2_adds(b, 2 * b);
            assert(pow2(2 * b) * (s[2] + p) + pow2(3 * b) * ((s[3] - 1) as nat) == pow2(2 * b)
                * s[2] + pow2(3 * b) * s[3]) by (nonlinear_arith)
                requires s[3] >= 1, p >= 1, pow2(3 * b) == p * pow2(2 * b);
        }
    }
}

/// The base auxiliary composes to exactly twice the wrong modulus.
pub proof fn lemma_base_aux_value(b: nat, w: nat)
    requires
        w < rns_binary(b),
        crate::rns::rns_aux_ok(b, w),
    ensures
        limbs_value(rns_base_aux(b, w), b) == 2 * w,
        rns_base_aux(b, w).len() == 4,
{
    let d = decompose_spec(w, 4, b);
    lemma_compose_decompose(w, 4, b);
    lemma_pow2_pos(4 * b);
    assert(4nat * b == 4 * b) by (nonlinear_arith);
    vstd::arithmetic::div_mod::lemma_small_mod(w, pow2(4 * b));
    assert(limbs_value(d, b) == w);
    let s0 = rns_double_limbs(d);
    assert(d.len() == 4);
    assert(s0.len() == 4);
    lemma_double_value(d, b);
    let s1 = rns_aux_step(s0, b, 3);
    let s2 = rns_aux_step(s1, b, 2);
    lemma_aux_step_value(s0, b, 3);
    lemma_aux_step_value(s1, b, 2);
    lemma_aux_step_value(s2, b, 1);
}

impl Rns {
    /// Scales the base auxiliary by the smallest power of two whose every
    /// limb dominates the corresponding maximum in `max_vals`. The result
    /// stays congruent to zero modulo the wrong modulus.
    pub fn make_aux(&self, max_vals: Vec<BigUint>) -> (r: Integer)
        requires
            self.wf(),
            max_vals@.len() == 4,
            forall|i: int|
                0 <= i < 4 ==> (rns_base_aux(self.b(), self.w())[i] == 0 ==> big_value(
                    max_vals@[i],
                ) == 0),
            forall|i: int| 0 <= i < 4 ==> big_value(max_vals@[i]) < pow2((usize::MAX - 1) as nat),
        ensures
            r.wf(),
            r.bit_len_limb == self.bit_len_limb,
            forall|i: int|
                0 <= i < 4 ==> r@[i] == rns_base_aux(self.b(), self.w())[i] * pow2(
                    make_aux_shift(
                        rns_base_aux(self.b(), self.w()),
                        crate::model::big_seq(max_vals@),
                    ),
                ),
            forall|i: int| 0 <= i < 4 ==> r@[i] >= big_value(max_vals@[i]),
            r.spec_value() == 2 * self.w() * pow2(
                make_aux_shift(rns_base_aux(self.b(), self.w()), crate::model::big_seq(max_vals@)),
            ),
            r.spec_value() % self.w() == 0,
    {
        let ghost b = self.b();
        let ghost w = self.w();
        let ghost base = rns_base_aux(b, w);
        let ghost maxs = crate::model::big_seq(max_vals@);

        proof {
            lemma_base_aux_value(b, w);
            assert(forall|i: int| 0 <= i < 4 ==> maxs[i] == big_value(max_vals@[i]));
            assert(forall|i: int|
                0 <= i < 4 ==> base[i] == self.base_aux@[i] && self.base_aux@[i]
                    == self.base_aux.limbs@[i].spec_value());
        }

        let mut max_shift: usize = 0;
        let mut i: usize = 0;
        while i < 4
            invariant
                self.wf(),
                b == self.b(),
                w == self.w(),
                base == rns_base_aux(b, w),
                base.len() == 4,
                maxs == crate::model::big_seq(max_vals@),
                maxs.len() == 4,
                max_vals@.len() == 4,
                forall|j: int| 0 <= j < 4 ==> maxs[j] == big_value(max_vals@[j]),
                forall|j: int| 0 <= j < 4 ==> (base[j] == 0 ==> maxs[j] == 0),
                forall|j: int| 0 <= j < 4 ==> maxs[j] < pow2((usize::MAX - 1) as nat),
                forall|j: int|
                    0 <= j < 4 ==> base[j] == self.base_aux.limbs@[j].spec_value(),
                i <= 4,
                max_shift == max_shift_upto(base, maxs, i as int),
            decreases 4 - i,
        {
            let mut aux = big_clone(&self.base_aux.limbs[i].0);
            let mut shift: usize = 0;
            proof {
                lemma2_to64();
                assert(big_value(aux) * pow2(0) == big_value(aux)) by (nonlinear_arith)
                    requires pow2(0) == 1;
            }
            while big_lt(&aux, &max_vals[i])
                invariant
                    base.len() == 4,
                    maxs.len() == 4,
                    max_vals@.len() == 4,
                    maxs[i as int] == big_value(max_vals@[i as int]),
                    base == rns_base_aux(b, w),
                    0 <= i < 4,
                    base[i as int] == 0 ==> maxs[i as int] == 0,
                    maxs[i as int] < pow2((usize::MAX - 1) as nat),
                    big_value(aux) == base[i as int] * pow2(shift as nat),
                    base[i as int] >= 1 ==> big_value(aux) >= pow2(shift as nat),
                    aux_shift(base[i as int], maxs[i as int]) == shift + aux_shift(
                        big_value(aux),
                        maxs[i as int],
                    ),
                decreases (if big_value(aux) < maxs[i as int] {
                    maxs[i as int] - big_value(aux)
                } else {
                    0int
                }),
            {
                proof {
                    let cur = big_value(aux);
                    let mv = maxs[i as int];
                    assert(cur < mv);
                    assert(base[i as int] >= 1);
                    lemma_pow2_pos(shift as nat);
                    assert(cur >= 1) by (nonlinear_arith)
                        requires
                            cur == base[i as int] * pow2(shift as nat),
                            base[i as int] >= 1,
                            pow2(shift as nat) >= 1,
                    ;
                    assert(cur >= pow2(shift as nat));
                    // The shift counter stays within the machine word.
                    if shift as nat >= (usize::MAX - 1) as nat {
                        if ((usize::MAX - 1) as nat) < (shift as nat) {
                            lemma_pow2_strictly_increases((usize::MAX - 1) as nat, shift as nat);
                        }
                        assert(pow2((usize::MAX - 1) as nat) <= pow2(shift as nat));
                        assert(false);
                    }
                    lemma_pow2_adds(shift as nat, 1);
                    lemma2_to64();
                    assert(aux_shift(cur, mv) == 1 + aux_shift(2 * cur, mv));
                    assert(2 * cur == base[i as int] * pow2((shift + 1) as nat))
                        by (nonlinear_arith)
                        requires
                            cur == base[i as int] * pow2(shift as nat),
                            pow2((shift + 1) as nat) == pow2(shift as nat) * 2,
                    ;
                    assert(2 * cur >= 2 * pow2(shift as nat)) by (nonlinear_arith)
                        requires cur >= pow2(shift as nat);
                }
                aux = big_shl(&aux, 1);
                shift = shift + 1;
                proof {
                    lemma_pow2_adds((shift - 1) as nat, 1);
                    lemma2_to64();
                }
            }
            proof {
                // The loop left: the current limb now dominates its target.
                assert(!(big_value(aux) < maxs[i as int]));
                assert(aux_shift(big_value(aux), maxs[i as int]) == 0);
                assert(aux_shift(base[i as int], maxs[i as int]) == shift as nat);
                assert(max_shift_upto(base, maxs, i as int + 1) == (if shift > max_shift {
                    shift as nat
                } else {
                    max_shift as nat
                }));
            }
            if shift > max_shift {
                max_shift = shift;
            }
            i = i + 1;
        }

        let ghost ms = make_aux_shift(base, maxs);
        proof {
            assert(max_shift as nat == ms);
        }

        let mut limbs: Vec<Limb> = Vec::new();
        let mut j: usize = 0;
        while j < 4
            invariant
                self.wf(),
                b == self.b(),
                w == self.w(),
                base == rns_base_aux(b, w),
                forall|k: int| 0 <= k < 4 ==> base[k] == self.base_aux.limbs@[k].spec_value(),
                j <= 4,
                limbs@.len() == j,
                max_shift as nat == ms,
                forall|k: int| 0 <= k < j ==> limbs@[k].spec_value() == base[k] * pow2(ms),
            decreases 4 - j,
        {
            limbs.push(Limb(big_shl(&self.base_aux.limbs[j].0, max_shift)));
            j = j + 1;
        }
        let r = Integer::new(limbs, self.bit_len_limb);

        proof {
            assert(r@ =~= base.map(|k: int, x: nat| x * pow2(ms)));
            lemma_limbs_value_scale(base, b, pow2(ms));
            lemma_base_aux_value(b, w);
            assert(r.spec_value() == (2 * w) * pow2(ms));
            assert((2 * w) * pow2(ms) == 2 * w * pow2(ms)) by (nonlinear_arith);
            // Congruent to zero modulo the wrong modulus.
            assert((2 * w) * pow2(ms) == (2 * pow2(ms)) * w) by (nonlinear_arith);
            vstd::arithmetic::div_mod::lemma_mod_multiples_basic(
                (2 * pow2(ms)) as int,
                w as int,
            );
            // Every limb dominates its target.
            assert forall|k: int| 0 <= k < 4 implies r@[k] >= big_value(max_vals@[k]) by {
                if base[k] == 0 {
                    assert(maxs[k] == 0);
                } else {
                    lemma_aux_shift_reaches(base[k], maxs[k]);
                    let sk = aux_shift(base[k], maxs[k]);
                    assert(sk <= ms) by {
                        lemma_max_shift_upto_bound(base, maxs, k);
                    }
                    if sk < ms {
                        lemma_pow2_strictly_increases(sk, ms);
                    }
                    lemma_mul_inequality(pow2(sk) as int, pow2(ms) as int, base[k] as int);
                    lemma_mul_is_commutative(pow2(sk) as int, base[k] as int);
                    lemma_mul_is_commutative(pow2(ms) as int, base[k] as int);
                }
            }
        }
        r
    }
}

/// Each per-limb shift is at most the overall shift.
proof fn lemma_max_shift_upto_bound(base: Seq<nat>, maxs: Seq<nat>, k: int)
    requires
        0 <= k < 4,
    ensures
        aux_shift(base[k], maxs[k]) <= max_shift_upto(base, maxs, 4),
{
    lemma_max_shift_upto_mono(base, maxs, k, 4);
}

/// `max_shift_upto` dominates every earlier per-limb shift.
proof fn lemma_max_shift_upto_mono(base: Seq<nat>, maxs: Seq<nat>, k: int, i: int)
    requires
        0 <= k < i,
    ensures
        aux_shift(base[k], maxs[k]) <= max_shift_upto(base, maxs, i),
    decreases i,
{
    if k == i - 1 {
    } else {
        lemma_max_shift_upto_mono(base, maxs, k, i - 1);
    }
}

} // verus!
