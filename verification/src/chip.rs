//! Circuit-facing configuration handles and the integer chip's
//! witness-level decision logic. The constraint system itself (gates,
//! range checks, wiring) is an external collaborator; what stands here is
//! everything the chip decides or computes from plain values.

use vstd::prelude::*;
use vstd::arithmetic::power2::{pow2, lemma_pow2_adds, lemma_pow2_pos};
use num_bigint::BigUint;
use crate::big::{big_value, big_add, big_sub, big_from_u64};
use crate::model::{
    limbs_value, seq_add, big_seq, spec_bits, lemma_spec_bits, lemma_limbs_value_add,
    lemma_limbs_value4,
};
use crate::integer::{Integer, Limb, Common};
use crate::rns::{Rns, four_limbs, rns_base_aux, rns_max_unreduced_limb};
use crate::auxiliary::make_aux_shift;

verus! {

/// Configuration handle of the arithmetic gate collaborator.
pub struct MainGateConfig {}

/// Configuration handle of the range-check collaborator.
pub struct RangeConfig {}

/// Configuration of an integer chip: its range and gate handles.
pub struct IntegerConfig {
    pub range_config: RangeConfig,
    pub main_gate_config: MainGateConfig,
}

impl IntegerConfig {
    pub fn new(range_config: RangeConfig, main_gate_config: MainGateConfig) -> (r: IntegerConfig) {
        IntegerConfig { range_config, main_gate_config }
    }
}

/// Configuration of an elliptic-curve chip: the same two handles.
pub struct EccConfig {
    pub range_config: RangeConfig,
    pub main_gate_config: MainGateConfig,
}

impl EccConfig {
    /// The integer-chip configuration this curve chip builds on.
    pub fn integer_chip_config(&self) -> (r: IntegerConfig) {
        IntegerConfig::new(RangeConfig {}, MainGateConfig {})
    }
}

/// The integer chip: a configuration handle and the parameter bundle.
pub struct IntegerChip {
    pub config: IntegerConfig,
    pub rns: Rns,
}

/// A power-of-two lower bound gives a bit-length lower bound.
proof fn lemma_bits_ge(v: nat, m: nat)
    requires
        pow2(m) <= v,
    ensures
        spec_bits(v) >= m + 1,
{
    lemma_spec_bits(v);
    lemma_pow2_pos(m);
    if spec_bits(v) <= m {
        if spec_bits(v) < m {
            vstd::arithmetic::power2::lemma_pow2_strictly_increases(spec_bits(v), m);
        }
        assert(pow2(spec_bits(v)) <= pow2(m));
        assert(false);
    }
}

impl IntegerChip {
    pub fn new(config: IntegerConfig, rns: Rns) -> (r: IntegerChip)
        ensures
            r.rns == rns,
    {
        IntegerChip { config, rns }
    }

    /// Bit width allowed to the most significant limb when
    /// range-checking a not-yet-normalized inverse: the bit length of the
    /// largest prenormalized value, minus the bits of the three lower
    /// limbs, plus one.
    pub fn inert_inv_range_tune(&self) -> (r: usize)
        requires
            self.rns.wf(),
        ensures
            r + 3 * self.rns.b() == spec_bits(
                limbs_value(
                    four_limbs(rns_max_unreduced_limb(self.rns.b())),
                    self.rns.b(),
                ),
            ) + 1,
    {
        let ghost b = self.rns.b();
        let ghost maxu = rns_max_unreduced_limb(b);
        let ghost v = limbs_value(four_limbs(maxu), b);
        proof {
            vstd::arithmetic::power2::lemma2_to64();
            lemma_limbs_value4(four_limbs(maxu), b);
            lemma_pow2_pos(b);
            lemma_pow2_pos(b + b / 2);
            lemma_pow2_adds(b, b);
            lemma_pow2_adds(b, 2 * b);
            lemma_pow2_adds(2 * b, 3 * b);
            lemma_pow2_adds(3 * b, 2 * b);
            // Upper bound: each weighted limb is below 2^(5b).
            vstd::arithmetic::power2::lemma_pow2_strictly_increases(b + b / 2, 2 * b);
            assert(maxu < pow2(2 * b));
            assert forall|k: nat| k <= 3 * b implies #[trigger] (pow2(k) * maxu) < pow2(
                k + 2 * b,
            ) by {
                lemma_pow2_pos(k);
                lemma_pow2_adds(k, 2 * b);
                assert(pow2(k) * maxu < pow2(k) * pow2(2 * b)) by (nonlinear_arith)
                    requires maxu < pow2(2 * b), pow2(k) >= 1;
            }
            assert(four_limbs(maxu)[0] == maxu && four_limbs(maxu)[1] == maxu && four_limbs(
                maxu,
            )[2] == maxu && four_limbs(maxu)[3] == maxu);
            assert(pow2(b) * maxu < pow2(b + 2 * b));
            assert(pow2(2 * b) * maxu < pow2(2 * b + 2 * b));
            assert(pow2(3 * b) * maxu < pow2(3 * b + 2 * b));
            vstd::arithmetic::power2::lemma_pow2_strictly_increases(2 * b, 5 * b);
            vstd::arithmetic::power2::lemma_pow2_strictly_increases(3 * b, 5 * b);
            vstd::arithmetic::power2::lemma_pow2_strictly_increases(4 * b, 5 * b);
            assert(v < 4 * pow2(5 * b));
            lemma_pow2_adds(5 * b, 2);
            assert(4 * pow2(5 * b) == pow2(5 * b + 2)) by (nonlinear_arith)
                requires pow2(5 * b + 2) == pow2(5 * b) * pow2(2), pow2(2) == 4;
            vstd::arithmetic::power2::lemma_pow2_strictly_increases(5 * b + 2, 6 * b);
            assert(v < pow2(6 * b));
            // Lower bound: the most significant limb alone reaches
            // 2^(4b + b/2 - 1).
            lemma_pow2_adds((b + b / 2 - 1) as nat, 1);
            assert(pow2(b + b / 2) == pow2((b + b / 2 - 1) as nat) * 2) by (nonlinear_arith)
                requires
                    pow2((b + b / 2 - 1) as nat + 1) == pow2((b + b / 2 - 1) as nat) * pow2(1),
                    pow2(1) == 2,
                    b >= 4,
                    pow2(b + b / 2) == pow2((b + b / 2 - 1) as nat + 1),
            ;
            assert(maxu >= pow2((b + b / 2 - 1) as nat));
            assert(pow2(3 * b) * maxu >= pow2(3 * b) * pow2((b + b / 2 - 1) as nat))
                by (nonlinear_arith)
                requires maxu >= pow2((b + b / 2 - 1) as nat), pow2(3 * b) >= 0;
            lemma_pow2_adds(3 * b, (b + b / 2 - 1) as nat);
            lemma_pow2_pos(3 * b);
            assert(v >= pow2((3 * b + b + b / 2 - 1) as nat));
            lemma_bits_ge(v, (3 * b + b + b / 2 - 1) as nat);
            assert(spec_bits(v) >= 3 * b + b + b / 2);
        }
        let pre_bits = crate::construct::big_bits_usize(
            &self.rns.max_with_max_unreduced_limbs,
            Ghost(6 * b),
        );
        proof {
            assert(big_value(self.rns.max_with_max_unreduced_limbs) == v);
            assert(pre_bits as nat == spec_bits(v));
            crate::model::lemma_bits_le(v, 6 * b);
            assert(self.rns.bit_len_limb <= 65536);
            assert(pre_bits >= 3 * self.rns.bit_len_limb);
        }
        let lower_limbs = crate::NUMBER_OF_LIMBS - 1;
        let lower_width = self.rns.bit_len_limb * lower_limbs;
        pre_bits - lower_width + 1
    }

    /// The inversion-certification witness: the candidate inverse of `a`
    /// (or the unit element when `a` is not invertible) together with the
    /// non-invertibility flag. An unknown operand yields an unknown
    /// result.
    pub fn invert_witness(&self, a: &Option<Integer>) -> (r: Option<(Integer, bool)>)
        requires
            self.rns.wf(),
            (a matches Some(ai) ==> ai.wf() && ai.bit_len_limb == self.rns.bit_len_limb),
        ensures
            (r is Some) == (a is Some),
            (a matches Some(ai) ==> (r matches Some(p) && p.0.wf() && p.0.bit_len_limb
                == self.rns.bit_len_limb && ((exists|x: nat|
                x < self.rns.w() && #[trigger] ((ai.spec_value() * x) % self.rns.w()) == 1)
                ==> ((ai.spec_value() * p.0.spec_value()) % self.rns.w() == 1
                && p.0.spec_value() < self.rns.w() && p.1 == false)) && ((forall|x: nat|
                x < self.rns.w() ==> #[trigger] ((ai.spec_value() * x) % self.rns.w()) != 1)
                ==> (p.0.spec_value() == 1 && p.1 == true)))),
    {
        match a {
            Some(ai) => {
                match self.rns.invert(ai) {
                    Some(inv) => Some((inv, false)),
                    None => {
                        let one = big_from_u64(1);
                        proof {
                            crate::ops::lemma_max_dense(self.rns.b());
                            lemma_pow2_pos(4 * self.rns.b());
                        }
                        let unit = self.rns.new_from_big(one);
                        Some((unit, true))
                    },
                }
            },
            None => None,
        }
    }

    /// The subtraction witness: `a - b` limb by limb, offset by the
    /// auxiliary derived from `b`'s per-limb maxima, so that no limb
    /// underflows and the result stays congruent to `a - b`.
    pub fn sub_witness(&self, a: &Integer, b: &Integer, b_max_vals: Vec<BigUint>) -> (r: Integer)
        requires
            self.rns.wf(),
            a.wf(),
            b.wf(),
            a.bit_len_limb == self.rns.bit_len_limb,
            b.bit_len_limb == self.rns.bit_len_limb,
            b_max_vals@.len() == 4,
            forall|i: int| 0 <= i < 4 ==> b@[i] <= big_value(b_max_vals@[i]),
            forall|i: int|
                0 <= i < 4 ==> (rns_base_aux(self.rns.b(), self.rns.w())[i] == 0 ==> big_value(
                    b_max_vals@[i],
                ) == 0),
            forall|i: int| 0 <= i < 4 ==> big_value(b_max_vals@[i]) < pow2((usize::MAX - 1) as nat),
        ensures
            r.wf(),
            r.bit_len_limb == self.rns.bit_len_limb,
            forall|i: int|
                0 <= i < 4 ==> a@[i] + rns_base_aux(self.rns.b(), self.rns.w())[i] * pow2(
                    make_aux_shift(
                        rns_base_aux(self.rns.b(), self.rns.w()),
                        big_seq(b_max_vals@),
                    ),
                ) >= b@[i],
            forall|i: int|
                0 <= i < 4 ==> r@[i] == a@[i] + rns_base_aux(self.rns.b(), self.rns.w())[i] * pow2(
                    make_aux_shift(
                        rns_base_aux(self.rns.b(), self.rns.w()),
                        big_seq(b_max_vals@),
                    ),
                ) - b@[i],
            r.spec_value() + b.spec_value() == a.spec_value() + 2 * self.rns.w() * pow2(
                make_aux_shift(rns_base_aux(self.rns.b(), self.rns.w()), big_seq(b_max_vals@)),
            ),
            (r.spec_value() - (a.spec_value() - b.spec_value())) % (self.rns.w() as int) == 0,
    {
        let ghost w = self.rns.w();
        let ghost bb = self.rns.b();
        let ghost base = rns_base_aux(bb, w);
        let ghost shift = make_aux_shift(base, big_seq(b_max_vals@));
        let aux = self.rns.make_aux(b_max_vals);
        proof {
            crate::auxiliary::lemma_base_aux_value(bb, w);
            assert(forall|j: int| 0 <= j < 4 ==> aux@[j] >= b@[j]);
        }
        let mut limbs: Vec<Limb> = Vec::new();
        let mut i: usize = 0;
        while i < 4
            invariant
                a.wf(),
                b.wf(),
                aux@.len() == 4,
                base.len() == 4,
                i <= 4,
                limbs@.len() == i,
                forall|j: int| 0 <= j < 4 ==> aux@[j] == base[j] * pow2(shift),
                forall|j: int| 0 <= j < 4 ==> aux@[j] >= b@[j],
                forall|j: int| 0 <= j < 4 ==> aux@[j] == aux.limbs@[j].spec_value(),
                forall|j: int| 0 <= j < 4 ==> a@[j] == a.limbs@[j].spec_value(),
                forall|j: int| 0 <= j < 4 ==> b@[j] == b.limbs@[j].spec_value(),
                forall|j: int|
                    0 <= j < i ==> limbs@[j].spec_value() == a@[j] + aux@[j] - b@[j],
            decreases 4 - i,
        {
            let sum = big_add(&a.limbs[i].0, &aux.limbs[i].0);
            proof {
                assert(big_value(sum) == a@[i as int] + aux@[i as int]);
                assert(b@[i as int] <= aux@[i as int]);
                assert(big_value(b.limbs@[i as int].0) == b@[i as int]);
            }
            let c = big_sub(&sum, &b.limbs[i].0);
            limbs.push(Limb(c));
            i = i + 1;
        }
        let r = Integer::new(limbs, self.rns.bit_len_limb);
        proof {
            assert(seq_add(r@, b@) =~= seq_add(a@, aux@));
            lemma_limbs_value_add(r@, b@, bb);
            lemma_limbs_value_add(a@, aux@, bb);
            assert(r.spec_value() + b.spec_value() == a.spec_value() + aux.spec_value());
            // The offset is a multiple of the wrong modulus, so the
            // congruence with a - b is kept.
            let s = (2 * pow2(shift)) as int;
            assert(aux.spec_value() as int == s * (w as int)) by (nonlinear_arith)
                requires
                    aux.spec_value() == 2 * w * pow2(shift),
                    s == (2 * pow2(shift)) as int,
            ;
            let d = r.spec_value() - (a.spec_value() - b.spec_value());
            assert(d == s * (w as int));
            vstd::arithmetic::div_mod::lemma_mod_multiples_basic(s, w as int);
        }
        r
    }
}

} // verus!
