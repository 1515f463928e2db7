//! The residue number system parameter bundle.
//!
//! `Rns` is derived once from the limb bit width and the two field moduli.
//! Every derived field is pinned by `wf` to a specification-level mirror of
//! its derivation, and `construct_ok` states the soundness inequalities the
//! derivation checks; a configuration that fails one of them cannot be
//! constructed.

use vstd::prelude::*;
use vstd::arithmetic::power2::pow2;
use num_bigint::BigUint;
use crate::big::big_value;
use crate::model::{limbs_value, decompose_spec, spec_bits, big_seq};
use crate::integer::Integer;

verus! {

/// The quotient witness of a reduction: a single limb for `reduce`, a full
/// integer for `mul`.
pub enum Quotient {
    Short(BigUint),
    Long(Integer),
}

/// Everything a circuit needs to verify one reduction or multiplication:
/// the canonical result, the quotient witness, the intermediate terms `t`,
/// and the four residue witnesses.
pub struct ReductionContext {
    pub result: Integer,
    pub quotient: Quotient,
    pub t: Vec<BigUint>,
    pub u_0: BigUint,
    pub u_1: BigUint,
    pub v_0: BigUint,
    pub v_1: BigUint,
}

/// Result of comparing an integer against `modulus - 1`: the borrow-
/// propagated difference and the per-limb borrow flags.
pub struct ComparisonResult {
    pub result: Integer,
    pub borrow: [bool; 4],
}

/// Four copies of the same limb value.
pub open spec fn four_limbs(x: nat) -> Seq<nat> {
    seq![x, x, x, x]
}

/// `2^(4b)`: the binary modulus of a four-limb representation.
pub open spec fn rns_binary(b: nat) -> nat {
    pow2(4 * b)
}

/// The CRT modulus: binary modulus times native modulus.
pub open spec fn rns_crt(b: nat, n: nat) -> nat {
    pow2(4 * b) * n
}

/// Largest value of the wrong modulus' bit length: `2^bits(w) - 1`.
pub open spec fn rns_max_remainder(w: nat) -> nat {
    (pow2(spec_bits(w)) - 1) as nat
}

/// First operand bound candidate, from the CRT modulus' bit length.
pub open spec fn rns_pre_max_operand(b: nat, n: nat) -> nat {
    (pow2((spec_bits(rns_crt(b, n)) / 2 - 1) as nat) - 1) as nat
}

/// Exact bound on the multiplication quotient: `(crt - max_remainder) / w`.
pub open spec fn rns_pre_max_mul_quotient(b: nat, w: nat, n: nat) -> int {
    (rns_crt(b, n) - rns_max_remainder(w)) / (w as int)
}

/// The multiplication quotient bound, rounded down to a power of two
/// minus one.
pub open spec fn rns_max_mul_quotient(b: nat, w: nat, n: nat) -> nat {
    (pow2((spec_bits(rns_pre_max_mul_quotient(b, w, n) as nat) - 1) as nat) - 1) as nat
}

/// Bit length of the final operand bound.
pub open spec fn rns_max_operand_bits(b: nat, w: nat, n: nat) -> nat {
    (spec_bits(rns_max_mul_quotient(b, w, n) * w + rns_max_remainder(w)) / 2 - 1) as nat
}

/// The final operand bound: `2^max_operand_bits - 1`.
pub open spec fn rns_max_operand(b: nat, w: nat, n: nat) -> nat {
    (pow2(rns_max_operand_bits(b, w, n)) - 1) as nat
}

/// Largest reduced limb: `2^b - 1`.
pub open spec fn rns_max_reduced_limb(b: nat) -> nat {
    (pow2(b) - 1) as nat
}

/// Largest unreduced limb: `2^(b + b/2) - 1`.
pub open spec fn rns_max_unreduced_limb(b: nat) -> nat {
    (pow2(b + b / 2) - 1) as nat
}

/// Every limb doubled.
pub open spec fn rns_double_limbs(s: Seq<nat>) -> Seq<nat> {
    s.map(|i: int, x: nat| 2 * x)
}

/// One borrow-protection pass of the base auxiliary derivation: when the
/// limb below `hidx` is too short to dominate a borrow, move one unit of
/// weight from limb `hidx` down to it.
pub open spec fn rns_aux_step(s: Seq<nat>, b: nat, hidx: int) -> Seq<nat> {
    if spec_bits(s[hidx - 1]) < b + 1 {
        s.update(hidx, (s[hidx] - 1) as nat).update(hidx - 1, s[hidx - 1] + pow2(b))
    } else {
        s
    }
}

/// The base auxiliary limbs: `2 * w` decomposed, then borrow-protected
/// from the most significant limb down.
pub open spec fn rns_base_aux(b: nat, w: nat) -> Seq<nat> {
    rns_aux_step(
        rns_aux_step(rns_aux_step(rns_double_limbs(decompose_spec(w, 4, b)), b, 3), b, 2),
        b,
        1,
    )
}

/// Convolution term `k` of two four-limb sequences.
pub open spec fn conv4(x: Seq<nat>, y: Seq<nat>, k: int) -> nat {
    if k == 0 {
        x[0] * y[0]
    } else if k == 1 {
        x[0] * y[1] + x[1] * y[0]
    } else if k == 2 {
        x[0] * y[2] + x[1] * y[1] + x[2] * y[0]
    } else if k == 3 {
        x[0] * y[3] + x[1] * y[2] + x[2] * y[1] + x[3] * y[0]
    } else if k == 4 {
        x[1] * y[3] + x[2] * y[2] + x[3] * y[1]
    } else if k == 5 {
        x[2] * y[3] + x[3] * y[2]
    } else if k == 6 {
        x[3] * y[3]
    } else {
        0
    }
}

/// The low two-limb window of a four-limb sequence.
pub open spec fn win0(s: Seq<nat>, b: nat) -> nat {
    s[0] + pow2(b) * s[1]
}

/// The high two-limb window of a four-limb sequence.
pub open spec fn win1(s: Seq<nat>, b: nat) -> nat {
    s[2] + pow2(b) * s[3]
}

/// The worst-case multiplication residues `(v0, v1)`, from maximal
/// operand and quotient limbs.
pub open spec fn rns_mul_v_max(b: nat, w: nat, n: nat) -> (nat, nat) {
    let maxr = rns_max_reduced_limb(b);
    let a = seq![maxr, maxr, maxr, rns_max_operand(b, w, n) / pow2(3 * b)];
    let p = decompose_spec((rns_binary(b) - w) as nat, 4, b);
    let q = seq![maxr, maxr, maxr, rns_max_mul_quotient(b, w, n) / pow2(3 * b)];
    let t0 = a[0] * a[0] + p[0] * q[0];
    let t1 = a[0] * a[1] + a[1] * a[0] + p[0] * q[1] + p[1] * q[0];
    let t2 = a[0] * a[2] + a[1] * a[1] + a[2] * a[0] + p[0] * q[2] + p[1] * q[1] + p[2] * q[0];
    let t3 = a[0] * a[3] + a[1] * a[2] + a[2] * a[1] + a[3] * a[0] + p[0] * q[3] + p[1] * q[2]
        + p[2] * q[1] + p[3] * q[0];
    let u0 = t0 + t1 * pow2(b);
    let u1 = t2 + t3 * pow2(b) + u0 / pow2(2 * b);
    (u0 / pow2(2 * b), u1 / pow2(2 * b))
}

/// The worst-case reduction residues `(v0, v1)`, from maximal unreduced
/// limbs and a maximal short quotient.
pub open spec fn rns_red_v_max(b: nat, w: nat, n: nat) -> (nat, nat) {
    let maxu = rns_max_unreduced_limb(b);
    let p = decompose_spec((rns_binary(b) - w) as nat, 4, b);
    let q = rns_max_reduced_limb(b);
    let t0 = maxu + q * p[0];
    let t1 = maxu + q * p[1];
    let t2 = maxu + q * p[2];
    let t3 = maxu + q * p[3];
    let u0 = t0 + t1 * pow2(b);
    let u1 = t2 + t3 * pow2(b) + u0 / pow2(2 * b);
    (u0 / pow2(2 * b), u1 / pow2(2 * b))
}

/// Side conditions of the base auxiliary derivation: no borrow pass may
/// drain an empty limb, and the final limbs must dominate every value
/// that will ever be subtracted from them.
pub open spec fn rns_aux_ok(b: nat, w: nat) -> bool {
    let s0 = rns_double_limbs(decompose_spec(w, 4, b));
    let s1 = rns_aux_step(s0, b, 3);
    let s2 = rns_aux_step(s1, b, 2);
    let s3 = rns_aux_step(s2, b, 1);
    &&& (spec_bits(s0[2]) < b + 1 ==> s0[3] >= 1)
    &&& (spec_bits(s1[1]) < b + 1 ==> s1[2] >= 1)
    &&& (spec_bits(s2[0]) < b + 1 ==> s2[1] >= 1)
    &&& s3[0] >= rns_max_reduced_limb(b)
    &&& s3[1] >= rns_max_reduced_limb(b)
    &&& s3[2] >= rns_max_reduced_limb(b)
    &&& s3[3] >= rns_max_remainder(w) / pow2(3 * b)
}

/// All checks of the parameter derivation: a configuration is usable
/// exactly when every one of them holds. They are the asserted soundness
/// inequalities of the derivation, the invertibility of the limb shifter
/// in the native field, and the bounds that keep every derived quantity
/// representable.
pub open spec fn construct_ok(b: nat, w: nat, n: nat) -> bool {
    let binary = rns_binary(b);
    let crt = rns_crt(b, n);
    let max_rem = rns_max_remainder(w);
    let pre_op = rns_pre_max_operand(b, n);
    let pre_q = rns_pre_max_mul_quotient(b, w, n);
    let max_q = rns_max_mul_quotient(b, w, n);
    let max_op = rns_max_operand(b, w, n);
    let maxr = rns_max_reduced_limb(b);
    let maxu = rns_max_unreduced_limb(b);
    let whole_u = limbs_value(four_limbs(maxu), b);
    &&& 4 <= b <= 65536
    &&& b % 4 == 0
    &&& 2 <= w
    &&& 2 <= n
    &&& binary > w
    &&& binary > n
    &&& binary * n > w * w
    &&& (exists|x: nat| x < n && #[trigger] ((pow2(b) * x) % n) == 1)
    &&& pre_q >= 1
    &&& crt > pre_op * pre_op
    &&& pre_op > w
    &&& crt > max_q * w + max_rem
    &&& max_q > w
    &&& max_op <= pre_op
    &&& max_op > w
    &&& crt > max_op * max_op
    &&& max_q * w + max_rem > max_op * max_op
    &&& binary * w > max_op * max_op
    &&& spec_bits(max_rem / pow2(3 * b)) < b
    &&& spec_bits(max_op / pow2(3 * b)) < b
    &&& spec_bits(max_q / pow2(3 * b)) <= b
    &&& maxr * w + max_rem > whole_u
    &&& whole_u / w < maxr
    &&& rns_aux_ok(b, w)
    &&& spec_bits(rns_mul_v_max(b, w, n).0) >= b
    &&& spec_bits(rns_mul_v_max(b, w, n).1) >= b
    &&& spec_bits(rns_red_v_max(b, w, n).0) >= b
    &&& spec_bits(rns_red_v_max(b, w, n).1) >= b
}

/// The parameter bundle of one residue number system configuration.
pub struct Rns {
    pub bit_len_limb: usize,
    pub bit_len_lookup: usize,

    pub wrong_modulus: BigUint,
    pub native_modulus: BigUint,
    pub binary_modulus: BigUint,
    pub crt_modulus: BigUint,

    pub right_shifter_r: BigUint,
    pub right_shifter_2r: BigUint,
    pub left_shifter_r: BigUint,
    pub left_shifter_2r: BigUint,
    pub left_shifter_3r: BigUint,

    pub base_aux: Integer,

    pub negative_wrong_modulus_decomposed: Vec<BigUint>,
    pub wrong_modulus_decomposed: Vec<BigUint>,
    pub wrong_modulus_minus_one: Integer,
    pub wrong_modulus_in_native_modulus: BigUint,

    pub max_reduced_limb: BigUint,
    pub max_unreduced_limb: BigUint,
    pub max_remainder: BigUint,
    pub max_operand: BigUint,
    pub max_mul_quotient: BigUint,
    pub max_reducible_value: BigUint,
    pub max_with_max_unreduced_limbs: BigUint,
    pub max_dense_value: BigUint,

    pub max_most_significant_reduced_limb: BigUint,
    pub max_most_significant_operand_limb: BigUint,
    pub max_most_significant_unreduced_limb: BigUint,
    pub max_most_significant_mul_quotient_limb: BigUint,

    pub mul_v0_overflow: usize,
    pub mul_v1_overflow: usize,
    pub red_v0_overflow: usize,
    pub red_v1_overflow: usize,

    pub two_limb_mask: BigUint,
}

impl Rns {
    /// The limb bit width.
    pub open spec fn b(&self) -> nat {
        self.bit_len_limb as nat
    }

    /// The wrong (emulated) modulus.
    pub open spec fn w(&self) -> nat {
        big_value(self.wrong_modulus)
    }

    /// The native modulus.
    pub open spec fn n(&self) -> nat {
        big_value(self.native_modulus)
    }

    /// Every field equals its derivation from `(bit_len_limb, wrong
    /// modulus, native modulus)`, and the configuration checks hold.
    pub open spec fn wf(&self) -> bool {
        let b = self.b();
        let w = self.w();
        let n = self.n();
        &&& construct_ok(b, w, n)
        &&& self.bit_len_lookup == b / 4
        &&& big_value(self.binary_modulus) == rns_binary(b)
        &&& big_value(self.crt_modulus) == rns_crt(b, n)
        &&& big_value(self.left_shifter_r) == pow2(b) % n
        &&& big_value(self.left_shifter_2r) == pow2(2 * b) % n
        &&& big_value(self.left_shifter_3r) == pow2(3 * b) % n
        &&& big_value(self.right_shifter_r) < n
        &&& (pow2(b) * big_value(self.right_shifter_r)) % n == 1
        &&& big_value(self.right_shifter_2r) < n
        &&& (pow2(2 * b) * big_value(self.right_shifter_2r)) % n == 1
        &&& self.base_aux@ == rns_base_aux(b, w)
        &&& self.base_aux@.len() == 4
        &&& self.base_aux.bit_len_limb == self.bit_len_limb
        &&& big_seq(self.negative_wrong_modulus_decomposed@) == decompose_spec(
            (rns_binary(b) - w) as nat,
            4,
            b,
        )
        &&& self.negative_wrong_modulus_decomposed@.len() == 4
        &&& big_seq(self.wrong_modulus_decomposed@) == decompose_spec(w, 4, b)
        &&& self.wrong_modulus_decomposed@.len() == 4
        &&& self.wrong_modulus_minus_one@ == decompose_spec((w - 1) as nat, 4, b)
        &&& self.wrong_modulus_minus_one@.len() == 4
        &&& self.wrong_modulus_minus_one.bit_len_limb == self.bit_len_limb
        &&& big_value(self.wrong_modulus_in_native_modulus) == w % n
        &&& big_value(self.max_reduced_limb) == rns_max_reduced_limb(b)
        &&& big_value(self.max_unreduced_limb) == rns_max_unreduced_limb(b)
        &&& big_value(self.max_remainder) == rns_max_remainder(w)
        &&& big_value(self.max_operand) == rns_max_operand(b, w, n)
        &&& big_value(self.max_mul_quotient) == rns_max_mul_quotient(b, w, n)
        &&& big_value(self.max_reducible_value) == rns_max_reduced_limb(b) * w
            + rns_max_remainder(w)
        &&& big_value(self.max_with_max_unreduced_limbs) == limbs_value(
            four_limbs(rns_max_unreduced_limb(b)),
            b,
        )
        &&& big_value(self.max_dense_value) == limbs_value(four_limbs(rns_max_reduced_limb(b)), b)
        &&& big_value(self.max_most_significant_reduced_limb) == rns_max_remainder(w) / pow2(3 * b)
        &&& big_value(self.max_most_significant_operand_limb) == rns_max_operand(b, w, n) / pow2(
            3 * b,
        )
        &&& big_value(self.max_most_significant_unreduced_limb) == rns_max_unreduced_limb(b)
        &&& big_value(self.max_most_significant_mul_quotient_limb) == rns_max_mul_quotient(b, w, n)
            / pow2(3 * b)
        &&& self.mul_v0_overflow + b == spec_bits(rns_mul_v_max(b, w, n).0)
        &&& self.mul_v1_overflow + b == spec_bits(rns_mul_v_max(b, w, n).1)
        &&& self.red_v0_overflow + b == spec_bits(rns_red_v_max(b, w, n).0)
        &&& self.red_v1_overflow + b == spec_bits(rns_red_v_max(b, w, n).1)
        &&& big_value(self.two_limb_mask) == (pow2(2 * b) - 1) as nat
    }
}

} // verus!
