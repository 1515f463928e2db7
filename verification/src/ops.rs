//! Value-level operations of the parameter bundle: building integers,
//! inversion and division in the wrong field.

use vstd::prelude::*;
use vstd::arithmetic::power2::{pow2, lemma_pow2_adds, lemma_pow2_pos};
use vstd::arithmetic::div_mod::{lemma_small_mod, lemma_mul_mod_noop_left, lemma_mul_mod_noop_right};
use vstd::arithmetic::mul::lemma_mul_is_associative;
use num_bigint::BigUint;
use crate::big::{big_value, big_clone, big_mul, big_mod, big_modinv};
use crate::model::{limbs_value, decompose_spec, big_seq, lemma_compose_decompose, lemma_limbs_value4};
use crate::integer::{Integer, Limb, Common};
use crate::rns::{Rns, four_limbs, rns_binary, rns_max_reduced_limb};
use crate::NUMBER_OF_LIMBS;

verus! {

/// The four maximal reduced limbs compose to `2^(4b) - 1`, the largest
/// dense value.
pub proof fn lemma_max_dense(b: nat)
    ensures
        limbs_value(four_limbs(rns_max_reduced_limb(b)), b) + 1 == pow2(4 * b),
{
    let p = pow2(b);
    lemma_pow2_pos(b);
    let m = rns_max_reduced_limb(b);
    let s = four_limbs(m);
    lemma_limbs_value4(s, b);
    lemma_pow2_adds(b, b);
    lemma_pow2_adds(b, 2 * b);
    lemma_pow2_adds(b, 3 * b);
    assert(m + p * m + pow2(2 * b) * m + pow2(3 * b) * m + 1 == pow2(4 * b)) by (nonlinear_arith)
        requires
            m == p - 1,
            p >= 1,
            pow2(2 * b) == p * p,
            pow2(3 * b) == p * (p * p),
            pow2(4 * b) == p * (p * (p * p)),
    ;
}

impl Rns {
    /// A four-limb integer holding a wrong-field element's value.
    pub fn new(&self, fe: &BigUint) -> (r: Integer)
        requires
            self.wf(),
            big_value(*fe) < self.w(),
        ensures
            r@ == decompose_spec(big_value(*fe), 4, self.b()),
            r.bit_len_limb == self.bit_len_limb,
            r.wf(),
            r.spec_value() == big_value(*fe),
    {
        let r = Integer::from_big(big_clone(fe), NUMBER_OF_LIMBS, self.bit_len_limb);
        proof {
            self.lemma_value_roundtrip(big_value(*fe));
        }
        r
    }

    /// The zero integer.
    pub fn zero(&self) -> (r: Integer)
        requires
            self.wf(),
        ensures
            r@ == decompose_spec(0, 4, self.b()),
            r.bit_len_limb == self.bit_len_limb,
            r.wf(),
            r.spec_value() == 0,
    {
        let z = crate::big::big_from_u64(0);
        self.new(&z)
    }

    /// An integer built directly from four limb values.
    pub fn new_from_limbs(&self, limbs: Vec<BigUint>) -> (r: Integer)
        requires
            limbs@.len() == NUMBER_OF_LIMBS,
        ensures
            r@ == big_seq(limbs@),
            r.bit_len_limb == self.bit_len_limb,
            r.wf(),
    {
        let mut ls: Vec<Limb> = Vec::new();
        let n = limbs.len();
        let mut i: usize = 0;
        while i < n
            invariant
                i <= n,
                n == limbs@.len(),
                ls@.len() == i,
                forall|j: int| 0 <= j < i ==> ls@[j].spec_value() == big_value(limbs@[j]),
            decreases n - i,
        {
            ls.push(Limb(big_clone(&limbs[i])));
            i = i + 1;
        }
        let r = Integer::new(ls, self.bit_len_limb);
        proof {
            assert(r@ =~= big_seq(limbs@)) by {
                assert(forall|j: int| 0 <= j < n ==> big_seq(limbs@)[j] == big_value(limbs@[j]));
            }
        }
        r
    }

    /// An integer holding any value up to the maximal dense value.
    pub fn new_from_big(&self, e: BigUint) -> (r: Integer)
        requires
            self.wf(),
            big_value(e) <= limbs_value(four_limbs(rns_max_reduced_limb(self.b())), self.b()),
        ensures
            r@ == decompose_spec(big_value(e), 4, self.b()),
            r.bit_len_limb == self.bit_len_limb,
            r.wf(),
            r.spec_value() == big_value(e),
    {
        let r = Integer::from_big(e, NUMBER_OF_LIMBS, self.bit_len_limb);
        proof {
            lemma_max_dense(self.b());
            self.lemma_value_roundtrip(big_value(e));
        }
        r
    }

    /// Composing the decomposition of a value below the binary modulus
    /// gives the value back.
    pub proof fn lemma_value_roundtrip(&self, e: nat)
        requires
            self.wf(),
            e < rns_binary(self.b()),
        ensures
            limbs_value(decompose_spec(e, 4, self.b()), self.b()) == e,
    {
        let b = self.b();
        lemma_compose_decompose(e, 4, b);
        assert(4 * b == 4nat * b) by (nonlinear_arith);
        lemma_pow2_pos(4 * b);
        lemma_small_mod(e, pow2(4 * b));
    }

    /// The composed value of an integer, under this configuration's limb
    /// width.
    pub fn value(&self, a: &Integer) -> (r: BigUint)
        requires
            a.bit_len_limb == self.bit_len_limb,
        ensures
            big_value(r) == a.spec_value(),
    {
        a.value()
    }

    /// The multiplicative inverse of `a` in the wrong field, when one
    /// exists; `None` exactly when `a`'s residue has no inverse.
    pub fn invert(&self, a: &Integer) -> (r: Option<Integer>)
        requires
            self.wf(),
            a.bit_len_limb == self.bit_len_limb,
        ensures
            match r {
                Some(inv) => inv.wf() && inv.bit_len_limb == self.bit_len_limb
                    && inv.spec_value() < self.w() && (a.spec_value() * inv.spec_value())
                    % self.w() == 1,
                None => forall|x: nat|
                    x < self.w() ==> #[trigger] ((a.spec_value() * x) % self.w()) != 1,
            },
    {
        let ghost w = self.w();
        let ghost av = a.spec_value();
        let a_big = a.value();
        let a_mod = big_mod(&a_big, &self.wrong_modulus);
        let inv = big_modinv(&a_mod, &self.wrong_modulus);
        proof {
            lemma_small_mod(1, w);
        }
        match inv {
            Some(x) => {
                proof {
                    lemma_mul_mod_noop_left(av as int, big_value(x) as int, w as int);
                    lemma_max_dense(self.b());
                }
                let r = self.new_from_big(x);
                Some(r)
            },
            None => {
                proof {
                    assert forall|x: nat| x < w implies #[trigger] ((av * x) % w) != 1 by {
                        lemma_mul_mod_noop_left(av as int, x as int, w as int);
                        assert((big_value(a_mod) * x) % w != 1nat % w);
                    }
                }
                None
            },
        }
    }

    /// Division in the wrong field: a result `c` with `c * b == a`, when
    /// `b` is invertible; `None` exactly when it is not.
    pub fn div(&self, a: &Integer, b: &Integer) -> (r: Option<Integer>)
        requires
            self.wf(),
            a.bit_len_limb == self.bit_len_limb,
            b.bit_len_limb == self.bit_len_limb,
        ensures
            match r {
                Some(c) => c.wf() && c.bit_len_limb == self.bit_len_limb && c.spec_value()
                    < self.w() && (c.spec_value() * b.spec_value()) % self.w() == a.spec_value()
                    % self.w(),
                None => forall|x: nat|
                    x < self.w() ==> #[trigger] ((b.spec_value() * x) % self.w()) != 1,
            },
    {
        let ghost w = self.w();
        let ghost av = a.spec_value();
        let ghost bv = b.spec_value();
        match self.invert(b) {
            Some(b_inv) => {
                let ghost iv = b_inv.spec_value();
                let a_big = a.value();
                let i_big = b_inv.value();
                let prod = big_mul(&a_big, &i_big);
                let red = big_mod(&prod, &self.wrong_modulus);
                proof {
                    lemma_max_dense(self.b());
                }
                let c = self.new_from_big(red);
                proof {
                    let cv = c.spec_value();
                    assert(cv == (av * iv) % w);
                    lemma_mul_mod_noop_left((av * iv) as int, bv as int, w as int);
                    assert((cv * bv) % w == ((av * iv) * bv) % w);
                    lemma_mul_is_associative(av as int, iv as int, bv as int);
                    assert((av * iv) * bv == av * (iv * bv));
                    lemma_mul_mod_noop_right(av as int, (iv * bv) as int, w as int);
                    assert((av * (iv * bv)) % w == (av * ((iv * bv) % w)) % w);
                    assert((iv * bv) % w == 1) by {
                        vstd::arithmetic::mul::lemma_mul_is_commutative(iv as int, bv as int);
                    }
                    assert((cv * bv) % w == (av * 1) % w);
                }
                Some(c)
            },
            None => None,
        }
    }
}

} // verus!
