//! Borrow-propagating comparison of an integer against `modulus - 1`,
//! used to certify that a value is a canonical residue.

use vstd::prelude::*;
use vstd::arithmetic::power2::{pow2, lemma_pow2_adds, lemma_pow2_pos};
use crate::big::{big_value, big_add, big_sub, big_clone, big_from_u64, big_shl, big_lt};
use crate::model::{
    limbs_value, decompose_spec, lemma_compose_decompose, lemma_decompose_bounded,
    lemma_limbs_value_push, lemma_limbs_value_bound,
};
use crate::integer::{Integer, Limb, Common};
use crate::rns::{Rns, ComparisonResult, rns_binary};

verus! {

/// Whether subtracting limb `i` (with incoming borrow) of `a` from `m`
/// borrows from the next limb.
pub open spec fn borrow_out(m: Seq<nat>, a: Seq<nat>, i: int) -> bool
    decreases i,
{
    let bin: nat = if i <= 0 {
        0
    } else if borrow_out(m, a, i - 1) {
        1
    } else {
        0
    };
    m[i] < a[i] + bin
}

/// Limb `i` of the borrow-propagated difference `m - a`.
pub open spec fn compare_limb(m: Seq<nat>, a: Seq<nat>, b: nat, i: int) -> int {
    let bin: int = if i <= 0 {
        0
    } else if borrow_out(m, a, i - 1) {
        1
    } else {
        0
    };
    m[i] + (if borrow_out(m, a, i) {
        pow2(b) as int
    } else {
        0
    }) - bin - a[i]
}

impl Rns {
    /// Subtracts `integer` from `wrong_modulus - 1` limb by limb with
    /// explicit borrows. The final borrow flag is set exactly when the
    /// integer exceeds `wrong_modulus - 1`, i.e. is not a canonical
    /// residue.
    pub fn compare_to_modulus(&self, integer: &Integer) -> (r: ComparisonResult)
        requires
            self.wf(),
            integer.wf(),
            integer.bit_len_limb == self.bit_len_limb,
            forall|i: int| 0 <= i < 4 ==> integer@[i] < pow2(self.b()),
        ensures
            r.result.wf(),
            r.result.bit_len_limb == self.bit_len_limb,
            forall|i: int|
                0 <= i < 4 ==> r.borrow@[i] == borrow_out(
                    decompose_spec((self.w() - 1) as nat, 4, self.b()),
                    integer@,
                    i,
                ),
            forall|i: int|
                0 <= i < 4 ==> r.result@[i] == compare_limb(
                    decompose_spec((self.w() - 1) as nat, 4, self.b()),
                    integer@,
                    self.b(),
                    i,
                ),
            forall|i: int| 0 <= i < 4 ==> r.result@[i] < pow2(self.b()),
            r.result.spec_value() + integer.spec_value() == (self.w() - 1) + (if r.borrow@[3] {
                rns_binary(self.b()) as int
            } else {
                0
            }),
            r.borrow@[3] == (integer.spec_value() > self.w() - 1),
    {
        let ghost b = self.b();
        let ghost w = self.w();
        let ghost ms = decompose_spec((w - 1) as nat, 4, b);
        let ghost av = integer@;

        proof {
            lemma_pow2_pos(b);
            lemma_decompose_bounded((w - 1) as nat, 4, b);
            assert(forall|i: int|
                0 <= i < 4 ==> ms[i] == self.wrong_modulus_minus_one@[i]
                    && self.wrong_modulus_minus_one@[i]
                    == self.wrong_modulus_minus_one.limbs@[i].spec_value());
            assert(forall|i: int| 0 <= i < 4 ==> av[i] == integer.limbs@[i].spec_value());
            assert(ms.take(0) =~= Seq::<nat>::empty());
            assert(av.take(0) =~= Seq::<nat>::empty());
        }

        let one = big_from_u64(1);
        let shifter = big_shl(&one, self.bit_len_limb);
        let mut prev = false;
        let mut prev_big = big_from_u64(0);
        let mut res_limbs: Vec<Limb> = Vec::new();
        let mut borrows: Vec<bool> = Vec::new();

        let mut i: usize = 0;
        while i < 4
            invariant
                self.wf(),
                integer.wf(),
                integer.bit_len_limb == self.bit_len_limb,
                forall|j: int| 0 <= j < 4 ==> integer@[j] < pow2(self.b()),
                b == self.b(),
                w == self.w(),
                ms == decompose_spec((w - 1) as nat, 4, b),
                av == integer@,
                forall|j: int| 0 <= j < 4 ==> ms[j] < pow2(b),
                forall|j: int|
                    0 <= j < 4 ==> ms[j] == self.wrong_modulus_minus_one.limbs@[j].spec_value(),
                forall|j: int| 0 <= j < 4 ==> av[j] == integer.limbs@[j].spec_value(),
                big_value(shifter) == pow2(b),
                i <= 4,
                res_limbs@.len() == i,
                borrows@.len() == i,
                forall|j: int| 0 <= j < i ==> borrows@[j] == borrow_out(ms, av, j),
                forall|j: int|
                    0 <= j < i ==> res_limbs@[j].spec_value() == compare_limb(ms, av, b, j),
                forall|j: int| 0 <= j < i ==> res_limbs@[j].spec_value() < pow2(b),
                prev == (i > 0 && borrow_out(ms, av, i - 1)),
                big_value(prev_big) == (if prev {
                    1nat
                } else {
                    0nat
                }),
                limbs_value(res_limbs@.map(|jj: int, l: Limb| l.spec_value()), b) + limbs_value(
                    av.take(i as int),
                    b,
                ) == limbs_value(ms.take(i as int), b) + (if prev {
                    pow2(i as nat * b) as int
                } else {
                    0
                }),
            decreases 4 - i,
        {
            let ghost pre_res = res_limbs@.map(|jj: int, l: Limb| l.spec_value());
            let mi = &self.wrong_modulus_minus_one.limbs[i].0;
            let a_plus = big_add(&integer.limbs[i].0, &prev_big);
            let cur = big_lt(mi, &a_plus);
            let m_shift = if cur {
                big_add(mi, &shifter)
            } else {
                big_clone(mi)
            };
            proof {
                let ii = i as int;
                assert(big_value(integer.limbs@[ii].0) == av[ii]);
                assert(big_value(a_plus) == av[ii] + (if prev {
                    1nat
                } else {
                    0nat
                }));
                assert(av[ii] < pow2(b));
                if cur {
                    assert(big_value(m_shift) == ms[ii] + pow2(b));
                    assert(big_value(a_plus) <= pow2(b));
                } else {
                    assert(big_value(m_shift) == ms[ii]);
                    assert(!(ms[ii] < big_value(a_plus)));
                }
            }
            let res_i = big_sub(&m_shift, &a_plus);
            res_limbs.push(Limb(res_i));
            borrows.push(cur);

            proof {
                let ii = i as int;
                let kin: int = if prev {
                    1
                } else {
                    0
                };
                let kout: int = if cur {
                    1
                } else {
                    0
                };
                assert(cur == borrow_out(ms, av, ii));
                let rv = big_value(res_limbs@.last().0);
                assert(rv == ms[ii] + kout * pow2(b) - kin - av[ii]);
                assert(rv == compare_limb(ms, av, b, ii));
                assert(rv < pow2(b));
                // Extend the three prefix compositions by one limb.
                let post_res = res_limbs@.map(|jj: int, l: Limb| l.spec_value());
                assert(post_res =~= pre_res.push(rv as nat));
                lemma_limbs_value_push(pre_res, b, rv as nat);
                assert(av.take(ii + 1) =~= av.take(ii).push(av[ii]));
                lemma_limbs_value_push(av.take(ii), b, av[ii]);
                assert(ms.take(ii + 1) =~= ms.take(ii).push(ms[ii]));
                lemma_limbs_value_push(ms.take(ii), b, ms[ii]);
                lemma_pow2_adds(i as nat * b, b);
                assert(i as nat * b + b == (i + 1) as nat * b) by (nonlinear_arith);
                let pp = pow2(i as nat * b) as int;
                let ppn = pow2((i + 1) as nat * b) as int;
                // One borrow step at weight pp.
                assert(rv * pp + av[ii] * pp == ms[ii] * pp + kout * ppn - kin * pp)
                    by (nonlinear_arith)
                    requires
                        rv == ms[ii] + kout * pow2(b) - kin - av[ii],
                        ppn == pp * pow2(b),
                        pp >= 0,
                        kout == kout,
                ;
            }
            prev = cur;
            prev_big = if cur {
                big_from_u64(1)
            } else {
                big_from_u64(0)
            };
            i = i + 1;
        }

        let borrow = [borrows[0], borrows[1], borrows[2], borrows[3]];
        let result = Integer::new(res_limbs, self.bit_len_limb);

        proof {
            assert(av.take(4) =~= av);
            assert(ms.take(4) =~= ms);
            lemma_compose_decompose((w - 1) as nat, 4, b);
            lemma_pow2_pos(4 * b);
            assert(4nat * b == 4 * b) by (nonlinear_arith);
            vstd::arithmetic::div_mod::lemma_small_mod((w - 1) as nat, pow2(4 * b));
            assert(limbs_value(ms, b) == w - 1);
            assert(borrow@ =~= seq![borrows@[0], borrows@[1], borrows@[2], borrows@[3]]);
            // The final borrow decides canonicality.
            if borrow_out(ms, av, 3) {
                assert(forall|j: int| 0 <= j < 4 ==> result@[j] < pow2(b));
                lemma_limbs_value_bound(result@, b);
                assert(result.spec_value() < pow2(4 * b));
            }
        }

        ComparisonResult { result, borrow }
    }
}

} // verus!
