//! The limb representation: a `Limb` holds one bounded window of a
//! multi-precision value, an `Integer` holds a fixed-length little-endian
//! sequence of limbs, and `decompose` / `compose` convert between a single
//! arbitrary-precision value and its limbs.

use vstd::prelude::*;
use vstd::arithmetic::power2::{pow2, lemma_pow2_adds, lemma_pow2_pos};
use vstd::arithmetic::div_mod::{lemma_div_denominator, lemma_fundamental_div_mod_converse};
use num_bigint::BigUint;
use crate::big::{big_value, big_from_u64, big_clone, big_add, big_mul, big_shl, big_div_rem, big_eq, big_mod, big_from_bytes_le, bytes_le_value};
use crate::model::{limbs_value, decompose_spec, big_seq, seq_add, lemma_limbs_value_push, lemma_limbs_value_add};
use crate::NUMBER_OF_LIMBS;

verus! {

/// Something that represents one natural number.
pub trait Common: Sized {
    /// The represented value.
    spec fn spec_value(&self) -> nat;

    /// The represented value as a fresh `BigUint`.
    fn value(&self) -> (r: BigUint)
        ensures
            big_value(r) == self.spec_value(),
    ;

    /// The represented value reduced into the native field.
    fn native(&self, native_modulus: &BigUint) -> (r: BigUint)
        requires
            big_value(*native_modulus) != 0,
        ensures
            big_value(r) == self.spec_value() % big_value(*native_modulus),
    {
        let v = self.value();
        big_mod(&v, native_modulus)
    }

    /// Value equality.
    fn eq(&self, other: &Self) -> (r: bool)
        ensures
            r == (self.spec_value() == other.spec_value()),
    {
        let a = self.value();
        let b = other.value();
        big_eq(&a, &b)
    }
}

/// One limb: a single bounded window of a multi-precision value.
pub struct Limb(pub BigUint);

impl Common for Limb {
    open spec fn spec_value(&self) -> nat {
        big_value(self.0)
    }

    fn value(&self) -> (r: BigUint) {
        big_clone(&self.0)
    }
}

impl Limb {
    pub fn new(value: BigUint) -> (r: Limb)
        ensures
            r.spec_value() == big_value(value),
    {
        Limb(value)
    }

    pub fn from_big(e: BigUint) -> (r: Limb)
        ensures
            r.spec_value() == big_value(e),
    {
        Limb::new(e)
    }

    /// The limb's value as a fresh `BigUint`.
    pub fn fe(&self) -> (r: BigUint)
        ensures
            big_value(r) == self.spec_value(),
    {
        big_clone(&self.0)
    }
}

impl Default for Limb {
    fn default() -> (r: Limb)
        ensures
            r.spec_value() == 0,
    {
        Limb(big_from_u64(0))
    }
}

/// Little-endian decomposition of `e` into `number_of_limbs` windows of
/// `bit_len` bits each. Windows beyond the given count are discarded.
pub fn decompose(e: BigUint, number_of_limbs: usize, bit_len: usize) -> (r: Vec<BigUint>)
    ensures
        r@.len() == number_of_limbs,
        big_seq(r@) == decompose_spec(big_value(e), number_of_limbs as nat, bit_len as nat),
{
    let ghost e0 = big_value(e);
    let ghost b = bit_len as nat;
    let one = big_from_u64(1);
    let p = big_shl(&one, bit_len);
    proof {
        lemma_pow2_pos(b);
        assert(0nat * b == 0) by (nonlinear_arith);
        vstd::arithmetic::power2::lemma2_to64();
        assert(e0 / 1 == e0) by (nonlinear_arith);
    }
    let mut cur = e;
    let mut limbs: Vec<BigUint> = Vec::new();
    for i in 0..number_of_limbs
        invariant
            big_value(p) == pow2(b),
            b == bit_len as nat,
            limbs@.len() == i,
            forall|j: int|
                0 <= j < i ==> big_value(limbs@[j]) == (e0 / pow2(j as nat * b)) % pow2(b),
            big_value(cur) == e0 / pow2(i as nat * b),
    {
        proof {
            lemma_pow2_pos(b);
        }
        let qr = big_div_rem(&cur, &p);
        proof {
            lemma_pow2_pos(i as nat * b);
            lemma_pow2_pos(b);
            lemma_fundamental_div_mod_converse(
                big_value(cur) as int,
                pow2(b) as int,
                big_value(qr.0) as int,
                big_value(qr.1) as int,
            );
            lemma_div_denominator(e0 as int, pow2(i as nat * b) as int, pow2(b) as int);
            lemma_pow2_adds(i as nat * b, b);
            assert(i as nat * b + b == (i + 1) as nat * b) by (nonlinear_arith);
        }
        limbs.push(qr.1);
        cur = qr.0;
    }
    proof {
        assert(big_seq(limbs@) =~= decompose_spec(e0, number_of_limbs as nat, bit_len as nat)) by {
            assert(forall|j: int|
                0 <= j < number_of_limbs ==> big_seq(limbs@)[j] == big_value(limbs@[j]));
        }
    }
    limbs
}

/// Decomposition of a field element's value, read as a plain integer.
pub fn decompose_fe(e: &BigUint, number_of_limbs: usize, bit_len: usize) -> (r: Vec<BigUint>)
    ensures
        r@.len() == number_of_limbs,
        big_seq(r@) == decompose_spec(big_value(*e), number_of_limbs as nat, bit_len as nat),
{
    decompose(big_clone(e), number_of_limbs, bit_len)
}

/// Value of a little-endian limb vector, limb `i` weighted by
/// `2^(i * bit_len)`.
pub fn compose(input: Vec<BigUint>, bit_len: usize) -> (r: BigUint)
    requires
        input@.len() * bit_len <= usize::MAX,
    ensures
        big_value(r) == limbs_value(big_seq(input@), bit_len as nat),
{
    let ghost s = big_seq(input@);
    let mut e = big_from_u64(0);
    let n = input.len();
    proof {
        assert(s.take(0) =~= Seq::<nat>::empty());
    }
    for i in 0..n
        invariant
            s == big_seq(input@),
            n == input@.len(),
            n * bit_len <= usize::MAX,
            big_value(e) == limbs_value(s.take(i as int), bit_len as nat),
    {
        proof {
            assert(bit_len * i <= n * bit_len) by (nonlinear_arith)
                requires i < n;
        }
        let shifted = big_shl(&input[i], bit_len * i);
        let e2 = big_add(&e, &shifted);
        proof {
            assert(s[i as int] == big_value(input@[i as int]));
            assert(s.take(i + 1) =~= s.take(i as int).push(s[i as int]));
            lemma_limbs_value_push(s.take(i as int), bit_len as nat, s[i as int]);
            assert(s.take(i as int).len() * (bit_len as nat) == (bit_len * i) as nat)
                by (nonlinear_arith)
                requires s.take(i as int).len() == i, bit_len * i <= usize::MAX;
        }
        e = e2;
    }
    proof {
        assert(s.take(n as int) =~= s);
    }
    e
}

/// A fixed-length multi-precision integer: four limbs in little-endian
/// order, each meant to hold `bit_len_limb` bits (more while unreduced).
pub struct Integer {
    pub limbs: Vec<Limb>,
    pub bit_len_limb: usize,
}

impl View for Integer {
    type V = Seq<nat>;

    /// The sequence of limb values.
    open spec fn view(&self) -> Seq<nat> {
        self.limbs@.map(|i: int, l: Limb| l.spec_value())
    }
}

impl Common for Integer {
    open spec fn spec_value(&self) -> nat {
        limbs_value(self@, self.bit_len_limb as nat)
    }

    fn value(&self) -> (r: BigUint) {
        let mut e = big_from_u64(0);
        let n = self.limbs.len();
        proof {
            assert(self@.skip(n as int) =~= Seq::<nat>::empty());
        }
        let mut i = n;
        while i > 0
            invariant
                i <= n,
                n == self.limbs@.len(),
                big_value(e) == limbs_value(self@.skip(i as int), self.bit_len_limb as nat),
            decreases i,
        {
            i = i - 1;
            let shifted = big_shl(&e, self.bit_len_limb);
            let e2 = big_add(&shifted, &self.limbs[i].0);
            proof {
                let b = self.bit_len_limb as nat;
                let tail = self@.skip(i + 1);
                assert(self@.skip(i as int).drop_first() =~= tail);
                assert(self@.skip(i as int).len() == n - i);
                assert(self@.skip(i as int)[0] == self@[i as int]);
                assert(self@[i as int] == self.limbs@[i as int].spec_value());
                assert(limbs_value(self@.skip(i as int), b) == self@[i as int] + pow2(b)
                    * limbs_value(tail, b));
                assert(pow2(b) * limbs_value(tail, b) == limbs_value(tail, b) * pow2(b))
                    by (nonlinear_arith);
            }
            e = e2;
        }
        proof {
            assert(self@.skip(0) =~= self@);
        }
        e
    }
}

impl Integer {
    /// Whether this integer has its full fixed number of limbs.
    pub open spec fn wf(&self) -> bool {
        self@.len() == NUMBER_OF_LIMBS
    }

    pub fn new(limbs: Vec<Limb>, bit_len_limb: usize) -> (r: Integer)
        requires
            limbs@.len() == NUMBER_OF_LIMBS,
        ensures
            r.limbs == limbs,
            r.bit_len_limb == bit_len_limb,
            r.wf(),
    {
        Integer { limbs, bit_len_limb }
    }

    pub fn from_big(e: BigUint, number_of_limbs: usize, bit_len_limb: usize) -> (r: Integer)
        ensures
            r@ == decompose_spec(big_value(e), number_of_limbs as nat, bit_len_limb as nat),
            r@.len() == number_of_limbs,
            r.bit_len_limb == bit_len_limb,
    {
        let ghost e0 = big_value(e);
        let values = decompose(e, number_of_limbs, bit_len_limb);
        let mut limbs: Vec<Limb> = Vec::new();
        let n = values.len();
        let mut i: usize = 0;
        while i < n
            invariant
                i <= n,
                n == values@.len(),
                limbs@.len() == i,
                forall|j: int| 0 <= j < i ==> limbs@[j].spec_value() == big_value(values@[j]),
            decreases n - i,
        {
            let l = Limb(big_clone(&values[i]));
            limbs.push(l);
            i = i + 1;
        }
        let r = Integer { limbs, bit_len_limb };
        proof {
            assert(r@ =~= decompose_spec(e0, number_of_limbs as nat, bit_len_limb as nat)) by {
                assert(forall|j: int|
                    0 <= j < n ==> r@[j] == limbs@[j].spec_value());
                assert(forall|j: int|
                    0 <= j < n ==> big_seq(values@)[j] == big_value(values@[j]));
            }
        }
        r
    }

    /// Reads the value from little-endian bytes, then decomposes it.
    pub fn from_bytes_le(e: &[u8], number_of_limbs: usize, bit_len: usize) -> (r: Integer)
        ensures
            r@ == decompose_spec(bytes_le_value(e@), number_of_limbs as nat, bit_len as nat),
            r@.len() == number_of_limbs,
            r.bit_len_limb == bit_len,
    {
        let x = big_from_bytes_le(e);
        Integer::from_big(x, number_of_limbs, bit_len)
    }

    /// The limb values, as fresh `BigUint`s.
    pub fn limbs(&self) -> (r: Vec<BigUint>)
        ensures
            big_seq(r@) == self@,
    {
        let mut out: Vec<BigUint> = Vec::new();
        let n = self.limbs.len();
        let mut i: usize = 0;
        while i < n
            invariant
                i <= n,
                n == self.limbs@.len(),
                out@.len() == i,
                forall|j: int| 0 <= j < i ==> big_value(out@[j]) == self@[j],
            decreases n - i,
        {
            out.push(big_clone(&self.limbs[i].0));
            i = i + 1;
        }
        proof {
            assert(big_seq(out@) =~= self@) by {
                assert(forall|j: int| 0 <= j < n ==> big_seq(out@)[j] == big_value(out@[j]));
            }
        }
        out
    }

    /// The value of limb `idx`.
    pub fn limb_value(&self, idx: usize) -> (r: BigUint)
        requires
            idx < self@.len(),
        ensures
            big_value(r) == self@[idx as int],
    {
        big_clone(&self.limbs[idx].0)
    }

    /// A copy of limb `idx`.
    pub fn limb(&self, idx: usize) -> (r: Limb)
        requires
            idx < self@.len(),
        ensures
            r.spec_value() == self@[idx as int],
    {
        Limb(big_clone(&self.limbs[idx].0))
    }

    /// Multiplies every limb by `k`.
    pub fn scale(&mut self, k: &BigUint)
        ensures
            final(self)@.len() == old(self)@.len(),
            final(self).bit_len_limb == old(self).bit_len_limb,
            forall|j: int|
                0 <= j < old(self)@.len() ==> final(self)@[j] == old(self)@[j] * big_value(*k),
    {
        let n = self.limbs.len();
        let mut i: usize = 0;
        while i < n
            invariant
                i <= n,
                n == self.limbs@.len(),
                self.bit_len_limb == old(self).bit_len_limb,
                self@.len() == old(self)@.len(),
                forall|j: int| 0 <= j < i ==> self@[j] == old(self)@[j] * big_value(*k),
                forall|j: int| i <= j < n ==> self@[j] == old(self)@[j],
            decreases n - i,
        {
            proof {
                assert(self@[i as int] == self.limbs@[i as int].spec_value());
            }
            let v = big_mul(&self.limbs[i].0, k);
            let ghost pre = self@;
            self.limbs.set(i, Limb(v));
            proof {
                assert(self@ =~= pre.update(i as int, (big_value(v)) as nat));
            }
            i = i + 1;
        }
    }

    /// Limbwise sum; the value is the sum of the values.
    pub fn add(&self, other: &Integer) -> (r: Integer)
        requires
            self@.len() == other@.len(),
            self.bit_len_limb == other.bit_len_limb,
        ensures
            r@ == seq_add(self@, other@),
            r.bit_len_limb == self.bit_len_limb,
            r.spec_value() == self.spec_value() + other.spec_value(),
    {
        let mut limbs: Vec<Limb> = Vec::new();
        let n = self.limbs.len();
        let mut i: usize = 0;
        while i < n
            invariant
                i <= n,
                n == self.limbs@.len(),
                self@.len() == other@.len(),
                limbs@.len() == i,
                forall|j: int|
                    0 <= j < i ==> limbs@[j].spec_value() == self@[j] + other@[j],
            decreases n - i,
        {
            let v = big_add(&self.limbs[i].0, &other.limbs[i].0);
            limbs.push(Limb(v));
            i = i + 1;
        }
        let r = Integer { limbs, bit_len_limb: self.bit_len_limb };
        proof {
            assert(r@ =~= seq_add(self@, other@));
            lemma_limbs_value_add(self@, other@, self.bit_len_limb as nat);
        }
        r
    }
}

} // verus!
