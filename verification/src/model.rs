//! Mathematical model of the limb representation: the value of a
//! little-endian limb sequence, the fixed-width decomposition of a natural
//! number, bit lengths, and the lemmas that connect them.

use vstd::prelude::*;
use vstd::arithmetic::power2::{pow2, lemma_pow2_adds, lemma_pow2_pos, lemma_pow2_strictly_increases, lemma2_to64};
use vstd::arithmetic::div_mod::{lemma_breakdown, lemma_mod_pos_bound, lemma_fundamental_div_mod_converse};
use num_bigint::BigUint;
use crate::big::big_value;

verus! {

/// Value of a little-endian sequence of limbs, limb `i` weighted by
/// `2^(i * bit_len)`.
pub open spec fn limbs_value(limbs: Seq<nat>, bit_len: nat) -> nat
    decreases limbs.len(),
{
    if limbs.len() == 0 {
        0
    } else {
        limbs[0] + pow2(bit_len) * limbs_value(limbs.drop_first(), bit_len)
    }
}

/// Window `i` of `e`: bits `i * bit_len .. (i + 1) * bit_len`.
pub open spec fn limb_of(e: nat, bit_len: nat, i: int) -> nat {
    (e / pow2(i as nat * bit_len)) % pow2(bit_len)
}

/// Little-endian decomposition of `e` into `n` windows of `bit_len` bits.
pub open spec fn decompose_spec(e: nat, n: nat, bit_len: nat) -> Seq<nat> {
    Seq::new(n, |i: int| limb_of(e, bit_len, i))
}

/// Fewest bits needed to express `x`: the unique `r` with
/// `2^(r-1) <= x < 2^r`, and `0` for `x == 0`.
pub open spec fn spec_bits(x: nat) -> nat
    decreases x,
{
    if x == 0 {
        0
    } else {
        1 + spec_bits(x / 2)
    }
}

/// The values held by a sequence of `BigUint`s.
pub open spec fn big_seq(v: Seq<BigUint>) -> Seq<nat> {
    v.map(|i: int, b: BigUint| big_value(b))
}

/// Pointwise sum of two equally long limb sequences.
pub open spec fn seq_add(a: Seq<nat>, b: Seq<nat>) -> Seq<nat> {
    Seq::new(a.len(), |i: int| (a[i] + b[i]) as nat)
}

/// Appending a limb adds its value at the next weight.
pub proof fn lemma_limbs_value_push(s: Seq<nat>, b: nat, x: nat)
    ensures
        limbs_value(s.push(x), b) == limbs_value(s, b) + x * pow2(s.len() * b),
    decreases s.len(),
{
    lemma_pow2_pos(b);
    if s.len() == 0 {
        assert(s.push(x).drop_first() =~= Seq::<nat>::empty());
        assert(s.push(x)[0] == x);
        assert(limbs_value(Seq::<nat>::empty(), b) == 0);
        assert(s.push(x).len() == 1);
        assert(limbs_value(s.push(x), b) == s.push(x)[0] + pow2(b) * limbs_value(
            s.push(x).drop_first(),
            b,
        ));
        assert(limbs_value(s.push(x), b) == x);
        lemma2_to64();
        assert(x * pow2(0) == x) by (nonlinear_arith)
            requires pow2(0) == 1;
    } else {
        lemma_limbs_value_push(s.drop_first(), b, x);
        assert(s.push(x).drop_first() =~= s.drop_first().push(x));
        let p = pow2(b);
        let v = limbs_value(s.drop_first(), b);
        let q = pow2((s.len() - 1) as nat * b);
        assert(limbs_value(s.push(x), b) == s[0] + p * (v + x * q));
        assert(p * (v + x * q) == p * v + x * (p * q)) by (nonlinear_arith);
        lemma_pow2_adds(b, (s.len() - 1) as nat * b);
        assert(b + (s.len() - 1) as nat * b == s.len() * b) by (nonlinear_arith)
            requires s.len() >= 1;
    }
}

/// The value of a pointwise sum is the sum of the values.
pub proof fn lemma_limbs_value_add(a: Seq<nat>, c: Seq<nat>, b: nat)
    requires
        a.len() == c.len(),
    ensures
        limbs_value(seq_add(a, c), b) == limbs_value(a, b) + limbs_value(c, b),
    decreases a.len(),
{
    if a.len() == 0 {
        assert(seq_add(a, c).len() == 0);
    } else {
        lemma_limbs_value_add(a.drop_first(), c.drop_first(), b);
        assert(seq_add(a, c).drop_first() =~= seq_add(a.drop_first(), c.drop_first()));
        let p = pow2(b);
        let va = limbs_value(a.drop_first(), b);
        let vc = limbs_value(c.drop_first(), b);
        assert(p * (va + vc) == p * va + p * vc) by (nonlinear_arith);
    }
}

/// Limbs all below `2^bit_len` compose to a value below `2^(len * bit_len)`.
pub proof fn lemma_limbs_value_bound(s: Seq<nat>, b: nat)
    requires
        forall|i: int| 0 <= i < s.len() ==> s[i] < pow2(b),
    ensures
        limbs_value(s, b) < pow2(s.len() * b),
    decreases s.len(),
{
    lemma_pow2_pos(b);
    if s.len() == 0 {
        lemma2_to64();
    } else {
        assert(forall|i: int| 0 <= i < s.drop_first().len() ==> s.drop_first()[i] < pow2(b));
        lemma_limbs_value_bound(s.drop_first(), b);
        let p = pow2(b);
        let v = limbs_value(s.drop_first(), b);
        let q = pow2((s.len() - 1) as nat * b);
        assert(s[0] + p * v < p * q) by (nonlinear_arith)
            requires s[0] < p, v < q, p >= 1, q >= 1;
        lemma_pow2_adds(b, (s.len() - 1) as nat * b);
        assert(b + (s.len() - 1) as nat * b == s.len() * b) by (nonlinear_arith)
            requires s.len() >= 1;
    }
}

/// Every limb of a decomposition is below `2^bit_len`.
pub proof fn lemma_decompose_bounded(e: nat, n: nat, b: nat)
    ensures
        forall|i: int| 0 <= i < n ==> decompose_spec(e, n, b)[i] < pow2(b),
{
    lemma_pow2_pos(b);
    assert forall|i: int| 0 <= i < n implies decompose_spec(e, n, b)[i] < pow2(b) by {
        lemma_pow2_pos(b);
        lemma_pow2_pos(i as nat * b);
        lemma_mod_pos_bound((e / pow2(i as nat * b)) as int, pow2(b) as int);
    }
}

/// Dropping the first limb of a decomposition decomposes the shifted value.
proof fn lemma_decompose_drop_first(e: nat, n: nat, b: nat)
    requires
        n >= 1,
    ensures
        decompose_spec(e, n, b).drop_first() =~= decompose_spec(e / pow2(b), (n - 1) as nat, b),
{
    let p = pow2(b);
    lemma_pow2_pos(b);
    assert forall|i: int| 0 <= i < n - 1 implies decompose_spec(e, n, b).drop_first()[i]
        == decompose_spec(e / p, (n - 1) as nat, b)[i] by {
        let q = pow2(i as nat * b);
        lemma_pow2_pos(i as nat * b);
        vstd::arithmetic::div_mod::lemma_div_denominator(e as int, p as int, q as int);
        lemma_pow2_adds(b, i as nat * b);
        assert(b + i as nat * b == (i + 1) as nat * b) by (nonlinear_arith)
            requires i >= 0;
        assert(decompose_spec(e, n, b)[i + 1] == (e / pow2((i + 1) as nat * b)) % p);
    }
}

/// Composing a decomposition gives the value back, reduced to `n` windows.
pub proof fn lemma_compose_decompose(e: nat, n: nat, b: nat)
    ensures
        limbs_value(decompose_spec(e, n, b), b) == e % pow2(n * b),
    decreases n,
{
    lemma_pow2_pos(b);
    if n == 0 {
        lemma2_to64();
        assert(n * b == 0) by (nonlinear_arith)
            requires n == 0;
        lemma_fundamental_div_mod_converse(e as int, 1, e as int, 0);
        assert(limbs_value(decompose_spec(e, n, b), b) == 0);
    } else {
        let p = pow2(b);
        let z = pow2((n - 1) as nat * b);
        lemma_pow2_pos((n - 1) as nat * b);
        lemma_compose_decompose(e / p, (n - 1) as nat, b);
        lemma_decompose_drop_first(e, n, b);
        lemma2_to64();
        assert((0int) as nat * b == 0) by (nonlinear_arith);
        assert(decompose_spec(e, n, b)[0] == (e / pow2(0)) % p);
        assert(e / 1 == e) by (nonlinear_arith);
        assert(limbs_value(decompose_spec(e, n, b), b) == e % p + p * ((e / p) % z));
        lemma_breakdown(e as int, p as int, z as int);
        lemma_pow2_adds(b, (n - 1) as nat * b);
        assert(b + (n - 1) as nat * b == n * b) by (nonlinear_arith)
            requires n >= 1;
    }
}

/// `spec_bits` satisfies the sandwich `2^(r-1) <= x < 2^r`.
pub proof fn lemma_spec_bits(x: nat)
    ensures
        x < pow2(spec_bits(x)),
        x > 0 ==> spec_bits(x) >= 1 && pow2((spec_bits(x) - 1) as nat) <= x,
    decreases x,
{
    lemma2_to64();
    if x > 0 {
        lemma_spec_bits(x / 2);
        let k = spec_bits(x / 2);
        lemma_pow2_adds(1, k);
        assert(pow2(k + 1) == 2 * pow2(k));
        if k >= 1 {
            lemma_pow2_adds(1, (k - 1) as nat);
            assert(pow2(k) == 2 * pow2((k - 1) as nat));
        }
        assert(x < pow2(k + 1)) by (nonlinear_arith)
            requires x / 2 < pow2(k), pow2(k + 1) == 2 * pow2(k), x == 2 * (x / 2) + x % 2, x % 2 < 2;
        if x / 2 == 0 {
            assert(x == 1) by (nonlinear_arith)
                requires x / 2 == 0, x % 2 < 2, x == 2 * (x / 2) + x % 2, x > 0;
        } else {
            assert(pow2(k) <= x) by (nonlinear_arith)
                requires pow2((k - 1) as nat) <= x / 2, k >= 1, pow2(k) == 2 * pow2((k - 1) as nat), x == 2 * (x / 2) + x % 2;
        }
    }
}

/// The sandwich determines the bit length uniquely.
pub proof fn lemma_spec_bits_unique(x: nat, r: nat)
    requires
        x < pow2(r),
        x > 0 ==> r >= 1 && pow2((r - 1) as nat) <= x,
        x == 0 ==> r == 0,
    ensures
        r == spec_bits(x),
{
    lemma_spec_bits(x);
    let k = spec_bits(x);
    if x > 0 {
        if r < k {
            lemma_pow2_strictly_increases(r, k);
            if r < k - 1 {
                lemma_pow2_strictly_increases(r, (k - 1) as nat);
            }
            assert(pow2((k - 1) as nat) <= x);
            assert(pow2(r) <= pow2((k - 1) as nat));
            assert(false);
        }
        if k < r {
            if k < r - 1 {
                lemma_pow2_strictly_increases(k, (r - 1) as nat);
            }
            assert(pow2((r - 1) as nat) <= x);
            assert(pow2(k) <= pow2((r - 1) as nat));
            assert(false);
        }
    }
}

/// A pointwise bound on the limbs bounds the value.
pub proof fn lemma_limbs_value_le(a: Seq<nat>, c: Seq<nat>, b: nat)
    requires
        a.len() == c.len(),
        forall|i: int| 0 <= i < a.len() ==> a[i] <= c[i],
    ensures
        limbs_value(a, b) <= limbs_value(c, b),
    decreases a.len(),
{
    if a.len() > 0 {
        assert(forall|i: int|
            0 <= i < a.drop_first().len() ==> a.drop_first()[i] <= c.drop_first()[i]);
        lemma_limbs_value_le(a.drop_first(), c.drop_first(), b);
        lemma_pow2_pos(b);
        let p = pow2(b);
        let va = limbs_value(a.drop_first(), b);
        let vc = limbs_value(c.drop_first(), b);
        assert(p * va <= p * vc) by (nonlinear_arith)
            requires va <= vc, p >= 0;
    }
}

/// Scaling every limb scales the value.
pub proof fn lemma_limbs_value_scale(s: Seq<nat>, b: nat, c: nat)
    ensures
        limbs_value(s.map(|i: int, x: nat| x * c), b) == limbs_value(s, b) * c,
    decreases s.len(),
{
    let m = s.map(|i: int, x: nat| x * c);
    if s.len() == 0 {
        assert(limbs_value(m, b) == 0);
        assert(0nat * c == 0) by (nonlinear_arith);
    } else {
        lemma_limbs_value_scale(s.drop_first(), b, c);
        assert(m.drop_first() =~= s.drop_first().map(|i: int, x: nat| x * c));
        let p = pow2(b);
        let v = limbs_value(s.drop_first(), b);
        assert(m[0] == s[0] * c);
        assert(s[0] * c + p * (v * c) == (s[0] + p * v) * c) by (nonlinear_arith);
    }
}

/// A value below `2^k` needs at most `k` bits.
pub proof fn lemma_bits_le(x: nat, k: nat)
    requires
        x < pow2(k),
    ensures
        spec_bits(x) <= k,
{
    lemma_spec_bits(x);
    if x > 0 && spec_bits(x) > k {
        if k < spec_bits(x) - 1 {
            lemma_pow2_strictly_increases(k, (spec_bits(x) - 1) as nat);
        }
        assert(pow2(k) <= pow2((spec_bits(x) - 1) as nat));
        assert(false);
    }
}

/// Explicit weights for a sequence of exactly four limbs.
pub proof fn lemma_limbs_value4(s: Seq<nat>, b: nat)
    requires
        s.len() == 4,
    ensures
        limbs_value(s, b) == s[0] + pow2(b) * s[1] + pow2(2 * b) * s[2] + pow2(3 * b) * s[3],
{
    let p = pow2(b);
    let s1 = s.drop_first();
    let s2 = s1.drop_first();
    let s3 = s2.drop_first();
    assert(s1[0] == s[1] && s2[0] == s[2] && s3[0] == s[3]);
    assert(s3.drop_first().len() == 0);
    assert(limbs_value(s3.drop_first(), b) == 0);
    assert(limbs_value(s3, b) == s[3] + p * 0);
    assert(limbs_value(s2, b) == s[2] + p * (s[3] + p * 0));
    assert(limbs_value(s1, b) == s[1] + p * (s[2] + p * (s[3] + p * 0)));
    assert(limbs_value(s, b) == s[0] + p * (s[1] + p * (s[2] + p * (s[3] + p * 0))));
    lemma_pow2_adds(b, b);
    lemma_pow2_adds(b, 2 * b);
    assert(s[0] + p * (s[1] + p * (s[2] + p * (s[3] + p * 0))) == s[0] + p * s[1] + (p * p) * s[2]
        + (p * (p * p)) * s[3]) by (nonlinear_arith);
    assert(p * (p * p) == pow2(3 * b)) by {
        assert(p * p == pow2(2 * b));
        lemma_pow2_adds(b, 2 * b);
    }
}

/// The four limbs split into two windows of two limbs each.
pub proof fn lemma_limbs_value4_windows(s: Seq<nat>, b: nat)
    requires
        s.len() == 4,
    ensures
        limbs_value(s, b) == (s[0] + pow2(b) * s[1]) + pow2(2 * b) * (s[2] + pow2(b) * s[3]),
{
    lemma_limbs_value4(s, b);
    lemma_pow2_adds(b, 2 * b);
    assert(pow2(2 * b) * (s[2] + pow2(b) * s[3]) == pow2(2 * b) * s[2] + (pow2(2 * b) * pow2(b))
        * s[3]) by (nonlinear_arith);
}

} // verus!
