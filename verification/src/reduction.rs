//! Reduction and the two-window residue check.
//!
//! `reduce` canonicalizes an over-large integer modulo the wrong modulus
//! and produces the witnesses a circuit needs to verify the reduction:
//! the short quotient, the intermediate terms `t`, and the residues
//! `u0, u1, v0, v1` of the two-window carry check.

use vstd::prelude::*;
use vstd::arithmetic::power2::{pow2, lemma_pow2_adds, lemma_pow2_pos};
use vstd::arithmetic::div_mod::{
    lemma_mul_mod_noop_left, lemma_mul_mod_noop_right, lemma_add_mod_noop,
    lemma_sub_mod_noop, lemma_mod_add_multiples_vanish, lemma_fundamental_div_mod,
    lemma_fundamental_div_mod_converse, lemma_div_is_ordered, lemma_mod_pos_bound,
};
use vstd::arithmetic::mul::{lemma_mul_is_associative, lemma_mul_is_commutative};
use num_bigint::BigUint;
use crate::big::{big_value, big_add, big_sub, big_mul, big_shl, big_mod, big_div_rem};
use crate::model::{
    limbs_value, decompose_spec, big_seq, lemma_decompose_bounded, lemma_limbs_value4,
    lemma_limbs_value4_windows, lemma_limbs_value_le,
};
use crate::integer::{Integer, Common};
use crate::rns::{
    Rns, Quotient, ReductionContext, four_limbs, conv4, rns_binary, rns_max_reduced_limb,
    rns_max_unreduced_limb, rns_max_operand, win0, win1,
};

verus! {

/// What the residue check guarantees, for intermediate terms `ts`, a
/// claimed result `rs`, and the overall quotient `m` of the relation
/// `value(ts) == value(rs) + m * 2^(4b)`: both windowed differences are
/// non-negative and have their low `2b` bits zero, and the returned
/// values are those differences and their shifted-down quotients, each
/// reduced into the native field.
pub open spec fn residues_ok(
    b: nat,
    n: nat,
    ts: Seq<nat>,
    rs: Seq<nat>,
    u_0: nat,
    u_1: nat,
    v_0: nat,
    v_1: nat,
    m: nat,
) -> bool {
    let s2 = pow2(2 * b);
    &&& win0(ts, b) >= win0(rs, b)
    &&& ((win0(ts, b) - win0(rs, b)) as nat) % s2 == 0
    &&& u_0 == ((win0(ts, b) - win0(rs, b)) as nat) % n
    &&& v_0 == (((win0(ts, b) - win0(rs, b)) as nat) / s2) % n
    &&& win1(ts, b) + ((win0(ts, b) - win0(rs, b)) as nat) / s2 - win1(rs, b) == m * s2
    &&& u_1 == (((win1(ts, b) as int) - (win1(rs, b) as int)) % (n as int)) as nat
    &&& v_1 == m % n
}

/// Per-limb intermediate terms of a reduction compose to the input plus
/// quotient times the composed negative modulus.
#[verifier::rlimit(60)]
proof fn lemma_red_t_value(ts: Seq<nat>, a: Seq<nat>, p: Seq<nat>, q: nat, b: nat)
    requires
        ts.len() == 4,
        a.len() == 4,
        p.len() == 4,
        forall|i: int| 0 <= i < 4 ==> ts[i] == a[i] + p[i] * q,
    ensures
        limbs_value(ts, b) == limbs_value(a, b) + q * limbs_value(p, b),
{
    lemma_limbs_value4(ts, b);
    lemma_limbs_value4(a, b);
    lemma_limbs_value4(p, b);
    let p1 = pow2(b) as int;
    let p2 = pow2(2 * b) as int;
    let p3 = pow2(3 * b) as int;
    let x0 = a[0] as int;
    let x1 = a[1] as int;
    let x2 = a[2] as int;
    let x3 = a[3] as int;
    let y0 = p[0] as int;
    let y1 = p[1] as int;
    let y2 = p[2] as int;
    let y3 = p[3] as int;
    let qq = q as int;
    broadcast use vstd::arithmetic::mul::group_mul_is_commutative_and_distributive;

    assert(p1 * (x1 + y1 * qq) == p1 * x1 + p1 * (y1 * qq));
    assert(p2 * (x2 + y2 * qq) == p2 * x2 + p2 * (y2 * qq));
    assert(p3 * (x3 + y3 * qq) == p3 * x3 + p3 * (y3 * qq));
    lemma_mul_is_associative(p1, y1, qq);
    lemma_mul_is_associative(p2, y2, qq);
    lemma_mul_is_associative(p3, y3, qq);
    assert(qq * (y0 + p1 * y1 + p2 * y2 + p3 * y3) == qq * y0 + qq * (p1 * y1) + qq * (p2 * y2)
        + qq * (p3 * y3)) by {
        assert(qq * ((y0 + p1 * y1 + p2 * y2) + p3 * y3) == qq * (y0 + p1 * y1 + p2 * y2) + qq * (
        p3 * y3));
        assert(qq * ((y0 + p1 * y1) + p2 * y2) == qq * (y0 + p1 * y1) + qq * (p2 * y2));
        assert(qq * (y0 + p1 * y1) == qq * y0 + qq * (p1 * y1));
    }
    assert((x0 + y0 * qq) + p1 * (x1 + y1 * qq) + p2 * (x2 + y2 * qq) + p3 * (x3 + y3 * qq) == (x0
        + p1 * x1 + p2 * x2 + p3 * x3) + qq * (y0 + p1 * y1 + p2 * y2 + p3 * y3));
}

/// `a * (b * c) == b * (a * c)`.
proof fn lemma_swap_factor(a: int, b: int, c: int)
    ensures
        a * (b * c) == b * (a * c),
{
    lemma_mul_is_associative(a, b, c);
    lemma_mul_is_commutative(a, b);
    lemma_mul_is_associative(b, a, c);
}

/// Multiplication distributes over a four-term sum.
proof fn lemma_dist4(c: int, u0: int, u1: int, u2: int, u3: int)
    ensures
        c * (u0 + u1 + u2 + u3) == c * u0 + c * u1 + c * u2 + c * u3,
{
    broadcast use vstd::arithmetic::mul::group_mul_is_commutative_and_distributive;

    assert(c * ((u0 + u1 + u2) + u3) == c * (u0 + u1 + u2) + c * u3);
    assert(c * ((u0 + u1) + u2) == c * (u0 + u1) + c * u2);
    assert(c * (u0 + u1) == c * u0 + c * u1);
}

/// A four-limb composition times one scalar, limb by limb.
proof fn lemma_expand_scalar(yk: int, x0: int, x1: int, x2: int, x3: int, p1: int, p2: int, p3: int, xv: int)
    requires
        xv == x0 + p1 * x1 + p2 * x2 + p3 * x3,
    ensures
        xv * yk == x0 * yk + p1 * (x1 * yk) + p2 * (x2 * yk) + p3 * (x3 * yk),
{
    lemma_mul_is_commutative(xv, yk);
    lemma_dist4(yk, x0, p1 * x1, p2 * x2, p3 * x3);
    lemma_mul_is_commutative(yk, x0);
    lemma_swap_factor(yk, p1, x1);
    lemma_mul_is_commutative(yk, x1);
    lemma_swap_factor(yk, p2, x2);
    lemma_mul_is_commutative(yk, x2);
    lemma_swap_factor(yk, p3, x3);
    lemma_mul_is_commutative(yk, x3);
}

/// The product of two four-limb compositions is the composition of their
/// seven convolution terms.
proof fn lemma_conv4_value(x: Seq<nat>, y: Seq<nat>, b: nat)
    requires
        x.len() == 4,
        y.len() == 4,
    ensures
        limbs_value(x, b) * limbs_value(y, b) == conv4(x, y, 0) + conv4(x, y, 1) * pow2(b) + conv4(
            x,
            y,
            2,
        ) * pow2(2 * b) + conv4(x, y, 3) * pow2(3 * b) + conv4(x, y, 4) * pow2(4 * b) + conv4(
            x,
            y,
            5,
        ) * pow2(5 * b) + conv4(x, y, 6) * pow2(6 * b),
{
    lemma_limbs_value4(x, b);
    lemma_limbs_value4(y, b);
    lemma_pow2_adds(b, b);
    lemma_pow2_adds(b, 2 * b);
    lemma_pow2_adds(b, 3 * b);
    lemma_pow2_adds(2 * b, 2 * b);
    lemma_pow2_adds(2 * b, 3 * b);
    lemma_pow2_adds(3 * b, 3 * b);
    let p1 = pow2(b) as int;
    let p2 = pow2(2 * b) as int;
    let p3 = pow2(3 * b) as int;
    let p4 = pow2(4 * b) as int;
    let p5 = pow2(5 * b) as int;
    let p6 = pow2(6 * b) as int;
    assert(p1 * p1 == p2 && p1 * p2 == p3 && p1 * p3 == p4 && p2 * p2 == p4 && p2 * p3 == p5 && p3
        * p3 == p6);
    let x0 = x[0] as int;
    let x1 = x[1] as int;
    let x2 = x[2] as int;
    let x3 = x[3] as int;
    let y0 = y[0] as int;
    let y1 = y[1] as int;
    let y2 = y[2] as int;
    let y3 = y[3] as int;
    let xv = limbs_value(x, b) as int;
    let yv = limbs_value(y, b) as int;
    // Split the product over y's four weighted limbs.
    lemma_dist4(xv, y0, p1 * y1, p2 * y2, p3 * y3);
    // Weight-zero bucket.
    lemma_expand_scalar(y0, x0, x1, x2, x3, p1, p2, p3, xv);
    // Bucket of y1, carrying weight p1.
    lemma_swap_factor(xv, p1, y1);
    lemma_expand_scalar(y1, x0, x1, x2, x3, p1, p2, p3, xv);
    lemma_dist4(p1, x0 * y1, p1 * (x1 * y1), p2 * (x2 * y1), p3 * (x3 * y1));
    lemma_mul_is_associative(p1, p1, x1 * y1);
    lemma_mul_is_associative(p1, p2, x2 * y1);
    lemma_mul_is_associative(p1, p3, x3 * y1);
    // Bucket of y2, carrying weight p2.
    lemma_swap_factor(xv, p2, y2);
    lemma_expand_scalar(y2, x0, x1, x2, x3, p1, p2, p3, xv);
    lemma_dist4(p2, x0 * y2, p1 * (x1 * y2), p2 * (x2 * y2), p3 * (x3 * y2));
    lemma_mul_is_associative(p2, p1, x1 * y2);
    lemma_mul_is_commutative(p2, p1);
    lemma_mul_is_associative(p2, p2, x2 * y2);
    lemma_mul_is_associative(p2, p3, x3 * y2);
    // Bucket of y3, carrying weight p3.
    lemma_swap_factor(xv, p3, y3);
    lemma_expand_scalar(y3, x0, x1, x2, x3, p1, p2, p3, xv);
    lemma_dist4(p3, x0 * y3, p1 * (x1 * y3), p2 * (x2 * y3), p3 * (x3 * y3));
    lemma_mul_is_associative(p3, p1, x1 * y3);
    lemma_mul_is_commutative(p3, p1);
    lemma_mul_is_associative(p3, p2, x2 * y3);
    lemma_mul_is_commutative(p3, p2);
    lemma_mul_is_associative(p3, p3, x3 * y3);
    // Flattened product.
    assert(xv * yv == x0 * y0 + p1 * (x1 * y0) + p2 * (x2 * y0) + p3 * (x3 * y0) + p1 * (x0 * y1)
        + p2 * (x1 * y1) + p3 * (x2 * y1) + p4 * (x3 * y1) + p2 * (x0 * y2) + p3 * (x1 * y2) + p4
        * (x2 * y2) + p5 * (x3 * y2) + p3 * (x0 * y3) + p4 * (x1 * y3) + p5 * (x2 * y3) + p6 * (x3
        * y3));
    // Regroup by weight into the convolution terms.
    lemma_mul_is_commutative(conv4(x, y, 1) as int, p1);
    lemma_dist4(p1, x0 * y1, x1 * y0, 0, 0);
    lemma_mul_is_commutative(conv4(x, y, 2) as int, p2);
    lemma_dist4(p2, x0 * y2, x1 * y1, x2 * y0, 0);
    lemma_mul_is_commutative(conv4(x, y, 3) as int, p3);
    lemma_dist4(p3, x0 * y3, x1 * y2, x2 * y1, x3 * y0);
    lemma_mul_is_commutative(conv4(x, y, 4) as int, p4);
    lemma_dist4(p4, x1 * y3, x2 * y2, x3 * y1, 0);
    lemma_mul_is_commutative(conv4(x, y, 5) as int, p5);
    lemma_dist4(p5, x2 * y3, x3 * y2, 0, 0);
    lemma_mul_is_commutative(conv4(x, y, 6) as int, p6);
}

impl Rns {
    /// The two-window residue check: from intermediate terms `t` and the
    /// claimed result `r`, derive the windowed differences `u0`, `u1` and
    /// their shifted-down carries `v0`, `v1` as native-field values.
    pub(crate) fn residues(&self, t: &Vec<BigUint>, r: &Integer) -> (res: (
        BigUint,
        BigUint,
        BigUint,
        BigUint,
    ))
        requires
            self.wf(),
            t@.len() == 4,
            r@.len() == 4,
            r.bit_len_limb == self.bit_len_limb,
            forall|i: int| 0 <= i < 4 ==> r@[i] < pow2(self.b()),
            limbs_value(big_seq(t@), self.b()) >= r.spec_value(),
            (limbs_value(big_seq(t@), self.b()) - r.spec_value()) % (rns_binary(self.b()) as int)
                == 0,
        ensures
            residues_ok(
                self.b(),
                self.n(),
                big_seq(t@),
                r@,
                big_value(res.0),
                big_value(res.1),
                big_value(res.2),
                big_value(res.3),
                (((limbs_value(big_seq(t@), self.b()) - r.spec_value()) as nat) / rns_binary(
                    self.b(),
                )) as nat,
            ),
    {
        let ghost b = self.b();
        let ghost n = self.n();
        let ghost ts = big_seq(t@);
        let ghost rs = r@;
        let ghost tv = limbs_value(ts, b);
        let ghost rv = r.spec_value();
        let ghost s2 = pow2(2 * b);
        let ghost m = ((tv - rv) as nat) / rns_binary(b);

        proof {
            lemma_pow2_pos(b);
            lemma_pow2_pos(2 * b);
            lemma_pow2_pos(4 * b);
            // tv - rv is an exact multiple of the binary modulus.
            lemma_fundamental_div_mod((tv - rv) as int, rns_binary(b) as int);
            assert(tv - rv == rns_binary(b) * m);
            // Window split of both compositions.
            lemma_limbs_value4_windows(ts, b);
            lemma_limbs_value4_windows(rs, b);
            assert(forall|i: int| 0 <= i < 4 ==> big_seq(t@)[i] == big_value(t@[i]));
        }

        let ghost w0t = win0(ts, b);
        let ghost w1t = win1(ts, b);
        let ghost w0r = win0(rs, b);
        let ghost w1r = win1(rs, b);
        // The carry k of the low window: w0t - w0r == k * 2^(2b).
        let ghost k = m * s2 + w1r - w1t;

        proof {
            // tv == w0t + s2 * w1t, rv == w0r + s2 * w1r, tv - rv == binary * m,
            // binary == s2 * s2.
            lemma_pow2_adds(2 * b, 2 * b);
            lemma_pow2_adds(b, b);
            assert(rns_binary(b) == s2 * s2);
            assert(w0t - w0r == tv - rv - s2 * w1t + s2 * w1r);
            assert((s2 * s2) * m - s2 * w1t + s2 * w1r == s2 * ((m * s2 + w1r) - w1t))
                by (nonlinear_arith);
            assert(w0t - w0r == s2 * k);
            // The low window of the reduced result is below 2^(2b).
            assert(w0r < s2) by (nonlinear_arith)
                requires
                    w0r == rs[2 - 2] + pow2(b) * rs[1],
                    rs[0] < pow2(b),
                    rs[1] < pow2(b),
                    s2 == pow2(b) * pow2(b),
            ;
            // A multiple of s2 strictly above -s2 is non-negative.
            assert(s2 * k > -(s2 as int));
            assert(k >= 0) by (nonlinear_arith)
                requires s2 * k > -(s2 as int), s2 > 0;
            assert(w0t >= w0r);
            lemma_fundamental_div_mod_converse((w0t - w0r) as int, s2 as int, k, 0);
            assert(((w0t - w0r) as nat) % s2 == 0);
            assert(((w0t - w0r) as nat) / s2 == k);
            // The carried high window difference is exactly m * s2.
            assert(w1t + k - w1r == m * s2);
        }

        // Exact window values.
        let t1s = big_shl(&t[1], self.bit_len_limb);
        let w0t_e = big_add(&t[0], &t1s);
        let t3s = big_shl(&t[3], self.bit_len_limb);
        let w1t_e = big_add(&t[2], &t3s);
        let r1s = big_shl(&r.limbs[1].0, self.bit_len_limb);
        let w0r_e = big_add(&r.limbs[0].0, &r1s);
        let r3s = big_shl(&r.limbs[3].0, self.bit_len_limb);
        let w1r_e = big_add(&r.limbs[2].0, &r3s);

        proof {
            assert(big_value(t1s) == ts[1] * pow2(b));
            assert(ts[1] * pow2(b) == pow2(b) * ts[1]) by (nonlinear_arith);
            assert(rs[1] * pow2(b) == pow2(b) * rs[1]) by (nonlinear_arith);
            assert(rs[3] * pow2(b) == pow2(b) * rs[3]) by (nonlinear_arith);
            assert(ts[3] * pow2(b) == pow2(b) * ts[3]) by (nonlinear_arith);
            assert(big_value(w0t_e) == w0t);
            assert(big_value(w0r_e) == w0r);
            assert(big_value(w1t_e) == w1t);
            assert(big_value(w1r_e) == w1r);
        }

        // u0: the exact low-window difference, reduced into the native field.
        let u0_exact = big_sub(&w0t_e, &w0r_e);
        let u_0 = big_mod(&u0_exact, &self.native_modulus);

        // u1: the high-window difference (without carry), as a native value.
        let w1t_m = big_mod(&w1t_e, &self.native_modulus);
        let w1r_m = big_mod(&w1r_e, &self.native_modulus);
        let w1_sum = big_add(&w1t_m, &self.native_modulus);
        let w1_diff = big_sub(&w1_sum, &w1r_m);
        let u_1 = big_mod(&w1_diff, &self.native_modulus);

        proof {
            lemma_mod_pos_bound(w1r as int, n as int);
            lemma_mod_add_multiples_vanish((w1t % n) as int - (w1r % n) as int, n as int);
            lemma_sub_mod_noop(w1t as int, w1r as int, n as int);
            assert(big_value(u_1) == ((w1t as int - w1r as int) % (n as int)) as nat);
        }

        // v0 = u0 * 2^(-2b), v1 = (u1 + v0) * 2^(-2b), in the native field.
        let v0_prod = big_mul(&u_0, &self.right_shifter_2r);
        let v_0 = big_mod(&v0_prod, &self.native_modulus);

        proof {
            let rs2 = big_value(self.right_shifter_2r) as int;
            let ni = n as int;
            let u0i = (w0t - w0r) as int;
            lemma_mul_mod_noop_left(u0i, rs2, ni);
            assert(big_value(v0_prod) as int == (u0i % ni) * rs2);
            assert((u0i * rs2) % ni == ((s2 as int * k) * rs2) % ni);
            lemma_mul_is_associative(k, s2 as int, rs2);
            lemma_mul_is_commutative(k, s2 as int);
            assert((s2 as int * k) * rs2 == k * (s2 as int * rs2));
            lemma_mul_mod_noop_right(k, s2 as int * rs2, ni);
            assert((k * (s2 as int * rs2)) % ni == (k * ((s2 as int * rs2) % ni)) % ni);
            assert((s2 as int * rs2) % ni == 1);
            assert(big_value(v_0) == (k as nat) % n);
        }

        let uv_sum = big_add(&u_1, &v_0);
        let v1_prod = big_mul(&uv_sum, &self.right_shifter_2r);
        let v_1 = big_mod(&v1_prod, &self.native_modulus);

        proof {
            let rs2 = big_value(self.right_shifter_2r) as int;
            let ni = n as int;
            let x = w1t as int - w1r as int;
            let sum = big_value(uv_sum) as int;
            // u1 + v0 is congruent to m * s2.
            lemma_add_mod_noop(x, k, ni);
            assert(sum == x % ni + k % ni);
            assert((x % ni + k % ni) % ni == (x + k) % ni);
            assert(x + k == (m * s2) as int);
            lemma_mul_mod_noop_left(sum, rs2, ni);
            lemma_mul_mod_noop_left((m * s2) as int, rs2, ni);
            assert(sum % ni == ((m * s2) as int) % ni);
            assert(big_value(v_1) as int == (sum * rs2) % ni);
            assert((sum * rs2) % ni == (((m * s2) as int) * rs2) % ni);
            lemma_mul_is_associative(m as int, s2 as int, rs2);
            assert(((m * s2) as int) * rs2 == (m as int) * (s2 as int * rs2));
            lemma_mul_mod_noop_right(m as int, s2 as int * rs2, ni);
            assert(((m as int) * (s2 as int * rs2)) % ni == ((m as int) * ((s2 as int * rs2) % ni))
                % ni);
            assert((s2 as int * rs2) % ni == 1);
            assert(big_value(v_1) == m % n);
        }

        (u_0, u_1, v_0, v_1)
    }

    /// Canonicalizes `integer` modulo the wrong modulus. The result is
    /// exactly `value mod wrong_modulus`, the quotient is a single limb,
    /// and the residue witnesses satisfy the two-window carry check.
    pub fn reduce(&self, integer: &Integer) -> (r: ReductionContext)
        requires
            self.wf(),
            integer.wf(),
            integer.bit_len_limb == self.bit_len_limb,
            forall|i: int| 0 <= i < 4 ==> integer@[i] <= rns_max_unreduced_limb(self.b()),
        ensures
            r.result.wf(),
            r.result.bit_len_limb == self.bit_len_limb,
            r.result@ == decompose_spec(integer.spec_value() % self.w(), 4, self.b()),
            r.result.spec_value() == integer.spec_value() % self.w(),
            (r.quotient matches Quotient::Short(q) && big_value(q) == integer.spec_value()
                / self.w() && big_value(q) < rns_max_reduced_limb(self.b())),
            r.t@.len() == 4,
            forall|i: int|
                0 <= i < 4 ==> big_value(r.t@[i]) == integer@[i] + decompose_spec(
                    (rns_binary(self.b()) - self.w()) as nat,
                    4,
                    self.b(),
                )[i] * (integer.spec_value() / self.w()),
            residues_ok(
                self.b(),
                self.n(),
                big_seq(r.t@),
                r.result@,
                big_value(r.u_0),
                big_value(r.u_1),
                big_value(r.v_0),
                big_value(r.v_1),
                integer.spec_value() / self.w(),
            ),
    {
        let ghost b = self.b();
        let ghost w = self.w();
        let ghost v = integer.spec_value();

        let value = self.value(integer);
        let qr = big_div_rem(&value, &self.wrong_modulus);
        let quotient_big = qr.0;
        let result_big = qr.1;
        let ghost q = v / w;
        let ghost rv = v % w;

        proof {
            lemma_fundamental_div_mod_converse(
                v as int,
                w as int,
                big_value(quotient_big) as int,
                big_value(result_big) as int,
            );
            // The quotient stays below the single-limb bound: the value is
            // at most the worst unreduced value, whose quotient the
            // configuration bounds.
            assert(integer@.len() == 4);
            assert(forall|i: int|
                0 <= i < 4 ==> four_limbs(rns_max_unreduced_limb(b))[i]
                    == rns_max_unreduced_limb(b));
            lemma_limbs_value_le(integer@, four_limbs(rns_max_unreduced_limb(b)), b);
            lemma_div_is_ordered(
                v as int,
                limbs_value(four_limbs(rns_max_unreduced_limb(b)), b) as int,
                w as int,
            );
            assert(q < rns_max_reduced_limb(b));
        }

        let mut t: Vec<BigUint> = Vec::new();
        let ghost pneg = decompose_spec((rns_binary(b) - w) as nat, 4, b);
        let mut i: usize = 0;
        while i < 4
            invariant
                self.wf(),
                integer.wf(),
                integer.bit_len_limb == self.bit_len_limb,
                big_value(quotient_big) == v / w,
                v == integer.spec_value(),
                w == self.w(),
                b == self.b(),
                pneg == decompose_spec((rns_binary(b) - w) as nat, 4, b),
                t@.len() == i,
                i <= 4,
                forall|j: int| 0 <= j < i ==> big_value(t@[j]) == integer@[j] + pneg[j] * (v / w),
            decreases 4 - i,
        {
            let prod = big_mul(&self.negative_wrong_modulus_decomposed[i], &quotient_big);
            let ti = big_add(&integer.limbs[i].0, &prod);
            proof {
                assert(big_seq(self.negative_wrong_modulus_decomposed@)[i as int] == big_value(
                    self.negative_wrong_modulus_decomposed@[i as int],
                ));
                assert(integer@[i as int] == integer.limbs@[i as int].spec_value());
            }
            t.push(ti);
            i = i + 1;
        }

        proof {
            crate::ops::lemma_max_dense(b);
        }
        let result = self.new_from_big(result_big);

        proof {
            // Compose the t-terms: value + q * (binary - w) == rv + q * binary.
            assert(big_seq(t@) =~= Seq::new(4, |j: int| (integer@[j] + pneg[j] * q) as nat)) by {
                assert(forall|j: int| 0 <= j < 4 ==> big_seq(t@)[j] == big_value(t@[j]));
            }
            lemma_red_t_value(big_seq(t@), integer@, pneg, q, b);
            self.lemma_value_roundtrip((rns_binary(b) - w) as nat);
            assert(limbs_value(pneg, b) == rns_binary(b) - w);
            assert(limbs_value(big_seq(t@), b) == v + q * (rns_binary(b) - w));
            assert(v == q * w + rv);
            assert(q * w + rv + q * ((rns_binary(b) - w) as int) == rv + q * (rns_binary(b) as int))
                by (nonlinear_arith);
            assert(limbs_value(big_seq(t@), b) == rv + q * rns_binary(b));
            assert(limbs_value(big_seq(t@), b) - result.spec_value() == (rns_binary(b) as int) * q)
                by (nonlinear_arith)
                requires
                    limbs_value(big_seq(t@), b) == rv + q * rns_binary(b),
                    result.spec_value() == rv,
            ;
            lemma_pow2_pos(4 * b);
            lemma_fundamental_div_mod_converse(
                (limbs_value(big_seq(t@), b) - result.spec_value()) as int,
                rns_binary(b) as int,
                q as int,
                0,
            );
            lemma_decompose_bounded(rv, 4, b);
        }

        let res = self.residues(&t, &result);
        ReductionContext {
            result,
            quotient: Quotient::Short(quotient_big),
            t,
            u_0: res.0,
            u_1: res.1,
            v_0: res.2,
            v_1: res.3,
        }
    }

    /// Multiplies two integers modulo the wrong modulus. The result is
    /// exactly `(a * b) mod wrong_modulus`, the quotient is a full
    /// four-limb integer, the terms `t` are the low four convolution
    /// terms, and the residue witnesses satisfy the two-window check.
    pub fn mul(&self, integer_0: &Integer, integer_1: &Integer) -> (r: ReductionContext)
        requires
            self.wf(),
            integer_0.wf(),
            integer_1.wf(),
            integer_0.bit_len_limb == self.bit_len_limb,
            integer_1.bit_len_limb == self.bit_len_limb,
            integer_0.spec_value() <= rns_max_operand(self.b(), self.w(), self.n()),
            integer_1.spec_value() <= rns_max_operand(self.b(), self.w(), self.n()),
        ensures
            r.result.wf(),
            r.result.bit_len_limb == self.bit_len_limb,
            r.result@ == decompose_spec(
                (integer_0.spec_value() * integer_1.spec_value()) % self.w(),
                4,
                self.b(),
            ),
            r.result.spec_value() == (integer_0.spec_value() * integer_1.spec_value()) % self.w(),
            (r.quotient matches Quotient::Long(qi) && qi.wf() && qi.bit_len_limb
                == self.bit_len_limb && qi.spec_value() == (integer_0.spec_value()
                * integer_1.spec_value()) / self.w() && qi@ == decompose_spec(
                (integer_0.spec_value() * integer_1.spec_value()) / self.w(),
                4,
                self.b(),
            )),
            r.t@.len() == 4,
            forall|k: int|
                0 <= k < 4 ==> big_value(r.t@[k]) == conv4(integer_0@, integer_1@, k) + conv4(
                    decompose_spec((rns_binary(self.b()) - self.w()) as nat, 4, self.b()),
                    decompose_spec(
                        (integer_0.spec_value() * integer_1.spec_value()) / self.w(),
                        4,
                        self.b(),
                    ),
                    k,
                ),
            limbs_value(big_seq(r.t@), self.b()) >= r.result.spec_value(),
            (limbs_value(big_seq(r.t@), self.b()) - r.result.spec_value()) % (rns_binary(
                self.b(),
            ) as int) == 0,
            residues_ok(
                self.b(),
                self.n(),
                big_seq(r.t@),
                r.result@,
                big_value(r.u_0),
                big_value(r.u_1),
                big_value(r.v_0),
                big_value(r.v_1),
                (((limbs_value(big_seq(r.t@), self.b()) - r.result.spec_value()) as nat)
                    / rns_binary(self.b())) as nat,
            ),
    {
        let ghost b = self.b();
        let ghost w = self.w();
        let ghost av = integer_0.spec_value();
        let ghost bv = integer_1.spec_value();
        let ghost ab = av * bv;
        let ghost q = ab / w;
        let ghost rv = ab % w;
        let ghost maxop = rns_max_operand(b, w, self.n());
        let ghost pneg = decompose_spec((rns_binary(b) - w) as nat, 4, b);
        let ghost qdec = decompose_spec(q, 4, b);

        let a_val = self.value(integer_0);
        let b_val = self.value(integer_1);
        let prod = big_mul(&a_val, &b_val);
        let qr = big_div_rem(&prod, &self.wrong_modulus);

        proof {
            lemma_fundamental_div_mod_converse(
                ab as int,
                w as int,
                big_value(qr.0) as int,
                big_value(qr.1) as int,
            );
            // The quotient fits the four-limb representation.
            vstd::arithmetic::mul::lemma_mul_upper_bound(
                av as int,
                maxop as int,
                bv as int,
                maxop as int,
            );
            assert(ab < rns_binary(b) * w);
            lemma_mul_is_commutative(rns_binary(b) as int, w as int);
            vstd::arithmetic::div_mod::lemma_multiply_divide_lt(
                ab as int,
                w as int,
                rns_binary(b) as int,
            );
            crate::ops::lemma_max_dense(b);
        }

        let quotient = self.new_from_big(qr.0);
        let result = self.new_from_big(qr.1);

        // The low four convolution terms of a * b + negative_modulus * quotient.
        let p = &self.negative_wrong_modulus_decomposed;
        let al = &integer_0.limbs;
        let bl = &integer_1.limbs;
        let ql = &quotient.limbs;
        let t_0 = big_add(&big_mul(&al[0].0, &bl[0].0), &big_mul(&p[0], &ql[0].0));
        let t_1 = big_add(
            &big_add(&big_mul(&al[0].0, &bl[1].0), &big_mul(&al[1].0, &bl[0].0)),
            &big_add(&big_mul(&p[0], &ql[1].0), &big_mul(&p[1], &ql[0].0)),
        );
        let t_2 = big_add(
            &big_add(
                &big_add(&big_mul(&al[0].0, &bl[2].0), &big_mul(&al[1].0, &bl[1].0)),
                &big_mul(&al[2].0, &bl[0].0),
            ),
            &big_add(
                &big_add(&big_mul(&p[0], &ql[2].0), &big_mul(&p[1], &ql[1].0)),
                &big_mul(&p[2], &ql[0].0),
            ),
        );
        let t_3 = big_add(
            &big_add(
                &big_add(&big_mul(&al[0].0, &bl[3].0), &big_mul(&al[1].0, &bl[2].0)),
                &big_add(&big_mul(&al[2].0, &bl[1].0), &big_mul(&al[3].0, &bl[0].0)),
            ),
            &big_add(
                &big_add(&big_mul(&p[0], &ql[3].0), &big_mul(&p[1], &ql[2].0)),
                &big_add(&big_mul(&p[2], &ql[1].0), &big_mul(&p[3], &ql[0].0)),
            ),
        );
        let mut t: Vec<BigUint> = Vec::new();
        t.push(t_0);
        t.push(t_1);
        t.push(t_2);
        t.push(t_3);

        proof {
            assert(forall|k: int| 0 <= k < 4 ==> integer_0@[k] == al@[k].spec_value());
            assert(forall|k: int| 0 <= k < 4 ==> integer_1@[k] == bl@[k].spec_value());
            assert(forall|k: int| 0 <= k < 4 ==> qdec[k] == ql@[k].spec_value());
            assert(forall|k: int| 0 <= k < 4 ==> pneg[k] == big_seq(p@)[k] && big_seq(p@)[k]
                == big_value(p@[k]));
            assert(forall|k: int| 0 <= k < 4 ==> big_seq(t@)[k] == big_value(t@[k]));
            let ts = big_seq(t@);
            assert(ts[0] == conv4(integer_0@, integer_1@, 0) + conv4(pneg, qdec, 0));
            assert(ts[1] == conv4(integer_0@, integer_1@, 1) + conv4(pneg, qdec, 1));
            assert(ts[2] == conv4(integer_0@, integer_1@, 2) + conv4(pneg, qdec, 2));
            assert(ts[3] == conv4(integer_0@, integer_1@, 3) + conv4(pneg, qdec, 3));

            // Compose the t-terms and relate them to the full products.
            lemma_limbs_value4(ts, b);
            lemma_conv4_value(integer_0@, integer_1@, b);
            lemma_conv4_value(pneg, qdec, b);
            self.lemma_value_roundtrip((rns_binary(b) - w) as nat);
            self.lemma_value_roundtrip(q);
            assert(limbs_value(pneg, b) == rns_binary(b) - w);
            assert(limbs_value(qdec, b) == q);

            let p1 = pow2(b) as int;
            let p2 = pow2(2 * b) as int;
            let p3 = pow2(3 * b) as int;
            let p4 = pow2(4 * b) as int;
            let p5 = pow2(5 * b) as int;
            let p6 = pow2(6 * b) as int;
            lemma_pow2_adds(b, 4 * b);
            lemma_pow2_adds(2 * b, 4 * b);
            let cab4 = conv4(integer_0@, integer_1@, 4) as int;
            let cab5 = conv4(integer_0@, integer_1@, 5) as int;
            let cab6 = conv4(integer_0@, integer_1@, 6) as int;
            let cpq4 = conv4(pneg, qdec, 4) as int;
            let cpq5 = conv4(pneg, qdec, 5) as int;
            let cpq6 = conv4(pneg, qdec, 6) as int;
            let cc = cab4 + cpq4 + (cab5 + cpq5) * p1 + (cab6 + cpq6) * p2;
            // The three dropped buckets are p4 * cc.
            assert((cab4 + cpq4) * p4 + (cab5 + cpq5) * p5 + (cab6 + cpq6) * p6 == p4 * cc) by {
                lemma_dist4(p4, cab4 + cpq4, (cab5 + cpq5) * p1, (cab6 + cpq6) * p2, 0);
                lemma_mul_is_commutative(p4, cab4 + cpq4);
                lemma_swap_factor(p4, cab5 + cpq5, p1);
                lemma_mul_is_commutative(p4, p1);
                lemma_mul_is_associative(cab5 + cpq5, p1, p4);
                lemma_mul_is_commutative(cab5 + cpq5, p1 * p4);
                lemma_swap_factor(p4, cab6 + cpq6, p2);
                lemma_mul_is_commutative(p4, p2);
                lemma_mul_is_associative(cab6 + cpq6, p2, p4);
                lemma_mul_is_commutative(cab6 + cpq6, p2 * p4);
            }
            // Align the weight orientation of the composition with the
            // convolution expansion, then split each shared bucket.
            let cab1 = conv4(integer_0@, integer_1@, 1) as int;
            let cab2 = conv4(integer_0@, integer_1@, 2) as int;
            let cab3 = conv4(integer_0@, integer_1@, 3) as int;
            let cpq1 = conv4(pneg, qdec, 1) as int;
            let cpq2 = conv4(pneg, qdec, 2) as int;
            let cpq3 = conv4(pneg, qdec, 3) as int;
            lemma_mul_is_commutative(p1, ts[1] as int);
            lemma_mul_is_commutative(p2, ts[2] as int);
            lemma_mul_is_commutative(p3, ts[3] as int);
            vstd::arithmetic::mul::lemma_mul_is_distributive_add_other_way(p1, cab1, cpq1);
            vstd::arithmetic::mul::lemma_mul_is_distributive_add_other_way(p2, cab2, cpq2);
            vstd::arithmetic::mul::lemma_mul_is_distributive_add_other_way(p3, cab3, cpq3);
            vstd::arithmetic::mul::lemma_mul_is_distributive_add_other_way(p4, cab4, cpq4);
            vstd::arithmetic::mul::lemma_mul_is_distributive_add_other_way(p5, cab5, cpq5);
            vstd::arithmetic::mul::lemma_mul_is_distributive_add_other_way(p6, cab6, cpq6);
            // value(ts) == a*b + (binary - w) * q - p4 * cc
            assert(av * bv + ((rns_binary(b) - w) as int) * (q as int) == limbs_value(ts, b) + p4
                * cc);
            // a*b == q*w + rv, and (binary - w)*q == binary*q - w*q.
            assert(((rns_binary(b) - w) as int) * (q as int) == p4 * (q as int) - (w as int) * (
            q as int)) by (nonlinear_arith)
                requires p4 == rns_binary(b) as int;
            assert((q as int) * (w as int) == (w as int) * (q as int)) by (nonlinear_arith);
            assert(limbs_value(ts, b) == rv + p4 * (q as int) - p4 * cc);
            assert(p4 * (q as int) - p4 * cc == p4 * (q as int - cc)) by (nonlinear_arith);
            // The dropped buckets never exceed the quotient.
            assert(q as int - cc >= 0) by {
                if q as int - cc <= -1 {
                    assert(p4 * (q as int - cc) <= p4 * -1) by (nonlinear_arith)
                        requires p4 > 0, q as int - cc <= -1;
                    assert(limbs_value(ts, b) <= rv - p4);
                    assert(rv < w < p4);
                    assert(false);
                }
            }
            let m = (q as int - cc) as nat;
            assert(limbs_value(ts, b) - rv == p4 * m);
            lemma_pow2_pos(4 * b);
            lemma_fundamental_div_mod_converse(
                (limbs_value(ts, b) - rv) as int,
                p4,
                m as int,
                0,
            );
            lemma_decompose_bounded(rv, 4, b);
        }

        let res = self.residues(&t, &result);
        ReductionContext {
            result,
            quotient: Quotient::Long(quotient),
            t,
            u_0: res.0,
            u_1: res.1,
            v_0: res.2,
            v_1: res.3,
        }
    }
}

} // verus!
