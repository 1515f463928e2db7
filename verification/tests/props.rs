use num_bigint::BigUint;
use foreign_rns::integer::{compose, decompose, decompose_fe, Common, Integer, Limb};
use foreign_rns::chip::{IntegerChip, IntegerConfig, MainGateConfig, RangeConfig};
use foreign_rns::rns::{Quotient, Rns};

fn pasta_fp() -> BigUint {
    BigUint::parse_bytes(
        b"40000000000000000000000000000000224698fc094cf91b992d30ed00000001",
        16,
    )
    .unwrap()
}

fn pasta_fq() -> BigUint {
    BigUint::parse_bytes(
        b"40000000000000000000000000000000224698fc0994a8dd8c46eb2100000001",
        16,
    )
    .unwrap()
}

/// The secp256k1 base field prime.
fn secp256k1_base() -> BigUint {
    BigUint::parse_bytes(
        b"fffffffffffffffffffffffffffffffffffffffffffffffffffffffefffffc2f",
        16,
    )
    .unwrap()
}

/// The secp256k1 scalar field order.
fn secp256k1_scalar() -> BigUint {
    BigUint::parse_bytes(
        b"fffffffffffffffffffffffffffffffebaaedce6af48a03bbfd25e8cd0364141",
        16,
    )
    .unwrap()
}

fn pasta_rns() -> Rns {
    Rns::construct(68, &pasta_fp(), &pasta_fq())
}

#[test]
fn test_decompose_exact_limbs() {
    // x = 7 + 5 * 2^64 + 3 * 2^128
    let x = BigUint::from(7u64) + (BigUint::from(5u64) << 64usize) + (BigUint::from(3u64)
        << 128usize);
    let limbs = decompose(x.clone(), 4, 64);
    assert_eq!(limbs[0], BigUint::from(7u64));
    assert_eq!(limbs[1], BigUint::from(5u64));
    assert_eq!(limbs[2], BigUint::from(3u64));
    assert_eq!(limbs[3], BigUint::from(0u64));
    assert_eq!(compose(limbs, 64), x);
    let fe_limbs = decompose_fe(&x, 4, 64);
    assert_eq!(compose(fe_limbs, 64), x);
}

#[test]
fn test_compose_decompose_roundtrip_edges() {
    // zero, one, and the largest dense value
    for x in [
        BigUint::from(0u64),
        BigUint::from(1u64),
        (BigUint::from(1u64) << 272usize) - 1u64,
    ] {
        let limbs = decompose(x.clone(), 4, 68);
        assert_eq!(compose(limbs, 68), x);
    }
}

#[test]
fn test_from_bytes_le() {
    let el = Integer::from_bytes_le(&[0x12, 0x34], 4, 68);
    assert_eq!(el.value(), BigUint::from(0x3412u64));
}

#[test]
fn test_limb_accessors() {
    let rns = pasta_rns();
    let limbs = vec![
        BigUint::from(1u64),
        BigUint::from(2u64),
        BigUint::from(3u64),
        BigUint::from(4u64),
    ];
    let mut el = rns.new_from_limbs(limbs);
    assert_eq!(el.limb_value(2), BigUint::from(3u64));
    assert_eq!(el.limb(3).fe(), BigUint::from(4u64));
    let vals = el.limbs();
    assert_eq!(vals[0], BigUint::from(1u64));
    el.scale(&BigUint::from(3u64));
    assert_eq!(el.limb_value(1), BigUint::from(6u64));
    assert_eq!(el.limb_value(3), BigUint::from(12u64));

    let l = Limb::from_big(BigUint::from(9u64));
    assert_eq!(l.fe(), BigUint::from(9u64));
    let d = Limb::default();
    assert_eq!(d.fe(), BigUint::from(0u64));
}

#[test]
fn test_add_and_common() {
    let rns = pasta_rns();
    let a = rns.new_from_big(BigUint::from(1000u64));
    let b = rns.new_from_big(BigUint::from(234u64));
    let c = a.add(&b);
    assert_eq!(c.value(), BigUint::from(1234u64));
    assert!(!a.eq(&b));
    assert!(a.eq(&a));
    let m = BigUint::from(100u64);
    assert_eq!(c.native(&m), BigUint::from(34u64));
}

#[test]
fn test_reduce_exact() {
    let rns = pasta_rns();
    let w = rns.wrong_modulus.clone();
    // all four limbs at the maximal unreduced value
    let maxu = rns.max_unreduced_limb.clone();
    let el = rns.new_from_limbs(vec![maxu.clone(), maxu.clone(), maxu.clone(), maxu]);
    let v = el.value();
    let ctx = rns.reduce(&el);
    assert_eq!(ctx.result.value(), &v % &w);
    match ctx.quotient {
        Quotient::Short(q) => {
            assert_eq!(q, &v / &w);
            assert!(q < (BigUint::from(1u64) << 68usize));
        }
        Quotient::Long(_) => panic!("short quotient is expected"),
    }
}

#[test]
fn test_residue_low_bits_vanish() {
    // the two residue windows of a reduction have their low 2b bits zero
    let rns = pasta_rns();
    let b = rns.bit_len_limb;
    let limb = (BigUint::from(1u64) << (b + 7)) - 3u64;
    let el = rns.new_from_limbs(vec![limb.clone(), limb.clone(), limb.clone(), limb]);
    let ctx = rns.reduce(&el);
    let two_limb = BigUint::from(1u64) << (2 * b);
    let r0 = ctx.result.limb_value(0);
    let r1 = ctx.result.limb_value(1);
    let r2 = ctx.result.limb_value(2);
    let r3 = ctx.result.limb_value(3);
    let w0t = &ctx.t[0] + (&ctx.t[1] << b);
    let w1t = &ctx.t[2] + (&ctx.t[3] << b);
    let w0r = &r0 + (&r1 << b);
    let w1r = &r2 + (&r3 << b);
    let u0 = &w0t - &w0r;
    assert_eq!(&u0 % &two_limb, BigUint::from(0u64));
    let v0 = &u0 >> (2 * b);
    let u1 = &w1t + &v0 - &w1r;
    assert_eq!(&u1 % &two_limb, BigUint::from(0u64));
}

#[test]
fn test_mul_unit_secp256k1() {
    // bit_len_limb = 68, four limbs, foreign modulus = secp256k1 base prime
    let rns = Rns::construct(68, &secp256k1_base(), &secp256k1_scalar());
    let one = rns.new_from_big(BigUint::from(1u64));
    let ctx = rns.mul(&one, &one);
    assert_eq!(ctx.result.value(), BigUint::from(1u64));
    match ctx.quotient {
        Quotient::Long(q) => assert_eq!(q.value(), BigUint::from(0u64)),
        Quotient::Short(_) => panic!("long quotient is expected"),
    }
}

#[test]
fn test_compare_to_modulus() {
    let rns = pasta_rns();
    let w = rns.wrong_modulus.clone();
    let binary = BigUint::from(1u64) << 272usize;

    // a canonical residue: no final borrow, exact difference
    let small = rns.new_from_big(BigUint::from(17u64));
    let cmp = rns.compare_to_modulus(&small);
    assert!(!cmp.borrow[3]);
    assert_eq!(cmp.result.value(), &w - 1u64 - 17u64);

    // the modulus itself is not canonical: the final borrow is set
    let at_modulus = rns.new_from_big(w.clone());
    let cmp = rns.compare_to_modulus(&at_modulus);
    assert!(cmp.borrow[3]);
    assert_eq!(cmp.result.value() + &w, &w - 1u64 + &binary);
}

#[test]
fn test_make_aux_dominates() {
    let rns = pasta_rns();
    let w = rns.wrong_modulus.clone();
    let max_vals = vec![
        BigUint::from(1u64) << 70usize,
        BigUint::from(1u64) << 69usize,
        BigUint::from(1u64) << 70usize,
        BigUint::from(1u64) << 40usize,
    ];
    let aux = rns.make_aux(max_vals.clone());
    for (i, max_val) in max_vals.iter().enumerate() {
        assert!(&aux.limb_value(i) >= max_val);
    }
    assert_eq!(aux.value() % &w, BigUint::from(0u64));
}

#[test]
fn test_sub_witness() {
    let rns = pasta_rns();
    let chip = IntegerChip::new(
        IntegerConfig::new(RangeConfig {}, MainGateConfig {}),
        rns,
    );
    let w = chip.rns.wrong_modulus.clone();
    let a = chip.rns.new_from_big(BigUint::from(5u64));
    let b = chip.rns.new_from_big(BigUint::from(90000u64));
    let max_vals = vec![
        BigUint::from(1u64) << 68usize,
        BigUint::from(1u64) << 68usize,
        BigUint::from(1u64) << 68usize,
        BigUint::from(1u64) << 68usize,
    ];
    let c = chip.sub_witness(&a, &b, max_vals.clone());
    // every limb came out non-negative, and the value is congruent to a - b
    let aux = chip.rns.make_aux(max_vals);
    for i in 0..4 {
        assert_eq!(
            c.limb_value(i) + b.limb_value(i),
            a.limb_value(i) + aux.limb_value(i)
        );
    }
    let lhs = (c.value() + b.value()) % &w;
    let rhs = (a.value() + aux.value()) % &w;
    assert_eq!(lhs, rhs);
    assert_eq!((c.value() + b.value()) % &w, a.value() % &w);
}

#[test]
fn test_invert_witness() {
    let rns = pasta_rns();
    let chip = IntegerChip::new(
        IntegerConfig::new(RangeConfig {}, MainGateConfig {}),
        rns,
    );
    let w = chip.rns.wrong_modulus.clone();

    let a = chip.rns.new_from_big(BigUint::from(5u64));
    let (inv_or_one, cond) = chip.invert_witness(&Some(a)).unwrap();
    assert!(!cond);
    assert_eq!(
        (inv_or_one.value() * BigUint::from(5u64)) % &w,
        BigUint::from(1u64)
    );

    let zero = chip.rns.new_from_big(BigUint::from(0u64));
    let (inv_or_one, cond) = chip.invert_witness(&Some(zero)).unwrap();
    assert!(cond);
    assert_eq!(inv_or_one.value(), BigUint::from(1u64));

    assert!(chip.invert_witness(&None).is_none());
}

#[test]
fn test_overflow_lengths() {
    let rns = pasta_rns();
    let lengths = rns.overflow_lengths();
    assert_eq!(lengths.len(), 7);
    assert_eq!(lengths[0], rns.mul_v0_overflow);
    assert_eq!(lengths[1], rns.mul_v1_overflow);
    assert_eq!(lengths[2], rns.red_v0_overflow);
    assert_eq!(lengths[3], rns.red_v1_overflow);
    for k in &lengths[4..] {
        assert!(*k < rns.bit_len_lookup);
    }
}

#[test]
fn test_inert_inv_range_tune() {
    let rns = pasta_rns();
    let expected = rns.max_with_max_unreduced_limbs.bits() as usize - 3 * rns.bit_len_limb + 1;
    let chip = IntegerChip::new(
        IntegerConfig::new(RangeConfig {}, MainGateConfig {}),
        rns,
    );
    assert_eq!(chip.inert_inv_range_tune(), expected);
}

#[test]
fn test_rns_derived_constants() {
    let rns = pasta_rns();
    let w = pasta_fp();
    let n = pasta_fq();
    assert_eq!(rns.binary_modulus, BigUint::from(1u64) << 272usize);
    assert_eq!(rns.crt_modulus, &rns.binary_modulus * &n);
    assert_eq!(rns.max_reduced_limb, (BigUint::from(1u64) << 68usize) - 1u64);
    assert_eq!(
        rns.max_unreduced_limb,
        (BigUint::from(1u64) << 102usize) - 1u64
    );
    assert_eq!(rns.max_dense_value, (BigUint::from(1u64) << 272usize) - 1u64);
    assert_eq!(rns.two_limb_mask, (BigUint::from(1u64) << 136usize) - 1u64);
    assert_eq!(rns.wrong_modulus_in_native_modulus, &w % &n);
    assert_eq!(rns.wrong_modulus_minus_one.value(), &w - 1u64);
    assert_eq!(
        compose(rns.negative_wrong_modulus_decomposed.clone(), 68),
        (BigUint::from(1u64) << 272usize) - &w
    );
    assert_eq!(compose(rns.wrong_modulus_decomposed.clone(), 68), w);
    assert_eq!(rns.bit_len_lookup, 17);
}
