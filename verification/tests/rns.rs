use num_bigint::BigUint;
use foreign_rns::integer::{Common, Integer};
use foreign_rns::rns::{Quotient, Rns};

/// Small deterministic generator so the tests are reproducible.
struct TestRng(u64);

impl TestRng {
    fn next_u64(&mut self) -> u64 {
        let mut x = self.0;
        x ^= x << 13;
        x ^= x >> 7;
        x ^= x << 17;
        self.0 = x;
        x
    }

    /// A pseudo-random value below `2^bits`.
    fn gen_biguint(&mut self, bits: usize) -> BigUint {
        let n_bytes = (bits + 7) / 8;
        let mut bytes: Vec<u8> = Vec::with_capacity(n_bytes);
        for _ in 0..n_bytes {
            bytes.push(self.next_u64() as u8);
        }
        if bits % 8 != 0 {
            let keep = bits % 8;
            let mask = (1u16 << keep) - 1;
            let last = bytes.len() - 1;
            bytes[last] &= mask as u8;
        }
        BigUint::from_bytes_le(&bytes)
    }
}

fn seeded_rng() -> TestRng {
    TestRng(0x5962_be5d_763d_318d)
}

/// The Pallas base field modulus (the wrong field of these tests).
fn pasta_fp() -> BigUint {
    BigUint::parse_bytes(
        b"40000000000000000000000000000000224698fc094cf91b992d30ed00000001",
        16,
    )
    .unwrap()
}

/// The Vesta base field modulus (the native field of these tests).
fn pasta_fq() -> BigUint {
    BigUint::parse_bytes(
        b"40000000000000000000000000000000224698fc0994a8dd8c46eb2100000001",
        16,
    )
    .unwrap()
}

fn rns() -> Rns {
    let bit_len_limb = 68;
    Rns::construct(bit_len_limb, &pasta_fp(), &pasta_fq())
}

#[test]
fn test_decomposing() {
    let mut rng = seeded_rng();
    let number_of_limbs = 4usize;
    let bit_len_limb = 64usize;
    let bit_len_int = 256;
    let el = rng.gen_biguint(bit_len_int);
    let decomposed = Integer::from_big(el.clone(), number_of_limbs, bit_len_limb);
    assert_eq!(decomposed.value(), el);
}

#[test]
fn test_rns_constants() {
    let rns = rns();
    let mut rng = seeded_rng();

    let wrong_modulus = rns.wrong_modulus.clone();
    let native_modulus = pasta_fq();

    // shifters

    let el_0 = rng.gen_biguint(254) % &native_modulus;
    let shifted_0 = (&el_0 * &rns.left_shifter_r) % &native_modulus;
    let left_shifter_r = BigUint::from(1u64) << rns.bit_len_limb;
    let shifted_1 = (&el_0 * &left_shifter_r) % &native_modulus;
    assert_eq!(shifted_0, shifted_1);
    let el_1 = (&shifted_0 * &rns.right_shifter_r) % &native_modulus;
    assert_eq!(el_0, el_1);

    let el_0 = rng.gen_biguint(254) % &native_modulus;
    let shifted_0 = (&el_0 * &rns.left_shifter_2r) % &native_modulus;
    let left_shifter_2r = BigUint::from(1u64) << (2 * rns.bit_len_limb);
    let shifted_1 = (&el_0 * &left_shifter_2r) % &native_modulus;
    assert_eq!(shifted_0, shifted_1);
    let el_1 = (&shifted_0 * &rns.right_shifter_2r) % &native_modulus;
    assert_eq!(el_0, el_1);

    let el_0 = rng.gen_biguint(254) % &wrong_modulus;
    let aux = rns.base_aux.value();
    let el = (&aux + &el_0) % &wrong_modulus;
    assert_eq!(el_0, el)
}

#[test]
fn test_integer() {
    let rns = rns();
    let mut rng = seeded_rng();

    let wrong_modulus = rns.wrong_modulus.clone();

    // conversion
    let el_0 = rng.gen_biguint(rns.bit_len_limb * 4);
    let el = rns.new_from_big(el_0.clone());
    let el_1 = el.value();
    assert_eq!(el_0, el_1);

    // reduce
    let overflow = rns.bit_len_limb + 10;
    let mut limbs: Vec<BigUint> = Vec::new();
    for _ in 0..4 {
        limbs.push(rng.gen_biguint(overflow));
    }
    let el = rns.new_from_limbs(limbs);
    let result_0 = el.value() % &wrong_modulus;
    let reduction_context = rns.reduce(&el);
    let result_1 = reduction_context.result;
    assert_eq!(result_1.value(), result_0);

    // aux
    assert_eq!(rns.base_aux.value() % &wrong_modulus, BigUint::from(0u64));

    // mul
    for _ in 0..10000 {
        let el_0 = rns.new_from_big(rng.gen_biguint(255));
        let el_1 = rns.new_from_big(rng.gen_biguint(255));
        let result_0 = (el_0.value() * el_1.value()) % &wrong_modulus;
        let reduction_context = rns.mul(&el_0, &el_1);
        let result_1 = reduction_context.result;
        assert_eq!(result_1.value(), result_0);
        match reduction_context.quotient {
            Quotient::Long(_) => {}
            Quotient::Short(_) => panic!("long quotient is expected"),
        }
    }

    // inv
    for _ in 0..10000 {
        let el = rns.new_from_big(rng.gen_biguint(255));
        let result = rns.invert(&el);
        match result {
            Some(inv) => {
                assert_eq!((inv.value() * el.value()) % &wrong_modulus, BigUint::from(1u32))
            }
            None => assert_eq!(el.value(), BigUint::from(0u32)),
        }
    }

    // inv of 0
    {
        let el = rns.new_from_big(BigUint::from(0u32));
        let result = rns.invert(&el);
        assert!(result.is_none());
    }

    // div
    for _ in 0..10000 {
        let el_0 = rns.new_from_big(rng.gen_biguint(255));
        let el_1 = rns.new_from_big(rng.gen_biguint(255));
        let result_0 = rns.div(&el_0, &el_1);
        match result_0 {
            Some(result) => {
                let lhs = (result.value() * el_1.value()) % &wrong_modulus;
                let rhs = el_0.value() % &wrong_modulus;
                assert_eq!(lhs, rhs)
            }
            None => assert_eq!(el_1.value() % &wrong_modulus, BigUint::from(0u32)),
        }
    }

    // div 0
    {
        let el_0 = rns.new_from_big(rng.gen_biguint(255));
        let el_1 = rns.new_from_big(BigUint::from(0u32));
        let result = rns.div(&el_0, &el_1);
        assert!(result.is_none());
    }
}
