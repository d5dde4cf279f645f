use ark_bn254::Fq;
use ark_bn254::Fq12;
use ark_bn254::Fr;
use ark_ff::BigInt;
use ark_ff::Field;
use ark_ff::PrimeField;
use ark_std::One;
use ark_std::UniformRand;
use num_bigint::BigUint;

use pairing_oracle::field::FieldElt;
use pairing_oracle::ops::WitnessGenerator;

fn felt(a: Fq12) -> FieldElt {
    FieldElt { inner: a }
}

#[test]
fn test_mp_th_root_of_c() {
    let mut rng = ark_std::test_rng();
    let a = Fq12::rand(&mut rng);
    let res = WitnessGenerator::mp_th_root_of_c(felt(a));
    println!("res: {:?}", res.inner);
}

#[test]
fn test_r_th_root_of_f() {
    let mut rng = ark_std::test_rng();
    let a = Fq12::rand(&mut rng);
    let res = WitnessGenerator::r_th_root_of_f(felt(a));
    println!("res: {:?}", res.inner);
}

#[test]
fn test_pow_p12_minus_one_div_3() {
    let mut rng = ark_std::test_rng();
    let a = Fq12::rand(&mut rng);
    let res = WitnessGenerator::pow_p12_minus_one_div_3(&felt(a));
    assert_eq!(res.inner.pow([3]), Fq12::one());
}

#[test]
fn test_pow_p12_minus_one_div_27() {
    let mut rng = ark_std::test_rng();
    let a = Fq12::rand(&mut rng);
    let res = WitnessGenerator::pow_p12_minus_one_div_27(&felt(a));
    // now we exponentiate by 27
    let twenty_seven = BigUint::from(27u64);
    let twenty_seven_bigint: BigInt<3> = BigInt::<3>::try_from(twenty_seven).unwrap();
    let res27 = res.inner.pow(twenty_seven_bigint);
    assert_eq!(res27, Fq12::one());
}

#[test]
fn test_get_order() {
    let mut rng = ark_std::test_rng();
    let a = Fq12::rand(&mut rng);
    let b = WitnessGenerator::pow_p12_minus_one_div_27(&felt(a));
    let res = WitnessGenerator::get_order(b);
    let _ = res;
}

#[test]
fn test_pow_fq12() {
    let mut rng = ark_std::test_rng();
    let a = Fq12::rand(&mut rng);
    let p = Fq::MODULUS;
    let p_biguint: BigUint = p.into();
    let p2 = p_biguint.pow(12);
    let p12m1 = p2 - BigUint::from(1u64);
    let p12m1_bigint = BigInt::<50>::try_from(p12m1).unwrap();
    let res = a.pow(p12m1_bigint);
    assert_eq!(res, Fq12::one());
}

#[test]
fn test_find_third_non_residue() {
    let res = WitnessGenerator::find_third_non_residue().unwrap();
    let b = res.1;
    let c = b.inner.pow([3]);
    assert_ne!(c, Fq12::one());
    assert_eq!(c.pow([3]), Fq12::one());
}

#[test]
fn test_find_27th_root() {
    let res = WitnessGenerator::find_27th_root().unwrap();
    assert_ne!(res.inner.pow([9]), Fq12::one());
    assert_eq!(res.inner.pow([27]), Fq12::one());
}

#[test]
fn test_tonelli_shanks_third_root() {
    let mut rng = ark_std::test_rng();
    let mut a = Fq12::rand(&mut rng);
    // check that a is a third root of unity
    // we do this by powering it up to (p^12-1)/3 and checking the result
    while WitnessGenerator::pow_p12_minus_one_div_3(&felt(a)).inner != Fq12::one() {
        a = Fq12::rand(&mut rng);
    }
    let res = WitnessGenerator::tonelli_shanks_third_root(felt(a)).unwrap();
    assert_eq!(res.inner.pow([3]), a);
}

#[test]
fn test_invert() {
    // get a random field element
    let mut rng = ark_std::test_rng();
    let a = Fq::rand(&mut rng);
    // cast the field element to a biguint
    let a_biguint: BigUint = a.into();
    let modulus: BigUint = Fq::MODULUS.into();
    let res: BigUint = WitnessGenerator::invert(&a_biguint, &modulus).to_biguint().unwrap();
    let res_fq = Fq::from(res);
    assert_eq!(res_fq * a, Fq::one());
    assert_eq!(res_fq, a.inverse().unwrap());
}

#[test]
fn test_witness_generator() {
    let mut rng = ark_std::test_rng();
    let a = Fq12::rand(&mut rng);
    let res = WitnessGenerator::witness_generator(felt(a)).unwrap();
    println!("res: {:?}", (res.0.inner, res.1.inner));
}

#[test]
fn test_r_th_root_of_f_2() {
    let mut rng = ark_std::test_rng();
    let a = Fq12::rand(&mut rng);
    let res = WitnessGenerator::r_th_root_of_f(felt(a));
    let r: BigUint = Fr::MODULUS.into();
    println!("res: {:?}", res.inner);
    let res2 = res.inner.pow(BigInt::<50>::try_from(r).unwrap());
    println!("res2: {:?}", res2);
}

#[test]
fn test_r_th_root_powers_back() {
    // the inverse-exponent trick recovers elements of the image of the
    // r-th-power map, which is where the construction applies
    let mut rng = ark_std::test_rng();
    let x = Fq12::rand(&mut rng);
    let r: BigUint = Fr::MODULUS.into();
    let a = x.pow(r.to_u64_digits());
    let res = WitnessGenerator::r_th_root_of_f(felt(a));
    assert_eq!(res.inner.pow(r.to_u64_digits()), a);
}

#[test]
fn test_witness_equation() {
    // witness inputs are Miller-loop outputs: r-th-power residues
    let mut rng = ark_std::test_rng();
    let x = Fq12::rand(&mut rng);
    let r: BigUint = Fr::MODULUS.into();
    let f = x.pow(r.to_u64_digits());
    let (c, u) = WitnessGenerator::witness_generator(felt(f)).unwrap();
    let q: BigUint = Fq::MODULUS.into();
    let x = BigUint::from(2482830683596424440u64) * BigUint::from(2u64) + BigUint::from(1u64);
    let lambda = BigUint::from(6u64) * x + BigUint::from(2u64) + &q + q.pow(3) - q.pow(2);
    assert_eq!(c.inner.pow(lambda.to_u64_digits()), f * u.inner);
}

#[test]
fn test_rand_third_root_is_residue() {
    let a = WitnessGenerator::rand_third_root().unwrap();
    assert_eq!(WitnessGenerator::pow_p12_minus_one_div_3(&a).inner, Fq12::one());
}

#[test]
fn test_is_third_root_of_cube() {
    let mut rng = ark_std::test_rng();
    let b = Fq12::rand(&mut rng);
    let a = b.pow([3]);
    assert!(WitnessGenerator::is_third_root(&felt(a)));
}

#[test]
fn test_invert_small() {
    let res = WitnessGenerator::invert(&BigUint::from(5u64), &BigUint::from(7u64));
    assert_eq!(res, num_bigint::BigInt::from(3u64));
}

#[test]
fn test_get_order_of_27th_root() {
    let w = WitnessGenerator::find_27th_root().unwrap();
    assert_eq!(WitnessGenerator::get_order(w), 3);
}

#[test]
fn test_tonelli_shanks_rejects_non_residue() {
    let mut rng = ark_std::test_rng();
    let mut a = Fq12::rand(&mut rng);
    while WitnessGenerator::is_third_root(&felt(a)) {
        a = Fq12::rand(&mut rng);
    }
    let res = WitnessGenerator::tonelli_shanks_third_root(felt(a));
    assert!(matches!(res, Err(pairing_oracle::ops::DomainError::NotCubicResidue)));
}
