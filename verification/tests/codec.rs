use ark_bn254::Fq;
use ark_bn254::Fq12;
use ark_ff::Field;
use ark_ff::PrimeField;
use ark_std::One;
use ark_std::UniformRand;
use num_bigint::BigUint;

use pairing_oracle::field::FieldElt;
use pairing_oracle::foreign_call::ForeignCallParam;
use pairing_oracle::handlers::Params;
use pairing_oracle::handlers::OracleResponse;
use pairing_oracle::handlers::cast_biguint_to_bignum_limbs;
use pairing_oracle::handlers::cast_fp12_to_noir_fp12;
use pairing_oracle::handlers::cast_to_biguint;
use pairing_oracle::handlers::dispatch;
use pairing_oracle::handlers::get_bool_from_callparam;
use pairing_oracle::handlers::get_fq12_from_callparam;
use pairing_oracle::handlers::get_u32_from_callparam;
use pairing_oracle::handlers::gets_limbs;
use pairing_oracle::hex::DecodeError;
use pairing_oracle::ops::WitnessGenerator;

fn limbs_to_params(limbs: &[String]) -> Vec<ForeignCallParam<String>> {
    let mut params = Vec::new();
    for chunk in limbs.chunks(3) {
        params.push(ForeignCallParam::Array(chunk.to_vec()));
    }
    params
}

fn encode_elt(a: Fq12) -> Vec<ForeignCallParam<String>> {
    limbs_to_params(&cast_fp12_to_noir_fp12(FieldElt { inner: a }))
}

fn decode_elt(limbs: &[String]) -> Fq12 {
    get_fq12_from_callparam(&limbs_to_params(limbs)).unwrap().inner
}

fn lambda() -> BigUint {
    let q: BigUint = Fq::MODULUS.into();
    let x = BigUint::from(2482830683596424440u64) * BigUint::from(2u64) + BigUint::from(1u64);
    BigUint::from(6u64) * x + BigUint::from(2u64) + &q + q.pow(3) - q.pow(2)
}

#[test]
fn test_codec_round_trip() {
    let mut rng = ark_std::test_rng();
    let f = Fq12::rand(&mut rng);
    let limbs = cast_fp12_to_noir_fp12(FieldElt { inner: f });
    assert_eq!(limbs.len(), 36);
    let back = get_fq12_from_callparam(&limbs_to_params(&limbs)).unwrap();
    assert_eq!(back.inner, f);
}

#[test]
fn test_limb_bounds() {
    let mut rng = ark_std::test_rng();
    let f = Fq12::rand(&mut rng);
    let limbs = cast_fp12_to_noir_fp12(FieldElt { inner: f });
    for limb in &limbs {
        let v = u128::from_str_radix(limb, 16).unwrap();
        assert!(v < 1u128 << 120);
    }
}

#[test]
fn test_cast_biguint_limbs_exact() {
    let v = BigUint::from(2u64).pow(120) + BigUint::from(5u64);
    let limbs = cast_biguint_to_bignum_limbs(&v, 3);
    assert_eq!(limbs, vec!["5".to_string(), "1".to_string(), "0".to_string()]);
}

#[test]
fn test_cast_to_biguint_values() {
    assert_eq!(cast_to_biguint(vec!["ff"]).unwrap(), BigUint::from(255u64));
    assert_eq!(cast_to_biguint(vec![""]).unwrap(), BigUint::from(0u64));
    assert_eq!(cast_to_biguint(vec!["00ff"]).unwrap(), BigUint::from(255u64));
    let two_limbs = cast_to_biguint(vec!["5", "1"]).unwrap();
    assert_eq!(two_limbs, BigUint::from(2u64).pow(120) + BigUint::from(5u64));
}

#[test]
fn test_cast_to_biguint_errors() {
    assert_eq!(cast_to_biguint(vec!["zz"]), Err(DecodeError::BadHex));
    let too_big = "f".repeat(31);
    assert_eq!(cast_to_biguint(vec![too_big.as_str()]), Err(DecodeError::LimbTooBig));
}

#[test]
fn test_get_u32_and_bool() {
    let p = ForeignCallParam::Single("ff".to_string());
    assert_eq!(get_u32_from_callparam(&p), Ok(255));
    let empty = ForeignCallParam::Single("".to_string());
    assert_eq!(get_bool_from_callparam(&empty), Ok(false));
    let one = ForeignCallParam::Single("1".to_string());
    assert_eq!(get_bool_from_callparam(&one), Ok(true));
    let bad = ForeignCallParam::Single("zz".to_string());
    assert_eq!(get_u32_from_callparam(&bad), Err(DecodeError::BadHex));
    let none: ForeignCallParam<String> = ForeignCallParam::Array(vec![]);
    assert_eq!(get_u32_from_callparam(&none), Err(DecodeError::WrongCount));
}

#[test]
fn test_gets_limbs_values() {
    let limbs = gets_limbs(vec!["2", "", "ff"]).unwrap();
    assert_eq!(limbs.len(), 3);
    assert_eq!(limbs[0].inner, ark_bn254::Fr::from(2u64));
    assert_eq!(limbs[1].inner, ark_bn254::Fr::from(0u64));
    assert_eq!(limbs[2].inner, ark_bn254::Fr::from(255u64));
}

#[test]
fn test_get_fq12_wrong_count() {
    let inputs: Vec<ForeignCallParam<String>> =
        vec![ForeignCallParam::Single("1".to_string()); 11];
    assert!(matches!(get_fq12_from_callparam(&inputs), Err(DecodeError::WrongCount)));
}

#[test]
fn test_params_from_callparams() {
    let inputs: Vec<ForeignCallParam<String>> = vec![
        ForeignCallParam::Single("1".to_string()),
        ForeignCallParam::Array(vec!["ff".to_string()]),
        ForeignCallParam::Single("0".to_string()),
        ForeignCallParam::Single("0".to_string()),
        ForeignCallParam::Array(vec!["2".to_string(), "3".to_string()]),
        ForeignCallParam::Single("4".to_string()),
    ];
    let params = Params::from_foreign_call_params(&inputs).unwrap();
    assert!(params.has_multiplicative_inverse);
    assert_eq!(params.modulus, BigUint::from(255u64));
    assert_eq!(params.double_modulus.len(), 2);
    assert_eq!(params.double_modulus[1].inner, ark_bn254::Fr::from(3u64));
    assert_eq!(params.redc_param.len(), 1);
    assert_eq!(params.redc_param[0].inner, ark_bn254::Fr::from(4u64));
}

#[test]
fn test_dispatch_is_third_root_one() {
    let one = Fq12::one();
    let inputs = encode_elt(one);
    let res = dispatch(&"is_third_root".to_string(), &inputs).unwrap();
    match res {
        OracleResponse::Scalars(v) => assert_eq!(v, vec!["1".to_string()]),
        other => panic!("unexpected response: {:?}", other),
    }
}

#[test]
fn test_dispatch_is_third_root_nonresidue() {
    let mut rng = ark_std::test_rng();
    // a square that is not a cube
    let mut a = Fq12::rand(&mut rng).pow([2]);
    while WitnessGenerator::is_third_root(&FieldElt { inner: a }) {
        a = Fq12::rand(&mut rng).pow([2]);
    }
    let inputs = encode_elt(a);
    let res = dispatch(&"is_third_root".to_string(), &inputs).unwrap();
    match res {
        OracleResponse::Scalars(v) => assert_eq!(v, vec!["0".to_string()]),
        other => panic!("unexpected response: {:?}", other),
    }
}

#[test]
fn test_dispatch_third_root_one() {
    let inputs = encode_elt(Fq12::one());
    let res = dispatch(&"third_root".to_string(), &inputs).unwrap();
    match res {
        OracleResponse::Values(vv) => {
            assert_eq!(vv.len(), 1);
            let root = decode_elt(&vv[0]);
            assert_eq!(root.pow([3]), Fq12::one());
        },
        other => panic!("unexpected response: {:?}", other),
    }
}

#[test]
fn test_dispatch_random_third_root() {
    let inputs: Vec<ForeignCallParam<String>> = vec![];
    let res = dispatch(&"random_third_root".to_string(), &inputs).unwrap();
    match res {
        OracleResponse::Values(vv) => {
            assert_eq!(vv.len(), 1);
            let a = decode_elt(&vv[0]);
            let test = WitnessGenerator::pow_p12_minus_one_div_3(&FieldElt { inner: a });
            assert_eq!(test.inner, Fq12::one());
        },
        other => panic!("unexpected response: {:?}", other),
    }
}

#[test]
fn test_dispatch_get_pairing_witnesses() {
    // witness inputs are Miller-loop outputs: r-th-power residues
    let mut rng = ark_std::test_rng();
    let x = Fq12::rand(&mut rng);
    let r: BigUint = ark_bn254::Fr::MODULUS.into();
    let f = x.pow(r.to_u64_digits());
    let inputs = encode_elt(f);
    let res = dispatch(&"get_pairing_witnesses".to_string(), &inputs).unwrap();
    match res {
        OracleResponse::Values(vv) => {
            assert_eq!(vv.len(), 2);
            let c = decode_elt(&vv[0]);
            let u = decode_elt(&vv[1]);
            assert_eq!(c.pow(lambda().to_u64_digits()), f * u);
        },
        other => panic!("unexpected response: {:?}", other),
    }
}

#[test]
fn test_dispatch_unknown() {
    let inputs: Vec<ForeignCallParam<String>> = vec![];
    let res = dispatch(&"unknown".to_string(), &inputs).unwrap();
    assert_eq!(res, OracleResponse::Oops);
}

#[test]
fn test_dispatch_witness_gen() {
    let inputs: Vec<ForeignCallParam<String>> = vec![];
    let res = dispatch(&"witness_gen".to_string(), &inputs).unwrap();
    match res {
        OracleResponse::Text(s) => assert_eq!(s, "Hello, world!"),
        other => panic!("unexpected response: {:?}", other),
    }
}

#[test]
fn test_param_len_and_values() {
    let single: ForeignCallParam<String> = ForeignCallParam::Single("ab".to_string());
    assert_eq!(single.len(), 1);
    assert_eq!(single.get_values(), vec!["ab".to_string()]);
    let arr: ForeignCallParam<String> =
        ForeignCallParam::Array(vec!["a".to_string(), "b".to_string()]);
    assert_eq!(arr.len(), 2);
    assert_eq!(arr.get_values(), vec!["a".to_string(), "b".to_string()]);
    let from_single: ForeignCallParam<String> = "x".to_string().into();
    assert_eq!(from_single, ForeignCallParam::Single("x".to_string()));
    let from_vec: ForeignCallParam<String> = vec!["y".to_string()].into();
    assert_eq!(from_vec, ForeignCallParam::Array(vec!["y".to_string()]));
}

#[test]
fn test_cast_bigint_limbs_signed() {
    let v = num_bigint::BigInt::from(2u64).pow(120) + num_bigint::BigInt::from(5u64);
    let limbs = pairing_oracle::handlers::cast_bigint_to_bignum_limbs(&v, 3);
    assert_eq!(limbs, vec!["5".to_string(), "1".to_string(), "0".to_string()]);
    let neg = -v;
    let neg_limbs = pairing_oracle::handlers::cast_bigint_to_bignum_limbs(&neg, 3);
    assert_eq!(neg_limbs, vec!["-5".to_string(), "-1".to_string(), "0".to_string()]);
}
