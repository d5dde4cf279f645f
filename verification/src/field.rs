//! Trusted view of the arkworks BN254 extension field.
//!
//! An element of the twelfth-degree extension field is held opaquely in
//! [`FieldElt`]; the generic arkworks field types cannot be declared to the
//! verifier directly because their trait bounds are outside traits.  The
//! spec function `fq12_coords` names the element's twelve canonical
//! base-field coordinates (in the fixed tower order `c0.c0.c0, c0.c0.c1,
//! ..., c1.c2.c1`, each as an integer in `[0, p)`), and the remaining names
//! say what each arkworks operation does to those coordinates.

use vstd::prelude::*;

use ark_ff::Field;
use ark_ff::PrimeField;
use ark_std::One;
use ark_std::UniformRand;
use rand::SeedableRng;

use crate::bignum::biguint_value;
use crate::bignum::words_value;

verus! {

/// An element of the twelfth-degree extension field, opaque to the
/// verifier.  The `inner` field is public so that unverified callers can
/// convert from and to the arkworks representation.
#[verifier::external_body]
pub struct FieldElt {
    pub inner: ark_bn254::Fq12,
}

/// An element of the BN254 scalar field, opaque to the verifier.
#[verifier::external_body]
pub struct ScalarElt {
    pub inner: ark_bn254::Fr,
}

#[verifier::external_type_specification]
#[verifier::external_body]
pub struct ExStdRng(rand::rngs::StdRng);

/// The BN254 base-field prime modulus.
pub open spec fn p_val() -> int {
    21888242871839275222246405745257275088696311157297823662689037894645226208583int
}

/// The BN254 scalar-field prime modulus (the group order).
pub open spec fn r_val() -> int {
    21888242871839275222246405745257275088548364400416034343698204186575808495617int
}

/// The twelve canonical coordinates of an extension-field element.
pub uninterp spec fn fq12_coords(a: FieldElt) -> Seq<int>;

/// The coordinates of the multiplicative identity: a one followed by
/// eleven zeros.
pub open spec fn one_coords() -> Seq<int> {
    seq![1int, 0, 0, 0, 0, 0, 0, 0, 0, 0, 0, 0]
}

/// The coordinates of the power of an element, as `Field::pow` computes it
/// for a non-negative integer exponent.
pub uninterp spec fn pow_coords(c: Seq<int>, e: int) -> Seq<int>;

/// The coordinates of the product of two elements.
pub uninterp spec fn mul_coords(a: Seq<int>, b: Seq<int>) -> Seq<int>;

/// Whether the coordinates are those of the multiplicative identity.
pub uninterp spec fn is_one_coords(c: Seq<int>) -> bool;

/// The scalar-field element with the given canonical value.
pub uninterp spec fn fr_of(n: int) -> ScalarElt;

/// Relies on `Mul` for `Fq12`: field multiplication, a function of the two
/// operands alone.
#[verifier::external_body]
pub fn fq12_mul(a: &FieldElt, b: &FieldElt) -> (r: FieldElt)
    ensures
        fq12_coords(r) == mul_coords(fq12_coords(*a), fq12_coords(*b)),
{
    FieldElt { inner: a.inner * b.inner }
}

/// Relies on `ark_ff::Field::pow`: exponentiation by the integer denoted by
/// the little-endian base-2^64 words, a function of base and exponent
/// alone; a power of the identity is the identity, since the
/// square-and-multiply walk only ever multiplies ones.
#[verifier::external_body]
pub fn fq12_pow(a: &FieldElt, e: &Vec<u64>) -> (r: FieldElt)
    ensures
        fq12_coords(r) == pow_coords(fq12_coords(*a), words_value(e@)),
        fq12_coords(*a) == one_coords() ==> fq12_coords(r) == one_coords(),
{
    FieldElt { inner: a.inner.pow(e.as_slice()) }
}

/// Relies on `One::is_one` for `Fq12`: the test against the multiplicative
/// identity, which holds exactly of the coordinates one-then-zeros (the
/// test reads `c0.is_one() && c1.is_zero()` through the tower).
#[verifier::external_body]
pub fn fq12_is_one(a: &FieldElt) -> (r: bool)
    ensures
        r == is_one_coords(fq12_coords(*a)),
        r == (fq12_coords(*a) == one_coords()),
{
    a.inner.is_one()
}

/// Relies on `PartialEq` for `Fq12`: equality of the canonical coordinates,
/// since arkworks keeps elements in a canonical representation.
#[verifier::external_body]
pub fn fq12_eq(a: &FieldElt, b: &FieldElt) -> (r: bool)
    ensures
        r == (fq12_coords(*a) == fq12_coords(*b)),
{
    a.inner == b.inner
}

/// Relies on `StdRng::from_entropy`: a freshly seeded generator.  Nothing is
/// stated of it; every contract downstream holds for any sample sequence.
#[verifier::external_body]
pub fn fresh_rng() -> rand::rngs::StdRng {
    rand::rngs::StdRng::from_entropy()
}

/// Relies on `UniformRand::rand` for `Fq12`: a sample depending on the
/// generator state.  Nothing is stated of the value drawn.
#[verifier::external_body]
pub fn fq12_rand(rng: &mut rand::rngs::StdRng) -> FieldElt {
    FieldElt { inner: ark_bn254::Fq12::rand(rng) }
}

/// Relies on `Fq::MODULUS`: the BN254 base-field prime.
#[verifier::external_body]
pub fn fq_modulus() -> (r: num_bigint::BigUint)
    ensures
        biguint_value(r) == p_val(),
{
    ark_bn254::Fq::MODULUS.into()
}

/// Relies on `Fr::MODULUS`: the BN254 scalar-field prime.
#[verifier::external_body]
pub fn fr_modulus() -> (r: num_bigint::BigUint)
    ensures
        biguint_value(r) == r_val(),
{
    ark_bn254::Fr::MODULUS.into()
}

/// Relies on `From<BigUint>` for `Fq` and the tower constructors: builds the
/// element whose coordinates are the given values reduced modulo `p`.
#[verifier::external_body]
pub fn fq12_from_biguints(v: &Vec<num_bigint::BigUint>) -> (r: FieldElt)
    requires
        v@.len() == 12,
    ensures
        fq12_coords(r) == Seq::new(12, |i: int| biguint_value(v@[i]) % p_val()),
{
    let f = |i: usize| ark_bn254::Fq::from(v[i].clone());
    FieldElt {
        inner: ark_bn254::Fq12::new(
            ark_bn254::Fq6::new(
                ark_bn254::Fq2::new(f(0), f(1)),
                ark_bn254::Fq2::new(f(2), f(3)),
                ark_bn254::Fq2::new(f(4), f(5)),
            ),
            ark_bn254::Fq6::new(
                ark_bn254::Fq2::new(f(6), f(7)),
                ark_bn254::Fq2::new(f(8), f(9)),
                ark_bn254::Fq2::new(f(10), f(11)),
            ),
        ),
    }
}

/// Relies on `From<Fq>` for `BigUint`: the canonical coordinates of the
/// element, each in `[0, p)`.
#[verifier::external_body]
pub fn fq12_to_biguints(a: &FieldElt) -> (r: Vec<num_bigint::BigUint>)
    ensures
        r@.len() == 12,
        r@.len() == fq12_coords(*a).len(),
        forall|i: int|
            0 <= i < 12 ==> biguint_value(r@[i]) == fq12_coords(*a)[i] && 0 <= biguint_value(r@[i])
                < p_val(),
{
    let e = &a.inner;
    vec![
        e.c0.c0.c0.into(),
        e.c0.c0.c1.into(),
        e.c0.c1.c0.into(),
        e.c0.c1.c1.into(),
        e.c0.c2.c0.into(),
        e.c0.c2.c1.into(),
        e.c1.c0.c0.into(),
        e.c1.c0.c1.into(),
        e.c1.c1.c0.into(),
        e.c1.c1.c1.into(),
        e.c1.c2.c0.into(),
        e.c1.c2.c1.into(),
    ]
}

/// Relies on `From<BigUint>` for `Fr`: the scalar with the given value
/// reduced modulo `r`.
#[verifier::external_body]
pub fn fr_from_biguint(b: &num_bigint::BigUint) -> (r: ScalarElt)
    ensures
        r == fr_of(biguint_value(*b) % r_val()),
{
    ScalarElt { inner: ark_bn254::Fr::from(b.clone()) }
}

} // verus!
