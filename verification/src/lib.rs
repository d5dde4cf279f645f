//! Oracle library for BN254 pairing-witness generation.
//!
//! Given an element `f` of the twelfth-degree extension field of the BN254
//! base field, the library constructs a pair `(c, u)` with `c^lambda = f * u`,
//! where `u` lies in the subgroup generated by a primitive 27-th root of
//! unity.  It also provides the cubic-residue test, cube roots by a
//! Tonelli-Shanks variant, r-th roots through exponent inversion, modular
//! inversion by the extended Euclidean algorithm, and the 120-bit limb codec
//! used to exchange field elements with the calling toolchain.

pub mod bignum;
pub mod field;
pub mod foreign_call;
pub mod handlers;
pub mod hex;
pub mod ops;
