//! Decoding foreign-call parameters into field elements and encoding field
//! elements back into 120-bit hex limbs.

use vstd::prelude::*;

use crate::bignum::biguint_value;
use crate::bignum::bigint_value;
use crate::bignum::bu_add;
use crate::bignum::bu_div;
use crate::bignum::bu_from_u64;
use crate::bignum::bu_from_u128;
use crate::bignum::bu_lt;
use crate::bignum::bu_mul;
use crate::bignum::bu_rem;
use crate::bignum::bu_to_u128;
use crate::bignum::trunc_div;
use crate::bignum::trunc_rem;
use crate::field::FieldElt;
use crate::field::ScalarElt;
use crate::field::fq12_coords;
use crate::field::p_val;
use crate::field::r_val;
use crate::foreign_call::ForeignCallParam;
use crate::hex::DecodeError;
use crate::hex::all_hex;
use crate::hex::hex_str;
use crate::hex::hex_str_signed;
use crate::hex::hex_val;
use crate::hex::lemma_hex_trim_round_trip;
use crate::hex::pow2_120;
use crate::hex::trim0;

verus! {

/// The limb strings a parameter carries, as character sequences.
pub open spec fn param_limb_views(p: ForeignCallParam<String>) -> Seq<Seq<char>> {
    match p {
        ForeignCallParam::Single(s) => seq![s@],
        ForeignCallParam::Array(values) => values.deep_view(),
    }
}

/// The limb strings of a parameter with their leading zeros removed, the
/// form in which they are parsed.
pub open spec fn param_trimmed(p: ForeignCallParam<String>) -> Seq<Seq<char>> {
    param_limb_views(p).map_values(|s: Seq<char>| trim0(s))
}

/// Every limb is hexadecimal and below the limb base.
pub open spec fn limbs_ok(ss: Seq<Seq<char>>) -> bool {
    forall|i: int|
        0 <= i < ss.len() ==> all_hex(#[trigger] ss[i]) && hex_val(ss[i]) < pow2_120()
}

/// The number denoted by little-endian base-2^120 hex limbs.
pub open spec fn limbs_val(ss: Seq<Seq<char>>) -> int
    decreases ss.len(),
{
    if ss.len() == 0 {
        0
    } else {
        hex_val(ss[0]) + pow2_120() * limbs_val(ss.drop_first())
    }
}

/// A parameter decodes when each of its trimmed limbs does.
pub open spec fn param_ok(p: ForeignCallParam<String>) -> bool {
    limbs_ok(param_trimmed(p))
}

/// The number a parameter decodes to.
pub open spec fn param_val(p: ForeignCallParam<String>) -> int {
    limbs_val(param_trimmed(p))
}

/// The `i`-th little-endian base-2^120 limb of a number.
pub open spec fn nth_limb(v: int, i: int) -> int {
    (v / vstd::arithmetic::power::pow(pow2_120(), i as nat)) % pow2_120()
}

/// Iterated truncated division by the limb base, the walk of the signed
/// limb encoder.
pub open spec fn trunc_div_iter(v: int, i: nat) -> int
    decreases i,
{
    if i == 0 {
        v
    } else {
        trunc_div(trunc_div_iter(v, (i - 1) as nat), pow2_120())
    }
}

/// Appending a limb adds its value at the next power of the base.
proof fn lemma_limbs_val_push(ss: Seq<Seq<char>>, x: Seq<char>)
    ensures
        limbs_val(ss.push(x)) == limbs_val(ss) + hex_val(x) * vstd::arithmetic::power::pow(
            pow2_120(),
            ss.len(),
        ),
    decreases ss.len(),
{
    reveal(vstd::arithmetic::power::pow);
    let s2 = ss.push(x);
    if ss.len() == 0 {
        assert(s2[0] == x);
        assert(s2.drop_first() =~= Seq::<Seq<char>>::empty());
        assert(limbs_val(Seq::<Seq<char>>::empty()) == 0);
        assert(limbs_val(s2) == hex_val(s2[0]) + pow2_120() * limbs_val(s2.drop_first()));
        assert(limbs_val(s2) == hex_val(x) + pow2_120() * 0);
        assert(vstd::arithmetic::power::pow(pow2_120(), 0) == 1);
        assert(hex_val(x) * 1 == hex_val(x)) by (nonlinear_arith);
    } else {
        assert(s2.drop_first() =~= ss.drop_first().push(x));
        lemma_limbs_val_push(ss.drop_first(), x);
        let s = pow2_120();
        let n = ss.len();
        let a = hex_val(ss[0]);
        let t = limbs_val(ss.drop_first());
        let hx = hex_val(x);
        let pw = vstd::arithmetic::power::pow(s, (n - 1) as nat);
        assert(vstd::arithmetic::power::pow(s, n) == s * pw);
        assert(s2[0] == ss[0]);
        assert(limbs_val(s2) == a + s * (t + hx * pw));
        assert(a + s * (t + hx * pw) == (a + s * t) + hx * (s * pw)) by (nonlinear_arith);
    }
}

/// Round trip of one coordinate the other way: re-encoding the number that
/// three canonical limbs denote gives the same three limbs back.
pub proof fn lemma_limbs_round_trip(l0: Seq<char>, l1: Seq<char>, l2: Seq<char>)
    requires
        crate::hex::is_canonical_hex(l0) && hex_val(l0) < pow2_120(),
        crate::hex::is_canonical_hex(l1) && hex_val(l1) < pow2_120(),
        crate::hex::is_canonical_hex(l2) && hex_val(l2) < pow2_120(),
    ensures
        hex_str(nth_limb(limbs_val(seq![l0, l1, l2]), 0)) == l0,
        hex_str(nth_limb(limbs_val(seq![l0, l1, l2]), 1)) == l1,
        hex_str(nth_limb(limbs_val(seq![l0, l1, l2]), 2)) == l2,
{
    reveal(vstd::arithmetic::power::pow);
    let s = pow2_120();
    assert(vstd::arithmetic::power::pow(s, 0) == 1);
    assert(vstd::arithmetic::power::pow(s, 1) == s * 1);
    assert(vstd::arithmetic::power::pow(s, 2) == s * (s * 1));
    let ss = seq![l0, l1, l2];
    let h0 = hex_val(l0);
    let h1 = hex_val(l1);
    let h2 = hex_val(l2);
    assert(all_hex(l0) && all_hex(l1) && all_hex(l2));
    crate::hex::lemma_hex_val_nonneg(l0);
    crate::hex::lemma_hex_val_nonneg(l1);
    crate::hex::lemma_hex_val_nonneg(l2);
    assert(ss.drop_first() =~= seq![l1, l2]);
    assert(ss.drop_first().drop_first() =~= seq![l2]);
    assert(ss.drop_first().drop_first().drop_first() =~= Seq::<Seq<char>>::empty());
    assert(limbs_val(Seq::<Seq<char>>::empty()) == 0);
    assert(ss[0] == l0);
    assert(ss.drop_first()[0] == l1);
    assert(ss.drop_first().drop_first()[0] == l2);
    assert(limbs_val(ss.drop_first().drop_first()) == h2 + s * 0);
    assert(limbs_val(ss.drop_first()) == h1 + s * limbs_val(ss.drop_first().drop_first()));
    assert(limbs_val(ss) == h0 + s * limbs_val(ss.drop_first()));
    assert(limbs_val(ss) == h0 + s * (h1 + s * (h2 + s * 0)));
    let v = limbs_val(ss);
    let q1 = h1 + s * h2;
    assert(v == h0 + s * q1 && q1 >= 0) by (nonlinear_arith)
        requires
            v == h0 + s * (h1 + s * (h2 + s * 0)),
            q1 == h1 + s * h2,
            h1 >= 0,
            h2 >= 0,
            s > 0,
    ;
    vstd::arithmetic::div_mod::lemma_fundamental_div_mod_converse(v, s, q1, h0);
    vstd::arithmetic::div_mod::lemma_fundamental_div_mod_converse(q1, s, h2, h1);
    assert(v >= 0);
    vstd::arithmetic::div_mod::lemma_div_basics(v);
    assert(nth_limb(v, 0) == v % s);
    assert(nth_limb(v, 1) == (v / (s * 1)) % s);
    assert(nth_limb(v, 2) == (v / (s * (s * 1))) % s);
    assert(v / (s * 1) == v / s);
    assert(v / (s * (s * 1)) == v / s / s) by {
        vstd::arithmetic::div_mod::lemma_div_denominator(v, s, s);
        assert(s * s == s * (s * 1)) by (nonlinear_arith);
    }
    assert(v / s / s == h2);
    assert(h2 % s == h2) by {
        vstd::arithmetic::div_mod::lemma_small_mod(h2 as nat, s as nat);
    }
    assert(nth_limb(v, 0) == h0 && nth_limb(v, 1) == h1 && nth_limb(v, 2) == h2);
    crate::hex::lemma_hex_canonical_round_trip(l0);
    crate::hex::lemma_hex_canonical_round_trip(l1);
    crate::hex::lemma_hex_canonical_round_trip(l2);
}

/// Decodes a list of trimmed hex limb strings, little-endian base 2^120.
/// A limb must be hexadecimal and below the base; the empty string is zero.
pub fn cast_to_biguint(input_strings: Vec<&str>) -> (res: Result<num_bigint::BigUint, DecodeError>)
    ensures
        res matches Ok(b) ==> limbs_ok(input_strings.deep_view()) && biguint_value(b) == limbs_val(
            input_strings.deep_view(),
        ),
        res matches Err(e) ==> !limbs_ok(input_strings.deep_view()) && (e == DecodeError::BadHex
            || e == DecodeError::LimbTooBig),
{
    let ghost dv = input_strings.deep_view();
    let shift = bu_from_u128(1329227995784915872903807060280344576);
    let mut shiftpow = bu_from_u64(1);
    let mut acc = bu_from_u64(0);
    proof {
        reveal(vstd::arithmetic::power::pow);
    }
    let n = input_strings.len();
    for i in 0..n
        invariant
            n == input_strings.len(),
            dv == input_strings.deep_view(),
            dv.len() == n,
            biguint_value(shift) == pow2_120(),
            biguint_value(shiftpow) == vstd::arithmetic::power::pow(pow2_120(), i as nat),
            biguint_value(acc) == limbs_val(dv.take(i as int)),
            limbs_ok(dv.take(i as int)),
    {
        let s = input_strings[i];
        proof {
            assert(dv[i as int] == s@);
        }
        let limb = match crate::hex::parse_hex_biguint(s) {
            Ok(b) => b,
            Err(_) => {
                proof {
                    assert(!all_hex(dv[i as int]));
                }
                return Err(DecodeError::BadHex);
            },
        };
        if !bu_lt(&limb, &shift) {
            proof {
                assert(hex_val(dv[i as int]) >= pow2_120());
            }
            return Err(DecodeError::LimbTooBig);
        }
        acc = bu_add(&acc, &bu_mul(&limb, &shiftpow));
        shiftpow = bu_mul(&shiftpow, &shift);
        proof {
            reveal(vstd::arithmetic::power::pow);
            assert(dv.take(i + 1) =~= dv.take(i as int).push(dv[i as int]));
            lemma_limbs_val_push(dv.take(i as int), dv[i as int]);
            let s120 = pow2_120();
            let pw = vstd::arithmetic::power::pow(s120, i as nat);
            assert(vstd::arithmetic::power::pow(s120, (i + 1) as nat) == s120 * pw);
            assert(s120 * pw == pw * s120) by (nonlinear_arith);
            assert(forall|j: int|
                0 <= j < i + 1 ==> all_hex(#[trigger] dv.take(i + 1)[j]) && hex_val(
                    dv.take(i + 1)[j],
                ) < pow2_120());
        }
    }
    proof {
        assert(dv.take(n as int) =~= dv);
    }
    Ok(acc)
}

/// Encodes a non-negative number as `num_limbs` little-endian base-2^120
/// lowercase hex limbs; limbs beyond the value's width spell zero.
pub fn cast_biguint_to_bignum_limbs(input: &num_bigint::BigUint, num_limbs: u32) -> (r: Vec<
    String,
>)
    requires
        biguint_value(*input) >= 0,
    ensures
        r@.len() == num_limbs,
        forall|i: int|
            0 <= i < num_limbs ==> r@[i]@ == hex_str(
                #[trigger] nth_limb(biguint_value(*input), i),
            ),
{
    let ghost v = biguint_value(*input);
    let shift = bu_from_u128(1329227995784915872903807060280344576);
    let mut input_copy = crate::bignum::bu_clone(input);
    let mut limbs_hex: Vec<String> = Vec::new();
    proof {
        reveal(vstd::arithmetic::power::pow);
        assert(vstd::arithmetic::power::pow(pow2_120(), 0) == 1);
        vstd::arithmetic::div_mod::lemma_div_basics(v);
    }
    let n = num_limbs;
    for i in 0..n
        invariant
            v >= 0,
            biguint_value(shift) == pow2_120(),
            biguint_value(input_copy) == v / vstd::arithmetic::power::pow(pow2_120(), i as nat),
            limbs_hex@.len() == i,
            forall|j: int|
                0 <= j < i ==> limbs_hex@[j]@ == hex_str(#[trigger] nth_limb(v, j)),
    {
        let remainder = bu_rem(&input_copy, &shift);
        let limb = bu_to_u128(&remainder);
        limbs_hex.push(crate::hex::u128_to_hex(limb));
        let quotient = bu_div(&input_copy, &shift);
        input_copy = quotient;
        proof {
            reveal(vstd::arithmetic::power::pow);
            let s120 = pow2_120();
            let pw = vstd::arithmetic::power::pow(s120, i as nat);
            vstd::arithmetic::power::lemma_pow_positive(s120, i as nat);
            assert(vstd::arithmetic::power::pow(s120, (i + 1) as nat) == s120 * pw);
            assert(s120 * pw == pw * s120) by (nonlinear_arith);
            vstd::arithmetic::div_mod::lemma_div_denominator(v, pw, s120);
        }
    }
    limbs_hex
}

/// Encodes a signed number as `num_limbs` limbs of truncated division by
/// the base: each limb is the truncated remainder, with the sign of what is
/// left of the value, as `num_bigint` spells it.
pub fn cast_bigint_to_bignum_limbs(input: &num_bigint::BigInt, num_limbs: u32) -> (r: Vec<String>)
    ensures
        r@.len() == num_limbs,
        forall|i: int|
            0 <= i < num_limbs ==> r@[i]@ == hex_str_signed(
                trunc_rem(#[trigger] trunc_div_iter(bigint_value(*input), i as nat), pow2_120()),
            ),
{
    let ghost v = bigint_value(*input);
    let shift = crate::bignum::bi_from_biguint(
        &bu_from_u128(1329227995784915872903807060280344576),
    );
    let zero = crate::bignum::bi_from_i64(0);
    let mut input_copy = crate::bignum::bi_clone(input);
    let mut limbs_hex: Vec<String> = Vec::new();
    let n = num_limbs;
    for i in 0..n
        invariant
            bigint_value(shift) == pow2_120(),
            bigint_value(zero) == 0,
            bigint_value(input_copy) == trunc_div_iter(v, i as nat),
            limbs_hex@.len() == i,
            forall|j: int|
                0 <= j < i ==> limbs_hex@[j]@ == hex_str_signed(
                    trunc_rem(#[trigger] trunc_div_iter(v, j as nat), pow2_120()),
                ),
    {
        let remainder = crate::bignum::bi_rem(&input_copy, &shift);
        let hexed: String;
        if crate::bignum::bi_lt(&remainder, &zero) {
            let magnitude = crate::bignum::bi_to_biguint(
                &crate::bignum::bi_sub(&zero, &remainder),
            ).unwrap();
            let m = bu_to_u128(&magnitude);
            let mut sgn = String::new();
            proof {
                reveal_strlit("-");
            }
            sgn.append("-");
            let digits = crate::hex::u128_to_hex(m);
            sgn.append(digits.as_str());
            proof {
                assert(sgn@ =~= seq!['-'] + hex_str(m as int));
            }
            hexed = sgn;
        } else {
            let m = bu_to_u128(&crate::bignum::bi_to_biguint(&remainder).unwrap());
            hexed = crate::hex::u128_to_hex(m);
        }
        limbs_hex.push(hexed);
        let quotient = crate::bignum::bi_div(&input_copy, &shift);
        input_copy = quotient;
    }
    limbs_hex
}

/// Serializes an extension-field element as 36 hex limbs: three base-2^120
/// limbs for each of the twelve canonical coordinates, in tower order.
pub fn cast_fp12_to_noir_fp12(input: FieldElt) -> (r: Vec<String>)
    ensures
        r@.len() == 36,
        forall|i: int|
            0 <= i < 36 ==> r@[i]@ == hex_str(#[trigger] nth_limb(
                fq12_coords(input)[i / 3],
                i % 3,
            )),
{
    let ghost cs = fq12_coords(input);
    let coords = crate::field::fq12_to_biguints(&input);
    let mut results_formatted: Vec<String> = Vec::new();
    for j in 0..12usize
        invariant
            coords@.len() == 12,
            cs == fq12_coords(input),
            forall|k: int|
                0 <= k < 12 ==> biguint_value(#[trigger] coords@[k]) == cs[k] && cs[k] >= 0,
            results_formatted@.len() == 3 * j,
            forall|i: int|
                0 <= i < 3 * j ==> results_formatted@[i]@ == hex_str(#[trigger] nth_limb(
                    cs[i / 3],
                    i % 3,
                )),
    {
        proof {
            assert(biguint_value(coords@[j as int]) == cs[j as int]);
        }
        let limbs = cast_biguint_to_bignum_limbs(&coords[j], 3);
        let mut k: usize = 0;
        while k < 3
            invariant
                0 <= k <= 3,
                j < 12,
                coords@.len() == 12,
                cs == fq12_coords(input),
                forall|t: int| 0 <= t < 12 ==> biguint_value(coords@[t]) == cs[t] && cs[t] >= 0,
                limbs@.len() == 3,
                forall|t: int|
                    0 <= t < 3 ==> limbs@[t]@ == hex_str(#[trigger] nth_limb(cs[j as int], t)),
                results_formatted@.len() == 3 * j + k,
                forall|i: int|
                    0 <= i < 3 * j + k ==> results_formatted@[i]@ == hex_str(#[trigger] nth_limb(
                        cs[i / 3],
                        i % 3,
                    )),
            decreases 3 - k,
        {
            let limb = limbs[k].clone();
            results_formatted.push(limb);
            proof {
                let idx = 3 * (j as int) + k;
                assert(idx / 3 == j as int && idx % 3 == k as int) by (nonlinear_arith)
                    requires
                        0 <= k < 3,
                        0 <= j < 12,
                        idx == 3 * (j as int) + k,
                ;
            }
            k = k + 1;
        }
    }
    results_formatted
}


/// The twelve coordinate parameters all decode.
pub open spec fn decoded_ok(inputs: Seq<ForeignCallParam<String>>) -> bool {
    inputs.len() == 12 && forall|i: int| 0 <= i < 12 ==> param_ok(#[trigger] inputs[i])
}

/// The canonical coordinates encoded by the twelve parameters, reduced
/// modulo `p`.
pub open spec fn decoded_coords(inputs: Seq<ForeignCallParam<String>>) -> Seq<int> {
    Seq::new(12, |i: int| param_val(inputs[i]) % p_val())
}

/// `out` is the 36-limb hex serialization of the coordinates `c`.
pub open spec fn is_limb_encoding(c: Seq<int>, out: Seq<Seq<char>>) -> bool {
    out.len() == 36 && forall|i: int|
        0 <= i < 36 ==> out[i] == hex_str(#[trigger] nth_limb(c[i / 3], i % 3))
}

/// The limb strings of a parameter, each with leading zeros removed.
pub fn callparam_to_string<'a>(input: &'a ForeignCallParam<String>) -> (r: Vec<&'a str>)
    ensures
        r.deep_view() == param_trimmed(*input),
{
    match input {
        ForeignCallParam::Single(value) => {
            let mut v: Vec<&str> = Vec::new();
            v.push(crate::hex::trim_leading_zeros(value.as_str()));
            proof {
                assert(v.deep_view() =~= param_trimmed(*input));
            }
            v
        },
        ForeignCallParam::Array(values) => {
            let n = values.len();
            let mut v: Vec<&str> = Vec::new();
            for i in 0..n
                invariant
                    n == values@.len(),
                    v.deep_view().len() == i,
                    forall|j: int| 0 <= j < i ==> v.deep_view()[j] == trim0(#[trigger] values@[j]@),
            {
                v.push(crate::hex::trim_leading_zeros(values[i].as_str()));
            }
            proof {
                assert(v.deep_view() =~= param_trimmed(*input));
            }
            v
        },
    }
}

/// Decodes the twelve coordinate parameters into a field element.  The
/// parameter count must be exactly twelve; each parameter carries the hex
/// limbs of one coordinate, little-endian base 2^120.
pub fn get_fq12_from_callparam(inputs: &Vec<ForeignCallParam<String>>) -> (res: Result<
    FieldElt,
    DecodeError,
>)
    ensures
        res matches Ok(f) ==> decoded_ok(inputs@) && fq12_coords(f) == decoded_coords(inputs@),
        res matches Err(e) ==> !decoded_ok(inputs@),
        res matches Err(e) ==> ((e == DecodeError::WrongCount) <==> inputs@.len() != 12),
{
    if inputs.len() != 12 {
        return Err(DecodeError::WrongCount);
    }
    let mut vals: Vec<num_bigint::BigUint> = Vec::new();
    for i in 0..12usize
        invariant
            inputs@.len() == 12,
            vals@.len() == i,
            forall|j: int|
                0 <= j < i ==> param_ok(#[trigger] inputs@[j]) && biguint_value(vals@[j])
                    == param_val(inputs@[j]),
    {
        let strs = callparam_to_string(&inputs[i]);
        let b = match cast_to_biguint(strs) {
            Ok(b) => b,
            Err(e) => {
                proof {
                    assert(!param_ok(inputs@[i as int]));
                }
                return Err(e);
            },
        };
        vals.push(b);
    }
    let f = crate::field::fq12_from_biguints(&vals);
    proof {
        assert(fq12_coords(f) =~= decoded_coords(inputs@));
    }
    Ok(f)
}

/// Parses trimmed hex limb strings into scalar-field elements, each value
/// reduced modulo `r`; an empty string is zero.
pub fn gets_limbs(input_strings: Vec<&str>) -> (res: Result<Vec<ScalarElt>, DecodeError>)
    ensures
        res matches Ok(v) ==> {
            &&& forall|i: int|
                0 <= i < input_strings.deep_view().len() ==> all_hex(
                    #[trigger] input_strings.deep_view()[i],
                )
            &&& v@.len() == input_strings.deep_view().len()
            &&& forall|i: int|
                0 <= i < v@.len() ==> v@[i] == crate::field::fr_of(
                    hex_val(#[trigger] input_strings.deep_view()[i]) % r_val(),
                )
        },
        res matches Err(e) ==> e == DecodeError::BadHex && !(forall|i: int|
            0 <= i < input_strings.deep_view().len() ==> all_hex(
                #[trigger] input_strings.deep_view()[i],
            )),
{
    let ghost dv = input_strings.deep_view();
    let n = input_strings.len();
    let mut limbs: Vec<ScalarElt> = Vec::new();
    for i in 0..n
        invariant
            n == input_strings@.len(),
            dv == input_strings.deep_view(),
            dv.len() == n,
            limbs@.len() == i,
            forall|j: int| 0 <= j < i ==> all_hex(#[trigger] dv[j]),
            forall|j: int|
                0 <= j < i ==> limbs@[j] == crate::field::fr_of(hex_val(#[trigger] dv[j]) % r_val()),
    {
        let s = input_strings[i];
        proof {
            assert(dv[i as int] == s@);
        }
        let b = match crate::hex::parse_hex_biguint(s) {
            Ok(b) => b,
            Err(_) => {
                proof {
                    assert(!all_hex(dv[i as int]));
                }
                return Err(DecodeError::BadHex);
            },
        };
        limbs.push(crate::field::fr_from_biguint(&b));
    }
    Ok(limbs)
}

/// A parameter whose first trimmed limb is hex and fits a 32-bit word.
pub open spec fn word_param_ok(p: ForeignCallParam<String>) -> bool {
    &&& crate::foreign_call::param_count(p) >= 1
    &&& all_hex(param_trimmed(p)[0])
    &&& hex_val(param_trimmed(p)[0]) < 0x100000000
}

/// Reads the first limb of a parameter as a 32-bit hex value.
pub fn get_u32_from_callparam(input: &ForeignCallParam<String>) -> (res: Result<u32, DecodeError>)
    ensures
        res matches Ok(v) ==> word_param_ok(*input) && v == hex_val(param_trimmed(*input)[0]),
        res matches Err(e) ==> !word_param_ok(*input),
{
    let strs = callparam_to_string(input);
    proof {
        assert(strs.deep_view().len() == strs@.len());
        assert(param_trimmed(*input).len() == param_limb_views(*input).len());
        assert(param_limb_views(*input).len() == crate::foreign_call::param_count(*input));
    }
    if strs.len() == 0 {
        return Err(DecodeError::WrongCount);
    }
    proof {
        assert(strs.deep_view()[0] == strs@[0]@);
    }
    let b = match crate::hex::parse_hex_biguint(strs[0]) {
        Ok(b) => b,
        Err(e) => { return Err(e) },
    };
    let bound = bu_from_u64(4294967296);
    if !bu_lt(&b, &bound) {
        return Err(DecodeError::LimbTooBig);
    }
    let w = bu_to_u128(&b);
    Ok(w as u32)
}

/// Reads the first limb of a parameter as a boolean: true exactly for the
/// hex value one.
pub fn get_bool_from_callparam(input: &ForeignCallParam<String>) -> (res: Result<
    bool,
    DecodeError,
>)
    ensures
        res matches Ok(v) ==> word_param_ok(*input) && v == (hex_val(param_trimmed(*input)[0])
            == 1),
        res matches Err(e) ==> !word_param_ok(*input),
{
    let w = match get_u32_from_callparam(input) {
        Ok(w) => w,
        Err(e) => { return Err(e) },
    };
    Ok(w == 1)
}

/// Every limb of a parameter is hexadecimal.
pub open spec fn limbs_param_hex(p: ForeignCallParam<String>) -> bool {
    forall|i: int|
        0 <= i < param_trimmed(p).len() ==> all_hex(#[trigger] param_trimmed(p)[i])
}

/// The shape under which a parameter list yields a `Params` value.
pub open spec fn params_shape_ok(inputs: Seq<ForeignCallParam<String>>) -> bool {
    &&& inputs.len() >= 6
    &&& word_param_ok(inputs[0])
    &&& param_ok(inputs[1])
    &&& limbs_param_hex(inputs[4])
    &&& limbs_param_hex(inputs[5])
}

/// The big-number parameter block of the calling toolchain: a flag, the
/// modulus, and two derived limb vectors.
pub struct Params {
    pub has_multiplicative_inverse: bool,
    pub modulus: num_bigint::BigUint,
    pub double_modulus: Vec<ScalarElt>,
    pub redc_param: Vec<ScalarElt>,
}

impl Params {
    /// Decodes a `Params` block from the foreign-call parameters: the flag
    /// at position zero, the modulus at one, the doubled modulus at four and
    /// the reduction parameter at five.
    pub fn from_foreign_call_params(inputs: &Vec<ForeignCallParam<String>>) -> (res: Result<
        Params,
        DecodeError,
    >)
        ensures
            res matches Ok(p) ==> {
                &&& params_shape_ok(inputs@)
                &&& p.has_multiplicative_inverse == (hex_val(param_trimmed(inputs@[0])[0]) == 1)
                &&& biguint_value(p.modulus) == param_val(inputs@[1])
                &&& p.double_modulus@.len() == param_trimmed(inputs@[4]).len()
                &&& forall|i: int|
                    0 <= i < p.double_modulus@.len() ==> p.double_modulus@[i]
                        == crate::field::fr_of(hex_val(
                        #[trigger] param_trimmed(inputs@[4])[i],
                    ) % r_val())
                &&& p.redc_param@.len() == param_trimmed(inputs@[5]).len()
                &&& forall|i: int|
                    0 <= i < p.redc_param@.len() ==> p.redc_param@[i] == crate::field::fr_of(
                        hex_val(#[trigger] param_trimmed(inputs@[5])[i]) % r_val(),
                    )
            },
            res matches Err(e) ==> !params_shape_ok(inputs@),
    {
        if inputs.len() < 6 {
            return Err(DecodeError::WrongCount);
        }
        let has_multiplicative_inverse = match get_bool_from_callparam(&inputs[0]) {
            Ok(b) => b,
            Err(e) => { return Err(e) },
        };
        let modulus_str = callparam_to_string(&inputs[1]);
        let modulus = match cast_to_biguint(modulus_str) {
            Ok(b) => b,
            Err(e) => { return Err(e) },
        };
        let double_modulus = match gets_limbs(callparam_to_string(&inputs[4])) {
            Ok(v) => v,
            Err(e) => { return Err(e) },
        };
        let redc_param = match gets_limbs(callparam_to_string(&inputs[5])) {
            Ok(v) => v,
            Err(e) => { return Err(e) },
        };
        Ok(
            Params {
                has_multiplicative_inverse,
                modulus,
                double_modulus,
                redc_param,
            },
        )
    }
}


/// What the oracle hands back for one request, before JSON framing: limb
/// lists, scalar strings, a plain text, or the opaque unknown-function
/// sentinel.
#[derive(Debug, PartialEq, Eq, Clone)]
pub enum OracleResponse {
    /// One inner limb list per returned field element.
    Values(Vec<Vec<String>>),
    /// Scalar string values.
    Scalars(Vec<String>),
    /// A plain text reply.
    Text(String),
    /// The sentinel for an unknown function name.
    Oops,
}

/// A request that failed: the input did not decode, or a field-side search
/// gave up.
#[derive(Debug, PartialEq, Eq, Clone, Copy)]
pub enum OracleError {
    Decode(DecodeError),
    Domain(crate::ops::DomainError),
}

/// The cube-root response: one encoded element whose cube has the decoded
/// input's coordinates.
pub open spec fn third_root_response(
    inputs: Seq<ForeignCallParam<String>>,
    r: OracleResponse,
) -> bool {
    &&& decoded_ok(inputs)
    &&& r matches OracleResponse::Values(vv) && vv.deep_view().len() == 1 && exists|cc: Seq<int>|
        crate::field::pow_coords(cc, 3) == decoded_coords(inputs) && #[trigger] is_limb_encoding(
            cc,
            vv.deep_view()[0],
        )
}

/// The residue-test response: the single scalar `"1"` or `"0"` according to
/// the decoded input's cubic-residue class.
pub open spec fn is_third_root_response(
    inputs: Seq<ForeignCallParam<String>>,
    r: OracleResponse,
) -> bool {
    &&& decoded_ok(inputs)
    &&& r matches OracleResponse::Scalars(v) && v.deep_view().len() == 1 && v.deep_view()[0] == (
    if crate::ops::is_cubic_residue(decoded_coords(inputs)) {
        "1"@
    } else {
        "0"@
    })
}

/// The sampled-residue response: one encoded cubic residue.
pub open spec fn random_third_root_response(r: OracleResponse) -> bool {
    r matches OracleResponse::Values(vv) && vv.deep_view().len() == 1 && exists|cc: Seq<int>|
        crate::ops::is_cubic_residue(cc) && #[trigger] is_limb_encoding(cc, vv.deep_view()[0])
}

/// The witness response: the encodings of a pair related to the decoded
/// input by the witness construction.
pub open spec fn witnesses_response(
    inputs: Seq<ForeignCallParam<String>>,
    r: OracleResponse,
) -> bool {
    &&& decoded_ok(inputs)
    &&& r matches OracleResponse::Values(vv) && vv.deep_view().len() == 2 && exists|
        cc: Seq<int>,
        uc: Seq<int>,
    |
        crate::ops::witness_post(decoded_coords(inputs), cc, uc) && #[trigger] is_limb_encoding(
            cc,
            vv.deep_view()[0],
        ) && #[trigger] is_limb_encoding(uc, vv.deep_view()[1])
}

/// How the cube-root operation fails: a decode error exactly when the
/// input does not decode, and the residue error only on a decoded input
/// that fails the cubic-residue test.
pub open spec fn third_root_error(inputs: Seq<ForeignCallParam<String>>, e: OracleError) -> bool {
    &&& ((e matches OracleError::Decode(_)) <==> !decoded_ok(inputs))
    &&& (e == OracleError::Domain(crate::ops::DomainError::NotCubicResidue) ==> decoded_ok(inputs)
        && !crate::ops::is_cubic_residue(decoded_coords(inputs)))
}

/// How the witness operation fails: a decode error exactly when the input
/// does not decode, and the residue error only when some constructed
/// intermediate fails the cubic-residue test.
pub open spec fn witnesses_error(inputs: Seq<ForeignCallParam<String>>, e: OracleError) -> bool {
    &&& ((e matches OracleError::Decode(_)) <==> !decoded_ok(inputs))
    &&& (e == OracleError::Domain(crate::ops::DomainError::NotCubicResidue) ==> decoded_ok(inputs)
        && crate::ops::witness_failed_residue(decoded_coords(inputs)))
}

/// The placeholder reply of the reserved `witness_gen` operation.
pub open spec fn witness_gen_response(r: OracleResponse) -> bool {
    r matches OracleResponse::Text(s) && s@ == "Hello, world!"@
}

/// The reserved operation: a fixed placeholder string.
pub fn handle_witness_gen(_inputs: &Vec<ForeignCallParam<String>>) -> (r: OracleResponse)
    ensures
        witness_gen_response(r),
{
    OracleResponse::Text(String::from_str("Hello, world!"))
}

/// Decodes the input, extracts its cube root, and re-encodes it.
pub fn handle_third_root(inputs: &Vec<ForeignCallParam<String>>) -> (res: Result<
    OracleResponse,
    OracleError,
>)
    ensures
        res matches Ok(r) ==> third_root_response(inputs@, r),
        res matches Err(e) ==> third_root_error(inputs@, e),
        !decoded_ok(inputs@) ==> res is Err,
        decoded_ok(inputs@) && !crate::ops::is_cubic_residue(decoded_coords(inputs@)) ==> res
            == Err::<OracleResponse, OracleError>(
            OracleError::Domain(crate::ops::DomainError::NotCubicResidue),
        ),
{
    let fp12 = match get_fq12_from_callparam(inputs) {
        Ok(f) => f,
        Err(e) => { return Err(OracleError::Decode(e)) },
    };
    let result = match crate::ops::WitnessGenerator::tonelli_shanks_third_root(fp12) {
        Ok(c) => c,
        Err(e) => { return Err(OracleError::Domain(e)) },
    };
    let ghost cc = fq12_coords(result);
    let results_formatted = cast_fp12_to_noir_fp12(result);
    let mut return_vec: Vec<Vec<String>> = Vec::new();
    return_vec.push(results_formatted);
    proof {
        assert(return_vec.deep_view()[0] =~= results_formatted.deep_view());
        assert(is_limb_encoding(cc, return_vec.deep_view()[0]));
        assert(third_root_response(inputs@, OracleResponse::Values(return_vec)));
    }
    Ok(OracleResponse::Values(return_vec))
}

/// Decodes the input and answers the cubic-residue test as `"1"` or `"0"`.
pub fn handle_is_third_root(inputs: &Vec<ForeignCallParam<String>>) -> (res: Result<
    OracleResponse,
    OracleError,
>)
    ensures
        res matches Ok(r) ==> is_third_root_response(inputs@, r),
        res matches Err(e) ==> e matches OracleError::Decode(_) && !decoded_ok(inputs@),
        decoded_ok(inputs@) ==> res is Ok,
        !decoded_ok(inputs@) ==> res is Err,
{
    let fp12 = match get_fq12_from_callparam(inputs) {
        Ok(f) => f,
        Err(e) => { return Err(OracleError::Decode(e)) },
    };
    let result = crate::ops::WitnessGenerator::is_third_root(&fp12);
    let as_hex_str = if result {
        String::from_str("1")
    } else {
        String::from_str("0")
    };
    let mut results: Vec<String> = Vec::new();
    results.push(as_hex_str);
    proof {
        assert(results.deep_view().len() == 1);
        assert(results.deep_view()[0] == results@[0]@);
    }
    Ok(OracleResponse::Scalars(results))
}

/// Samples a cubic residue and encodes it; the inputs are ignored.
pub fn handle_random_third_root(_inputs: &Vec<ForeignCallParam<String>>) -> (res: Result<
    OracleResponse,
    OracleError,
>)
    ensures
        res matches Ok(r) ==> random_third_root_response(r),
        res matches Err(e) ==> e == OracleError::Domain(crate::ops::DomainError::SamplingFailed),
{
    let result = match crate::ops::WitnessGenerator::rand_third_root() {
        Ok(a) => a,
        Err(e) => { return Err(OracleError::Domain(e)) },
    };
    let ghost cc = fq12_coords(result);
    let results_formatted = cast_fp12_to_noir_fp12(result);
    let mut return_vec: Vec<Vec<String>> = Vec::new();
    return_vec.push(results_formatted);
    proof {
        assert(return_vec.deep_view()[0] =~= results_formatted.deep_view());
        assert(is_limb_encoding(cc, return_vec.deep_view()[0]));
        assert(crate::ops::is_cubic_residue(cc));
        assert(return_vec.deep_view().len() == 1);
        assert(exists|c2: Seq<int>|
            crate::ops::is_cubic_residue(c2) && #[trigger] is_limb_encoding(
                c2,
                return_vec.deep_view()[0],
            ));
        assert(random_third_root_response(OracleResponse::Values(return_vec)));
    }
    Ok(OracleResponse::Values(return_vec))
}

/// Decodes the input, builds the witness pair, and encodes both elements.
pub fn handle_get_pairing_witnesses(inputs: &Vec<ForeignCallParam<String>>) -> (res: Result<
    OracleResponse,
    OracleError,
>)
    ensures
        res matches Ok(r) ==> witnesses_response(inputs@, r),
        res matches Err(e) ==> witnesses_error(inputs@, e),
        !decoded_ok(inputs@) ==> res is Err,
{
    let fp12 = match get_fq12_from_callparam(inputs) {
        Ok(f) => f,
        Err(e) => { return Err(OracleError::Decode(e)) },
    };
    let (c, u) = match crate::ops::WitnessGenerator::witness_generator(fp12) {
        Ok(cu) => cu,
        Err(e) => { return Err(OracleError::Domain(e)) },
    };
    let ghost cc = fq12_coords(c);
    let ghost uc = fq12_coords(u);
    let c_formatted = cast_fp12_to_noir_fp12(c);
    let u_formatted = cast_fp12_to_noir_fp12(u);
    let mut return_vec: Vec<Vec<String>> = Vec::new();
    return_vec.push(c_formatted);
    return_vec.push(u_formatted);
    proof {
        assert(return_vec.deep_view()[0] =~= return_vec@[0].deep_view());
        assert(return_vec.deep_view()[1] =~= return_vec@[1].deep_view());
        assert(is_limb_encoding(cc, return_vec.deep_view()[0]));
        assert(is_limb_encoding(uc, return_vec.deep_view()[1]));
        assert(witnesses_response(inputs@, OracleResponse::Values(return_vec)));
    }
    Ok(OracleResponse::Values(return_vec))
}

/// Routes a request by function name: the five known operations, or the
/// opaque sentinel for anything else.
pub fn dispatch(function: &String, inputs: &Vec<ForeignCallParam<String>>) -> (res: Result<
    OracleResponse,
    OracleError,
>)
    ensures
        res matches Ok(r) ==> {
            &&& (function@ == "witness_gen"@ ==> witness_gen_response(r))
            &&& (function@ == "third_root"@ ==> third_root_response(inputs@, r))
            &&& (function@ == "is_third_root"@ ==> is_third_root_response(inputs@, r))
            &&& (function@ == "random_third_root"@ ==> random_third_root_response(r))
            &&& (function@ == "get_pairing_witnesses"@ ==> witnesses_response(inputs@, r))
            &&& (function@ != "witness_gen"@ && function@ != "third_root"@ && function@
                != "is_third_root"@ && function@ != "random_third_root"@ && function@
                != "get_pairing_witnesses"@ ==> r == OracleResponse::Oops)
        },
        res matches Err(e) ==> {
            &&& (function@ == "third_root"@ ==> third_root_error(inputs@, e))
            &&& (function@ == "is_third_root"@ ==> (e matches OracleError::Decode(_))
                && !decoded_ok(inputs@))
            &&& (function@ == "random_third_root"@ ==> e == OracleError::Domain(
                crate::ops::DomainError::SamplingFailed,
            ))
            &&& (function@ == "get_pairing_witnesses"@ ==> witnesses_error(inputs@, e))
        },
        function@ == "witness_gen"@ ==> res is Ok,
        function@ == "is_third_root"@ && decoded_ok(inputs@) ==> res is Ok,
        function@ == "is_third_root"@ && !decoded_ok(inputs@) ==> res is Err,
        function@ == "third_root"@ && !decoded_ok(inputs@) ==> res is Err,
        function@ == "get_pairing_witnesses"@ && !decoded_ok(inputs@) ==> res is Err,
        function@ == "third_root"@ && decoded_ok(inputs@) && !crate::ops::is_cubic_residue(
            decoded_coords(inputs@),
        ) ==> res == Err::<OracleResponse, OracleError>(
            OracleError::Domain(crate::ops::DomainError::NotCubicResidue),
        ),
        function@ != "witness_gen"@ && function@ != "third_root"@ && function@
            != "is_third_root"@ && function@ != "random_third_root"@ && function@
            != "get_pairing_witnesses"@ ==> res is Ok,
{
    proof {
        broadcast use vstd::string::group_string_axioms;

        reveal_strlit("witness_gen");
        reveal_strlit("third_root");
        reveal_strlit("is_third_root");
        reveal_strlit("random_third_root");
        reveal_strlit("get_pairing_witnesses");
        assert("witness_gen"@.len() == 11);
        assert("third_root"@.len() == 10);
        assert("is_third_root"@.len() == 13);
        assert("random_third_root"@.len() == 17);
        assert("get_pairing_witnesses"@.len() == 21);
    }
    if function.eq(&String::from_str("witness_gen")) {
        Ok(handle_witness_gen(inputs))
    } else if function.eq(&String::from_str("third_root")) {
        handle_third_root(inputs)
    } else if function.eq(&String::from_str("is_third_root")) {
        handle_is_third_root(inputs)
    } else if function.eq(&String::from_str("random_third_root")) {
        handle_random_third_root(inputs)
    } else if function.eq(&String::from_str("get_pairing_witnesses")) {
        handle_get_pairing_witnesses(inputs)
    } else {
        Ok(OracleResponse::Oops)
    }
}


/// Every limb of an encoded non-negative number lies below the base: the
/// limb-bound law of the codec.
pub proof fn lemma_limb_bounds(v: int, i: int)
    requires
        v >= 0,
        i >= 0,
    ensures
        0 <= nth_limb(v, i) < pow2_120(),
{
    vstd::arithmetic::power::lemma_pow_positive(pow2_120(), i as nat);
}

/// Round trip of one coordinate: the three limbs an encoder produces,
/// trimmed of leading zeros as the decoder receives them, denote the
/// coordinate again.
pub proof fn lemma_coord_round_trip(v: int)
    requires
        0 <= v < pow2_120() * pow2_120() * pow2_120(),
    ensures
        limbs_val(
            seq![
                trim0(hex_str(nth_limb(v, 0))),
                trim0(hex_str(nth_limb(v, 1))),
                trim0(hex_str(nth_limb(v, 2))),
            ],
        ) == v,
{
    reveal(vstd::arithmetic::power::pow);
    let s = pow2_120();
    assert(vstd::arithmetic::power::pow(s, 0) == 1);
    assert(vstd::arithmetic::power::pow(s, 1) == s * 1);
    assert(vstd::arithmetic::power::pow(s, 2) == s * (s * 1));
    let l0 = nth_limb(v, 0);
    let l1 = nth_limb(v, 1);
    let l2 = nth_limb(v, 2);
    vstd::arithmetic::div_mod::lemma_div_basics(v);
    assert(l0 == v % s);
    assert(l1 == (v / (s * 1)) % s);
    assert(l2 == (v / (s * (s * 1))) % s);
    lemma_limb_bounds(v, 0);
    lemma_limb_bounds(v, 1);
    lemma_limb_bounds(v, 2);
    lemma_hex_trim_round_trip(l0);
    lemma_hex_trim_round_trip(l1);
    lemma_hex_trim_round_trip(l2);
    let ss = seq![trim0(hex_str(l0)), trim0(hex_str(l1)), trim0(hex_str(l2))];
    assert(ss.drop_first() =~= seq![trim0(hex_str(l1)), trim0(hex_str(l2))]);
    assert(ss.drop_first().drop_first() =~= seq![trim0(hex_str(l2))]);
    assert(ss.drop_first().drop_first().drop_first() =~= Seq::<Seq<char>>::empty());
    assert(limbs_val(Seq::<Seq<char>>::empty()) == 0);
    assert(ss[0] == trim0(hex_str(l0)));
    assert(ss.drop_first()[0] == trim0(hex_str(l1)));
    assert(ss.drop_first().drop_first()[0] == trim0(hex_str(l2)));
    assert(limbs_val(ss.drop_first().drop_first()) == hex_val(trim0(hex_str(l2))) + s * 0);
    assert(limbs_val(ss.drop_first()) == hex_val(trim0(hex_str(l1))) + s * limbs_val(
        ss.drop_first().drop_first(),
    ));
    assert(limbs_val(ss) == hex_val(trim0(hex_str(l0))) + s * limbs_val(ss.drop_first()));
    assert(limbs_val(ss) == l0 + s * (l1 + s * (l2 + s * 0)));
    vstd::arithmetic::div_mod::lemma_fundamental_div_mod(v, s);
    vstd::arithmetic::div_mod::lemma_fundamental_div_mod(v / s, s);
    assert(v / (s * 1) == v / s);
    assert(v / s / s == v / (s * (s * 1))) by {
        vstd::arithmetic::div_mod::lemma_div_denominator(v, s, s);
        assert(s * s == s * (s * 1)) by (nonlinear_arith);
    }
    assert(v / s / s < s) by {
        assert(v < (s * s) * s) by (nonlinear_arith)
            requires
                v < s * (s * 1) * s,
        ;
        vstd::arithmetic::div_mod::lemma_div_denominator(v, s, s);
        assert(v / (s * s) < s) by {
            vstd::arithmetic::div_mod::lemma_multiply_divide_lt(v, s * s, s);
        }
    }
    assert(l2 == v / s / s) by {
        vstd::arithmetic::div_mod::lemma_small_mod((v / s / s) as nat, s as nat);
    }
    assert(v == l0 + s * (l1 + s * l2)) by (nonlinear_arith)
        requires
            v == s * (v / s) + l0,
            v / s == s * (v / s / s) + l1,
            l2 == v / s / s,
    ;
    assert(l1 + s * (l2 + s * 0) == l1 + s * l2) by (nonlinear_arith);
}

} // verus!
