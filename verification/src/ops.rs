//! The witness-generation operations.

use vstd::prelude::*;

use crate::bignum::bi_add;
use crate::bignum::bi_div;
use crate::bignum::bi_eq;
use crate::bignum::bi_from_biguint;
use crate::bignum::bi_from_i64;
use crate::bignum::bi_lt;
use crate::bignum::bi_mul;
use crate::bignum::bi_rem;
use crate::bignum::bi_sub;
use crate::bignum::bu_add;
use crate::bignum::bu_div;
use crate::bignum::bu_from_u64;
use crate::bignum::bu_pow;
use crate::bignum::bu_sub;
use crate::bignum::bu_to_u64_digits;
use crate::bignum::bigint_value;
use crate::bignum::biguint_value;

verus! {

/// The operations live as associated functions of this (stateless) type.
pub struct WitnessGenerator {}

/// The negative part of an integer: a termination measure for loops that
/// raise a negative value toward zero.
pub open spec fn neg_part(x: int) -> int {
    if x < 0 {
        -x
    } else {
        0
    }
}

/// Greatest common divisor by the Euclidean recursion, for non-negative
/// arguments.
pub open spec fn gcd_int(a: int, b: int) -> int
    decreases a,
{
    if a <= 0 {
        b
    } else {
        gcd_int(b % a, a)
    }
}

/// The order of the multiplicative group of the extension field, `p^12 - 1`.
pub open spec fn p12m1_val() -> int {
    vstd::arithmetic::power::pow(crate::field::p_val(), 12) - 1
}

/// The cofactor `h = (p^12 - 1) / r`.
pub open spec fn h_val() -> int {
    p12m1_val() / crate::field::r_val()
}

/// The BN254 curve parameter `x`.
pub open spec fn x_val() -> int {
    4965661367192848881
}

/// The final-exponentiation shortcut exponent `lambda = 6x + 2 + p - p^2 + p^3`.
pub open spec fn lambda_val() -> int {
    6 * x_val() + 2 + crate::field::p_val() + vstd::arithmetic::power::pow(crate::field::p_val(), 3)
        - vstd::arithmetic::power::pow(crate::field::p_val(), 2)
}

/// `m = lambda / r` (an exact quotient for BN254).
pub open spec fn m_val() -> int {
    lambda_val() / crate::field::r_val()
}

/// `m' = m / 3` (an exact quotient for BN254).
pub open spec fn mp_val() -> int {
    m_val() / 3
}

/// `s = (p^12 - 1) / 27`.
pub open spec fn s27_val() -> int {
    p12m1_val() / 27
}

/// The starting-guess exponent `(s + 1) / 3` of the cube-root search.
pub open spec fn e27_val() -> int {
    (s27_val() + 1) / 3
}

/// `(p^12 - 1) / 3`, the exponent of the cubic-residue test.
pub open spec fn d3_val() -> int {
    p12m1_val() / 3
}

/// `d` divides `n`.
pub open spec fn divides(d: int, n: int) -> bool {
    exists|k: int| n == #[trigger] (d * k)
}

/// Evaluates the needed powers of `p` to their decimal literals.
proof fn lemma_p12_literal()
    ensures
        vstd::arithmetic::power::pow(crate::field::p_val(), 2) == 479095176016622842441988045216678740799252316531100822436447802254070093686378237447841051819437871971188232314813100261836255634139586948646393022867889int,
        vstd::arithmetic::power::pow(crate::field::p_val(), 3) == 10486551571378427818905133077457505975146652579011797175399169355881771981095690978989761122588000397834221810876296023257824090243867683078475217242544741121301747644787422814444041173890001246409592307627484170869318436766891287int,
        vstd::arithmetic::power::pow(crate::field::p_val(), 12) == 12092909088188237225393433017559174875623137613219078327682045681675023350320878590139619158941453632724570634378148379186020109423506557278061404249513976103803771139954000579995199902828634263992330574392218791796266323480026479977659504287064359209036331389750395884727865805793574046154686347934603866375769645860851559671200189106819576945533990794197558448169154800495832790107673176422796675256499746815795625450299074794144048526198146639914021389804755241528331708078456200260597013666698340612446162656471808349941941036242500801205678881620332591272087635015318077794473705628671572713897714140224506269671672327501746902155512482220944778556374239955378577691861316356789180373125486706142640931817968722234080019888921817141837856053156323850750365255047978587780912486395587404967932864588640269696396456375831408999624015664858331115319294937654521467886227817728683577618500683880562054279134724944161int,
{
    reveal_with_fuel(vstd::arithmetic::power::pow, 13);
}

/// The greatest common divisor of non-negative numbers is non-negative.
proof fn lemma_gcd_nonneg(a: int, b: int)
    requires
        a >= 0,
        b >= 0,
    ensures
        gcd_int(a, b) >= 0,
    decreases a,
{
    if a > 0 {
        lemma_gcd_nonneg(b % a, a);
    }
}

/// The greatest common divisor divides both arguments.
proof fn lemma_gcd_divides(a: int, b: int)
    requires
        a >= 0,
    ensures
        divides(gcd_int(a, b), a),
        divides(gcd_int(a, b), b),
    decreases a,
{
    let g = gcd_int(a, b);
    if a <= 0 {
        assert(a == g * 0);
        assert(b == g * 1);
    } else {
        lemma_gcd_divides(b % a, a);
        let k1 = choose|k: int| a == #[trigger] (g * k);
        let k2 = choose|k: int| (b % a) == #[trigger] (g * k);
        vstd::arithmetic::div_mod::lemma_fundamental_div_mod(b, a);
        let q = b / a;
        assert(b == g * (k1 * q + k2)) by (nonlinear_arith)
            requires
                b == a * q + b % a,
                a == g * k1,
                b % a == g * k2,
        ;
    }
}

/// Two numbers with a Bezout combination equal to one are coprime.
proof fn lemma_coprime_of_bezout(a: int, b: int, u: int, v: int)
    requires
        a >= 0,
        b >= 0,
        u * a + v * b == 1,
    ensures
        gcd_int(a, b) == 1,
{
    let g = gcd_int(a, b);
    lemma_gcd_nonneg(a, b);
    lemma_gcd_divides(a, b);
    let k1 = choose|k: int| a == #[trigger] (g * k);
    let k2 = choose|k: int| b == #[trigger] (g * k);
    assert(g * (u * k1 + v * k2) == 1) by (nonlinear_arith)
        requires
            a == g * k1,
            b == g * k2,
            u * a + v * b == 1,
    ;
    assert(g == 1) by (nonlinear_arith)
        requires
            g >= 0,
            g * (u * k1 + v * k2) == 1,
    ;
}

/// The constants of the construction: `r` and `m'` are invertible modulo
/// `h`, witnessed by explicit Bezout coefficients.
proof fn lemma_exponent_constants()
    ensures
        gcd_int(crate::field::r_val(), h_val()) == 1,
        gcd_int(mp_val(), h_val()) == 1,
        h_val() >= 2,
        mp_val() >= 0,
{
    lemma_p12_literal();
    assert(h_val() == 552484233613224096312617126783173147097382103762957654188882734314196910839907541213974502761540629817009608548654680343627701153829446747810907373256841551006201639677726139946029199968412598804882391702273019083653272047566316584365559776493027495458238373902875937659943504873220554161550525926302303331747463515644711876653177129578303191095900909191624817826566688241804408081892785725967931714097716709526092261278071952560171111444072049229123565057483750161460024353346284167282452756217662335528813519139808291170539072125381230815729071544861602750936964829313608137325426383735122175229541155376346436093930287402089517426973178917569713384748081827255472576937471496195752727188261435633271238710131736096299798168852925540549342330775279877006784354801422249722573783561685179618816480037695005515426162362431072245638324744480int);
    assert(mp_val() == 159698392005540947480662681738892913600830203692610128578278487256136045360236842637946308807518740600578730809901535764110456756721301476208843247890119int);
    lemma_coprime_of_bezout(
        crate::field::r_val(),
        h_val(),
        -56665049601356317568385199736430813604930922845642431171537193481150030354425821182837624420398726575043086729996209251060948832222667491470748694581162312600478753023597747742690971392789337644343656893385022147706383750151706367920225585533212294501382945267307753151679591598766611296733291445539248177028125234182775747503005340114813768693918227961362897678643035803537473354991439630075838270198864221307279792517044331571723455583427464809539978173913765573392620755061535870102954021797772636283731804780697731491403067896502422657089659108392895161597755770354822568595500981544546454373261549544199882519948699453785176749359718232164236337628584939720591166179803152107316075896817160792406751839468571438755407173346477453359934049713389442538828307218742391376989842165554466572743876702093241019508135777275573943741574825087int,
        2244947986855310279119991852648895319801294498295582845950511281873581990916int,
    );
    lemma_coprime_of_bezout(
        mp_val(),
        h_val(),
        17840267520054779749190587238017784600702972825655245554504342129614427201836516118803396948809179149954197175783449826546445899524065131269177708416982407215963288737761615699967145070776364294542559324079147363363059480104341231360692143673915822421222230661528586799190306058519400019024762424366780736540525310403098758015600523609594113357130678138304964034267260758692953579514899054295817541844330584721967571697039986079722203518034173581264955381924826388858518077894154909963532054519350571947910625755075099598588672669612434444513251495355121627496067454526862754597351094345783576387352673894873931328099247263766690688395096280633426669535619271711975898132416216382905928886703963310231865346128293216316379527200971959980873989485521004596686352787540034457467115536116148612884807380187255514888720048664139404687086409399int,
        -5156820525481206730916658585793501849199335494126678425839056253824359412327866354517447996842840530734593910755727532389850821573449934029494946991426int,
    );
}

/// An element is a cubic residue when the residue test exponentiation
/// yields the identity.
pub open spec fn is_cubic_residue(c: Seq<int>) -> bool {
    crate::field::is_one_coords(crate::field::pow_coords(c, d3_val()))
}

/// `x` is the canonical inverse of `a` modulo `m`.
pub open spec fn is_inv_mod(x: int, a: int, m: int) -> bool {
    0 <= x < m && (x * a) % m == 1int % m
}

/// What the 27-th-root search establishes of the element it returns: it is
/// a `(p^12 - 1)/27`-th power of exact multiplicative order 27: its 27th
/// power is the identity while it and its ninth power are not.
pub open spec fn root_27_candidate(wc: Seq<int>) -> bool {
    &&& !crate::field::is_one_coords(wc)
    &&& !crate::field::is_one_coords(crate::field::pow_coords(wc, 9))
    &&& crate::field::is_one_coords(crate::field::pow_coords(wc, 27))
    &&& exists|x: Seq<int>| wc == #[trigger] crate::field::pow_coords(x, s27_val())
}

/// Iterated cubing, the measure walked by the order computation.
pub open spec fn pow3_iter(c: Seq<int>, n: nat) -> Seq<int>
    decreases n,
{
    if n == 0 {
        c
    } else {
        crate::field::pow_coords(pow3_iter(c, (n - 1) as nat), 3)
    }
}

/// The input after absorption of the residue class: `f`, `f * w`, or
/// `f * w^2` according to the selected shift.
pub open spec fn shifted_coords(cf: Seq<int>, wc: Seq<int>, s: int) -> Seq<int> {
    if s == 0 {
        cf
    } else if s == 1 {
        crate::field::mul_coords(cf, wc)
    } else {
        crate::field::mul_coords(cf, crate::field::pow_coords(wc, 2))
    }
}

/// The whole witness construction, related to the input coordinates: the
/// shift `s` is the first of `0, 1, 2` whose correction passes the residue
/// test, the cube of `c` is the `m'`-inverse power of the `r`-inverse power
/// of the shifted input, and `u = w^(3s)`.
pub open spec fn witness_chain_ok(
    cf: Seq<int>,
    wc: Seq<int>,
    s: int,
    ccoords: Seq<int>,
    ucoords: Seq<int>,
) -> bool {
    &&& 0 <= s < 3
    &&& (s == 0 ==> is_cubic_residue(cf))
    &&& (s == 1 ==> !is_cubic_residue(cf) && is_cubic_residue(crate::field::mul_coords(cf, wc)))
    &&& (s == 2 ==> !is_cubic_residue(cf) && !is_cubic_residue(crate::field::mul_coords(cf, wc)))
    &&& (exists|e1: int, e2: int|
        {
            &&& is_inv_mod(e1, crate::field::r_val(), h_val())
            &&& is_inv_mod(e2, mp_val(), h_val())
            &&& crate::field::pow_coords(ccoords, 3) == #[trigger] crate::field::pow_coords(
                #[trigger] crate::field::pow_coords(shifted_coords(cf, wc, s), e1),
                e2,
            )
        })
    &&& ucoords == crate::field::pow_coords(wc, 3 * s)
}

/// The full postcondition of the witness construction: some sampled
/// 27-th-root candidate `w` and shift `s` relate the input to the output
/// pair through the chain of root extractions.
pub open spec fn witness_post(cf: Seq<int>, ccoords: Seq<int>, ucoords: Seq<int>) -> bool {
    exists|wc: Seq<int>, s: int|
        root_27_candidate(wc) && #[trigger] witness_chain_ok(cf, wc, s, ccoords, ucoords)
}

/// How a witness construction fails on the residue test: some order-27
/// candidate, shift and pair of inverse exponents lead to an intermediate
/// that is not a cubic residue, so the final cube root does not exist.
pub open spec fn witness_failed_residue(cf: Seq<int>) -> bool {
    exists|wc: Seq<int>, s: int, e1: int, e2: int|
        {
            &&& root_27_candidate(wc)
            &&& 0 <= s < 3
            &&& is_inv_mod(e1, crate::field::r_val(), h_val())
            &&& is_inv_mod(e2, mp_val(), h_val())
            &&& !is_cubic_residue(
                #[trigger] crate::field::pow_coords(
                    crate::field::pow_coords(shifted_coords(cf, wc, s), e1),
                    e2,
                ),
            )
        }
}

/// An operation that depends on a sampled value or on a residue-class
/// precondition reports failure through this kind.
#[derive(Clone, Copy, Debug, PartialEq, Eq, Structural)]
pub enum DomainError {
    /// The cube-root search exhausted every unity correction.
    NotCubicResidue,
    /// Rejection sampling gave up after its attempt bound.
    SamplingFailed,
}

/// A one-word little-endian exponent.
fn one_word_exponent(x: u64) -> (r: Vec<u64>)
    ensures
        crate::bignum::words_value(r@) == x as int,
{
    let mut v: Vec<u64> = Vec::new();
    v.push(x);
    proof {
        assert(v@.drop_first() =~= Seq::<u64>::empty());
        assert(crate::bignum::words_value(Seq::<u64>::empty()) == 0);
        assert(crate::bignum::words_value(v@) == v@[0] + 0x10000000000000000
            * crate::bignum::words_value(v@.drop_first()));
        assert(crate::bignum::words_value(v@) == x as int);
    }
    v
}

/// `p^12 - 1` as an arbitrary-precision integer.
fn p12_minus_one() -> (r: num_bigint::BigUint)
    ensures
        biguint_value(r) == p12m1_val(),
{
    let p = crate::field::fq_modulus();
    let p12 = bu_pow(&p, 12);
    proof {
        vstd::arithmetic::power::lemma_pow_positive(crate::field::p_val(), 12);
    }
    bu_sub(&p12, &bu_from_u64(1))
}

/// The cofactor `h = (p^12 - 1) / r` as an arbitrary-precision integer.
fn h_biguint() -> (r: num_bigint::BigUint)
    ensures
        biguint_value(r) == h_val(),
{
    let p12m1 = p12_minus_one();
    let rbig = crate::field::fr_modulus();
    bu_div(&p12m1, &rbig)
}

impl WitnessGenerator {

    /// Exponentiation by `(p^12 - 1) / 27`.
    pub fn pow_p12_minus_one_div_27(a: &crate::field::FieldElt) -> (r: crate::field::FieldElt)
        ensures
            crate::field::fq12_coords(r) == crate::field::pow_coords(
                crate::field::fq12_coords(*a),
                s27_val(),
            ),
    {
        let p12m1 = p12_minus_one();
        let e = bu_div(&p12m1, &bu_from_u64(27));
        let digits = bu_to_u64_digits(&e);
        crate::field::fq12_pow(a, &digits)
    }

    /// Exponentiation by `(p^12 - 1) / 3`, the cubic-residue test power.
    pub fn pow_p12_minus_one_div_3(a: &crate::field::FieldElt) -> (r: crate::field::FieldElt)
        ensures
            crate::field::fq12_coords(r) == crate::field::pow_coords(
                crate::field::fq12_coords(*a),
                d3_val(),
            ),
    {
        let p12m1 = p12_minus_one();
        let e = bu_div(&p12m1, &bu_from_u64(3));
        let digits = bu_to_u64_digits(&e);
        crate::field::fq12_pow(a, &digits)
    }

    /// The cubic-residue test: whether `a^((p^12 - 1)/3)` is the identity.
    pub fn is_third_root(a: &crate::field::FieldElt) -> (r: bool)
        ensures
            r == is_cubic_residue(crate::field::fq12_coords(*a)),
    {
        let res = Self::pow_p12_minus_one_div_3(a);
        crate::field::fq12_is_one(&res)
    }

    /// The `r`-th root of `f`, computed as `f` raised to the inverse of `r`
    /// modulo `h`.
    pub fn r_th_root_of_f(f: crate::field::FieldElt) -> (r: crate::field::FieldElt)
        ensures
            exists|e: int|
                is_inv_mod(e, crate::field::r_val(), h_val()) && crate::field::fq12_coords(r)
                    == #[trigger] crate::field::pow_coords(crate::field::fq12_coords(f), e),
    {
        let rbig = crate::field::fr_modulus();
        let h = h_biguint();
        proof {
            lemma_exponent_constants();
        }
        let inv_r = Self::invert(&rbig, &h);
        let inv_r_unsigned = crate::bignum::bi_to_biguint(&inv_r).unwrap();
        let digits = bu_to_u64_digits(&inv_r_unsigned);
        let res = crate::field::fq12_pow(&f, &digits);
        proof {
            let e = biguint_value(inv_r_unsigned);
            assert(is_inv_mod(e, crate::field::r_val(), h_val()));
            assert(crate::field::fq12_coords(res) == crate::field::pow_coords(
                crate::field::fq12_coords(f),
                e,
            ));
        }
        res
    }

    /// The `m'`-th root of `c`, computed as `c` raised to the inverse of
    /// `m' = (lambda / r) / 3` modulo `h`.
    pub fn mp_th_root_of_c(c: crate::field::FieldElt) -> (r: crate::field::FieldElt)
        ensures
            exists|e: int|
                is_inv_mod(e, mp_val(), h_val()) && crate::field::fq12_coords(r)
                    == #[trigger] crate::field::pow_coords(crate::field::fq12_coords(c), e),
    {
        let q = crate::field::fq_modulus();
        let xm1div2 = bu_from_u64(2482830683596424440);
        let two = bu_from_u64(2);
        let x = bu_add(&crate::bignum::bu_mul(&xm1div2, &two), &bu_from_u64(1));
        let six_x = crate::bignum::bu_mul(&bu_from_u64(6), &x);
        let l1 = bu_add(&bu_add(&six_x, &two), &q);
        let q3 = bu_pow(&q, 3);
        let q2 = bu_pow(&q, 2);
        let l2 = bu_add(&l1, &q3);
        proof {
            lemma_p12_literal();
        }
        let lambda = bu_sub(&l2, &q2);
        let rbig = crate::field::fr_modulus();
        let m = bu_div(&lambda, &rbig);
        let mp = bu_div(&m, &bu_from_u64(3));
        let h = h_biguint();
        proof {
            lemma_exponent_constants();
        }
        let mpp = Self::invert(&mp, &h);
        let mpp_unsigned = crate::bignum::bi_to_biguint(&mpp).unwrap();
        let digits = bu_to_u64_digits(&mpp_unsigned);
        let res = crate::field::fq12_pow(&c, &digits);
        proof {
            let e = biguint_value(mpp_unsigned);
            assert(is_inv_mod(e, mp_val(), h_val()));
            assert(crate::field::fq12_coords(res) == crate::field::pow_coords(
                crate::field::fq12_coords(c),
                e,
            ));
        }
        res
    }

    /// Cube root by the Tonelli-Shanks variant: preflight the input with
    /// the cubic-residue test, then start from `a^((s+1)/3)` and correct by
    /// powers of a 27-th root of unity until the cube matches.
    pub fn tonelli_shanks_third_root(a: crate::field::FieldElt) -> (res: Result<
        crate::field::FieldElt,
        DomainError,
    >)
        ensures
            res matches Ok(x) ==> crate::field::pow_coords(crate::field::fq12_coords(x), 3)
                == crate::field::fq12_coords(a),
            res matches Err(e) ==> e == DomainError::NotCubicResidue
                || e == DomainError::SamplingFailed,
            res matches Err(e) ==> ((e == DomainError::NotCubicResidue) <==> !is_cubic_residue(
                crate::field::fq12_coords(a),
            )),
            !is_cubic_residue(crate::field::fq12_coords(a)) ==> res == Err::<
                crate::field::FieldElt,
                DomainError,
            >(DomainError::NotCubicResidue),
    {
        if !Self::is_third_root(&a) {
            return Err(DomainError::NotCubicResidue);
        }
        let w = match Self::find_27th_root() {
            Ok(w) => w,
            Err(e) => { return Err(e) },
        };
        let p12m1 = p12_minus_one();
        let s = bu_div(&p12m1, &bu_from_u64(27));
        let e = bu_div(&bu_add(&s, &bu_from_u64(1)), &bu_from_u64(3));
        let digits = bu_to_u64_digits(&e);
        let mut x = crate::field::fq12_pow(&a, &digits);
        let three = one_word_exponent(3);
        for _k in 0..27usize
            invariant
                crate::bignum::words_value(three@) == 3,
                is_cubic_residue(crate::field::fq12_coords(a)),
        {
            let x3 = crate::field::fq12_pow(&x, &three);
            if crate::field::fq12_eq(&x3, &a) {
                return Ok(x);
            }
            x = crate::field::fq12_mul(&x, &w);
        }
        Err(DomainError::SamplingFailed)
    }

    /// The exponent of three in the order of `a`: how many cubings reach
    /// the identity.  Saturates at `u32::MAX` without claiming the identity
    /// was reached there.
    pub fn get_order(a: crate::field::FieldElt) -> (r: u32)
        ensures
            r < u32::MAX ==> crate::field::is_one_coords(
                pow3_iter(crate::field::fq12_coords(a), r as nat),
            ),
            forall|k: int|
                0 <= k < r ==> !crate::field::is_one_coords(
                    #[trigger] pow3_iter(crate::field::fq12_coords(a), k as nat),
                ),
    {
        let ghost c0 = crate::field::fq12_coords(a);
        let three = one_word_exponent(3);
        let mut cur = a;
        let mut t: u32 = 0;
        while t < u32::MAX && !crate::field::fq12_is_one(&cur)
            invariant
                crate::bignum::words_value(three@) == 3,
                crate::field::fq12_coords(cur) == pow3_iter(c0, t as nat),
                forall|k: int| 0 <= k < t ==> !crate::field::is_one_coords(#[trigger] pow3_iter(c0, k as nat)),
            decreases u32::MAX - t,
        {
            t = t + 1;
            cur = crate::field::fq12_pow(&cur, &three);
        }
        proof {
            if t < u32::MAX {
                assert(crate::field::is_one_coords(pow3_iter(c0, t as nat)));
            }
        }
        t
    }

    /// Searches random samples for a primitive 27-th root of unity: a
    /// `(p^12-1)/27`-th power whose 27th power is the identity while it and
    /// its ninth power are not, so its multiplicative order is exactly 27.
    pub fn find_27th_root() -> (res: Result<crate::field::FieldElt, DomainError>)
        ensures
            res matches Ok(w) ==> root_27_candidate(crate::field::fq12_coords(w)),
            res matches Err(e) ==> e == DomainError::SamplingFailed,
    {
        let mut rng = crate::field::fresh_rng();
        let nine = one_word_exponent(9);
        let twenty_seven = one_word_exponent(27);
        for _attempt in 0..1000usize
            invariant
                crate::bignum::words_value(nine@) == 9,
                crate::bignum::words_value(twenty_seven@) == 27,
        {
            let x = crate::field::fq12_rand(&mut rng);
            let w = Self::pow_p12_minus_one_div_27(&x);
            let w9 = crate::field::fq12_pow(&w, &nine);
            let w27 = crate::field::fq12_pow(&w, &twenty_seven);
            if !crate::field::fq12_is_one(&w) && !crate::field::fq12_is_one(&w9)
                && crate::field::fq12_is_one(&w27) {
                return Ok(w);
            }
        }
        Err(DomainError::SamplingFailed)
    }

    /// Searches random samples for a pair `(a, b)` with `b = a^((p^12-1)/27)`
    /// of exact order nine: `b^3` is not the identity while `b^9` is.
    pub fn find_third_non_residue() -> (res: Result<
        (crate::field::FieldElt, crate::field::FieldElt),
        DomainError,
    >)
        ensures
            res matches Ok(pair) ==> {
                &&& crate::field::fq12_coords(pair.1) == crate::field::pow_coords(
                    crate::field::fq12_coords(pair.0),
                    s27_val(),
                )
                &&& !crate::field::is_one_coords(
                    crate::field::pow_coords(crate::field::fq12_coords(pair.1), 3),
                )
                &&& crate::field::is_one_coords(
                    crate::field::pow_coords(crate::field::fq12_coords(pair.1), 9),
                )
            },
            res matches Err(e) ==> e == DomainError::SamplingFailed,
    {
        let mut rng = crate::field::fresh_rng();
        let three = one_word_exponent(3);
        let nine = one_word_exponent(9);
        for _attempt in 0..1000usize
            invariant
                crate::bignum::words_value(three@) == 3,
                crate::bignum::words_value(nine@) == 9,
        {
            let a = crate::field::fq12_rand(&mut rng);
            let b = Self::pow_p12_minus_one_div_27(&a);
            let b3 = crate::field::fq12_pow(&b, &three);
            let b9 = crate::field::fq12_pow(&b, &nine);
            if !crate::field::fq12_is_one(&b3) && crate::field::fq12_is_one(&b9) {
                return Ok((a, b));
            }
        }
        Err(DomainError::SamplingFailed)
    }

    /// Rejection-samples a uniform cubic residue.
    pub fn rand_third_root() -> (res: Result<crate::field::FieldElt, DomainError>)
        ensures
            res matches Ok(a) ==> is_cubic_residue(crate::field::fq12_coords(a)),
            res matches Err(e) ==> e == DomainError::SamplingFailed,
    {
        let mut rng = crate::field::fresh_rng();
        for _attempt in 0..1000usize {
            let a = crate::field::fq12_rand(&mut rng);
            if Self::is_third_root(&a) {
                return Ok(a);
            }
        }
        Err(DomainError::SamplingFailed)
    }

    /// Builds the pairing witness `(c, u)`: absorb the cubic-residue class
    /// of the input with a power of a 27-th root of unity `w`, extract the
    /// `r`-th, `m'`-th and third roots, and return the matching correction
    /// `u = w^(3s)`.
    pub fn witness_generator(input: crate::field::FieldElt) -> (res: Result<
        (crate::field::FieldElt, crate::field::FieldElt),
        DomainError,
    >)
        ensures
            res matches Ok(cu) ==> witness_post(
                crate::field::fq12_coords(input),
                crate::field::fq12_coords(cu.0),
                crate::field::fq12_coords(cu.1),
            ),
            res matches Err(e) ==> e == DomainError::SamplingFailed || (e
                == DomainError::NotCubicResidue && witness_failed_residue(
                crate::field::fq12_coords(input),
            )),
    {
        let ghost cf = crate::field::fq12_coords(input);
        let w = match Self::find_27th_root() {
            Ok(w) => w,
            Err(e) => { return Err(e) },
        };
        let ghost wc = crate::field::fq12_coords(w);
        let two = one_word_exponent(2);
        let mut f = input;
        let s: u32;
        let fw = crate::field::fq12_mul(&f, &w);
        if Self::is_third_root(&f) {
            s = 0;
        } else if Self::is_third_root(&fw) {
            f = fw;
            s = 1;
        } else {
            let w2 = crate::field::fq12_pow(&w, &two);
            f = crate::field::fq12_mul(&f, &w2);
            s = 2;
        }
        proof {
            assert(crate::field::fq12_coords(f) == shifted_coords(cf, wc, s as int));
        }
        let ghost shifted = crate::field::fq12_coords(f);
        let c1 = Self::r_th_root_of_f(f);
        let c2 = Self::mp_th_root_of_c(c1);
        let c3 = match Self::tonelli_shanks_third_root(c2) {
            Ok(c) => c,
            Err(e) => {
                proof {
                    if e == DomainError::NotCubicResidue {
                        let e1 = choose|e: int|
                            is_inv_mod(e, crate::field::r_val(), h_val())
                                && crate::field::fq12_coords(c1) == #[trigger] crate::field::pow_coords(
                                shifted,
                                e,
                            );
                        let e2 = choose|e: int|
                            is_inv_mod(e, mp_val(), h_val()) && crate::field::fq12_coords(c2)
                                == #[trigger] crate::field::pow_coords(
                                crate::field::fq12_coords(c1),
                                e,
                            );
                        assert(witness_failed_residue(cf));
                    }
                }
                return Err(e);
            },
        };
        let s_exp = one_word_exponent(3 * (s as u64));
        let u = crate::field::fq12_pow(&w, &s_exp);
        proof {
            let e1 = choose|e: int|
                is_inv_mod(e, crate::field::r_val(), h_val()) && crate::field::fq12_coords(c1)
                    == #[trigger] crate::field::pow_coords(shifted, e);
            let e2 = choose|e: int|
                is_inv_mod(e, mp_val(), h_val()) && crate::field::fq12_coords(c2)
                    == #[trigger] crate::field::pow_coords(crate::field::fq12_coords(c1), e);
            assert(witness_chain_ok(
                cf,
                wc,
                s as int,
                crate::field::fq12_coords(c3),
                crate::field::fq12_coords(u),
            ));
            assert(witness_post(cf, crate::field::fq12_coords(c3), crate::field::fq12_coords(u)));
        }
        Ok((c3, u))
    }

    /// Extended Euclidean algorithm on non-negative inputs: returns
    /// `(g, x, y)` with `g` the greatest common divisor of the inputs and
    /// `x`, `y` Bezout coefficients, `x` belonging to the first input.
    pub fn extended_gcd(_a: &num_bigint::BigInt, _b: &num_bigint::BigInt) -> (res: (
        num_bigint::BigInt,
        num_bigint::BigInt,
        num_bigint::BigInt,
    ))
        requires
            bigint_value(*_a) >= 0,
            bigint_value(*_b) >= 0,
        ensures
            bigint_value(res.0) == gcd_int(bigint_value(*_a), bigint_value(*_b)),
            bigint_value(res.0) == bigint_value(res.1) * bigint_value(*_a) + bigint_value(res.2)
                * bigint_value(*_b),
    {
        let ghost a0 = bigint_value(*_a);
        let ghost b0 = bigint_value(*_b);
        let mut x = bi_from_i64(0);
        let mut y = bi_from_i64(1);
        let mut u = bi_from_i64(1);
        let mut v = bi_from_i64(0);
        let mut a = crate::bignum::bi_clone(_a);
        let mut b = crate::bignum::bi_clone(_b);
        let zero = bi_from_i64(0);
        while !bi_eq(&a, &zero)
            invariant
                bigint_value(zero) == 0,
                bigint_value(a) >= 0,
                bigint_value(b) >= 0,
                gcd_int(bigint_value(a), bigint_value(b)) == gcd_int(a0, b0),
                bigint_value(x) * a0 + bigint_value(y) * b0 == bigint_value(b),
                bigint_value(u) * a0 + bigint_value(v) * b0 == bigint_value(a),
            decreases bigint_value(a),
        {
            let ghost av = bigint_value(a);
            let ghost bv = bigint_value(b);
            let q = bi_div(&b, &a);
            let r = bi_rem(&b, &a);
            proof {
                assert(av > 0);
                assert(bigint_value(q) == bv / av);
                assert(bigint_value(r) == bv % av);
                vstd::arithmetic::div_mod::lemma_fundamental_div_mod(bv, av);
            }
            let m = bi_sub(&x, &bi_mul(&u, &q));
            let n = bi_sub(&y, &bi_mul(&v, &q));
            proof {
                let xv = bigint_value(x);
                let yv = bigint_value(y);
                let uv = bigint_value(u);
                let vv = bigint_value(v);
                let qv = bigint_value(q);
                assert((xv - uv * qv) * a0 + (yv - vv * qv) * b0 == (xv * a0 + yv * b0) - qv * (uv
                    * a0 + vv * b0)) by (nonlinear_arith);
                assert(bv - qv * av == bv % av) by {
                    vstd::arithmetic::div_mod::lemma_fundamental_div_mod(bv, av);
                    assert(qv * av == av * qv) by (nonlinear_arith);
                }
            }
            b = a;
            a = r;
            x = u;
            y = v;
            u = m;
            v = n;
        }
        (b, x, y)
    }

    /// Modular inverse by the extended Euclidean algorithm: for coprime
    /// arguments, the unique representative of the inverse class of `a`
    /// modulo `modulus` that lies in `[0, modulus)`.
    pub fn invert(a: &num_bigint::BigUint, modulus: &num_bigint::BigUint) -> (r:
        num_bigint::BigInt)
        requires
            biguint_value(*modulus) >= 1,
            gcd_int(biguint_value(*a), biguint_value(*modulus)) == 1,
        ensures
            0 <= bigint_value(r) < biguint_value(*modulus),
            (bigint_value(r) * biguint_value(*a)) % biguint_value(*modulus) == 1int % biguint_value(
                *modulus,
            ),
    {
        let ghost av = biguint_value(*a);
        let ghost mv = biguint_value(*modulus);
        let a_bigint = bi_from_biguint(a);
        let modulus_bigint = bi_from_biguint(modulus);
        let (gcd, x, y) = Self::extended_gcd(&a_bigint, &modulus_bigint);
        let ghost xv = bigint_value(x);
        let ghost yv = bigint_value(y);
        proof {
            assert(bigint_value(gcd) == 1);
            assert(xv * av + yv * mv == 1);
        }
        let mut res = bi_rem(&x, &modulus_bigint);
        let ghost mut t: int = if xv >= 0 {
            -(xv / mv)
        } else {
            (-xv) / mv
        };
        proof {
            if xv >= 0 {
                vstd::arithmetic::div_mod::lemma_fundamental_div_mod(xv, mv);
                assert(bigint_value(res) == xv % mv);
                let d = xv / mv;
                assert(mv * d == -(mv * t)) by (nonlinear_arith)
                    requires
                        t == -d,
                ;
                assert(bigint_value(res) == xv + mv * t);
            } else {
                vstd::arithmetic::div_mod::lemma_fundamental_div_mod(-xv, mv);
                assert(bigint_value(res) == -((-xv) % mv));
                assert((-xv) % mv == (-xv) - mv * t);
                assert(bigint_value(res) == xv + mv * t);
            }
            assert(bigint_value(res) < mv);
        }
        let zero = bi_from_i64(0);
        while bi_lt(&res, &zero)
            invariant
                bigint_value(zero) == 0,
                bigint_value(modulus_bigint) == mv,
                mv >= 1,
                bigint_value(res) == xv + mv * t,
                bigint_value(res) < mv,
            decreases neg_part(bigint_value(res)),
        {
            res = bi_add(&res, &modulus_bigint);
            proof {
                assert(mv * (t + 1) == mv * t + mv) by (nonlinear_arith);
                t = t + 1;
            }
        }
        proof {
            let rv = bigint_value(res);
            assert(rv * av == 1 + mv * (t * av - yv)) by (nonlinear_arith)
                requires
                    rv == xv + mv * t,
                    xv * av + yv * mv == 1,
            ;
            vstd::arithmetic::div_mod::lemma_mod_multiples_vanish(t * av - yv, 1, mv);
        }
        res
    }
}

} // verus!
