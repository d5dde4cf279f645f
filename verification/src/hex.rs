//! The lowercase-hex limb codec: parsing hex strings into
//! arbitrary-precision integers and printing integers back, with exact
//! character-level specifications.

use vstd::prelude::*;

use crate::bignum::biguint_value;
use crate::bignum::bu_add;
use crate::bignum::bu_from_u64;
use crate::bignum::bu_mul;

verus! {

/// A malformed encoded value.
#[derive(Clone, Copy, Debug, PartialEq, Eq, Structural)]
pub enum DecodeError {
    /// A character outside the hexadecimal alphabet.
    BadHex,
    /// A limb whose value does not fit below `2^120`.
    LimbTooBig,
    /// The wrong number of parameters or limbs.
    WrongCount,
}

/// The limb base, `2^120`.
pub open spec fn pow2_120() -> int {
    1329227995784915872903807060280344576
}

/// Whether `c` is a hexadecimal digit (either case).
pub open spec fn is_hex_digit(c: char) -> bool {
    ('0' <= c && c <= '9') || ('a' <= c && c <= 'f') || ('A' <= c && c <= 'F')
}

/// The value of a hexadecimal digit.
pub open spec fn hex_digit_val(c: char) -> int {
    if '0' <= c && c <= '9' {
        c as u32 - 48
    } else if 'a' <= c && c <= 'f' {
        c as u32 - 87
    } else {
        c as u32 - 55
    }
}

/// Whether every character of `s` is a hexadecimal digit.
pub open spec fn all_hex(s: Seq<char>) -> bool {
    forall|i: int| 0 <= i < s.len() ==> is_hex_digit(#[trigger] s[i])
}

/// The number denoted by a big-endian sequence of hexadecimal digits; the
/// empty sequence denotes zero.
pub open spec fn hex_val(s: Seq<char>) -> int
    decreases s.len(),
{
    if s.len() == 0 {
        0
    } else {
        hex_val(s.drop_last()) * 16 + hex_digit_val(s.last())
    }
}

/// The canonical lowercase digit for a value below sixteen.
pub open spec fn hex_digit_char(d: int) -> char {
    if d == 0 {
        '0'
    } else if d == 1 {
        '1'
    } else if d == 2 {
        '2'
    } else if d == 3 {
        '3'
    } else if d == 4 {
        '4'
    } else if d == 5 {
        '5'
    } else if d == 6 {
        '6'
    } else if d == 7 {
        '7'
    } else if d == 8 {
        '8'
    } else if d == 9 {
        '9'
    } else if d == 10 {
        'a'
    } else if d == 11 {
        'b'
    } else if d == 12 {
        'c'
    } else if d == 13 {
        'd'
    } else if d == 14 {
        'e'
    } else {
        'f'
    }
}

/// The canonical lowercase hex spelling of a non-negative number; zero is
/// spelled `"0"`.
pub open spec fn hex_str(v: int) -> Seq<char>
    decreases v,
{
    if v < 16 {
        seq![hex_digit_char(v)]
    } else {
        hex_str(v / 16).push(hex_digit_char(v % 16))
    }
}

/// The hex spelling of a signed number: a minus sign before the spelling of
/// the magnitude, as `num_bigint` prints it.
pub open spec fn hex_str_signed(v: int) -> Seq<char> {
    if v < 0 {
        seq!['-'] + hex_str(-v)
    } else {
        hex_str(v)
    }
}

/// `s` with its leading `'0'` characters removed.
pub open spec fn trim0(s: Seq<char>) -> Seq<char>
    decreases s.len(),
{
    if s.len() > 0 && s[0] == '0' {
        trim0(s.drop_first())
    } else {
        s
    }
}

/// The canonical hex spelling is made of hex digits, denotes the number it
/// was made from, and never starts with a zero digit unless it spells zero.
pub proof fn lemma_hex_str_correct(v: int)
    requires
        v >= 0,
    ensures
        hex_str(v).len() >= 1,
        all_hex(hex_str(v)),
        hex_val(hex_str(v)) == v,
        v >= 1 ==> hex_str(v)[0] != '0',
    decreases v,
{
    if v < 16 {
        let s = hex_str(v);
        assert(s.drop_last() =~= Seq::<char>::empty());
        assert(s.last() == hex_digit_char(v));
        assert(hex_val(Seq::<char>::empty()) == 0);
        assert(hex_val(s) == hex_val(s.drop_last()) * 16 + hex_digit_val(s.last()));
        assert(hex_val(s) == hex_digit_val(hex_digit_char(v)));
    } else {
        lemma_hex_str_correct(v / 16);
        let s = hex_str(v);
        let c = hex_digit_char(v % 16);
        assert(s.drop_last() =~= hex_str(v / 16));
        assert(s.last() == c);
        assert(hex_digit_val(c) == v % 16);
        vstd::arithmetic::div_mod::lemma_fundamental_div_mod(v, 16);
        assert(forall|i: int|
            0 <= i < s.len() ==> is_hex_digit(#[trigger] s[i]));
    }
}

/// Dropping the leading zeros of `s` leaves its tail from the first
/// non-zero character on.
pub proof fn lemma_trim0_skip(s: Seq<char>, k: int)
    requires
        0 <= k <= s.len(),
        forall|j: int| 0 <= j < k ==> s[j] == '0',
        k == s.len() || s[k] != '0',
    ensures
        trim0(s) == s.subrange(k, s.len() as int),
    decreases k,
{
    if k == 0 {
        assert(s.subrange(0, s.len() as int) =~= s);
    } else {
        let t = s.drop_first();
        assert(s[0] == '0');
        lemma_trim0_skip(t, k - 1);
        assert(t.subrange(k - 1, t.len() as int) =~= s.subrange(k, s.len() as int));
    }
}

/// Round trip of the hex spelling through the decoder's trimming: the
/// canonical spelling of a non-negative number, with leading zeros removed,
/// still denotes the number.  (Only zero is affected: `"0"` trims to the
/// empty string, which decodes to zero.)
pub proof fn lemma_hex_trim_round_trip(v: int)
    requires
        v >= 0,
    ensures
        all_hex(trim0(hex_str(v))),
        hex_val(trim0(hex_str(v))) == v,
        hex_val(trim0(hex_str(v))) == hex_val(hex_str(v)),
{
    lemma_hex_str_correct(v);
    let s = hex_str(v);
    if v == 0 {
        assert(s =~= seq!['0']);
        assert(s.drop_first() =~= Seq::<char>::empty());
        assert(trim0(Seq::<char>::empty()) == Seq::<char>::empty());
        assert(trim0(s) == Seq::<char>::empty());
        assert(hex_val(Seq::<char>::empty()) == 0);
        assert(all_hex(Seq::<char>::empty()));
    } else {
        assert(s[0] != '0');
        assert(trim0(s) == s);
    }
}

/// A canonical lowercase hex spelling: at least one digit, all lowercase
/// hexadecimal, and no leading zero unless the spelling is `"0"` itself.
pub open spec fn is_canonical_hex(s: Seq<char>) -> bool {
    &&& s.len() >= 1
    &&& (forall|i: int|
        0 <= i < s.len() ==> (('0' <= #[trigger] s[i] && s[i] <= '9') || ('a' <= s[i] && s[i]
            <= 'f')))
    &&& (s.len() > 1 ==> s[0] != '0')
}

/// A hex string denotes a non-negative number.
pub proof fn lemma_hex_val_nonneg(s: Seq<char>)
    requires
        all_hex(s),
    ensures
        hex_val(s) >= 0,
    decreases s.len(),
{
    if s.len() > 0 {
        let dl = s.drop_last();
        assert(all_hex(dl));
        lemma_hex_val_nonneg(dl);
        assert(hex_digit_val(s.last()) >= 0);
        assert(hex_val(dl) * 16 >= 0) by (nonlinear_arith)
            requires
                hex_val(dl) >= 0,
        ;
    }
}

/// A hex string with a non-zero leading digit denotes a positive number.
proof fn lemma_hex_val_positive(s: Seq<char>)
    requires
        s.len() >= 1,
        all_hex(s),
        s[0] != '0',
    ensures
        hex_val(s) >= 1,
    decreases s.len(),
{
    if s.len() == 1 {
        assert(hex_val(s) == hex_val(s.drop_last()) * 16 + hex_digit_val(s.last()));
        assert(s.drop_last() =~= Seq::<char>::empty());
        assert(hex_val(Seq::<char>::empty()) == 0);
        assert(hex_digit_val(s[0]) >= 1);
    } else {
        let dl = s.drop_last();
        assert(dl[0] == s[0]);
        assert(all_hex(dl));
        lemma_hex_val_positive(dl);
        assert(hex_digit_val(s.last()) >= 0);
        assert(hex_val(dl) * 16 >= 16) by (nonlinear_arith)
            requires
                hex_val(dl) >= 1,
        ;
    }
}

/// Spelling the number a canonical string denotes gives the string back:
/// the encode-after-decode direction of the hex round trip.
pub proof fn lemma_hex_canonical_round_trip(s: Seq<char>)
    requires
        is_canonical_hex(s),
    ensures
        hex_str(hex_val(s)) == s,
    decreases s.len(),
{
    let v = hex_val(s);
    let c = s.last();
    assert(is_hex_digit(c));
    assert(hex_digit_char(hex_digit_val(c)) == c);
    if s.len() == 1 {
        assert(s.drop_last() =~= Seq::<char>::empty());
        assert(hex_val(Seq::<char>::empty()) == 0);
        assert(v == hex_digit_val(c));
        assert(0 <= v < 16);
        assert(hex_str(v) =~= s);
    } else {
        let dl = s.drop_last();
        assert(dl[0] == s[0]);
        assert(all_hex(dl));
        assert(is_canonical_hex(dl));
        lemma_hex_val_positive(dl);
        lemma_hex_canonical_round_trip(dl);
        assert(v == hex_val(dl) * 16 + hex_digit_val(c));
        assert(0 <= hex_digit_val(c) < 16);
        vstd::arithmetic::div_mod::lemma_fundamental_div_mod_converse(
            v,
            16,
            hex_val(dl),
            hex_digit_val(c),
        );
        assert(v / 16 == hex_val(dl) && v % 16 == hex_digit_val(c));
        assert(v >= 16) by (nonlinear_arith)
            requires
                v == hex_val(dl) * 16 + hex_digit_val(c),
                hex_val(dl) >= 1,
                hex_digit_val(c) >= 0,
        ;
        assert(hex_str(v) == hex_str(v / 16).push(hex_digit_char(v % 16)));
        assert(hex_str(v) =~= s);
    }
}

/// The hexadecimal value of a character, if it has one.
pub fn hex_digit_of(c: char) -> (r: Option<u64>)
    ensures
        r matches Option::Some(d) ==> is_hex_digit(c) && d == hex_digit_val(c),
        r matches Option::None ==> !is_hex_digit(c),
{
    let u = c as u32;
    if 48 <= u && u <= 57 {
        Some((u - 48) as u64)
    } else if 97 <= u && u <= 102 {
        Some((u - 87) as u64)
    } else if 65 <= u && u <= 70 {
        Some((u - 55) as u64)
    } else {
        None
    }
}

/// Parses a big-endian hex string into an arbitrary-precision integer; the
/// empty string parses to zero.
pub fn parse_hex_biguint(s: &str) -> (res: Result<num_bigint::BigUint, DecodeError>)
    ensures
        res matches Ok(b) ==> all_hex(s@) && biguint_value(b) == hex_val(s@),
        res matches Err(e) ==> e == DecodeError::BadHex && !all_hex(s@),
{
    let n = s.unicode_len();
    let mut acc = bu_from_u64(0);
    let sixteen = bu_from_u64(16);
    for i in 0..n
        invariant
            n == s@.len(),
            biguint_value(sixteen) == 16,
            all_hex(s@.take(i as int)),
            biguint_value(acc) == hex_val(s@.take(i as int)),
    {
        let c = s.get_char(i);
        match hex_digit_of(c) {
            Some(d) => {
                acc = bu_add(&bu_mul(&acc, &sixteen), &bu_from_u64(d));
                proof {
                    assert(s@.take(i + 1).drop_last() =~= s@.take(i as int));
                    assert(s@.take(i + 1).last() == s@[i as int]);
                    assert(forall|j: int|
                        0 <= j < i + 1 ==> is_hex_digit(#[trigger] s@.take(i + 1)[j]));
                }
            },
            None => {
                proof {
                    assert(!is_hex_digit(s@[i as int]));
                }
                return Err(DecodeError::BadHex);
            },
        }
    }
    proof {
        assert(s@.take(n as int) =~= s@);
    }
    Ok(acc)
}

/// The canonical lowercase spelling of a single hex digit, as a string.
fn hex_digit_str(d: u8) -> (r: &'static str)
    requires
        d < 16,
    ensures
        r@ =~= seq![hex_digit_char(d as int)],
{
    proof {
        reveal_strlit("0");
        reveal_strlit("1");
        reveal_strlit("2");
        reveal_strlit("3");
        reveal_strlit("4");
        reveal_strlit("5");
        reveal_strlit("6");
        reveal_strlit("7");
        reveal_strlit("8");
        reveal_strlit("9");
        reveal_strlit("a");
        reveal_strlit("b");
        reveal_strlit("c");
        reveal_strlit("d");
        reveal_strlit("e");
        reveal_strlit("f");
    }
    match d {
        0 => "0",
        1 => "1",
        2 => "2",
        3 => "3",
        4 => "4",
        5 => "5",
        6 => "6",
        7 => "7",
        8 => "8",
        9 => "9",
        10 => "a",
        11 => "b",
        12 => "c",
        13 => "d",
        14 => "e",
        _ => "f",
    }
}

/// Prints a 128-bit value as canonical lowercase hex.
pub fn u128_to_hex(v: u128) -> (r: String)
    ensures
        r@ == hex_str(v as int),
    decreases v,
{
    if v < 16 {
        let mut s = String::new();
        s.append(hex_digit_str(v as u8));
        proof {
            assert(s@ =~= hex_str(v as int));
        }
        s
    } else {
        let mut s = u128_to_hex(v / 16);
        s.append(hex_digit_str((v % 16) as u8));
        proof {
            assert(s@ =~= hex_str(v as int));
        }
        s
    }
}

/// The tail of `s` after its leading `'0'` characters.
pub fn trim_leading_zeros(s: &str) -> (r: &str)
    ensures
        r@ == trim0(s@),
{
    let n = s.unicode_len();
    let mut k: usize = 0;
    while k < n && s.get_char(k) == '0'
        invariant
            0 <= k <= n,
            n == s@.len(),
            forall|j: int| 0 <= j < k ==> s@[j] == '0',
        decreases n - k,
    {
        k = k + 1;
    }
    proof {
        lemma_trim0_skip(s@, k as int);
    }
    s.substring_char(k, n)
}

} // verus!
