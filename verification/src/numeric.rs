//! Numbers are IEEE-754 double-precision values, represented throughout the
//! library by their 64-bit patterns. The conversions and the arithmetic on
//! them are done by `rustc_apfloat`, a software implementation of the same
//! format; this module holds the trusted wrappers around those calls and the
//! names their contracts are stated with, together with the verified
//! recognizer for numeric tokens.

use vstd::prelude::*;
use vstd::string::StrSliceExecFns;
use core::str::FromStr;
use rustc_apfloat::Float;

verus! {

/// The bit pattern that `rustc_apfloat` assigns to a token that satisfies
/// [`is_number_token`]: the correctly rounded double nearest to the decimal
/// the token spells. A function of the token alone.
pub uninterp spec fn number_value_of(s: Seq<char>) -> u64;

/// The bit pattern of the IEEE-754 sum of the doubles with bit patterns `a`
/// and `b`, rounding to nearest, ties to even. A function of `a` and `b` alone.
pub uninterp spec fn add_bits_of(a: u64, b: u64) -> u64;

/// The bit pattern of the IEEE-754 difference of the doubles with bit
/// patterns `a` and `b`, rounding to nearest, ties to even.
pub uninterp spec fn sub_bits_of(a: u64, b: u64) -> u64;

/// The bit pattern of the negation of the double with bit pattern `a`.
pub uninterp spec fn neg_bits_of(a: u64) -> u64;

/// The rendering of the double with bit pattern `bits`: decimal digits,
/// enough to read the exact value back; infinities and NaN as words.
pub uninterp spec fn decimal_of(bits: u64) -> Seq<char>;

/// A decimal digit.
pub open spec fn is_digit(c: char) -> bool {
    '0' <= c && c <= '9'
}

/// A sign character.
pub open spec fn is_sign(c: char) -> bool {
    c == '+' || c == '-'
}

/// One step of the recognizer for numeric tokens. The states: 0 expects a
/// sign or a first digit, 1 a first digit after a sign, 2 is inside the
/// integer part, 3 inside the fractional part, 4 expects a sign or digit of
/// the exponent, 5 a first exponent digit after its sign, 6 is inside the
/// exponent digits; -1 rejects.
pub open spec fn num_step(st: int, c: char) -> int {
    if st == 0 {
        if is_sign(c) { 1 } else if is_digit(c) { 2 } else { -1 }
    } else if st == 1 {
        if is_digit(c) { 2 } else { -1 }
    } else if st == 2 {
        if is_digit(c) { 2 } else if c == '.' { 3 } else if c == 'e' || c == 'E' { 4 } else { -1 }
    } else if st == 3 {
        if is_digit(c) { 3 } else if c == 'e' || c == 'E' { 4 } else { -1 }
    } else if st == 4 {
        if is_sign(c) { 5 } else if is_digit(c) { 6 } else { -1 }
    } else if st == 5 {
        if is_digit(c) { 6 } else { -1 }
    } else if st == 6 {
        if is_digit(c) { 6 } else { -1 }
    } else {
        -1
    }
}

/// Runs the recognizer over `s` from state `st`.
pub open spec fn num_run(st: int, s: Seq<char>) -> int
    decreases s.len(),
{
    if s.len() == 0 {
        st
    } else {
        num_run(num_step(st, s[0]), s.drop_first())
    }
}

/// Whether `s` spells a number under the strict decimal grammar: an optional
/// sign, an integer part, an optional fractional part, an optional exponent.
/// Every other atom is a symbol.
pub open spec fn is_number_token(s: Seq<char>) -> bool {
    num_run(0, s) == 2 || num_run(0, s) == 3 || num_run(0, s) == 6
}

proof fn lemma_num_run_snoc(st: int, s: Seq<char>, c: char)
    ensures
        num_run(st, s.push(c)) == num_step(num_run(st, s), c),
    decreases s.len(),
{
    reveal_with_fuel(num_run, 2);
    if s.len() == 0 {
        assert(s.push(c).drop_first() =~= Seq::<char>::empty());
        assert(s.push(c)[0] == c);
    } else {
        assert(s.push(c).drop_first() =~= s.drop_first().push(c));
        lemma_num_run_snoc(num_step(st, s[0]), s.drop_first(), c);
    }
}

/// Decides whether the token `t` spells a number under the strict grammar.
pub fn check_number_token(t: &str) -> (b: bool)
    ensures
        b == is_number_token(t@),
{
    let n: usize = t.unicode_len();
    let mut st: i8 = 0;
    let mut i: usize = 0;
    while i < n
        invariant
            0 <= i <= n,
            n == t@.len(),
            -1 <= st <= 6,
            st as int == num_run(0, t@.take(i as int)),
        decreases n - i,
    {
        let c = t.get_char(i);
        let next: i8 = if st == 0 {
            if c == '+' || c == '-' { 1 } else if '0' <= c && c <= '9' { 2 } else { -1 }
        } else if st == 1 {
            if '0' <= c && c <= '9' { 2 } else { -1 }
        } else if st == 2 {
            if '0' <= c && c <= '9' { 2 } else if c == '.' { 3 } else if c == 'e' || c == 'E' { 4 } else { -1 }
        } else if st == 3 {
            if '0' <= c && c <= '9' { 3 } else if c == 'e' || c == 'E' { 4 } else { -1 }
        } else if st == 4 {
            if c == '+' || c == '-' { 5 } else if '0' <= c && c <= '9' { 6 } else { -1 }
        } else if st == 5 {
            if '0' <= c && c <= '9' { 6 } else { -1 }
        } else if st == 6 {
            if '0' <= c && c <= '9' { 6 } else { -1 }
        } else {
            -1
        };
        proof {
            assert(next as int == num_step(st as int, t@[i as int]));
            lemma_num_run_snoc(0, t@.take(i as int), t@[i as int]);
            assert(t@.take(i as int).push(t@[i as int]) =~= t@.take(i as int + 1));
        }
        st = next;
        i = i + 1;
    }
    proof {
        assert(t@.take(n as int) =~= t@);
    }
    st == 2 || st == 3 || st == 6
}

/// Relies on `rustc_apfloat::ieee::Double::from_str`, which accepts every
/// token of the strict decimal grammar and returns the correctly rounded
/// double, and on `to_bits` for its bit pattern.
#[verifier::external_body]
pub(crate) fn number_value(t: &str) -> (r: u64)
    requires
        is_number_token(t@),
    ensures
        r == number_value_of(t@),
{
    match rustc_apfloat::ieee::Double::from_str(t) {
        Ok(d) => d.to_bits() as u64,
        Err(_) => 0,
    }
}

/// Relies on `rustc_apfloat`'s `Add` for `ieee::Double` (round to nearest,
/// ties to even) and on `from_bits`/`to_bits` for the conversions.
#[verifier::external_body]
pub(crate) fn add_bits(a: u64, b: u64) -> (r: u64)
    ensures
        r == add_bits_of(a, b),
{
    let x = rustc_apfloat::ieee::Double::from_bits(a as u128);
    let y = rustc_apfloat::ieee::Double::from_bits(b as u128);
    (x + y).value.to_bits() as u64
}

/// Relies on `rustc_apfloat`'s `Sub` for `ieee::Double` (round to nearest,
/// ties to even) and on `from_bits`/`to_bits` for the conversions.
#[verifier::external_body]
pub(crate) fn sub_bits(a: u64, b: u64) -> (r: u64)
    ensures
        r == sub_bits_of(a, b),
{
    let x = rustc_apfloat::ieee::Double::from_bits(a as u128);
    let y = rustc_apfloat::ieee::Double::from_bits(b as u128);
    (x - y).value.to_bits() as u64
}

/// Relies on `rustc_apfloat`'s `Neg` for `ieee::Double`, which flips the
/// sign, and on `from_bits`/`to_bits` for the conversions.
#[verifier::external_body]
pub(crate) fn neg_bits(a: u64) -> (r: u64)
    ensures
        r == neg_bits_of(a),
{
    (-rustc_apfloat::ieee::Double::from_bits(a as u128)).to_bits() as u64
}

/// Relies on `rustc_apfloat`'s `Display` for `ieee::Double`: a decimal
/// rendering with enough digits to read the exact value back.
#[verifier::external_body]
pub(crate) fn number_to_string(bits: u64) -> (r: String)
    ensures
        r@ == decimal_of(bits),
{
    rustc_apfloat::ieee::Double::from_bits(bits as u128).to_string()
}

} // verus!
