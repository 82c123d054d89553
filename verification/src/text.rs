//! The decimal and hexadecimal text forms of a 256-bit integer. The text is
//! read and written by `ethers_core`; this module states what that text is.

use crate::u256::{u256_limit, U256};
use vstd::prelude::*;
use vstd::std_specs::convert::FromSpecImpl;

verus! {

/// Whether a character is one of `0` to `9`.
pub open spec fn is_dec_digit(c: char) -> bool {
    '0' <= c <= '9'
}

/// The number that a decimal digit stands for.
pub open spec fn dec_digit_value(c: char) -> nat {
    (c as int - '0' as int) as nat
}

/// The decimal digit of a number below ten.
pub open spec fn dec_digit(d: nat) -> char {
    (d + '0' as nat) as char
}

/// Whether a text is made of decimal digits alone. The empty text is.
pub open spec fn all_dec_digits(s: Seq<char>) -> bool {
    forall|i: int| 0 <= i < s.len() ==> is_dec_digit(#[trigger] s[i])
}

/// The number that a text of decimal digits denotes, most significant digit
/// first. The empty text denotes zero.
pub open spec fn dec_value(s: Seq<char>) -> nat
    decreases s.len(),
{
    if s.len() == 0 {
        0
    } else {
        10 * dec_value(s.drop_last()) + dec_digit_value(s.last())
    }
}

/// The decimal text of a number: no sign, no leading zero, `0` for zero.
pub open spec fn dec_text(n: nat) -> Seq<char>
    decreases n,
{
    if n < 10 {
        seq![dec_digit(n)]
    } else {
        dec_text(n / 10).push(dec_digit(n % 10))
    }
}

/// Whether a text is the decimal form of some 256-bit integer, leading zeros
/// allowed.
pub open spec fn is_dec_u256(s: Seq<char>) -> bool {
    all_dec_digits(s) && dec_value(s) < u256_limit()
}

/// Whether a character is a hexadecimal digit, in either case.
pub open spec fn is_hex_digit(c: char) -> bool {
    '0' <= c <= '9' || 'a' <= c <= 'f' || 'A' <= c <= 'F'
}

/// The number that a hexadecimal digit stands for.
pub open spec fn hex_digit_value(c: char) -> nat {
    if '0' <= c <= '9' {
        (c as int - '0' as int) as nat
    } else if 'a' <= c <= 'f' {
        (c as int - 'a' as int + 10) as nat
    } else {
        (c as int - 'A' as int + 10) as nat
    }
}

/// Whether a text is made of hexadecimal digits alone. The empty text is.
pub open spec fn all_hex_digits(s: Seq<char>) -> bool {
    forall|i: int| 0 <= i < s.len() ==> is_hex_digit(#[trigger] s[i])
}

/// The number that a text of hexadecimal digits denotes, most significant
/// digit first. The empty text denotes zero.
pub open spec fn hex_value(s: Seq<char>) -> nat
    decreases s.len(),
{
    if s.len() == 0 {
        0
    } else {
        16 * hex_value(s.drop_last()) + hex_digit_value(s.last())
    }
}

/// A hexadecimal text without its `0x` prefix, if it has one.
pub open spec fn hex_body(s: Seq<char>) -> Seq<char> {
    if s.len() >= 2 && s[0] == '0' && s[1] == 'x' {
        s.subrange(2, s.len() as int)
    } else {
        s
    }
}

/// Whether a text is the hexadecimal form of some 256-bit integer: an
/// optional `0x`, then at most 64 hexadecimal digits.
pub open spec fn is_hex_u256(s: Seq<char>) -> bool {
    all_hex_digits(hex_body(s)) && hex_body(s).len() <= 64
}

/// Reads a decimal text with `ethers_core::types::U256::from_dec_str`.
///
/// Trusted: the call accepts exactly the texts of decimal digits whose
/// number fits in 256 bits (the empty text as zero), and gives that number.
#[verifier::external_body]
pub(crate) fn u256_from_dec_str(text: &str) -> (r: Option<U256>)
    ensures
        r is Some <==> is_dec_u256(text@),
        r matches Some(v) ==> v@ == dec_value(text@),
{
    match ethers_core::types::U256::from_dec_str(text) {
        Ok(v) => Some(U256(v.0)),
        Err(_) => None,
    }
}

/// Reads a hexadecimal text with `ethers_core::types::U256::from_str_radix`
/// at radix 16.
///
/// Trusted: the call drops one leading `0x`, accepts exactly what is then at
/// most 64 hexadecimal digits of either case (nothing at all as zero), and
/// gives the number they denote.
#[verifier::external_body]
pub(crate) fn u256_from_hex_str(text: &str) -> (r: Option<U256>)
    ensures
        r is Some <==> is_hex_u256(text@),
        r matches Some(v) ==> v@ == hex_value(hex_body(text@)),
{
    match ethers_core::types::U256::from_str_radix(text, 16) {
        Ok(v) => Some(U256(v.0)),
        Err(_) => None,
    }
}

/// Writes a number with the `Display` of `ethers_core::types::U256`.
///
/// Trusted: the text is the number in decimal, without padding or leading
/// zeros.
#[verifier::external_body]
pub(crate) fn u256_to_dec_string(value: &U256) -> (r: String)
    ensures
        r@ == dec_text(value@),
{
    ethers_core::types::U256(value.0).to_string()
}

/// The decimal text of a number is made of digits and denotes the number.
pub proof fn lemma_dec_text_round_trip(n: nat)
    ensures
        all_dec_digits(dec_text(n)),
        dec_value(dec_text(n)) == n,
        dec_text(n).len() >= 1,
    decreases n,
{
    if n < 10 {
        let s = dec_text(n);
        assert(s.len() == 1);
        assert(s[0] == dec_digit(n));
        assert(s.drop_last().len() == 0);
        assert(dec_value(s.drop_last()) == 0);
        assert(dec_value(s) == 10 * dec_value(s.drop_last()) + dec_digit_value(s.last()));
    } else {
        lemma_dec_text_round_trip(n / 10);
        let p = dec_text(n / 10);
        let s = dec_text(n);
        assert(s == p.push(dec_digit(n % 10)));
        assert(s.drop_last() =~= p);
        assert(s.last() == dec_digit(n % 10));
        assert forall|i: int| 0 <= i < s.len() implies is_dec_digit(#[trigger] s[i]) by {
            if i < p.len() {
                assert(s[i] == p[i]);
            }
        }
        assert(dec_value(s) == 10 * dec_value(s.drop_last()) + dec_digit_value(s.last()));
    }
}

/// The decimal text of a 256-bit integer, the form in which a job identifier
/// is written down outside the registry.
#[derive(Debug, Clone, PartialEq, Eq)]
pub struct U256Wrapper(pub String);

impl View for U256Wrapper {
    type V = Seq<char>;

    open spec fn view(&self) -> Seq<char> {
        self.0@
    }
}

/// Two strings of the same characters need not be one value to the verifier,
/// so the conversion is stated over the view, in the `ensures` of `from`.
impl FromSpecImpl<U256> for U256Wrapper {
    open spec fn obeys_from_spec() -> bool {
        false
    }

    open spec fn from_spec(value: U256) -> Self {
        arbitrary()
    }
}

impl From<U256> for U256Wrapper {
    /// Writes the number in decimal.
    fn from(value: U256) -> (r: Self)
        ensures
            r@ == dec_text(value@),
    {
        U256Wrapper(u256_to_dec_string(&value))
    }
}

impl U256Wrapper {
    /// Reads the number back: `Some` exactly where the text is made of
    /// decimal digits and its number fits in 256 bits.
    pub fn to_u256(&self) -> (r: Option<U256>)
        ensures
            r is Some <==> is_dec_u256(self@),
            r matches Some(v) ==> v@ == dec_value(self@),
    {
        u256_from_dec_str(self.0.as_str())
    }

    /// Whether the number of this text is strictly below the number of the
    /// other: the order of the numbers, not of the texts, so that `9` comes
    /// before `10` and `07` is as `7`. `None` exactly where one of the two
    /// texts is not the decimal form of a 256-bit integer.
    pub fn less_than(&self, other: &U256Wrapper) -> (r: Option<bool>)
        ensures
            r is Some <==> is_dec_u256(self@) && is_dec_u256(other@),
            r matches Some(b) ==> b == (dec_value(self@) < dec_value(other@)),
    {
        match (self.to_u256(), other.to_u256()) {
            (Some(a), Some(b)) => Some(a.less_than(&b)),
            _ => None,
        }
    }

    /// Whether the two texts denote one number, so that `07` is as `7`.
    /// `None` exactly where one of the two texts is not the decimal form of
    /// a 256-bit integer.
    pub fn same_number(&self, other: &U256Wrapper) -> (r: Option<bool>)
        ensures
            r is Some <==> is_dec_u256(self@) && is_dec_u256(other@),
            r matches Some(b) ==> b == (dec_value(self@) == dec_value(other@)),
    {
        match (self.to_u256(), other.to_u256()) {
            (Some(a), Some(b)) => Some(a.equals(&b)),
            _ => None,
        }
    }
}

/// Two numbers have one decimal text only where they are one number: the
/// texts that `U256Wrapper::from` writes are equal exactly by value.
pub proof fn lemma_dec_text_injective(a: nat, b: nat)
    ensures
        dec_text(a) == dec_text(b) <==> a == b,
{
    lemma_dec_text_round_trip(a);
    lemma_dec_text_round_trip(b);
}

/// What `U256Wrapper::from` writes, `to_u256` reads back as the same number.
pub proof fn lemma_wrapper_round_trip(value: U256, text: U256Wrapper)
    requires
        text@ == dec_text(value@),
    ensures
        is_dec_u256(text@),
        dec_value(text@) == value@,
{
    lemma_dec_text_round_trip(value@);
    crate::u256::lemma_u256_bounded(value);
}

} // verus!
