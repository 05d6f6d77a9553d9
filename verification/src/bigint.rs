//! Integers of any size, held as two's-complement bytes and computed by `num_bigint`, and the
//! texts that denote them.
use vstd::arithmetic::mul::*;
use vstd::arithmetic::power::*;
use vstd::arithmetic::power2::*;
use vstd::prelude::*;

use crate::number;
use crate::number::Number;
use crate::text;

verus! {

/// An integer: its two's-complement bytes, the least significant first.
///
/// The functions that compute on integers hand the bytes to `num_bigint` with
/// [`num_bigint::BigInt::from_signed_bytes_le`], and take them back with
/// [`num_bigint::BigInt::to_signed_bytes_le`]. The first reads the integer of which any bytes are
/// the two's complement, the second writes bytes of which the integer is the value.
#[derive(Debug, PartialEq, Eq)]
pub struct BigInt {
    pub bytes: Vec<u8>,
}

/// The outcome of a comparison.
#[derive(Clone, Copy, Debug, PartialEq, Eq, Structural)]
pub enum Comparison {
    Less,
    Equal,
    Greater,
}

/// The natural number of which `bytes` are the base-256 digits, the least significant first.
pub open spec fn unsigned_value(bytes: Seq<u8>) -> nat
    decreases bytes.len(),
{
    if bytes.len() == 0 {
        0
    } else {
        bytes[0] as nat + 256 * unsigned_value(bytes.drop_first())
    }
}

/// The integer of which `bytes` are the two's complement: a set highest bit makes it negative.
pub open spec fn signed_value(bytes: Seq<u8>) -> int {
    if bytes.len() > 0 && bytes.last() >= 128 {
        unsigned_value(bytes) - pow(256, bytes.len())
    } else {
        unsigned_value(bytes) as int
    }
}

/// The value of a digit in bases up to 36; 255 for any other byte.
pub open spec fn digit_value(byte: u8) -> nat {
    if 0x30 <= byte <= 0x39 {
        (byte - 0x30) as nat
    } else if 0x61 <= byte <= 0x7A {
        (byte - 0x61 + 10) as nat
    } else if 0x41 <= byte <= 0x5A {
        (byte - 0x41 + 10) as nat
    } else {
        255
    }
}

/// The natural number that digits denote, underscores between them being left out.
pub open spec fn digits_value(digits: Seq<u8>, radix: nat) -> nat
    decreases digits.len(),
{
    if digits.len() == 0 {
        0
    } else if digits.last() == 0x5F {
        digits_value(digits.drop_last(), radix)
    } else {
        digits_value(digits.drop_last(), radix) * radix + digit_value(digits.last())
    }
}

/// Whether `digits` starts with a digit and goes on with digits and underscores.
pub open spec fn separated_digits(digits: Seq<u8>, radix: nat) -> bool {
    &&& digits.len() > 0
    &&& digits[0] != 0x5F
    &&& forall|i: int|
        0 <= i < digits.len() ==> #[trigger] digits[i] == 0x5F || digit_value(digits[i]) < radix
}

impl BigInt {
    pub open spec fn view(&self) -> int {
        signed_value(self.bytes@)
    }

    /// `Ord::cmp` of [`num_bigint::BigInt`]: the order of the integers.
    #[verifier::external_body]
    pub(crate) fn compare(&self, other: &BigInt) -> (r: Comparison)
        ensures
            r is Less <==> self@ < other@,
            r is Equal <==> self@ == other@,
            r is Greater <==> self@ > other@,
    {
        let left = num_bigint::BigInt::from_signed_bytes_le(&self.bytes);
        let right = num_bigint::BigInt::from_signed_bytes_le(&other.bytes);
        match left.cmp(&right) {
            std::cmp::Ordering::Less => Comparison::Less,
            std::cmp::Ordering::Equal => Comparison::Equal,
            std::cmp::Ordering::Greater => Comparison::Greater,
        }
    }

    /// `PartialEq::eq` of [`num_bigint::BigInt`]: whether the integers are equal.
    #[verifier::external_body]
    pub(crate) fn is_equal(&self, other: &BigInt) -> (r: bool)
        ensures
            r == (self@ == other@),
    {
        let left = num_bigint::BigInt::from_signed_bytes_le(&self.bytes);
        let right = num_bigint::BigInt::from_signed_bytes_le(&other.bytes);
        left.eq(&right)
    }

    /// `From<i64>` of [`num_bigint::BigInt`]: the same integer.
    #[verifier::external_body]
    pub(crate) fn from_i64(n: i64) -> (r: BigInt)
        ensures
            r@ == n,
    {
        BigInt { bytes: num_bigint::BigInt::from(n).to_signed_bytes_le() }
    }

    /// `Neg` of [`num_bigint::BigInt`]: the integer with the other sign.
    #[verifier::external_body]
    pub(crate) fn negate(&self) -> (r: BigInt)
        ensures
            r@ == -self@,
    {
        let value = num_bigint::BigInt::from_signed_bytes_le(&self.bytes);
        BigInt { bytes: (-value).to_signed_bytes_le() }
    }

    /// `Not` of [`num_bigint::BigInt`]: every bit of the two's complement inverted, which gives
    /// the integer below the opposite.
    #[verifier::external_body]
    pub(crate) fn complement(&self) -> (r: BigInt)
        ensures
            r@ == -self@ - 1,
    {
        let value = num_bigint::BigInt::from_signed_bytes_le(&self.bytes);
        BigInt { bytes: (!value).to_signed_bytes_le() }
    }

    /// [`num_bigint::BigInt::to_str_radix`] in base ten: a minus sign for a negative integer, and
    /// the decimal digits without leading zeros.
    #[verifier::external_body]
    pub(crate) fn to_decimal(&self) -> (r: String)
        ensures
            r@ == text::decimal_text(self@),
    {
        num_bigint::BigInt::from_signed_bytes_le(&self.bytes).to_str_radix(10)
    }

    /// [`num_bigint::BigInt::parse_bytes`] on digits of the base with underscores after the
    /// first: it reads every such text, and gives the natural number that the digits denote.
    #[verifier::external_body]
    fn parse_digits(digits: &[u8], radix: u32) -> (r: Option<BigInt>)
        requires
            2 <= radix <= 36,
            separated_digits(digits@, radix as nat),
        ensures
            r is Some,
            r->0@ == digits_value(digits@, radix as nat),
    {
        match num_bigint::BigInt::parse_bytes(digits, radix) {
            Some(value) => Some(BigInt { bytes: value.to_signed_bytes_le() }),
            None => None,
        }
    }
}

/// Writes the binary digits of `n`.
fn push_binary(digits: &mut Vec<u8>, n: u64)
    requires
        old(digits).len() == 0,
    ensures
        separated_digits(final(digits)@, 2),
        digits_value(final(digits)@, 2) == n,
    decreases n,
{
    if n >= 2 {
        push_binary(digits, n / 2);
    }
    let ghost front = digits@;
    digits.push(if n % 2 == 0 { 0x30 } else { 0x31 });
    proof {
        assert(digits@.drop_last() =~= front);
        assert(front.len() == 0 ==> digits_value(front, 2) == 0);
    }
}

impl BigInt {
    /// A significand scaled by a power of two.
    fn from_scaled(significand: u64, scale: u64) -> (r: BigInt)
        ensures
            r@ == significand * pow2(scale as nat),
    {
        let mut digits: Vec<u8> = Vec::new();
        push_binary(&mut digits, significand);
        let mut i: u64 = 0;
        proof {
            lemma2_to64();
        }
        while i < scale
            invariant
                i <= scale,
                separated_digits(digits@, 2),
                digits_value(digits@, 2) == significand * pow2(i as nat),
            decreases scale - i,
        {
            let ghost front = digits@;
            digits.push(0x30);
            proof {
                assert(digits@.drop_last() =~= front);
                lemma_pow2_unfold((i + 1) as nat);
                lemma_mul_is_associative(significand as int, pow2(i as nat) as int, 2);
            }
            i = i + 1;
        }
        match Self::parse_digits(digits.as_slice(), 2) {
            Some(n) => n,
            None => Self::from_i64(0),
        }
    }

    /// The integer part of a number.
    pub(crate) fn from_number(n: Number) -> (r: BigInt)
        requires
            n.finite(),
        ensures
            r@ == n.integer_part(),
    {
        if n.is_at_least_2_53() {
            let (significand, scale): (u64, u64) = n.scaled_integer();
            let magnitude: BigInt = Self::from_scaled(significand, scale);
            if n.is_sign_positive() {
                magnitude
            } else {
                magnitude.negate()
            }
        } else {
            Self::from_i64(n.to_i64())
        }
    }

    /// Whether a number is the integer.
    pub(crate) fn is_number(&self, n: Number) -> (r: bool)
        ensures
            r == (n.finite() && self@ * number::one() == n.units()),
    {
        proof {
            if n.finite() {
                number::lemma_integer_part_order(self@, n);
            }
        }
        n.is_integral() && self.is_equal(&Self::from_number(n))
    }
}

/// White space and line ends, as JavaScript counts them.
pub open spec fn white_space(c: char) -> bool {
    ||| '\u{9}' <= c <= '\u{d}'
    ||| c == ' '
    ||| c == '\u{a0}'
    ||| c == '\u{1680}'
    ||| '\u{2000}' <= c <= '\u{200a}'
    ||| c == '\u{2028}'
    ||| c == '\u{2029}'
    ||| c == '\u{202f}'
    ||| c == '\u{205f}'
    ||| c == '\u{3000}'
    ||| c == '\u{feff}'
}

/// The text without the white space at its start.
pub open spec fn trimmed_start(s: Seq<char>) -> Seq<char>
    decreases s.len(),
{
    if s.len() > 0 && white_space(s[0]) {
        trimmed_start(s.drop_first())
    } else {
        s
    }
}

/// The text without the white space at its end.
pub open spec fn trimmed_end(s: Seq<char>) -> Seq<char>
    decreases s.len(),
{
    if s.len() > 0 && white_space(s.last()) {
        trimmed_end(s.drop_last())
    } else {
        s
    }
}

/// The base that `0x`, `0o` or `0b` in front of a text announces, in either case.
pub open spec fn announced_radix(s: Seq<char>) -> Option<nat> {
    if s.len() > 2 && s[0] == '0' {
        if s[1] == 'x' || s[1] == 'X' {
            Some(16)
        } else if s[1] == 'o' || s[1] == 'O' {
            Some(8)
        } else if s[1] == 'b' || s[1] == 'B' {
            Some(2)
        } else {
            None
        }
    } else {
        None
    }
}

/// A character as a byte; 0 for those that no ASCII byte is.
pub open spec fn byte_of(c: char) -> u8 {
    if c <= '\u{7f}' {
        c as u8
    } else {
        0
    }
}

pub open spec fn bytes_of(s: Seq<char>) -> Seq<u8> {
    s.map_values(|c: char| byte_of(c))
}

/// The natural number that a text of digits denotes, where it is one; underscores may stand
/// between the digits where `separators` allows them.
pub open spec fn natural(s: Seq<char>, radix: nat, separators: bool) -> Option<int> {
    if separated_digits(bytes_of(s), radix) && (separators || !bytes_of(s).contains(0x5F)) {
        Some(digits_value(bytes_of(s), radix) as int)
    } else {
        None
    }
}

/// The integer that a trimmed text denotes when it is converted to a BigInt: none but white space
/// is zero, a base announced in front is read, and a decimal may have a sign.
pub open spec fn integer_text(s: Seq<char>) -> Option<int> {
    if s.len() == 0 {
        Some(0)
    } else if announced_radix(s) is Some {
        natural(s.skip(2), announced_radix(s)->0, false)
    } else if s[0] == '+' {
        natural(s.skip(1), 10, false)
    } else if s[0] == '-' {
        match natural(s.skip(1), 10, false) {
            Some(n) => Some(-n),
            None => None,
        }
    } else {
        natural(s, 10, false)
    }
}

/// The integer that a string denotes when it is converted to a BigInt, a vertical tab being white
/// space.
pub open spec fn denoted(s: Seq<char>) -> Option<int> {
    integer_text(trimmed_end(trimmed_start(s)))
}

/// The integer that a string denotes when it is converted to a BigInt. A vertical tab leaves it
/// open, since engines differ in whether it is white space.
pub open spec fn string_value(s: Seq<char>) -> Option<int> {
    if s.contains('\u{b}') {
        None
    } else {
        denoted(s)
    }
}

/// The literal without the `n` at its end.
pub open spec fn without_suffix(raw: Seq<char>) -> Seq<char> {
    if raw.len() > 0 && raw.last() == 'n' {
        raw.drop_last()
    } else {
        raw
    }
}

/// The integer that the source text of a BigInt literal denotes.
pub open spec fn literal_value(raw: Seq<char>) -> Option<int> {
    let s = without_suffix(raw);
    match announced_radix(s) {
        Some(radix) => natural(s.skip(2), radix, true),
        None => natural(s, 10, true),
    }
}

/// The integer of an optional value.
pub open spec fn optional_view(value: Option<BigInt>) -> Option<int> {
    match value {
        Some(n) => Some(n@),
        None => None,
    }
}

fn is_white_space(c: char) -> (r: bool)
    ensures
        r == white_space(c),
{
    ('\u{9}' <= c && c <= '\u{d}') || c == ' ' || c == '\u{a0}' || c == '\u{1680}' || ('\u{2000}'
        <= c && c <= '\u{200a}') || c == '\u{2028}' || c == '\u{2029}' || c == '\u{202f}' || c
        == '\u{205f}' || c == '\u{3000}' || c == '\u{feff}'
}

/// Whether a byte is a digit of the base.
fn is_digit(byte: u8, radix: u32) -> (r: bool)
    requires
        2 <= radix <= 36,
    ensures
        r == (digit_value(byte) < radix),
{
    if 0x30 <= byte && byte <= 0x39 {
        ((byte - 0x30) as u32) < radix
    } else if 0x61 <= byte && byte <= 0x7A {
        ((byte - 0x61 + 10) as u32) < radix
    } else if 0x41 <= byte && byte <= 0x5A {
        ((byte - 0x41 + 10) as u32) < radix
    } else {
        false
    }
}

/// Reads the characters from `start` to `end` as digits.
pub(crate) fn read_natural(s: &Vec<char>, start: usize, end: usize, radix: u32, separators: bool) -> (r:
    Option<BigInt>)
    requires
        start <= end <= s.len(),
        2 <= radix <= 36,
    ensures
        optional_view(r) == natural(
            s@.subrange(start as int, end as int),
            radix as nat,
            separators,
        ),
{
    let ghost chars = s@.subrange(start as int, end as int);
    let mut digits: Vec<u8> = Vec::new();
    let mut i: usize = start;
    while i < end
        invariant
            start <= i <= end <= s.len(),
            2 <= radix <= 36,
            chars == s@.subrange(start as int, end as int),
            digits@ == bytes_of(chars).take(i - start),
            forall|j: int|
                0 <= j < digits.len() ==> #[trigger] digits[j] == 0x5F || digit_value(digits[j])
                    < radix,
            !separators ==> !digits@.contains(0x5F),
        decreases end - i,
    {
        let c: char = s[i];
        let byte: u8 = if c <= '\u{7f}' { c as u8 } else { 0 };
        proof {
            assert(chars[i - start] == c);
            assert(bytes_of(chars)[i - start] == byte);
        }
        if byte == 0x5F {
            if !separators {
                return None;
            }
        } else if !is_digit(byte, radix) {
            return None;
        }
        digits.push(byte);
        proof {
            assert(digits@ =~= bytes_of(chars).take(i + 1 - start));
        }
        i = i + 1;
    }
    proof {
        assert(digits@ =~= bytes_of(chars));
    }
    if digits.len() == 0 || digits[0] == 0x5F {
        return None;
    }
    BigInt::parse_digits(digits.as_slice(), radix)
}

/// The base announced in front of the characters from `start` to `end`.
pub(crate) fn read_radix(s: &Vec<char>, start: usize, end: usize) -> (r: Option<u32>)
    requires
        start <= end <= s.len(),
    ensures
        r is Some <==> announced_radix(s@.subrange(start as int, end as int)) is Some,
        r is Some ==> r->0 == announced_radix(s@.subrange(start as int, end as int))->0,
        r is Some ==> 2 <= r->0 <= 36 && start + 2 < end,
{
    if end - start > 2 && s[start] == '0' {
        let c: char = s[start + 1];
        proof {
            assert(s@.subrange(start as int, end as int)[1] == c);
        }
        if c == 'x' || c == 'X' {
            Some(16)
        } else if c == 'o' || c == 'O' {
            Some(8)
        } else if c == 'b' || c == 'B' {
            Some(2)
        } else {
            None
        }
    } else {
        None
    }
}

/// Reads the characters from `start` to `end` as a trimmed text.
fn read_integer_text(s: &Vec<char>, start: usize, end: usize) -> (r: Option<BigInt>)
    requires
        start <= end <= s.len(),
    ensures
        optional_view(r) == integer_text(s@.subrange(start as int, end as int)),
{
    let ghost chars = s@.subrange(start as int, end as int);
    if start == end {
        return Some(BigInt::from_i64(0));
    }
    if let Some(radix) = read_radix(s, start, end) {
        proof {
            assert(chars.skip(2) =~= s@.subrange(start + 2, end as int));
        }
        return read_natural(s, start + 2, end, radix, false);
    }
    proof {
        assert(chars.skip(1) =~= s@.subrange(start + 1, end as int));
    }
    if s[start] == '+' {
        read_natural(s, start + 1, end, 10, false)
    } else if s[start] == '-' {
        match read_natural(s, start + 1, end, 10, false) {
            Some(n) => Some(n.negate()),
            None => None,
        }
    } else {
        read_natural(s, start, end, 10, false)
    }
}

/// Where a text without the white space around it starts and ends.
pub(crate) fn trimmed_range(chars: &Vec<char>) -> (r: (usize, usize))
    ensures
        r.0 <= r.1 <= chars.len(),
        chars@.subrange(r.0 as int, r.1 as int) == trimmed_end(trimmed_start(chars@)),
{
    let ghost s = chars@;
    let mut start: usize = 0;
    proof {
        assert(s.skip(0) =~= s);
    }
    while start < chars.len() && is_white_space(chars[start])
        invariant
            chars@ == s,
            start <= chars.len(),
            trimmed_start(s) == trimmed_start(s.skip(start as int)),
        decreases chars.len() - start,
    {
        proof {
            assert(s.skip(start as int).drop_first() =~= s.skip(start + 1));
        }
        start = start + 1;
    }
    let mut end: usize = chars.len();
    proof {
        assert(s.skip(start as int) =~= s.subrange(start as int, end as int));
    }
    while end > start && is_white_space(chars[end - 1])
        invariant
            chars@ == s,
            start <= end <= chars.len(),
            trimmed_end(s.skip(start as int)) == trimmed_end(
                s.subrange(start as int, end as int),
            ),
        decreases end,
    {
        proof {
            assert(s.subrange(start as int, end as int).drop_last() =~= s.subrange(
                start as int,
                end - 1,
            ));
        }
        end = end - 1;
    }
    (start, end)
}

/// The integer that a string denotes when it is converted to a BigInt, a vertical tab being white
/// space.
pub(crate) fn read_denoted(s: &str) -> (r: Option<BigInt>)
    ensures
        optional_view(r) == denoted(s@),
{
    let chars: Vec<char> = text::characters(s);
    let (start, end): (usize, usize) = trimmed_range(&chars);
    read_integer_text(&chars, start, end)
}

/// The integer that a string denotes when it is converted to a BigInt, unless it has a vertical
/// tab.
pub fn read_string(s: &str) -> (r: Option<BigInt>)
    ensures
        optional_view(r) == string_value(s@),
{
    if text::contains(s, '\u{b}') {
        None
    } else {
        read_denoted(s)
    }
}

/// The integer that the source text of a BigInt literal denotes.
pub fn read_literal(raw: &str) -> (r: Option<BigInt>)
    ensures
        optional_view(r) == literal_value(raw@),
{
    let chars: Vec<char> = text::characters(raw);
    let mut end: usize = chars.len();
    if end > 0 && chars[end - 1] == 'n' {
        end = end - 1;
    }
    let ghost s = without_suffix(raw@);
    proof {
        assert(s =~= chars@.subrange(0, end as int));
    }
    match read_radix(&chars, 0, end) {
        Some(radix) => {
            proof {
                assert(s.skip(2) =~= chars@.subrange(2, end as int));
            }
            read_natural(&chars, 2, end, radix, true)
        },
        None => read_natural(&chars, 0, end, 10, true),
    }
}

/// The digits of a natural number denote it.
proof fn lemma_decimal_denotes(n: nat)
    ensures
        natural(text::decimal(n), 10, false) == Some(n as int),
        text::decimal(n).len() > 0,
        forall|i: int|
            0 <= i < text::decimal(n).len() ==> '0' <= #[trigger] text::decimal(n)[i] <= '9',
    decreases n,
{
    let s = text::decimal(n);
    let bytes = bytes_of(s);
    if n < 10 {
        assert(bytes =~= seq![(0x30 + n) as u8]);
        reveal_with_fuel(digits_value, 2);
        assert(bytes.drop_last() =~= Seq::<u8>::empty());
        assert(!bytes.contains(0x5F));
    } else {
        lemma_decimal_denotes(n / 10);
        let front = bytes_of(text::decimal(n / 10));
        assert(bytes =~= front.push((0x30 + n % 10) as u8));
        assert(bytes.drop_last() =~= front);
        assert forall|i: int| 0 <= i < bytes.len() implies #[trigger] bytes[i] != 0x5F
            && digit_value(bytes[i]) < 10 by {
            assert('0' <= s[i] <= '9');
        }
        assert(bytes[0] == byte_of(s[0]));
    }
}

/// The decimal text of an integer denotes it.
pub proof fn law_decimal_text_denotes_the_integer(n: int)
    ensures
        integer_text(text::decimal_text(n)) == Some(n),
{
    let s = text::decimal_text(n);
    if n < 0 {
        lemma_decimal_denotes((-n) as nat);
        assert(s.skip(1) =~= text::decimal((-n) as nat));
    } else {
        lemma_decimal_denotes(n as nat);
        assert('0' <= s[0] <= '9');
        if s.len() > 2 {
            assert('0' <= s[1] <= '9');
        }
    }
}

/// The value of a character as a digit: the ten digits, then the letters of either case. It is 36
/// for any other character.
pub open spec fn digit_of(c: char) -> int {
    if '0' <= c <= '9' {
        c as int - '0' as int
    } else if 'a' <= c <= 'z' {
        c as int - 'a' as int + 10
    } else if 'A' <= c <= 'Z' {
        c as int - 'A' as int + 10
    } else {
        36
    }
}

/// Whether a text is made of one or more digits of a base.
pub open spec fn all_digits(s: Seq<char>, radix: int) -> bool {
    s.len() > 0 && forall|i: int| 0 <= i < s.len() ==> digit_of(#[trigger] s[i]) < radix
}

/// The integer that digits denote by their places: the first stands for its value times the power
/// of the base that has as many places behind it.
pub open spec fn positional(s: Seq<char>, radix: int) -> int
    decreases s.len(),
{
    if s.len() == 0 {
        0
    } else {
        digit_of(s[0]) * pow(radix, (s.len() - 1) as nat) + positional(s.drop_first(), radix)
    }
}

/// One more digit at the end.
proof fn lemma_one_more_digit(s: Seq<char>, c: char, radix: int)
    ensures
        positional(s.push(c), radix) == positional(s, radix) * radix + digit_of(c),
    decreases s.len(),
{
    let longer = s.push(c);
    reveal(pow);
    if s.len() == 0 {
        assert(longer.drop_first() =~= Seq::<char>::empty());
        lemma_pow0(radix);
        assert(positional(Seq::<char>::empty(), radix) == 0);
        assert(longer[0] == c && longer.len() == 1);
        assert(digit_of(c) * pow(radix, 0) == digit_of(c));
        assert(positional(longer, radix) == digit_of(c));
        assert(positional(s, radix) * radix == 0);
    } else {
        assert(longer.drop_first() =~= s.drop_first().push(c));
        lemma_one_more_digit(s.drop_first(), c, radix);
        let k = (s.len() - 1) as nat;
        let (d, p, rest) = (digit_of(s[0]), pow(radix, k), positional(s.drop_first(), radix));
        assert(pow(radix, k + 1) == radix * p);
        assert(longer[0] == s[0] && longer.len() - 1 == k + 1);
        assert(positional(longer, radix) == d * (radix * p) + (rest * radix + digit_of(c)));
        assert(d * (radix * p) + rest * radix == (d * p + rest) * radix) by (nonlinear_arith);
    }
}

/// A character as a digit and the byte of it.
proof fn lemma_digit_of_byte(c: char)
    ensures
        digit_value(byte_of(c)) == if digit_of(c) < 36 {
            digit_of(c)
        } else {
            255
        },
        byte_of(c) == 0x5F <==> c == '_',
        0 <= digit_of(c) <= 36,
{
}

/// The digits of a text, separators being left out.
pub open spec fn without_separators(s: Seq<char>) -> Seq<char> {
    s.filter(|c: char| c != '_')
}

proof fn lemma_digits_by_place(s: Seq<char>, radix: nat)
    requires
        2 <= radix <= 36,
        forall|i: int| 0 <= i < s.len() ==> s[i] == '_' || digit_of(#[trigger] s[i]) < radix,
    ensures
        digits_value(bytes_of(s), radix) == positional(without_separators(s), radix as int),
    decreases s.len(),
{
    let keep = |c: char| c != '_';
    reveal(Seq::filter);
    if s.len() > 0 {
        let front = s.drop_last();
        assert(bytes_of(s).drop_last() =~= bytes_of(front));
        assert(bytes_of(s).last() == byte_of(s.last()));
        lemma_digit_of_byte(s.last());
        lemma_digits_by_place(front, radix);
        if s.last() != '_' {
            lemma_one_more_digit(without_separators(front), s.last(), radix as int);
        }
    }
}

proof fn lemma_nothing_to_leave_out(s: Seq<char>)
    requires
        !s.contains('_'),
    ensures
        without_separators(s) == s,
    decreases s.len(),
{
    reveal(Seq::filter);
    if s.len() > 0 {
        let front = s.drop_last();
        assert(s[s.len() - 1] != '_');
        assert forall|i: int| 0 <= i < front.len() implies front[i] != '_' by {
            assert(s[i] != '_');
        }
        lemma_nothing_to_leave_out(front);
        assert(front.push(s.last()) =~= s);
    } else {
        assert(without_separators(s) =~= s);
    }
}

/// Whether a text starts with a digit and goes on with digits and separators.
pub open spec fn separated(s: Seq<char>, radix: int) -> bool {
    &&& s.len() > 0
    &&& s[0] != '_'
    &&& forall|i: int| 0 <= i < s.len() ==> s[i] == '_' || digit_of(#[trigger] s[i]) < radix
}

/// The natural number of a text is the one that its digits denote by their places.
pub proof fn lemma_natural_by_place(s: Seq<char>, radix: nat)
    requires
        2 <= radix <= 36,
    ensures
        natural(s, radix, false) == if all_digits(s, radix as int) {
            Some(positional(s, radix as int))
        } else {
            None
        },
        natural(s, radix, true) == if separated(s, radix as int) {
            Some(positional(without_separators(s), radix as int))
        } else {
            None
        },
{
    let bytes = bytes_of(s);
    assert forall|i: int| 0 <= i < s.len() implies #[trigger] bytes[i] == byte_of(s[i]) by {}
    assert forall|i: int| 0 <= i < s.len() implies ((#[trigger] s[i] == '_' || digit_of(s[i])
        < radix) <==> (bytes[i] == 0x5F || digit_value(bytes[i]) < radix)) by {
        lemma_digit_of_byte(s[i]);
    }
    if separated_digits(bytes, radix) {
        assert forall|i: int| 0 <= i < s.len() implies s[i] == '_' || digit_of(#[trigger] s[i])
            < radix by {
            assert(bytes[i] == 0x5F || digit_value(bytes[i]) < radix);
        }
        lemma_digit_of_byte(s[0]);
        lemma_digits_by_place(s, radix);
    }
    if separated(s, radix as int) {
        lemma_digit_of_byte(s[0]);
        assert forall|i: int| 0 <= i < bytes.len() implies #[trigger] bytes[i] == 0x5F
            || digit_value(bytes[i]) < radix by {
            assert(s[i] == '_' || digit_of(s[i]) < radix);
        }
        assert(separated_digits(bytes, radix));
    }
    if bytes.contains(0x5F) {
        let i = choose|i: int| 0 <= i < bytes.len() && bytes[i] == 0x5F;
        lemma_digit_of_byte(s[i]);
        assert(s[i] == '_');
        assert(digit_of('_') == 36);
        assert(!all_digits(s, radix as int));
    } else if separated_digits(bytes, radix) {
        assert forall|i: int| 0 <= i < s.len() implies s[i] != '_' && digit_of(#[trigger] s[i])
            < radix by {
            lemma_digit_of_byte(s[i]);
            assert(bytes[i] != 0x5F);
        }
        lemma_nothing_to_leave_out(s);
        assert(all_digits(s, radix as int));
    } else if all_digits(s, radix as int) {
        assert(digit_of('_') == 36);
        assert(separated(s, radix as int));
    }
}

/// The base that a letter behind a zero announces.
pub open spec fn base_of_letter(c: char) -> Option<int> {
    if c == 'b' || c == 'B' {
        Some(2)
    } else if c == 'o' || c == 'O' {
        Some(8)
    } else if c == 'x' || c == 'X' {
        Some(16)
    } else {
        None
    }
}

/// Whether a text is a zero, a letter that announces a base, and what stands behind them.
pub open spec fn announces(s: Seq<char>, radix: int, digits: Seq<char>) -> bool {
    &&& s.len() >= 2
    &&& s[0] == '0'
    &&& base_of_letter(s[1]) == Some(radix)
    &&& s.skip(2) == digits
}

/// Whether the source text of a BigInt literal denotes an integer: digits with separators between
/// them, in base ten or in the base announced in front, and an `n` at the end.
pub open spec fn literal_denotes(digits: Seq<char>, n: int) -> bool {
    ||| separated(digits, 10) && n == positional(without_separators(digits), 10)
    ||| exists|radix: int, rest: Seq<char>| #[trigger]
        announces(digits, radix, rest) && separated(rest, radix) && n == positional(
            without_separators(rest),
            radix,
        )
}

/// A BigInt literal has the integer that its digits denote by their places.
pub proof fn law_literals_are_read_by_place(digits: Seq<char>, n: int)
    ensures
        literal_value(digits.push('n')) == Some(n) <==> literal_denotes(digits, n),
{
    assert(without_suffix(digits.push('n')) =~= digits);
    lemma_natural_by_place(digits, 10);
    if digits.len() >= 2 && digits[0] == '0' && base_of_letter(digits[1]) is Some {
        let radix = base_of_letter(digits[1])->0;
        let rest = digits.skip(2);
        lemma_natural_by_place(rest, radix as nat);
        assert(announces(digits, radix, rest));
        assert(digit_of(digits[1]) >= 10);
        assert(!separated(digits, 10));
    }
}

/// The characters that JavaScript counts as white space or as the end of a line.
pub open spec fn blank(c: char) -> bool {
    ||| c == '\u{9}' || c == '\u{a}' || c == '\u{b}' || c == '\u{c}' || c == '\u{d}'
    ||| c == '\u{20}' || c == '\u{a0}' || c == '\u{1680}'
    ||| c == '\u{2000}' || c == '\u{2001}' || c == '\u{2002}' || c == '\u{2003}'
    ||| c == '\u{2004}' || c == '\u{2005}' || c == '\u{2006}' || c == '\u{2007}'
    ||| c == '\u{2008}' || c == '\u{2009}' || c == '\u{200a}'
    ||| c == '\u{2028}' || c == '\u{2029}' || c == '\u{202f}'
    ||| c == '\u{205f}' || c == '\u{3000}' || c == '\u{feff}'
}

/// Whether the text from `start` to `end` has nothing but blanks around it, and none at its ends.
pub open spec fn framed(s: Seq<char>, start: int, end: int) -> bool {
    &&& 0 <= start <= end <= s.len()
    &&& forall|i: int| 0 <= i < start ==> blank(#[trigger] s[i])
    &&& forall|i: int| end <= i < s.len() ==> blank(#[trigger] s[i])
    &&& start < end ==> !blank(s[start]) && !blank(s[end - 1])
}

proof fn lemma_blanks_at_the_start(s: Seq<char>, start: int)
    requires
        0 <= start <= s.len(),
        forall|i: int| 0 <= i < start ==> blank(#[trigger] s[i]),
        start < s.len() ==> !blank(s[start]),
    ensures
        trimmed_start(s) == s.skip(start),
    decreases s.len(),
{
    if start > 0 {
        let rest = s.drop_first();
        assert(blank(s[0]));
        assert forall|i: int| 0 <= i < start - 1 implies blank(#[trigger] rest[i]) by {
            assert(blank(s[i + 1]));
        }
        lemma_blanks_at_the_start(rest, start - 1);
        assert(rest.skip(start - 1) =~= s.skip(start));
    } else {
        assert(s.skip(0) =~= s);
    }
}

proof fn lemma_blanks_at_the_end(s: Seq<char>, end: int)
    requires
        0 <= end <= s.len(),
        forall|i: int| end <= i < s.len() ==> blank(#[trigger] s[i]),
        end > 0 ==> !blank(s[end - 1]),
    ensures
        trimmed_end(s) == s.take(end),
    decreases s.len(),
{
    if end < s.len() {
        let rest = s.drop_last();
        assert(blank(s[s.len() - 1]));
        assert forall|i: int| end <= i < rest.len() implies blank(#[trigger] rest[i]) by {
            assert(blank(s[i]));
        }
        lemma_blanks_at_the_end(rest, end);
        assert(rest.take(end) =~= s.take(end));
    } else {
        assert(s.take(end) =~= s);
    }
}

/// A text without the white space around it is what is framed by blanks.
pub proof fn law_trimming_takes_off_blanks(s: Seq<char>, start: int, end: int)
    requires
        framed(s, start, end),
    ensures
        trimmed_end(trimmed_start(s)) == s.subrange(start, end),
{
    if start == end {
        assert forall|i: int| 0 <= i < s.len() implies blank(#[trigger] s[i]) by {}
        lemma_blanks_at_the_start(s, s.len() as int);
        lemma_blanks_at_the_end(s.skip(s.len() as int), 0);
        assert(s.skip(s.len() as int).take(0) =~= s.subrange(start, end));
    } else {
        lemma_blanks_at_the_start(s, start);
        let rest = s.skip(start);
        assert forall|i: int| end - start <= i < rest.len() implies blank(#[trigger] rest[i]) by {
            assert(blank(s[i + start]));
        }
        assert(rest[end - start - 1] == s[end - 1]);
        lemma_blanks_at_the_end(rest, end - start);
        assert(rest.take(end - start) =~= s.subrange(start, end));
    }
}

/// The first character of a text that is no blank.
proof fn lemma_first_of_text(s: Seq<char>) -> (start: int)
    ensures
        0 <= start <= s.len(),
        forall|i: int| 0 <= i < start ==> blank(#[trigger] s[i]),
        start < s.len() ==> !blank(s[start]),
    decreases s.len(),
{
    if s.len() == 0 || !blank(s[0]) {
        0
    } else {
        let rest = s.drop_first();
        let start = lemma_first_of_text(rest);
        assert forall|i: int| 0 <= i < start + 1 implies blank(#[trigger] s[i]) by {
            if i > 0 {
                assert(blank(rest[i - 1]));
            }
        }
        assert(start < rest.len() ==> rest[start] == s[start + 1]);
        start + 1
    }
}

/// The end of a text without the blanks behind it.
proof fn lemma_last_of_text(s: Seq<char>) -> (end: int)
    ensures
        0 <= end <= s.len(),
        forall|i: int| end <= i < s.len() ==> blank(#[trigger] s[i]),
        end > 0 ==> !blank(s[end - 1]),
    decreases s.len(),
{
    if s.len() == 0 || !blank(s[s.len() - 1]) {
        s.len() as int
    } else {
        let rest = s.drop_last();
        let end = lemma_last_of_text(rest);
        assert forall|i: int| end <= i < s.len() implies blank(#[trigger] s[i]) by {
            if i < rest.len() {
                assert(blank(rest[i]));
            }
        }
        assert(end > 0 ==> rest[end - 1] == s[end - 1]);
        end
    }
}

/// Every text has a part that is framed by blanks.
pub proof fn law_every_text_is_framed(s: Seq<char>) -> (r: (int, int))
    ensures
        framed(s, r.0, r.1),
{
    let start = lemma_first_of_text(s);
    let end = lemma_last_of_text(s);
    if start < s.len() {
        if end <= start {
            assert(blank(s[start]));
        }
        (start, end)
    } else {
        (start, start)
    }
}

/// Whether a text without blanks around it denotes an integer: none at all is zero, a decimal may
/// have a sign, and a base may be announced in front of digits without one.
pub open spec fn text_denotes(t: Seq<char>, n: int) -> bool {
    ||| t.len() == 0 && n == 0
    ||| all_digits(t, 10) && n == positional(t, 10)
    ||| t.len() > 0 && t[0] == '+' && all_digits(t.skip(1), 10) && n == positional(t.skip(1), 10)
    ||| t.len() > 0 && t[0] == '-' && all_digits(t.skip(1), 10) && n == -positional(t.skip(1), 10)
    ||| exists|radix: int, rest: Seq<char>| #[trigger]
        announces(t, radix, rest) && all_digits(rest, radix) && n == positional(rest, radix)
}

/// A text without blanks around it is read as the integer that it denotes.
pub proof fn law_integer_texts_are_read_by_place(t: Seq<char>, n: int)
    ensures
        integer_text(t) == Some(n) <==> text_denotes(t, n),
{
    lemma_natural_by_place(t, 10);
    if t.len() > 0 {
        lemma_natural_by_place(t.skip(1), 10);
        assert(all_digits(t, 10) ==> digit_of(t[0]) < 10);
    }
    if t.len() >= 2 && t[0] == '0' && base_of_letter(t[1]) is Some {
        let radix = base_of_letter(t[1])->0;
        let rest = t.skip(2);
        lemma_natural_by_place(rest, radix as nat);
        assert(announces(t, radix, rest));
        assert(digit_of(t[1]) >= 10);
        assert(!all_digits(t, 10));
    }
}

/// A string denotes the integer of what is framed by blanks in it. Where it has a vertical tab it
/// is not read.
pub proof fn law_strings_are_read_by_place(s: Seq<char>, start: int, end: int, n: int)
    requires
        framed(s, start, end),
    ensures
        denoted(s) == Some(n) <==> text_denotes(s.subrange(start, end), n),
        string_value(s) == if s.contains('\u{b}') {
            None
        } else {
            denoted(s)
        },
{
    law_trimming_takes_off_blanks(s, start, end);
    law_integer_texts_are_read_by_place(s.subrange(start, end), n);
}

} // verus!
