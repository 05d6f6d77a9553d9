//! The texts that are converted to numbers.
use vstd::prelude::*;

use crate::bigint;
use crate::text;

verus! {

/// What the conversion of a string to a number comes to.
pub enum Numeral {
    /// The number that a decimal text denotes.
    Decimal(Seq<char>),
    PositiveInfinity,
    NegativeInfinity,
    NaN,
    /// A text with a vertical tab, which engines do not agree on.
    Open,
}

/// What the conversion of a string to a number comes to.
#[derive(Debug, PartialEq)]
pub enum NumericText {
    /// The number that a decimal text denotes.
    Decimal(Vec<char>),
    PositiveInfinity,
    NegativeInfinity,
    NaN,
    /// A text with a vertical tab, which engines do not agree on.
    Open,
}

impl NumericText {
    pub open spec fn view(&self) -> Numeral {
        match self {
            NumericText::Decimal(chars) => Numeral::Decimal(chars@),
            NumericText::PositiveInfinity => Numeral::PositiveInfinity,
            NumericText::NegativeInfinity => Numeral::NegativeInfinity,
            NumericText::NaN => Numeral::NaN,
            NumericText::Open => Numeral::Open,
        }
    }
}

/// Whether a text is made of one or more decimal digits.
pub open spec fn digits(s: Seq<char>) -> bool {
    s.len() > 0 && forall|i: int| 0 <= i < s.len() ==> '0' <= #[trigger] s[i] <= '9'
}

/// Whether a text is made of decimal digits, at least one, and at most one point.
pub open spec fn mantissa(s: Seq<char>) -> bool {
    &&& exists|i: int| 0 <= i < s.len() && s[i] != '.'
    &&& forall|i: int| 0 <= i < s.len() ==> #[trigger] s[i] == '.' || '0' <= s[i] <= '9'
    &&& forall|i: int, j: int|
        0 <= i < j < s.len() ==> !(#[trigger] s[i] == '.' && #[trigger] s[j] == '.')
}

/// The text without a sign in front.
pub open spec fn unsigned(s: Seq<char>) -> Seq<char> {
    if s.len() > 0 && (s[0] == '+' || s[0] == '-') {
        s.skip(1)
    } else {
        s
    }
}

/// The position of the first `e` or `E`; the length where there is none.
pub open spec fn exponent_mark(s: Seq<char>) -> nat
    decreases s.len(),
{
    if s.len() == 0 || s[0] == 'e' || s[0] == 'E' {
        0
    } else {
        1 + exponent_mark(s.drop_first())
    }
}

/// Whether a text is a decimal literal without a sign: a mantissa, and an exponent, where there is
/// one, of digits that may have a sign.
pub open spec fn unsigned_decimal(s: Seq<char>) -> bool {
    let mark = exponent_mark(s) as int;
    mantissa(s.take(mark)) && (mark < s.len() ==> digits(unsigned(s.skip(mark + 1))))
}

/// What the conversion of a text without white space around it comes to: none at all is zero, a
/// base announced in front is read, and a decimal or the name of the infinity may have a sign.
pub open spec fn trimmed_numeral(s: Seq<char>) -> Numeral {
    if s.len() == 0 {
        Numeral::Decimal(seq!['0'])
    } else if bigint::announced_radix(s) is Some {
        match bigint::natural(s.skip(2), bigint::announced_radix(s)->0, false) {
            Some(n) => Numeral::Decimal(text::decimal_text(n)),
            None => Numeral::NaN,
        }
    } else if unsigned(s) == "Infinity"@ {
        if s[0] == '-' {
            Numeral::NegativeInfinity
        } else {
            Numeral::PositiveInfinity
        }
    } else if unsigned_decimal(unsigned(s)) {
        Numeral::Decimal(s)
    } else {
        Numeral::NaN
    }
}

/// What the conversion of a string to a number comes to.
pub open spec fn numeral(s: Seq<char>) -> Numeral {
    if s.contains('\u{b}') {
        Numeral::Open
    } else {
        trimmed_numeral(bigint::trimmed_end(bigint::trimmed_start(s)))
    }
}

/// The characters from `start` to `end`.
fn copied(chars: &Vec<char>, start: usize, end: usize) -> (r: Vec<char>)
    requires
        start <= end <= chars.len(),
    ensures
        r@ == chars@.subrange(start as int, end as int),
{
    let mut r: Vec<char> = Vec::new();
    let mut i: usize = start;
    while i < end
        invariant
            start <= i <= end <= chars.len(),
            r@ == chars@.subrange(start as int, i as int),
        decreases end - i,
    {
        r.push(chars[i]);
        i = i + 1;
        proof {
            assert(chars@.subrange(start as int, i as int) =~= chars@.subrange(
                start as int,
                i - 1,
            ).push(chars@[i - 1]));
        }
    }
    r
}

/// Whether the characters are those of a text.
fn is_word(chars: &Vec<char>, word: &str) -> (r: bool)
    ensures
        r == (chars@ == word@),
{
    let letters: Vec<char> = text::characters(word);
    if chars.len() != letters.len() {
        return false;
    }
    let mut i: usize = 0;
    while i < chars.len()
        invariant
            letters@ == word@,
            i <= chars.len() == letters.len(),
            forall|j: int| 0 <= j < i ==> chars@[j] == letters@[j],
        decreases chars.len() - i,
    {
        if chars[i] != letters[i] {
            return false;
        }
        i = i + 1;
    }
    assert(chars@ =~= letters@);
    true
}

/// The characters without a sign in front.
fn without_sign(chars: &Vec<char>) -> (r: Vec<char>)
    ensures
        r@ == unsigned(chars@),
{
    let signed: bool = chars.len() > 0 && (chars[0] == '+' || chars[0] == '-');
    proof {
        assert(chars@.subrange(0, chars.len() as int) =~= chars@);
        if signed {
            assert(chars@.subrange(1, chars.len() as int) =~= chars@.skip(1));
        }
    }
    copied(chars, if signed { 1 } else { 0 }, chars.len())
}

/// Whether the characters are one or more decimal digits.
fn are_digits(chars: &Vec<char>) -> (r: bool)
    ensures
        r == digits(chars@),
{
    let mut i: usize = 0;
    while i < chars.len()
        invariant
            i <= chars.len(),
            forall|j: int| 0 <= j < i ==> '0' <= #[trigger] chars@[j] <= '9',
        decreases chars.len() - i,
    {
        if !('0' <= chars[i] && chars[i] <= '9') {
            return false;
        }
        i = i + 1;
    }
    chars.len() > 0
}

/// Whether the characters are decimal digits, at least one, and at most one point.
fn is_mantissa(chars: &Vec<char>) -> (r: bool)
    ensures
        r == mantissa(chars@),
{
    let mut i: usize = 0;
    let mut point: bool = false;
    let mut digit: bool = false;
    let ghost mut place: int = 0;
    while i < chars.len()
        invariant
            i <= chars.len(),
            digit <==> exists|j: int| 0 <= j < i && chars@[j] != '.',
            forall|j: int| 0 <= j < i ==> #[trigger] chars@[j] == '.' || '0' <= chars@[j] <= '9',
            point ==> 0 <= place < i && chars@[place] == '.',
            forall|j: int| 0 <= j < i && #[trigger] chars@[j] == '.' ==> point && j == place,
        decreases chars.len() - i,
    {
        let c: char = chars[i];
        if c == '.' {
            if point {
                assert(chars@[place] == '.' && chars@[i as int] == '.');
                return false;
            }
            point = true;
            proof {
                place = i as int;
            }
        } else if '0' <= c && c <= '9' {
            digit = true;
            assert(chars@[i as int] != '.');
        } else {
            return false;
        }
        i = i + 1;
    }
    digit
}

/// The position of the first `e` or `E`; the length where there is none.
fn find_exponent_mark(chars: &Vec<char>) -> (r: usize)
    ensures
        r == exponent_mark(chars@),
        r <= chars.len(),
{
    let mut i: usize = 0;
    proof {
        assert(chars@.skip(0) =~= chars@);
    }
    while i < chars.len() && chars[i] != 'e' && chars[i] != 'E'
        invariant
            i <= chars.len(),
            exponent_mark(chars@) == i + exponent_mark(chars@.skip(i as int)),
        decreases chars.len() - i,
    {
        proof {
            assert(chars@.skip(i as int).drop_first() =~= chars@.skip(i + 1));
        }
        i = i + 1;
    }
    i
}

/// Whether the characters are a decimal literal without a sign.
fn is_unsigned_decimal(chars: &Vec<char>) -> (r: bool)
    ensures
        r == unsigned_decimal(chars@),
{
    let mark: usize = find_exponent_mark(chars);
    proof {
        assert(chars@.subrange(0, mark as int) =~= chars@.take(mark as int));
    }
    if !is_mantissa(&copied(chars, 0, mark)) {
        false
    } else if mark == chars.len() {
        true
    } else {
        proof {
            assert(chars@.subrange(mark + 1, chars.len() as int) =~= chars@.skip(mark + 1));
        }
        are_digits(&without_sign(&copied(chars, mark + 1, chars.len())))
    }
}

/// What the conversion of a string to a number comes to.
pub fn read(s: &str) -> (r: NumericText)
    ensures
        r@ == numeral(s@),
{
    if text::contains(s, '\u{b}') {
        return NumericText::Open;
    }
    let all: Vec<char> = text::characters(s);
    let (start, end): (usize, usize) = bigint::trimmed_range(&all);
    let chars: Vec<char> = copied(&all, start, end);
    if chars.len() == 0 {
        let zero: Vec<char> = vec!['0'];
        assert(zero@ =~= seq!['0']);
        return NumericText::Decimal(zero);
    }
    proof {
        assert(chars@.subrange(0, chars.len() as int) =~= chars@);
        assert(chars@.len() >= 2 ==> chars@.subrange(2, chars.len() as int) =~= chars@.skip(2));
    }
    if let Some(radix) = bigint::read_radix(&chars, 0, chars.len()) {
        return match bigint::read_natural(&chars, 2, chars.len(), radix, false) {
            Some(n) => NumericText::Decimal(text::characters(n.to_decimal().as_str())),
            None => NumericText::NaN,
        };
    }
    let body: Vec<char> = without_sign(&chars);
    if is_word(&body, "Infinity") {
        if chars[0] == '-' {
            NumericText::NegativeInfinity
        } else {
            NumericText::PositiveInfinity
        }
    } else if is_unsigned_decimal(&body) {
        NumericText::Decimal(chars)
    } else {
        NumericText::NaN
    }
}

/// Whether a text is made of decimal digits, none at all included.
pub open spec fn figures(s: Seq<char>) -> bool {
    forall|i: int| 0 <= i < s.len() ==> '0' <= #[trigger] s[i] <= '9'
}

/// Whether a text is a sign or nothing.
pub open spec fn optional_sign(s: Seq<char>) -> bool {
    s.len() == 0 || s == seq!['+'] || s == seq!['-']
}

/// Whether a text is a sign, digits, a point and digits behind it, and an exponent: the letter, a
/// sign and digits. The signs, the point and the exponent may be missing, and digits must stand on
/// one side of the point.
pub open spec fn composed(
    t: Seq<char>,
    sign: Seq<char>,
    whole: Seq<char>,
    point: Seq<char>,
    fraction: Seq<char>,
    letter: Seq<char>,
    power_sign: Seq<char>,
    power: Seq<char>,
) -> bool {
    &&& optional_sign(sign)
    &&& figures(whole)
    &&& point.len() == 0 && fraction.len() == 0 || point == seq!['.']
    &&& figures(fraction)
    &&& whole.len() + fraction.len() > 0
    &&& letter.len() == 0 && power_sign.len() == 0 && power.len() == 0 || (letter == seq!['e']
        || letter == seq!['E']) && optional_sign(power_sign) && power.len() > 0
    &&& figures(power)
    &&& t == sign + ((whole + point + fraction) + (letter + (power_sign + power)))
}

/// Whether a text is a decimal literal.
pub open spec fn decimal_literal(t: Seq<char>) -> bool {
    exists|
        sign: Seq<char>,
        whole: Seq<char>,
        point: Seq<char>,
        fraction: Seq<char>,
        letter: Seq<char>,
        power_sign: Seq<char>,
        power: Seq<char>,
    | #[trigger]
        composed(t, sign, whole, point, fraction, letter, power_sign, power)
}

/// The first `e` or `E`.
proof fn lemma_exponent_mark(s: Seq<char>)
    ensures
        exponent_mark(s) <= s.len(),
        forall|i: int|
            0 <= i < exponent_mark(s) ==> #[trigger] s[i] != 'e' && s[i] != 'E',
        exponent_mark(s) < s.len() ==> s[exponent_mark(s) as int] == 'e' || s[exponent_mark(
            s,
        ) as int] == 'E',
    decreases s.len(),
{
    if s.len() == 0 || s[0] == 'e' || s[0] == 'E' {
    } else {
        let rest = s.drop_first();
        lemma_exponent_mark(rest);
        assert forall|i: int| 0 <= i < exponent_mark(s) implies #[trigger] s[i] != 'e' && s[i]
            != 'E' by {
            if i > 0 {
                assert(rest[i - 1] != 'e' && rest[i - 1] != 'E');
            }
        }
        assert(exponent_mark(rest) < rest.len() ==> rest[exponent_mark(rest) as int]
            == s[exponent_mark(s) as int]);
    }
}

/// The exponent starts behind what holds no letter.
proof fn lemma_exponent_mark_behind(s: Seq<char>, mark: int)
    requires
        0 <= mark <= s.len(),
        forall|i: int| 0 <= i < mark ==> #[trigger] s[i] != 'e' && s[i] != 'E',
        mark < s.len() ==> s[mark] == 'e' || s[mark] == 'E',
    ensures
        exponent_mark(s) == mark,
{
    lemma_exponent_mark(s);
    if exponent_mark(s) < mark {
        assert(s[exponent_mark(s) as int] != 'e');
    }
}

/// A mantissa is made of digits on one side of a point or on both.
proof fn lemma_mantissa(m: Seq<char>)
    requires
        mantissa(m),
    ensures
        exists|whole: Seq<char>, point: Seq<char>, fraction: Seq<char>|
            #![trigger whole + point + fraction]
            figures(whole) && figures(fraction) && whole.len() + fraction.len() > 0 && (point.len()
                == 0 && fraction.len() == 0 || point == seq!['.']) && m == whole + point + fraction,
{
    let digit = choose|i: int| 0 <= i < m.len() && m[i] != '.';
    if m.contains('.') {
        let k = choose|k: int| 0 <= k < m.len() && m[k] == '.';
        let (whole, point, fraction) = (m.take(k), seq!['.'], m.skip(k + 1));
        assert forall|i: int| 0 <= i < whole.len() implies '0' <= #[trigger] whole[i] <= '9' by {
            assert(m[i] == '.' || '0' <= m[i] <= '9');
            assert(!(m[i] == '.' && m[k] == '.'));
        }
        assert forall|i: int| 0 <= i < fraction.len() implies '0' <= #[trigger] fraction[i]
            <= '9' by {
            assert(m[k + 1 + i] == '.' || '0' <= m[k + 1 + i] <= '9');
            assert(!(m[k] == '.' && m[k + 1 + i] == '.'));
        }
        assert(m =~= whole + point + fraction);
        assert(digit != k);
    } else {
        let nothing = Seq::<char>::empty();
        assert forall|i: int| 0 <= i < m.len() implies '0' <= #[trigger] m[i] <= '9' by {
            assert(m[i] == '.' || '0' <= m[i] <= '9');
            assert(m.contains(m[i]));
        }
        assert(m =~= m + nothing + nothing);
    }
}

/// What a sign is taken off of.
proof fn lemma_sign(s: Seq<char>) -> (sign: Seq<char>)
    ensures
        optional_sign(sign),
        s == sign + unsigned(s),
{
    let sign = s.take(s.len() - unsigned(s).len());
    if unsigned(s).len() < s.len() {
        assert(sign =~= seq![s[0]]);
    }
    assert(s =~= sign + unsigned(s));
    sign
}

/// A text in front of which a sign stands, or none.
proof fn lemma_unsigned(sign: Seq<char>, s: Seq<char>)
    requires
        optional_sign(sign),
        s.len() > 0,
        s[0] != '+',
        s[0] != '-',
    ensures
        unsigned(sign + s) == s,
{
    let t = sign + s;
    if sign.len() == 0 {
        assert(t =~= s);
    } else {
        assert(t[0] == sign[0]);
        assert(t.skip(1) =~= s);
    }
}

/// The decimal literals are the texts that are composed like one.
#[verifier::spinoff_prover]
#[verifier::rlimit(40)]
pub proof fn law_decimal_literals_are_composed(t: Seq<char>)
    ensures
        unsigned_decimal(unsigned(t)) <==> decimal_literal(t),
{
    let u = unsigned(t);
    if unsigned_decimal(u) {
        let mark = exponent_mark(u) as int;
        lemma_exponent_mark(u);
        let sign = lemma_sign(t);
        let m = u.take(mark);
        lemma_mantissa(m);
        let (whole, point, fraction) = choose|
            whole: Seq<char>,
            point: Seq<char>,
            fraction: Seq<char>,
        |
            #![trigger whole + point + fraction]
            figures(whole) && figures(fraction) && whole.len() + fraction.len() > 0 && (point.len()
                == 0 && fraction.len() == 0 || point == seq!['.']) && m == whole + point + fraction;
        if mark < u.len() {
            let letter = seq![u[mark]];
            let rest = u.skip(mark + 1);
            let power_sign = lemma_sign(rest);
            let power = unsigned(rest);
            assert(u =~= m + (letter + (power_sign + power)));
            assert(composed(t, sign, whole, point, fraction, letter, power_sign, power));
        } else {
            let nothing = Seq::<char>::empty();
            assert(u =~= m + (nothing + (nothing + nothing)));
            assert(composed(t, sign, whole, point, fraction, nothing, nothing, nothing));
        }
    }
    if decimal_literal(t) {
        let (sign, whole, point, fraction, letter, power_sign, power) = choose|
            sign: Seq<char>,
            whole: Seq<char>,
            point: Seq<char>,
            fraction: Seq<char>,
            letter: Seq<char>,
            power_sign: Seq<char>,
            power: Seq<char>,
        | #[trigger]
            composed(t, sign, whole, point, fraction, letter, power_sign, power);
        lemma_composed(t, sign, whole, point, fraction, letter, power_sign, power);
    }
}

/// A text that is composed like a decimal literal is one.
#[verifier::spinoff_prover]
#[verifier::rlimit(40)]
proof fn lemma_composed(
    t: Seq<char>,
    sign: Seq<char>,
    whole: Seq<char>,
    point: Seq<char>,
    fraction: Seq<char>,
    letter: Seq<char>,
    power_sign: Seq<char>,
    power: Seq<char>,
)
    requires
        composed(t, sign, whole, point, fraction, letter, power_sign, power),
    ensures
        unsigned_decimal(unsigned(t)),
{
    let m = whole + point + fraction;
    let tail = letter + (power_sign + power);
    let u = m + tail;
    assert forall|i: int| 0 <= i < m.len() implies #[trigger] m[i] == '.' || '0' <= m[i]
        <= '9' by {
        if i < whole.len() {
            assert(m[i] == whole[i]);
        } else if i < whole.len() + point.len() {
            assert(m[i] == point[i - whole.len()]);
        } else {
            assert(m[i] == fraction[i - whole.len() - point.len()]);
        }
    }
    assert(u[0] == m[0]);
    lemma_unsigned(sign, u);
    let mark = m.len() as int;
    assert forall|i: int| 0 <= i < mark implies #[trigger] u[i] != 'e' && u[i] != 'E' by {
        assert(u[i] == m[i]);
    }
    if letter.len() > 0 {
        assert(u[mark] == letter[0]);
    }
    lemma_exponent_mark_behind(u, mark);
    assert(u.take(mark) =~= m);
    assert(mantissa(m)) by {
        if whole.len() > 0 {
            assert(m[0] == whole[0]);
            assert(m[0] != '.');
        } else {
            assert(m[point.len() as int] == fraction[0]);
            assert(m[point.len() as int] != '.');
        }
        assert forall|i: int, j: int| 0 <= i < j < m.len() implies !(#[trigger] m[i] == '.'
            && #[trigger] m[j] == '.') by {
            if i < whole.len() {
                assert(m[i] == whole[i]);
            } else {
                assert(m[j] == fraction[j - whole.len() - point.len()]);
            }
        }
    }
    if letter.len() > 0 {
        assert(u.skip(mark + 1) =~= power_sign + power);
        lemma_unsigned(power_sign, power);
    }
}

/// Whether a text is the name of the infinity behind a sign or none.
pub open spec fn infinity_text(t: Seq<char>, negative: bool) -> bool {
    if negative {
        t == seq!['-'] + "Infinity"@
    } else {
        t == "Infinity"@ || t == seq!['+'] + "Infinity"@
    }
}

/// Whether a text is digits behind an announced base, and denotes `n`.
pub open spec fn announced_text(t: Seq<char>, n: int) -> bool {
    exists|radix: int, rest: Seq<char>| #[trigger]
        bigint::announces(t, radix, rest) && bigint::all_digits(rest, radix) && n
            == bigint::positional(rest, radix)
}

/// A string is sorted by what is framed by blanks in it: nothing at all is zero, digits behind an
/// announced base are written in base ten, a decimal literal stays as it is, the name of the
/// infinity may have a sign, and anything else is no number. A vertical tab leaves it open.
pub proof fn law_texts_are_sorted(s: Seq<char>, start: int, end: int)
    requires
        bigint::framed(s, start, end),
    ensures
        numeral(s) is Open <==> s.contains('\u{b}'),
        !s.contains('\u{b}') ==> {
            let t = s.subrange(start, end);
            match numeral(s) {
                Numeral::Decimal(d) => {
                    ||| t.len() == 0 && d == seq!['0']
                    ||| decimal_literal(t) && d == t
                    ||| exists|n: int| #[trigger] announced_text(t, n) && d == text::decimal_text(n)
                },
                Numeral::PositiveInfinity => infinity_text(t, false),
                Numeral::NegativeInfinity => infinity_text(t, true),
                Numeral::NaN => t.len() > 0 && !decimal_literal(t) && !infinity_text(t, false)
                    && !infinity_text(t, true) && forall|n: int| !#[trigger] announced_text(t, n),
                Numeral::Open => false,
            }
        },
{
    let t = s.subrange(start, end);
    bigint::law_trimming_takes_off_blanks(s, start, end);
    law_decimal_literals_are_composed(t);
    reveal_strlit("Infinity");
    assert("Infinity"@.len() == 8 && "Infinity"@[0] == 'I');
    let sign = lemma_sign(t);
    lemma_unsigned(seq!['-'], "Infinity"@);
    lemma_unsigned(seq!['+'], "Infinity"@);
    lemma_unsigned(Seq::<char>::empty(), "Infinity"@);
    assert(Seq::<char>::empty() + "Infinity"@ =~= "Infinity"@);
    if t.len() >= 2 && t[0] == '0' && bigint::base_of_letter(t[1]) is Some {
        let radix = bigint::base_of_letter(t[1])->0;
        let rest = t.skip(2);
        bigint::lemma_natural_by_place(rest, radix as nat);
        assert(bigint::announces(t, radix, rest));
        if bigint::all_digits(rest, radix) {
            assert(announced_text(t, bigint::positional(rest, radix)));
        }
        assert(unsigned(t) == t);
        assert(t != seq!['-'] + "Infinity"@);
        lemma_exponent_mark(t);
        if exponent_mark(t) >= 2 {
            assert(t.take(exponent_mark(t) as int)[1] == t[1]);
        }
        assert(!mantissa(t.take(exponent_mark(t) as int)));
    } else {
        assert(forall|n: int| !#[trigger] announced_text(t, n));
    }
}

} // verus!
