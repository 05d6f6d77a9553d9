//! Strings, as sequences of characters.
use vstd::prelude::*;

verus! {

/// The UTF-16 code units of a character.
pub open spec fn code_units(c: char) -> Seq<int> {
    if c as int <= 0xFFFF {
        seq![c as int]
    } else {
        seq![0xD800 + (c as int - 0x1_0000) / 0x400, 0xDC00 + (c as int - 0x1_0000) % 0x400]
    }
}

/// The UTF-16 code units of a string.
pub open spec fn utf16(s: Seq<char>) -> Seq<int>
    decreases s.len(),
{
    if s.len() == 0 {
        Seq::empty()
    } else {
        code_units(s[0]) + utf16(s.drop_first())
    }
}

/// Whether one sequence of code units comes before another: it is a proper prefix of it, or below
/// it in the first unit in which they differ.
pub open spec fn units_precede(a: Seq<int>, b: Seq<int>) -> bool
    decreases a.len(),
{
    if b.len() == 0 {
        false
    } else if a.len() == 0 {
        true
    } else if a[0] == b[0] {
        units_precede(a.drop_first(), b.drop_first())
    } else {
        a[0] < b[0]
    }
}

/// Whether `a` comes before `b` in the order of their UTF-16 code units.
pub open spec fn precedes(a: Seq<char>, b: Seq<char>) -> bool {
    units_precede(utf16(a), utf16(b))
}

/// The decimal digit of a number below ten.
pub open spec fn digit(n: nat) -> char {
    (0x30 + n) as char
}

/// The decimal digits of a natural number.
pub open spec fn decimal(n: nat) -> Seq<char>
    decreases n,
{
    if n < 10 {
        seq![digit(n)]
    } else {
        decimal(n / 10).push(digit(n % 10))
    }
}

/// The decimal text of an integer.
pub open spec fn decimal_text(n: int) -> Seq<char> {
    if n < 0 {
        seq!['-'] + decimal((-n) as nat)
    } else {
        decimal(n as nat)
    }
}

/// The characters of a string.
pub fn characters(s: &str) -> (r: Vec<char>)
    ensures
        r@ == s@,
{
    let mut r: Vec<char> = Vec::new();
    for c in iter: s.chars()
        invariant
            iter.seq() == s@,
            r@ == s@.take(iter.index() as int),
    {
        r.push(c);
    }
    r
}

/// Whether a character occurs in a string.
pub fn contains(s: &str, c: char) -> (r: bool)
    ensures
        r == s@.contains(c),
{
    for d in iter: s.chars()
        invariant
            iter.seq() == s@,
            forall|i: int| 0 <= i < iter.index() ==> s@[i] != c,
    {
        if d == c {
            return true;
        }
    }
    false
}

/// Whether two strings are the same.
pub fn is_text(s: &str, text: &str) -> (r: bool)
    ensures
        r == (s@ == text@),
{
    s.to_owned() == text.to_owned()
}

/// The first code unit of a character.
fn first_unit(c: char) -> (r: u32)
    ensures
        r == code_units(c)[0],
{
    let code: u32 = c as u32;
    if code <= 0xFFFF {
        code
    } else {
        0xD800 + (code - 0x1_0000) / 0x400
    }
}

/// Whether a character comes before a different one in the order of code units.
fn is_char_before(a: char, b: char) -> (r: bool)
    requires
        a != b,
    ensures
        r == if code_units(a)[0] == code_units(b)[0] {
            code_units(a)[1] < code_units(b)[1]
        } else {
            code_units(a)[0] < code_units(b)[0]
        },
        code_units(a)[0] == code_units(b)[0] ==> code_units(a).len() == 2 && code_units(b).len()
            == 2 && code_units(a)[1] != code_units(b)[1],
{
    let (x, y): (u32, u32) = (first_unit(a), first_unit(b));
    proof {
        let (m, n) = (a as int - 0x1_0000, b as int - 0x1_0000);
        assert(m == 0x400 * (m / 0x400) + m % 0x400);
        assert(n == 0x400 * (n / 0x400) + n % 0x400);
    }
    if x == y {
        a < b
    } else {
        x < y
    }
}

/// A common first character does not change the order of two strings.
proof fn lemma_common_character(a: Seq<char>, b: Seq<char>)
    requires
        a.len() > 0,
        b.len() > 0,
        a[0] == b[0],
    ensures
        precedes(a, b) == precedes(a.drop_first(), b.drop_first()),
{
    let (x, y) = (utf16(a), utf16(b));
    let (s, t) = (utf16(a.drop_first()), utf16(b.drop_first()));
    assert(x[0] == code_units(a[0])[0]);
    assert(y[0] == code_units(b[0])[0]);
    if a[0] <= '\u{ffff}' {
        assert(x.drop_first() =~= s);
        assert(y.drop_first() =~= t);
    } else {
        assert(x.drop_first()[0] == y.drop_first()[0]);
        assert(x.drop_first().drop_first() =~= s);
        assert(y.drop_first().drop_first() =~= t);
        assert(units_precede(x.drop_first(), y.drop_first()) == units_precede(s, t));
    }
}

/// Two strings with different first characters are ordered by these.
proof fn lemma_different_character(a: Seq<char>, b: Seq<char>)
    requires
        a.len() > 0,
        b.len() > 0,
        code_units(a[0])[0] == code_units(b[0])[0] ==> code_units(a[0]).len() == 2 && code_units(
            b[0],
        ).len() == 2 && code_units(a[0])[1] != code_units(b[0])[1],
    ensures
        precedes(a, b) == if code_units(a[0])[0] == code_units(b[0])[0] {
            code_units(a[0])[1] < code_units(b[0])[1]
        } else {
            code_units(a[0])[0] < code_units(b[0])[0]
        },
{
    let (x, y) = (utf16(a), utf16(b));
    assert(x[0] == code_units(a[0])[0]);
    assert(y[0] == code_units(b[0])[0]);
    if x[0] == y[0] {
        assert(x.drop_first()[0] == code_units(a[0])[1]);
        assert(y.drop_first()[0] == code_units(b[0])[1]);
        assert(units_precede(x.drop_first(), y.drop_first()) == (code_units(a[0])[1]
            < code_units(b[0])[1]));
    }
}

/// Whether `a` comes before `b` in the order of their UTF-16 code units.
pub fn is_before(a: &str, b: &str) -> (r: bool)
    ensures
        r == precedes(a@, b@),
{
    let (a, b): (Vec<char>, Vec<char>) = (characters(a), characters(b));
    let mut i: usize = 0;
    proof {
        assert(a@.skip(0) =~= a@);
        assert(b@.skip(0) =~= b@);
    }
    while i < a.len() && i < b.len() && a[i] == b[i]
        invariant
            i <= a.len(),
            i <= b.len(),
            precedes(a@, b@) == precedes(a@.skip(i as int), b@.skip(i as int)),
        decreases a.len() - i,
    {
        proof {
            lemma_common_character(a@.skip(i as int), b@.skip(i as int));
            assert(a@.skip(i as int).drop_first() =~= a@.skip(i + 1));
            assert(b@.skip(i as int).drop_first() =~= b@.skip(i + 1));
        }
        i = i + 1;
    }
    let ghost (s, t) = (a@.skip(i as int), b@.skip(i as int));
    if i >= b.len() {
        assert(utf16(t) =~= Seq::<int>::empty());
        false
    } else if i >= a.len() {
        assert(utf16(s) =~= Seq::<int>::empty());
        assert(utf16(t)[0] == code_units(t[0])[0]);
        true
    } else {
        let before: bool = is_char_before(a[i], b[i]);
        proof {
            lemma_different_character(s, t);
        }
        before
    }
}

/// The decimal digits of a natural number.
fn decimal_of(n: u64) -> (r: String)
    ensures
        r@ == decimal(n as nat),
    decreases n,
{
    let last: &str = match n % 10 {
        0 => "0",
        1 => "1",
        2 => "2",
        3 => "3",
        4 => "4",
        5 => "5",
        6 => "6",
        7 => "7",
        8 => "8",
        _ => "9",
    };
    proof {
        reveal_strlit("0");
        reveal_strlit("1");
        reveal_strlit("2");
        reveal_strlit("3");
        reveal_strlit("4");
        reveal_strlit("5");
        reveal_strlit("6");
        reveal_strlit("7");
        reveal_strlit("8");
        reveal_strlit("9");
        assert(last@ =~= seq![digit((n % 10) as nat)]);
    }
    if n < 10 {
        last.to_owned()
    } else {
        decimal_of(n / 10).concat(last)
    }
}

/// The decimal text of an integer.
pub fn decimal_text_of(n: i64) -> (r: String)
    requires
        n > i64::MIN,
    ensures
        r@ == decimal_text(n as int),
{
    if n < 0 {
        proof {
            reveal_strlit("-");
            assert("-"@ =~= seq!['-']);
        }
        "-".to_owned().concat(decimal_of((-n) as u64).as_str())
    } else {
        decimal_of(n as u64)
    }
}

/// A character of the first plane is its own code unit. Any other is a high and a low surrogate,
/// which hold ten bits each of how far it lies beyond that plane.
pub proof fn law_code_units_of_a_character(c: char)
    ensures
        c as int <= 0xFFFF ==> utf16(seq![c]) == seq![c as int],
        c as int > 0xFFFF ==> {
            let units = utf16(seq![c]);
            &&& units.len() == 2
            &&& 0xD800 <= units[0] < 0xDC00
            &&& 0xDC00 <= units[1] < 0xE000
            &&& c as int == 0x1_0000 + (units[0] - 0xD800) * 0x400 + (units[1] - 0xDC00)
        },
{
    assert(seq![c].drop_first() =~= Seq::<char>::empty());
    assert(utf16(Seq::<char>::empty()) =~= Seq::<int>::empty());
    assert(utf16(seq![c]) =~= code_units(c));
}

/// The code units of a string are those of its parts, one after another.
pub proof fn law_code_units_of_parts(a: Seq<char>, b: Seq<char>)
    ensures
        utf16(a + b) == utf16(a) + utf16(b),
    decreases a.len(),
{
    if a.len() == 0 {
        assert(a + b =~= b);
        assert(utf16(a) + utf16(b) =~= utf16(b));
    } else {
        law_code_units_of_parts(a.drop_first(), b);
        assert((a + b).drop_first() =~= a.drop_first() + b);
        assert(utf16(a + b) =~= utf16(a) + utf16(b));
    }
}

/// Whether `a` is below `b` in the unit at `k`, before which they agree; the end of `a` is below any
/// unit.
pub open spec fn below_at(a: Seq<int>, b: Seq<int>, k: int) -> bool {
    &&& 0 <= k <= a.len()
    &&& k < b.len()
    &&& forall|i: int| 0 <= i < k ==> #[trigger] a[i] == b[i]
    &&& k < a.len() ==> a[k] < b[k]
}

proof fn lemma_below_at(a: Seq<int>, b: Seq<int>)
    ensures
        units_precede(a, b) <==> exists|k: int| below_at(a, b, k),
    decreases a.len(),
{
    if b.len() == 0 {
    } else if a.len() == 0 {
        assert(below_at(a, b, 0));
    } else {
        let (x, y) = (a.drop_first(), b.drop_first());
        lemma_below_at(x, y);
        if a[0] == b[0] {
            if units_precede(x, y) {
                let k = choose|k: int| below_at(x, y, k);
                assert forall|i: int| 0 <= i < k + 1 implies #[trigger] a[i] == b[i] by {
                    if i > 0 {
                        assert(x[i - 1] == y[i - 1]);
                    }
                }
                assert(k < x.len() ==> a[k + 1] == x[k]);
                assert(b[k + 1] == y[k]);
                assert(below_at(a, b, k + 1));
            }
            if exists|k: int| below_at(a, b, k) {
                let k = choose|k: int| below_at(a, b, k);
                assert forall|i: int| 0 <= i < k - 1 implies #[trigger] x[i] == y[i] by {
                    assert(a[i + 1] == b[i + 1]);
                }
                assert(below_at(x, y, k - 1));
            }
        } else {
            if a[0] < b[0] {
                assert(below_at(a, b, 0));
            }
            if exists|k: int| below_at(a, b, k) {
                let k = choose|k: int| below_at(a, b, k);
                assert(k == 0);
            }
        }
    }
}

/// One string precedes another just where it is below it in the first code unit in which they
/// differ, or ends where the other goes on.
pub proof fn law_order_is_that_of_the_first_difference(a: Seq<char>, b: Seq<char>)
    ensures
        precedes(a, b) <==> exists|k: int| below_at(utf16(a), utf16(b), k),
{
    lemma_below_at(utf16(a), utf16(b));
}

/// The decimal text of an integer is a minus sign for a negative one, and digits of which the first
/// is no zero unless it is the only one. The digits of a natural number are those of its tenth part
/// and the digit of what is left.
pub proof fn law_decimal_text_is_plain(n: nat, d: nat)
    requires
        d < 10,
    ensures
        n > 0 ==> decimal_text(-(n as int)) == seq!['-'] + decimal_text(n as int),
        n > 0 ==> decimal_text((10 * n + d) as int) == decimal_text(n as int) + decimal_text(
            d as int,
        ),
        decimal_text(d as int).len() == 1,
        decimal_text(d as int)[0] as int == '0' as int + d,
        decimal_text(n as int)[0] == '0' ==> n == 0,
    decreases n,
{
    if n >= 10 {
        law_decimal_text_is_plain(n / 10, n % 10);
        assert(decimal(n)[0] == decimal(n / 10)[0]);
    }
    if n > 0 {
        assert((10 * n + d) / 10 == n);
        assert(decimal(10 * n + d) =~= decimal(n) + decimal(d));
    }
}

} // verus!
