//! Text helpers: numerals, and the operations on texts that the rest of the
//! library needs. They work on the characters of a text; the one thing that
//! is taken on trust is the string that the standard library makes of a
//! single character.

use vstd::prelude::*;

verus! {

/// The decimal digit that stands for `d`, for `d` below ten.
pub open spec fn digit_char(d: nat) -> char {
    if d == 0 {
        '0'
    } else if d == 1 {
        '1'
    } else if d == 2 {
        '2'
    } else if d == 3 {
        '3'
    } else if d == 4 {
        '4'
    } else if d == 5 {
        '5'
    } else if d == 6 {
        '6'
    } else if d == 7 {
        '7'
    } else if d == 8 {
        '8'
    } else {
        '9'
    }
}

/// The decimal numeral of `n`: most significant digit first, no leading zero,
/// and `"0"` for zero.
pub open spec fn decimal(n: nat) -> Seq<char>
    decreases n,
{
    if n < 10 {
        seq![digit_char(n)]
    } else {
        decimal(n / 10).push(digit_char(n % 10))
    }
}

/// `char::to_string`: the string made of that one character.
#[verifier::external_body]
pub(crate) fn char_to_string(c: char) -> (s: String)
    ensures
        s@ == seq![c],
{
    c.to_string()
}

/// The numeral of an integer: that of its magnitude, after a minus sign if it
/// is negative.
pub open spec fn int_text(i: int) -> Seq<char> {
    if i < 0 {
        seq!['-'] + decimal((-i) as nat)
    } else {
        decimal(i as nat)
    }
}

/// The decimal digit that stands for `d`.
fn digit(d: u64) -> (c: char)
    requires
        d < 10,
    ensures
        c == digit_char(d as nat),
{
    if d == 0 {
        '0'
    } else if d == 1 {
        '1'
    } else if d == 2 {
        '2'
    } else if d == 3 {
        '3'
    } else if d == 4 {
        '4'
    } else if d == 5 {
        '5'
    } else if d == 6 {
        '6'
    } else if d == 7 {
        '7'
    } else if d == 8 {
        '8'
    } else {
        '9'
    }
}

/// The decimal numeral of `n`.
pub fn numeral(n: u64) -> (s: String)
    ensures
        s@ == decimal(n as nat),
{
    let mut rest: u64 = n;
    let mut s = String::new();
    while rest >= 10
        invariant
            decimal(n as nat) == decimal(rest as nat) + s@,
        decreases rest,
    {
        let low = char_to_string(digit(rest % 10));
        proof {
            assert(decimal(rest as nat) == decimal((rest / 10) as nat).push(
                digit_char((rest % 10) as nat),
            ));
            assert(decimal((rest / 10) as nat).push(digit_char((rest % 10) as nat)) + s@
                =~= decimal((rest / 10) as nat) + (low@ + s@));
        }
        s = low.concat(s.as_str());
        rest = rest / 10;
    }
    char_to_string(digit(rest)).concat(s.as_str())
}

/// The decimal numeral of `n`.
pub fn usize_to_string(n: usize) -> (s: String)
    ensures
        s@ == decimal(n as nat),
{
    numeral(n as u64)
}

/// The numeral of `i`, with a minus sign if it is negative.
pub fn i64_to_string(i: i64) -> (s: String)
    ensures
        s@ == int_text(i as int),
{
    if i < 0 {
        let magnitude = (-(i as i128)) as u64;
        proof {
            reveal_strlit("-");
            assert("-"@ =~= seq!['-']);
        }
        owned("-").concat(numeral(magnitude).as_str())
    } else {
        numeral(i as u64)
    }
}

/// The number that a decimal digit stands for.
pub open spec fn digit_value(c: char) -> Option<nat> {
    if c == '0' {
        Some(0)
    } else if c == '1' {
        Some(1)
    } else if c == '2' {
        Some(2)
    } else if c == '3' {
        Some(3)
    } else if c == '4' {
        Some(4)
    } else if c == '5' {
        Some(5)
    } else if c == '6' {
        Some(6)
    } else if c == '7' {
        Some(7)
    } else if c == '8' {
        Some(8)
    } else if c == '9' {
        Some(9)
    } else {
        None
    }
}

/// The number that a sequence of decimal digits stands for, if it is one or
/// more digits and nothing else.
pub open spec fn digits_value(digits: Seq<char>) -> Option<nat>
    decreases digits.len(),
{
    if digits.len() == 0 {
        None
    } else if digits.len() == 1 {
        digit_value(digits[0])
    } else {
        match (digits_value(digits.drop_last()), digit_value(digits.last())) {
            (Some(high), Some(low)) => Some(10 * high + low),
            _ => None,
        }
    }
}

/// The 64-bit integer that a text stands for: an optional sign, `+` or `-`,
/// then one or more decimal digits, with a value that fits.
pub open spec fn int_of(text: Seq<char>) -> Option<i64> {
    if text.len() == 0 {
        None
    } else {
        let negative = text[0] == '-';
        let digits = if text[0] == '-' || text[0] == '+' {
            text.skip(1)
        } else {
            text
        };
        match digits_value(digits) {
            None => None,
            Some(magnitude) => {
                let value = if negative {
                    -(magnitude as int)
                } else {
                    magnitude as int
                };
                if i64::MIN <= value <= i64::MAX {
                    Some(value as i64)
                } else {
                    None
                }
            },
        }
    }
}

/// The index of the first `c` in `text`, if there is one.
pub open spec fn first_index(text: Seq<char>, c: char) -> Option<int>
    decreases text.len(),
{
    if text.len() == 0 {
        None
    } else if text[0] == c {
        Some(0)
    } else {
        match first_index(text.drop_first(), c) {
            Some(i) => Some(i + 1),
            None => None,
        }
    }
}

/// `text` with every `from` turned into `to`.
pub open spec fn replaced(text: Seq<char>, from: char, to: char) -> Seq<char> {
    Seq::new(
        text.len(),
        |i: int|
            if text[i] == from {
                to
            } else {
                text[i]
            },
    )
}

/// `text` without the characters `c`.
pub open spec fn removed(text: Seq<char>, c: char) -> Seq<char>
    decreases text.len(),
{
    if text.len() == 0 {
        Seq::empty()
    } else if text.last() == c {
        removed(text.drop_last(), c)
    } else {
        removed(text.drop_last(), c).push(text.last())
    }
}

/// The characters of a text.
pub fn chars_of(s: &str) -> (chars: Vec<char>)
    ensures
        chars@ == s@,
{
    let mut chars: Vec<char> = Vec::new();
    for c in it: s.chars()
        invariant
            chars@ == it.seq().take(it.index() as int),
            it.seq() == s@,
    {
        chars.push(c);
        assert(chars@ =~= it.seq().take(it.index() + 1));
    }
    chars
}

/// Whether the text is made of the given characters.
pub fn same_text(s: &str, chars: &Vec<char>) -> (same: bool)
    ensures
        same == (s@ == chars@),
{
    if s.unicode_len() != chars.len() {
        return false;
    }
    let mut same = true;
    let mut i: usize = 0;
    proof {
        assert(s@.take(0) =~= chars@.take(0));
    }
    for c in it: s.chars()
        invariant
            i == it.index(),
            it.seq() == s@,
            s@.len() == chars.len(),
            same == (s@.take(i as int) == chars@.take(i as int)),
    {
        proof {
            assert(s@.take(i as int + 1).drop_last() =~= s@.take(i as int));
            assert(chars@.take(i as int + 1).drop_last() =~= chars@.take(i as int));
            assert(s@.take(i as int + 1).last() == c);
            assert(chars@.take(i as int + 1).last() == chars@[i as int]);
        }
        if chars[i] != c {
            same = false;
        }
        proof {
            if same {
                assert(s@.take(i as int + 1) =~= s@.take(i as int).push(c));
                assert(chars@.take(i as int + 1) =~= chars@.take(i as int).push(c));
            }
        }
        i += 1;
    }
    proof {
        assert(s@.take(i as int) =~= s@);
        assert(chars@.take(i as int) =~= chars@);
    }
    same
}

/// Whether two texts hold the same characters.
pub fn str_eq(a: &str, b: &str) -> (same: bool)
    ensures
        same == (a@ == b@),
{
    let chars = chars_of(b);
    same_text(a, &chars)
}

/// The text made of the characters from `from` up to `to`.
pub fn string_of(chars: &Vec<char>, from: usize, to: usize) -> (s: String)
    requires
        from <= to <= chars.len(),
    ensures
        s@ == chars@.subrange(from as int, to as int),
{
    let mut s = String::new();
    let mut i: usize = from;
    while i < to
        invariant
            from <= i <= to <= chars.len(),
            s@ == chars@.subrange(from as int, i as int),
        decreases to - i,
    {
        s.append(char_to_string(chars[i]).as_str());
        i += 1;
        assert(s@ =~= chars@.subrange(from as int, i as int));
    }
    s
}

/// The text without the characters `c`.
pub fn remove(s: &str, c: char) -> (r: String)
    ensures
        r@ == removed(s@, c),
{
    let chars = chars_of(s);
    let mut kept: Vec<char> = Vec::new();
    let mut i: usize = 0;
    while i < chars.len()
        invariant
            i <= chars.len(),
            kept@ == removed(chars@.take(i as int), c),
        decreases chars.len() - i,
    {
        proof {
            assert(chars@.take(i as int + 1).drop_last() =~= chars@.take(i as int));
        }
        if chars[i] != c {
            kept.push(chars[i]);
        }
        i += 1;
    }
    proof {
        assert(chars@.take(i as int) =~= chars@);
        assert(kept@.subrange(0, kept.len() as int) =~= kept@);
    }
    string_of(&kept, 0, kept.len())
}

/// A digit sequence that is not a numeral does not become one by more
/// characters behind it, and a numeral does not get smaller.
pub proof fn lemma_digits_prefix(digits: Seq<char>, k: int)
    requires
        1 <= k <= digits.len(),
    ensures
        digits_value(digits.take(k)) is None ==> digits_value(digits) is None,
        digits_value(digits) is Some ==> digits_value(digits.take(k))->0 <= digits_value(
            digits,
        )->0,
    decreases digits.len() - k,
{
    if k < digits.len() {
        assert(digits.drop_last().take(k) =~= digits.take(k));
        lemma_digits_prefix(digits.drop_last(), k);
    } else {
        assert(digits.take(k) =~= digits);
    }
}

/// The number that a decimal digit stands for, if the character is one.
fn digit_of(c: char) -> (d: Option<u64>)
    ensures
        match digit_value(c) {
            Some(value) => d == Some(value as u64) && value < 10,
            None => d is None,
        },
{
    if c == '0' {
        Some(0)
    } else if c == '1' {
        Some(1)
    } else if c == '2' {
        Some(2)
    } else if c == '3' {
        Some(3)
    } else if c == '4' {
        Some(4)
    } else if c == '5' {
        Some(5)
    } else if c == '6' {
        Some(6)
    } else if c == '7' {
        Some(7)
    } else if c == '8' {
        Some(8)
    } else if c == '9' {
        Some(9)
    } else {
        None
    }
}

/// The integer that the text stands for, if it stands for one.
pub fn parse_i64(s: &str) -> (r: Option<i64>)
    ensures
        r == int_of(s@),
{
    let chars = chars_of(s);
    if chars.len() == 0 {
        return None;
    }
    let negative = chars[0] == '-';
    let start: usize = if chars[0] == '-' || chars[0] == '+' {
        1
    } else {
        0
    };
    let ghost digits = if start == 1 {
        chars@.skip(1)
    } else {
        chars@
    };
    let limit: u64 = if negative {
        0x8000_0000_0000_0000
    } else {
        0x7fff_ffff_ffff_ffff
    };
    let mut magnitude: u64 = 0;
    let mut i: usize = start;
    while i < chars.len()
        invariant
            start <= i <= chars.len(),
            start <= 1,
            digits == chars@.skip(start as int),
            magnitude <= limit,
            0x7fff_ffff_ffff_ffff <= limit <= 0x8000_0000_0000_0000,
            negative == (chars@[0] == '-'),
            negative ==> limit == 0x8000_0000_0000_0000,
            !negative ==> limit == 0x7fff_ffff_ffff_ffff,
            chars@ == s@,
            chars.len() > 0,
            digits == (if chars@[0] == '-' || chars@[0] == '+' {
                chars@.skip(1)
            } else {
                chars@
            }),
            i == start ==> magnitude == 0,
            i > start ==> digits_value(digits.take(i - start)) == Some(magnitude as nat),
        decreases chars.len() - i,
    {
        let ghost k = i - start + 1;
        proof {
            assert(digits.take(k).drop_last() =~= digits.take(k - 1));
            assert(digits.take(k).last() == chars@[i as int]);
        }
        let d = match digit_of(chars[i]) {
            Some(d) => d,
            None => {
                proof {
                    assert(digits_value(digits.take(k)) is None);
                    lemma_digits_prefix(digits, k);
                }
                return None;
            },
        };
        assert(d < 10);
        if magnitude > (limit - d) / 10 {
            proof {
                assert(digits_value(digits.take(k)) == Some((10 * magnitude + d) as nat));
                lemma_digits_prefix(digits, k);
            }
            return None;
        }
        magnitude = magnitude * 10 + d;
        i += 1;
    }
    if i == start {
        return None;
    }
    proof {
        assert(digits.take(i - start) =~= digits);
    }
    if negative {
        Some((-(magnitude as i128)) as i64)
    } else {
        Some(magnitude as i64)
    }
}

/// The first `c` of a text is where no `c` stands before it.
pub proof fn lemma_first_index(text: Seq<char>, c: char, i: int)
    requires
        0 <= i <= text.len(),
        forall|j: int| 0 <= j < i ==> text[j] != c,
        i < text.len() ==> text[i] == c,
    ensures
        first_index(text, c) == (if i < text.len() {
            Some(i)
        } else {
            None
        }),
    decreases text.len(),
{
    if text.len() > 0 && i > 0 {
        assert(text[0] != c);
        let rest = text.drop_first();
        assert forall|j: int| 0 <= j < i - 1 implies rest[j] != c by {
            assert(rest[j] == text[j + 1]);
        }
        if i < text.len() {
            assert(rest[i - 1] == text[i]);
        }
        lemma_first_index(rest, c, i - 1);
    }
}

/// The text before the first `c` and the text after it, if there is a `c`.
pub fn split_once(s: &str, c: char) -> (r: Option<(String, String)>)
    ensures
        match first_index(s@, c) {
            Some(i) => r matches Some(pair) && pair.0@ == s@.take(i) && pair.1@ == s@.skip(i + 1),
            None => r is None,
        },
{
    let chars = chars_of(s);
    let mut i: usize = 0;
    while i < chars.len()
        invariant
            i <= chars.len(),
            chars@ == s@,
            forall|j: int| 0 <= j < i ==> chars[j] != c,
        decreases chars.len() - i,
    {
        if chars[i] == c {
            proof {
                lemma_first_index(chars@, c, i as int);
            }
            return Some((string_of(&chars, 0, i), string_of(&chars, i + 1, chars.len())));
        }
        i += 1;
    }
    proof {
        lemma_first_index(chars@, c, i as int);
    }
    None
}

/// The text with every `from` turned into `to`.
pub fn replace(s: &str, from: char, to: char) -> (r: String)
    ensures
        r@ == replaced(s@, from, to),
{
    let chars = chars_of(s);
    let mut out: Vec<char> = Vec::new();
    let mut i: usize = 0;
    while i < chars.len()
        invariant
            i <= chars.len(),
            out.len() == i,
            forall|j: int| 0 <= j < i ==> out[j] == replaced(chars@, from, to)[j],
        decreases chars.len() - i,
    {
        if chars[i] == from {
            out.push(to);
        } else {
            out.push(chars[i]);
        }
        i += 1;
    }
    proof {
        assert(out@.subrange(0, out.len() as int) =~= replaced(chars@, from, to));
    }
    string_of(&out, 0, out.len())
}

/// Whether the text begins with `c`.
pub fn starts_with(s: &str, c: char) -> (r: bool)
    ensures
        r == (s@.len() > 0 && s@[0] == c),
{
    s.unicode_len() > 0 && s.get_char(0) == c
}

/// The text `prefix` followed by the decimal numeral of `n`.
pub fn numbered(prefix: &str, n: usize) -> (s: String)
    ensures
        s@ == prefix@ + decimal(n as nat),
{
    let digits = usize_to_string(n);
    String::from_str(prefix).concat(digits.as_str())
}

/// A copy of `s`.
pub fn owned(s: &str) -> (copy: String)
    ensures
        copy@ == s@,
{
    String::from_str(s)
}

/// Whether the character is a decimal digit.
pub open spec fn is_digit(c: char) -> bool {
    digit_value(c) is Some
}

/// A numeral is one or more digits, and they stand for its number.
pub proof fn lemma_decimal_digits(n: nat)
    ensures
        decimal(n).len() > 0,
        forall|i: int| 0 <= i < decimal(n).len() ==> is_digit(#[trigger] decimal(n)[i]),
        digits_value(decimal(n)) == Some(n),
    decreases n,
{
    if n >= 10 {
        lemma_decimal_digits(n / 10);
        let high = decimal(n / 10);
        let all = decimal(n);
        assert(all == high.push(digit_char(n % 10)));
        assert(all.drop_last() =~= high);
        assert(digit_value(all.last()) == Some(n % 10));
        assert forall|i: int| 0 <= i < all.len() implies is_digit(#[trigger] all[i]) by {
            if i < high.len() {
                assert(all[i] == high[i]);
            }
        }
    }
}

/// Different numbers have different numerals.
pub proof fn lemma_decimal_injective(a: nat, b: nat)
    requires
        decimal(a) == decimal(b),
    ensures
        a == b,
{
    lemma_decimal_digits(a);
    lemma_decimal_digits(b);
}

/// What stands behind a common beginning is the same if the whole is.
pub proof fn lemma_same_beginning<A>(start: Seq<A>, x: Seq<A>, y: Seq<A>)
    requires
        start + x == start + y,
    ensures
        x == y,
{
    assert((start + x).skip(start.len() as int) =~= x);
    assert((start + y).skip(start.len() as int) =~= y);
}

/// Two numerals joined by a character that is no digit come apart in one way
/// only.
pub proof fn lemma_joined_numerals(a: nat, b: nat, c: nat, d: nat, mark: char)
    requires
        !is_digit(mark),
        decimal(a).push(mark) + decimal(b) == decimal(c).push(mark) + decimal(d),
    ensures
        a == c,
        b == d,
{
    lemma_decimal_digits(a);
    lemma_decimal_digits(b);
    lemma_decimal_digits(c);
    lemma_decimal_digits(d);
    let left = decimal(a).push(mark) + decimal(b);
    let right = decimal(c).push(mark) + decimal(d);
    let la = decimal(a).len() as int;
    let lc = decimal(c).len() as int;
    if la < lc {
        assert(left[la] == mark);
        assert(right[la] == decimal(c)[la]);
    } else if lc < la {
        assert(right[lc] == mark);
        assert(left[lc] == decimal(a)[lc]);
    }
    assert(left.take(la) =~= decimal(a));
    assert(right.take(lc) =~= decimal(c));
    lemma_decimal_injective(a, c);
    assert(left.skip(la + 1) =~= decimal(b));
    assert(right.skip(lc + 1) =~= decimal(d));
    lemma_decimal_injective(b, d);
}

} // verus!
