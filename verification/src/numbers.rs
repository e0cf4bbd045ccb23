//! Integers as they are written in documents and descriptions: an
//! optional sign and decimal digits.

use crate::text::chars_of;
use vstd::prelude::*;

verus! {

/// Whether a character is a decimal digit.
pub open spec fn is_digit(c: char) -> bool {
    '0' <= c && c <= '9'
}

/// The value of a decimal digit.
pub open spec fn digit_value(c: char) -> int {
    c as u32 as int - '0' as u32 as int
}

/// Whether a text is made of decimal digits only.
pub open spec fn all_digits(s: Seq<char>) -> bool {
    forall|i: int| 0 <= i < s.len() ==> is_digit(#[trigger] s[i])
}

/// The number that a text of decimal digits stands for.
pub open spec fn digits_value(s: Seq<char>) -> int
    decreases s.len(),
{
    if s.len() == 0 {
        0
    } else {
        10 * digits_value(s.drop_last()) + digit_value(s.last())
    }
}

/// The integer that a text stands for, if it stands for one between `min`
/// and `max`: a `+` or, where `allow_minus` says so, a `-`, may stand before
/// the digits, of which there is at least one.
pub open spec fn integer_of(s: Seq<char>, allow_minus: bool, min: int, max: int) -> Option<int> {
    let negative = s.len() > 0 && s[0] == '-';
    let signed = s.len() > 0 && (s[0] == '-' || s[0] == '+');
    let body = if signed {
        s.skip(1)
    } else {
        s
    };
    if (negative && !allow_minus) || body.len() == 0 || !all_digits(body) {
        None
    } else {
        let v = if negative {
            -digits_value(body)
        } else {
            digits_value(body)
        };
        if min <= v <= max {
            Some(v)
        } else {
            None
        }
    }
}

/// More digits do not make a number smaller.
pub proof fn lemma_digits_grow(s: Seq<char>, k: int)
    requires
        all_digits(s),
        0 <= k <= s.len(),
    ensures
        0 <= digits_value(s.take(k)) <= digits_value(s),
    decreases s.len() - k,
{
    if k < s.len() {
        lemma_digits_grow(s, k + 1);
        assert(s.take(k + 1).drop_last() =~= s.take(k));
        assert(is_digit(s[k]));
        lemma_digits_nonnegative(s.take(k));
    } else {
        assert(s.take(k) =~= s);
        lemma_digits_nonnegative(s);
    }
}

pub proof fn lemma_digits_nonnegative(s: Seq<char>)
    requires
        all_digits(s),
    ensures
        0 <= digits_value(s),
    decreases s.len(),
{
    if s.len() > 0 {
        assert(is_digit(s.last()));
        lemma_digits_nonnegative(s.drop_last());
    }
}

/// The bound on the numbers that are read: no number of 64 bits goes
/// beyond it.
pub const LIMIT: i128 = 0x1_0000_0000_0000_0000;

/// Reads an integer between `min` and `max`.
#[verifier::loop_isolation(false)]
pub fn read_integer(text: &str, allow_minus: bool, min: i128, max: i128) -> (r: Option<i128>)
    requires
        -LIMIT <= min,
        max <= LIMIT,
    ensures
        match r {
            Some(v) => integer_of(text@, allow_minus, min as int, max as int) == Some(v as int),
            None => integer_of(text@, allow_minus, min as int, max as int) is None,
        },
{
    let chars = chars_of(text);
    let n = chars.len();
    let negative = n > 0 && chars[0] == '-';
    let signed = n > 0 && (chars[0] == '-' || chars[0] == '+');
    let start: usize = if signed {
        1
    } else {
        0
    };
    let ghost body = if signed {
        text@.skip(1)
    } else {
        text@
    };
    if (negative && !allow_minus) || start == n {
        return None;
    }
    let mut value: i128 = 0;
    let mut i: usize = start;
    assert(body.take(0) =~= Seq::<char>::empty());
    while i < n
        invariant
            start <= i <= n,
            n == chars@.len(),
            chars@ == text@,
            body == text@.skip(start as int),
            all_digits(body.take(i - start)),
            value == digits_value(body.take(i - start)),
            0 <= value <= LIMIT,
        decreases n - i,
    {
        let c = chars[i];
        assert(body[i - start] == c);
        if !(c >= '0' && c <= '9') {
            assert(!is_digit(body[i - start]));
            return None;
        }
        let d: i128 = (c as u32 - '0' as u32) as i128;
        let next: i128 = value * 10 + d;
        proof {
            assert(body.take(i - start + 1).drop_last() =~= body.take(i - start));
            assert(body.take(i - start + 1).last() == c);
            assert forall|j: int| 0 <= j < i - start + 1 implies is_digit(
                #[trigger] body.take(i - start + 1)[j],
            ) by {
                if j < i - start {
                    assert(body.take(i - start)[j] == body[j]);
                }
            }
        }
        if next > LIMIT {
            proof {
                if all_digits(body) {
                    lemma_digits_grow(body, i - start + 1);
                }
            }
            return None;
        }
        value = next;
        i += 1;
    }
    assert(body.take(n - start) =~= body);
    let v: i128 = if negative {
        -value
    } else {
        value
    };
    if min <= v && v <= max {
        Some(v)
    } else {
        None
    }
}

/// The character of a decimal digit.
pub open spec fn digit_char(d: int) -> char {
    if d == 0 {
        '0'
    } else if d == 1 {
        '1'
    } else if d == 2 {
        '2'
    } else if d == 3 {
        '3'
    } else if d == 4 {
        '4'
    } else if d == 5 {
        '5'
    } else if d == 6 {
        '6'
    } else if d == 7 {
        '7'
    } else if d == 8 {
        '8'
    } else {
        '9'
    }
}

/// The decimal digits of a number that is not negative, without leading
/// zeros; nothing for 0.
pub open spec fn digits_of(n: int) -> Seq<char>
    decreases n,
{
    if n <= 0 {
        Seq::empty()
    } else {
        digits_of(n / 10).push(digit_char(n % 10))
    }
}

/// A number as it is written: `0`, or its digits, after a `-` where it is
/// negative.
pub open spec fn integer_text(n: int) -> Seq<char> {
    if n == 0 {
        seq!['0']
    } else if n < 0 {
        seq!['-'] + digits_of(-n)
    } else {
        digits_of(n)
    }
}

fn digit_of(d: u8) -> (c: char)
    requires
        d < 10,
    ensures
        c == digit_char(d as int),
{
    if d == 0 {
        '0'
    } else if d == 1 {
        '1'
    } else if d == 2 {
        '2'
    } else if d == 3 {
        '3'
    } else if d == 4 {
        '4'
    } else if d == 5 {
        '5'
    } else if d == 6 {
        '6'
    } else if d == 7 {
        '7'
    } else if d == 8 {
        '8'
    } else {
        '9'
    }
}

/// Writes a number.
pub fn write_integer(n: i128) -> (r: String)
    requires
        -LIMIT <= n <= LIMIT,
    ensures
        r@ == integer_text(n as int),
{
    let mut r = String::new();
    if n == 0 {
        r.push('0');
        return r;
    }
    let mut rest: i128 = if n < 0 {
        -n
    } else {
        n
    };
    let ghost magnitude = rest as int;
    let mut reversed: Vec<char> = Vec::new();
    while rest > 0
        invariant
            0 <= rest <= magnitude,
            digits_of(magnitude) == digits_of(rest as int) + reversed@.reverse(),
        decreases rest,
    {
        let d: u8 = (rest % 10) as u8;
        let ghost before = reversed@;
        reversed.push(digit_of(d));
        proof {
            assert(reversed@.reverse() =~= seq![digit_char(rest as int % 10)] + before.reverse());
            assert(digits_of(rest as int) == digits_of(rest as int / 10).push(
                digit_char(rest as int % 10),
            ));
            assert(digits_of(rest as int / 10).push(digit_char(rest as int % 10))
                + before.reverse() =~= digits_of(rest as int / 10) + reversed@.reverse());
        }
        rest = rest / 10;
    }
    if n < 0 {
        r.push('-');
    }
    let ghost head = r@;
    let ghost all = reversed@;
    assert(digits_of(0) + all.reverse() =~= all.reverse());
    while reversed.len() > 0
        invariant
            reversed@.len() <= all.len(),
            reversed@ == all.take(reversed@.len() as int),
            r@ == head + all.skip(reversed@.len() as int).reverse(),
        decreases reversed@.len(),
    {
        let c = reversed.pop().unwrap();
        r.push(c);
        assert(reversed@ =~= all.take(reversed@.len() as int));
        assert(r@ =~= head + all.skip(reversed@.len() as int).reverse());
    }
    assert(all.skip(0) =~= all);
    r
}

/// The digits of a number are digits, and they stand for the number.
pub proof fn lemma_digits_of(n: int)
    requires
        0 <= n,
    ensures
        all_digits(digits_of(n)),
        digits_value(digits_of(n)) == n,
        n > 0 ==> digits_of(n).len() > 0 && digits_of(n)[0] != '-' && digits_of(n)[0] != '+',
    decreases n,
{
    if n > 0 {
        lemma_digits_of(n / 10);
        let head = digits_of(n / 10);
        let all = digits_of(n);
        assert(all == head.push(digit_char(n % 10)));
        assert(all.drop_last() =~= head);
        assert(is_digit(digit_char(n % 10)));
        assert(digit_value(digit_char(n % 10)) == n % 10);
        assert forall|i: int| 0 <= i < all.len() implies is_digit(#[trigger] all[i]) by {
            if i < head.len() {
                assert(all[i] == head[i]);
            }
        }
        if n / 10 > 0 {
            assert(all[0] == head[0]);
        } else {
            assert(head.len() == 0);
            assert(all[0] == digit_char(n % 10));
        }
    }
}

/// A number that is written and read again is the number that it was.
pub proof fn lemma_integer_round_trip(n: int, min: int, max: int)
    requires
        min <= n <= max,
    ensures
        integer_of(integer_text(n), min < 0, min, max) == Some(n),
{
    if n == 0 {
        let s = seq!['0'];
        assert(s.drop_last() =~= Seq::<char>::empty());
        assert(digits_value(s) == 10 * digits_value(s.drop_last()) + digit_value('0'));
        assert(is_digit(s[0]));
    } else if n < 0 {
        lemma_digits_of(-n);
        let s = seq!['-'] + digits_of(-n);
        assert(s[0] == '-');
        assert(s.skip(1) =~= digits_of(-n));
    } else {
        lemma_digits_of(n);
    }
}

/// Where the run of decimal digits that begins at `from` ends.
pub open spec fn digits_end(s: Seq<char>, from: int) -> int
    decreases s.len() - from,
{
    if 0 <= from < s.len() && is_digit(s[from]) {
        digits_end(s, from + 1)
    } else {
        from
    }
}

/// Whether a character is a sign.
pub open spec fn is_sign(c: char) -> bool {
    c == '+' || c == '-'
}

/// Whether a text is one of the words for a number that is no number of
/// digits: `inf`, `infinity` or `nan`, in small or capital letters.
pub open spec fn is_number_word(s: Seq<char>) -> bool {
    let inf = s.len() >= 3 && (s[0] == 'i' || s[0] == 'I') && (s[1] == 'n' || s[1] == 'N') && (s[2]
        == 'f' || s[2] == 'F');
    ||| s.len() == 3 && inf
    ||| s.len() == 8 && inf && (s[3] == 'i' || s[3] == 'I') && (s[4] == 'n' || s[4] == 'N') && (s[5]
        == 'i' || s[5] == 'I') && (s[6] == 't' || s[6] == 'T') && (s[7] == 'y' || s[7] == 'Y')
    ||| s.len() == 3 && (s[0] == 'n' || s[0] == 'N') && (s[1] == 'a' || s[1] == 'A') && (s[2]
        == 'n' || s[2] == 'N')
}

/// Whether the text from `from` on is an exponent: an `e`, a sign or
/// none, and at least one digit up to the end of the text.
pub open spec fn is_exponent(s: Seq<char>, from: int) -> bool {
    let digits = if from + 1 < s.len() && is_sign(s[from + 1]) {
        from + 2
    } else {
        from + 1
    };
    &&& 0 <= from < s.len()
    &&& s[from] == 'e' || s[from] == 'E'
    &&& digits < digits_end(s, digits)
    &&& digits_end(s, digits) == s.len()
}

/// Whether the text from `from` on is a number of digits: digits with a
/// point before, among or behind them or with none, at least one digit in
/// all, and an exponent or none.
pub open spec fn is_digits_number(s: Seq<char>, from: int) -> bool {
    let point = digits_end(s, from);
    let end = if point < s.len() && s[point] == '.' {
        digits_end(s, point + 1)
    } else {
        point
    };
    let digits = if point < s.len() && s[point] == '.' {
        end - from - 1
    } else {
        end - from
    };
    digits > 0 && (end == s.len() || is_exponent(s, end))
}

/// Whether a text is a number with a fraction as documents write it: a
/// sign or none, and then a number of digits or one of the words.
pub open spec fn is_decimal(s: Seq<char>) -> bool {
    let from: int = if s.len() > 0 && is_sign(s[0]) {
        1
    } else {
        0
    };
    is_number_word(s.skip(from)) || is_digits_number(s, from)
}

/// Finds the end of the run of digits that begins at `from`.
fn find_digits_end(chars: &Vec<char>, from: usize) -> (end: usize)
    requires
        from <= chars.len(),
    ensures
        end as int == digits_end(chars@, from as int),
        from <= end <= chars.len(),
{
    let mut i: usize = from;
    while i < chars.len() && '0' <= chars[i] && chars[i] <= '9'
        invariant
            from <= i <= chars.len(),
            digits_end(chars@, from as int) == digits_end(chars@, i as int),
        decreases chars.len() - i,
    {
        i += 1;
    }
    i
}

fn is_one_of(c: char, small: char, capital: char) -> (r: bool)
    ensures
        r == (c == small || c == capital),
{
    c == small || c == capital
}

fn check_number_word(chars: &Vec<char>, from: usize) -> (r: bool)
    requires
        from <= chars.len(),
    ensures
        r == is_number_word(chars@.skip(from as int)),
{
    let n = chars.len() - from;
    let ghost s = chars@.skip(from as int);
    assert(s.len() == n);
    assert(forall|i: int| 0 <= i < n ==> s[i] == chars@[from + i]);
    if n == 3 {
        (is_one_of(chars[from], 'i', 'I') && is_one_of(chars[from + 1], 'n', 'N') && is_one_of(
            chars[from + 2],
            'f',
            'F',
        )) || (is_one_of(chars[from], 'n', 'N') && is_one_of(chars[from + 1], 'a', 'A')
            && is_one_of(chars[from + 2], 'n', 'N'))
    } else if n == 8 {
        is_one_of(chars[from], 'i', 'I') && is_one_of(chars[from + 1], 'n', 'N') && is_one_of(
            chars[from + 2],
            'f',
            'F',
        ) && is_one_of(chars[from + 3], 'i', 'I') && is_one_of(chars[from + 4], 'n', 'N')
            && is_one_of(chars[from + 5], 'i', 'I') && is_one_of(chars[from + 6], 't', 'T')
            && is_one_of(chars[from + 7], 'y', 'Y')
    } else {
        false
    }
}

fn check_exponent(chars: &Vec<char>, from: usize) -> (r: bool)
    requires
        from < chars.len(),
    ensures
        r == is_exponent(chars@, from as int),
{
    if !is_one_of(chars[from], 'e', 'E') {
        return false;
    }
    let digits: usize = if from + 1 < chars.len() && is_one_of(chars[from + 1], '+', '-') {
        from + 2
    } else {
        from + 1
    };
    let end = find_digits_end(chars, digits);
    digits < end && end == chars.len()
}

/// Whether a text is a number with a fraction.
pub fn check_decimal(text: &str) -> (r: bool)
    ensures
        r == is_decimal(text@),
{
    let chars = chars_of(text);
    let from: usize = if chars.len() > 0 && is_one_of(chars[0], '+', '-') {
        1
    } else {
        0
    };
    if check_number_word(&chars, from) {
        return true;
    }
    let point = find_digits_end(&chars, from);
    let dotted = point < chars.len() && chars[point] == '.';
    let end = if dotted {
        find_digits_end(&chars, point + 1)
    } else {
        point
    };
    let digits = if dotted {
        end - from - 1
    } else {
        end - from
    };
    digits > 0 && (end == chars.len() || check_exponent(&chars, end))
}

} // verus!
