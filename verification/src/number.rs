//! Numbers in decimal notation: writing them, reading integers, and recognising the texts that
//! stand for floating-point numbers.
use crate::text::{chars_of, digit, is_digit};
use vstd::prelude::*;

verus! {

/// The digit that stands for a number below ten.
pub open spec fn digit_char(d: nat) -> char {
    ('0' as u32 + d) as char
}

/// The number that a digit stands for.
pub open spec fn digit_value(c: char) -> nat {
    (c as u32 - '0' as u32) as nat
}

/// A number in decimal notation, without leading zeros.
pub open spec fn decimal_text(n: nat) -> Seq<char>
    decreases n,
{
    if n < 10 {
        seq![digit_char(n)]
    } else {
        decimal_text(n / 10).push(digit_char(n % 10))
    }
}

/// The number that a sequence of digits stands for.
pub open spec fn digits_value(digits: Seq<char>) -> nat
    decreases digits.len(),
{
    if digits.len() == 0 {
        0
    } else {
        digits_value(digits.drop_last()) * 10 + digit_value(digits.last())
    }
}

/// There is at least one character and all of them are digits.
pub open spec fn all_digits(text: Seq<char>) -> bool {
    text.len() > 0 && forall|i: int| 0 <= i < text.len() ==> is_digit(text[i])
}

fn char_of_digit(d: u64) -> (c: char)
    requires
        d < 10,
    ensures
        c == digit_char(d as nat),
{
    if d == 0 {
        '0'
    } else if d == 1 {
        '1'
    } else if d == 2 {
        '2'
    } else if d == 3 {
        '3'
    } else if d == 4 {
        '4'
    } else if d == 5 {
        '5'
    } else if d == 6 {
        '6'
    } else if d == 7 {
        '7'
    } else if d == 8 {
        '8'
    } else {
        '9'
    }
}

/// A number in decimal notation.
pub fn decimal(n: u64) -> (r: String)
    ensures
        r@ == decimal_text(n as nat),
    decreases n,
{
    if n < 10 {
        let mut r = String::new();
        r.push(char_of_digit(n));
        assert(r@ =~= seq![digit_char(n as nat)]);
        r
    } else {
        let mut r: String = decimal(n / 10);
        r.push(char_of_digit(n % 10));
        r
    }
}

/// An integer in decimal notation, with a sign where it is negative.
pub open spec fn integer_text(n: int) -> Seq<char> {
    if n < 0 {
        seq!['-'] + decimal_text((-n) as nat)
    } else {
        decimal_text(n as nat)
    }
}

/// An integer in decimal notation, with a sign where it is negative.
pub fn integer(n: i64) -> (r: String)
    ensures
        r@ == integer_text(n as int),
{
    if n >= 0 {
        decimal(n as u64)
    } else {
        let magnitude: u64 = (-(n + 1)) as u64 + 1;
        let mut r = String::new();
        r.push('-');
        r.append(decimal(magnitude).as_str());
        assert(r@ =~= seq!['-'] + decimal_text((-n) as nat));
        r
    }
}

/// A number in decimal notation, with a zero before it where it has one digit.
pub open spec fn two_digits(n: nat) -> Seq<char> {
    if n < 10 {
        seq!['0'] + decimal_text(n)
    } else {
        decimal_text(n)
    }
}

/// A number in decimal notation, with a zero before it where it has one digit.
pub fn padded(n: u64) -> (r: String)
    ensures
        r@ == two_digits(n as nat),
{
    let mut r = String::new();
    if n < 10 {
        r.push('0');
    }
    r.append(decimal(n).as_str());
    assert(r@ =~= two_digits(n as nat));
    r
}

/// The digits of a number stand for it: reading what was written gives it back.
pub proof fn decimal_reads_back(n: nat)
    ensures
        all_digits(decimal_text(n)),
        digits_value(decimal_text(n)) == n,
    decreases n,
{
    let text = decimal_text(n);
    if n < 10 {
        assert(text.drop_last() =~= Seq::empty());
        assert(digits_value(text.drop_last()) == 0);
        assert(is_digit(text[0]));
    } else {
        decimal_reads_back(n / 10);
        assert(text.drop_last() =~= decimal_text(n / 10));
        assert forall|i: int| 0 <= i < text.len() implies is_digit(text[i]) by {
            if i < text.len() - 1 {
                assert(text[i] == decimal_text(n / 10)[i]);
            }
        }
    }
}

// ---------------------------------------------------------------------------------------
// Reading integers

/// The integer that a text stands for: digits after an optional sign. A minus sign is read only
/// where `signed` allows it.
pub open spec fn integer_value(text: Seq<char>, signed: bool) -> Option<int> {
    if text.len() > 0 && (text[0] == '+' || (signed && text[0] == '-')) {
        let digits = text.drop_first();
        if !all_digits(digits) {
            None
        } else if text[0] == '-' {
            Some(-(digits_value(digits) as int))
        } else {
            Some(digits_value(digits) as int)
        }
    } else if all_digits(text) {
        Some(digits_value(text) as int)
    } else {
        None
    }
}

/// The integer that a text stands for, where it lies between two bounds.
pub open spec fn integer_within(text: Seq<char>, signed: bool, min: int, max: int) -> Option<int> {
    match integer_value(text, signed) {
        Some(value) if min <= value <= max => Some(value),
        _ => None,
    }
}

/// Beyond every bound that is asked for.
const LIMIT: i128 = 100000000000000000000;

/// Reads digits from `from` on: the number that they stand for, or `LIMIT` where it is larger.
fn read_digits(text: &Vec<char>, from: usize) -> (r: Option<i128>)
    requires
        from <= text@.len(),
    ensures
        match r {
            Some(value) => all_digits(text@.skip(from as int)) && 0 <= value <= LIMIT && (if value
                < LIMIT {
                value == digits_value(text@.skip(from as int))
            } else {
                digits_value(text@.skip(from as int)) >= LIMIT
            }),
            None => !all_digits(text@.skip(from as int)),
        },
{
    if from == text.len() {
        return None;
    }
    let ghost all = text@.skip(from as int);
    let mut value: i128 = 0;
    let mut i: usize = from;
    while i < text.len()
        invariant
            from <= i <= text@.len(),
            all == text@.skip(from as int),
            0 <= value <= LIMIT,
            forall|k: int| 0 <= k < i - from ==> is_digit(all[k]),
            value < LIMIT ==> value == digits_value(all.take(i - from)),
            value == LIMIT ==> digits_value(all.take(i - from)) >= LIMIT,
        decreases text@.len() - i,
    {
        if !digit(text[i]) {
            assert(!is_digit(all[i - from]));
            return None;
        }
        let unit: i128 = (text[i] as u32 - '0' as u32) as i128;
        proof {
            let next = all.take(i - from + 1);
            assert(next.drop_last() =~= all.take(i - from));
            assert(next.last() == text@[i as int]);
        }
        value = if value * 10 + unit < LIMIT {
            value * 10 + unit
        } else {
            LIMIT
        };
        i = i + 1;
    }
    assert(all.take(text@.len() - from) =~= all);
    Some(value)
}

/// Reads an integer between two bounds: digits after an optional sign.
pub fn read_integer(text: &str, signed: bool, min: i128, max: i128) -> (r: Option<i128>)
    requires
        -100000000000000000000 < min,
        max < 100000000000000000000,
    ensures
        match r {
            Some(value) => integer_within(text@, signed, min as int, max as int) == Some(
                value as int,
            ),
            None => integer_within(text@, signed, min as int, max as int) is None,
        },
{
    let chars: Vec<char> = chars_of(text);
    if chars.len() == 0 {
        return None;
    }
    let negative: bool = signed && chars[0] == '-';
    let from: usize = if chars[0] == '+' || negative {
        1
    } else {
        0
    };
    assert(text@.skip(0) =~= text@);
    assert(text@.skip(1) =~= text@.drop_first());
    match read_digits(&chars, from) {
        None => None,
        Some(magnitude) => {
            let value: i128 = if negative {
                -magnitude
            } else {
                magnitude
            };
            if min <= value && value <= max {
                Some(value)
            } else {
                None
            }
        },
    }
}

// ---------------------------------------------------------------------------------------
// Floating-point notation

/// The end of the digits that stand from `from` on.
pub open spec fn digit_run(text: Seq<char>, from: int) -> int
    decreases text.len() - from,
{
    if 0 <= from < text.len() && is_digit(text[from]) {
        digit_run(text, from + 1)
    } else {
        from
    }
}

/// From `from` on there is nothing, or an exponent: `e`, an optional sign, digits.
pub open spec fn is_exponent(text: Seq<char>, from: int) -> bool {
    ||| from == text.len()
    ||| {
        let signed = from + 1 < text.len() && (text[from + 1] == '+' || text[from + 1] == '-');
        let digits = if signed {
            from + 2
        } else {
            from + 1
        };
        &&& 0 <= from < text.len()
        &&& (text[from] == 'e' || text[from] == 'E')
        &&& digit_run(text, digits) > digits
        &&& digit_run(text, digits) == text.len()
    }
}

/// From `from` on there are digits with at most one point among or beside them, and then an
/// optional exponent.
pub open spec fn is_plain_number(text: Seq<char>, from: int) -> bool {
    let whole = digit_run(text, from);
    if whole < text.len() && text[whole] == '.' {
        let end = digit_run(text, whole + 1);
        (whole > from || end > whole + 1) && is_exponent(text, end)
    } else {
        whole > from && is_exponent(text, whole)
    }
}

/// `a` and `b` are the same but for the case of ASCII letters.
pub open spec fn same_but_case(a: Seq<char>, b: Seq<char>) -> bool {
    a.len() == b.len() && forall|i: int| 0 <= i < a.len() ==> same_letter(a[i], b[i])
}

/// `a` is the lower-case letter `b`, or its upper-case form.
pub open spec fn same_letter(a: char, b: char) -> bool {
    a == b || (a as u32 + 32 == b as u32 && 'A' <= a && a <= 'Z')
}

/// The texts that stand for a floating-point number: an optional sign, and then `inf`,
/// `infinity` or `nan` in any case, or a decimal number with an optional exponent.
pub open spec fn is_float_text(text: Seq<char>) -> bool {
    let from: int = if text.len() > 0 && (text[0] == '+' || text[0] == '-') {
        1
    } else {
        0
    };
    let body = text.skip(from);
    ||| same_but_case(body, "inf"@)
    ||| same_but_case(body, "infinity"@)
    ||| same_but_case(body, "nan"@)
    ||| is_plain_number(text, from)
}

proof fn digit_run_grows(text: Seq<char>, from: int)
    requires
        0 <= from <= text.len(),
    ensures
        from <= digit_run(text, from) <= text.len(),
    decreases text.len() - from,
{
    if from < text.len() && is_digit(text[from]) {
        digit_run_grows(text, from + 1);
    }
}

/// The end of the digits that stand from `from` on.
pub fn skip_digits(text: &Vec<char>, from: usize) -> (r: usize)
    requires
        from <= text@.len(),
    ensures
        r == digit_run(text@, from as int),
        from <= r <= text@.len(),
{
    let mut i: usize = from;
    while i < text.len() && digit(text[i])
        invariant
            from <= i <= text@.len(),
            digit_run(text@, from as int) == digit_run(text@, i as int),
        decreases text@.len() - i,
    {
        i = i + 1;
    }
    i
}

fn exponent(text: &Vec<char>, from: usize) -> (r: bool)
    requires
        from <= text@.len(),
    ensures
        r == is_exponent(text@, from as int),
{
    if from == text.len() {
        return true;
    }
    if text[from] != 'e' && text[from] != 'E' {
        return false;
    }
    let mut digits: usize = from + 1;
    if digits < text.len() && (text[digits] == '+' || text[digits] == '-') {
        digits = digits + 1;
    }
    let end: usize = skip_digits(text, digits);
    end > digits && end == text.len()
}

fn plain_number(text: &Vec<char>, from: usize) -> (r: bool)
    requires
        from <= text@.len(),
    ensures
        r == is_plain_number(text@, from as int),
{
    let whole: usize = skip_digits(text, from);
    if whole < text.len() && text[whole] == '.' {
        let end: usize = skip_digits(text, whole + 1);
        (whole > from || end > whole + 1) && exponent(text, end)
    } else {
        whole > from && exponent(text, whole)
    }
}

fn same_letters(text: &Vec<char>, from: usize, word: &str) -> (r: bool)
    requires
        from <= text@.len(),
    ensures
        r == same_but_case(text@.skip(from as int), word@),
{
    let letters: Vec<char> = chars_of(word);
    if text.len() - from != letters.len() {
        return false;
    }
    let ghost body = text@.skip(from as int);
    let mut i: usize = 0;
    while i < letters.len()
        invariant
            i <= letters@.len(),
            letters@ == word@,
            from <= text@.len(),
            text.len() - from == letters@.len(),
            body == text@.skip(from as int),
            forall|k: int| 0 <= k < i ==> same_letter(body[k], letters@[k]),
        decreases letters@.len() - i,
    {
        let a: char = text[from + i];
        let b: char = letters[i];
        assert(body[i as int] == a);
        let upper: bool = 'A' <= a && a <= 'Z' && a as u32 + 32 == b as u32;
        if a != b && !upper {
            return false;
        }
        i = i + 1;
    }
    true
}

/// Whether a text stands for a floating-point number.
pub fn float_text(text: &str) -> (r: bool)
    ensures
        r == is_float_text(text@),
{
    let chars: Vec<char> = chars_of(text);
    let from: usize = if chars.len() > 0 && (chars[0] == '+' || chars[0] == '-') {
        1
    } else {
        0
    };
    same_letters(&chars, from, "inf") || same_letters(&chars, from, "infinity") || same_letters(
        &chars,
        from,
        "nan",
    ) || plain_number(&chars, from)
}

/// A number is written without needless zeros: it begins with one only where it is zero itself.
pub proof fn decimal_is_shortest(n: nat)
    ensures
        n > 0 ==> decimal_text(n)[0] != '0',
        n == 0 ==> decimal_text(n) == seq!['0'],
        n < 10 ==> decimal_text(n).len() == 1,
        n >= 10 ==> decimal_text(n).len() == decimal_text(n / 10).len() + 1,
    decreases n,
{
    if n >= 10 {
        decimal_is_shortest(n / 10);
        assert(decimal_text(n)[0] == decimal_text(n / 10)[0]);
    }
}

/// A sign before digits: a minus makes the number negative, a plus changes nothing, and where
/// numbers have no sign a minus is refused.
pub proof fn sign_decides(digits: Seq<char>, min: int, max: int)
    requires
        all_digits(digits),
    ensures
        ({
            let value = digits_value(digits) as int;
            &&& integer_within(digits, true, min, max) == if min <= value <= max {
                Some(value)
            } else {
                None
            }
            &&& integer_within(digits, false, min, max) == integer_within(digits, true, min, max)
            &&& integer_within(seq!['+'] + digits, true, min, max) == integer_within(
                digits,
                true,
                min,
                max,
            )
            &&& integer_within(seq!['-'] + digits, true, min, max) == if min <= -value <= max {
                Some(-value)
            } else {
                None
            }
            &&& integer_within(seq!['-'] + digits, false, min, max) is None
        }),
{
    assert((seq!['+'] + digits).drop_first() =~= digits);
    assert((seq!['-'] + digits).drop_first() =~= digits);
    assert(!is_digit('-'));
    assert(is_digit(digits[0]));
}

/// What is read as a number is within the bounds and written in digits alone, but for one sign.
pub proof fn number_is_written_in_digits(text: Seq<char>, signed: bool, min: int, max: int)
    requires
        integer_within(text, signed, min, max) is Some,
    ensures
        min <= integer_within(text, signed, min, max)->0 <= max,
        text.len() > 0,
        forall|i: int| 0 < i < text.len() ==> is_digit(#[trigger] text[i]),
        is_digit(text[0]) || (text.len() > 1 && (text[0] == '+' || (signed && text[0] == '-'))),
{
    if !all_digits(text) {
        let digits = text.drop_first();
        assert forall|i: int| 0 < i < text.len() implies is_digit(#[trigger] text[i]) by {
            assert(digits[i - 1] == text[i]);
        }
    }
}

/// A number below a hundred is written in two digits, and every number reads back.
pub proof fn two_digits_read_back(n: nat)
    ensures
        n < 100 ==> two_digits(n).len() == 2,
        n >= 100 ==> two_digits(n) == decimal_text(n),
        all_digits(two_digits(n)),
        digits_value(two_digits(n)) == n,
{
    decimal_reads_back(n);
    decimal_is_shortest(n);
    if n < 10 {
        let text = two_digits(n);
        assert(text =~= seq!['0', decimal_text(n)[0]]);
        assert(text.drop_last() =~= seq!['0']);
        assert(decimal_text(n).drop_last() =~= Seq::empty());
        reveal_with_fuel(digits_value, 3);
        assert forall|i: int| 0 <= i < text.len() implies is_digit(text[i]) by {
            assert(is_digit(decimal_text(n)[0]));
        }
    } else if n < 100 {
        decimal_is_shortest(n / 10);
    }
}

/// A negative number is written as its amount behind a minus; reading it gives the number back.
pub proof fn integer_reads_back(n: int)
    ensures
        integer_value(integer_text(n), true) == Some(n),
        n < 0 ==> integer_text(n) == seq!['-'] + decimal_text((-n) as nat),
        n >= 0 ==> integer_text(n) == decimal_text(n as nat),
{
    let amount = (if n < 0 {
        -n
    } else {
        n
    }) as nat;
    decimal_reads_back(amount);
    let digits = decimal_text(amount);
    assert((seq!['-'] + digits).drop_first() =~= digits);
    assert(is_digit(digits[0]));
}

/// Digits alone are a number, and a sign before a number without one leaves it a number. No text
/// without a character is one.
pub proof fn digits_are_a_number(digits: Seq<char>, sign: char)
    requires
        all_digits(digits),
        sign == '+' || sign == '-',
    ensures
        is_float_text(digits),
        is_float_text(seq![sign] + digits),
        !is_float_text(Seq::empty()),
{
    let signed = seq![sign] + digits;
    assert(is_digit(digits[0]));
    run_of_digits(digits, 0);
    assert forall|i: int| 1 <= i < signed.len() implies is_digit(#[trigger] signed[i]) by {
        assert(is_digit(digits[i - 1]));
    }
    run_of_digits(signed, 1);
    reveal_strlit("inf");
    reveal_strlit("infinity");
    reveal_strlit("nan");
}

proof fn run_of_digits(text: Seq<char>, from: int)
    requires
        0 <= from <= text.len(),
        forall|i: int| from <= i < text.len() ==> is_digit(#[trigger] text[i]),
    ensures
        digit_run(text, from) == text.len(),
    decreases text.len() - from,
{
    if from < text.len() {
        run_of_digits(text, from + 1);
    }
}

/// Each digit stands for its place in the row of digits.
pub proof fn digit_stands_for_its_place(d: nat)
    requires
        d < 10,
    ensures
        decimal_text(d) == seq!["0123456789"@[d as int]],
        digits_value(seq!["0123456789"@[d as int]]) == d,
{
    reveal_strlit("0123456789");
    assert("0123456789"@[d as int] == digit_char(d));
    assert(seq![digit_char(d)].drop_last() =~= Seq::empty());
    reveal_with_fuel(digits_value, 2);
}

proof fn run_stops(text: Seq<char>, from: int, end: int)
    requires
        0 <= from <= end <= text.len(),
        forall|i: int| from <= i < end ==> is_digit(#[trigger] text[i]),
        end < text.len() ==> !is_digit(text[end]),
    ensures
        digit_run(text, from) == end,
    decreases end - from,
{
    if from < end {
        run_stops(text, from + 1, end);
    }
}

/// A number may have a point behind its digits, more digits behind the point, and an exponent
/// with or without a sign behind all that; a point alone is no number.
pub proof fn number_may_have_a_fraction(whole: Seq<char>, part: Seq<char>, power: Seq<char>)
    requires
        all_digits(whole),
        all_digits(part),
        all_digits(power),
    ensures
        is_float_text(whole + seq!['.'] + part),
        is_float_text(whole + seq!['.']),
        is_float_text(seq!['.'] + part),
        is_float_text(whole + seq!['e'] + power),
        is_float_text(whole + seq!['.'] + part + seq!['e', '-'] + power),
        !is_float_text(seq!['.']),
{
    reveal_strlit("inf");
    reveal_strlit("infinity");
    reveal_strlit("nan");
    assert(is_digit(whole[0]) && is_digit(part[0]) && is_digit(power[0]));
    let w = whole.len() as int;
    let p = part.len() as int;
    let full = whole + seq!['.'] + part;
    assert forall|i: int| 0 <= i < w implies is_digit(#[trigger] full[i]) by {
        assert(full[i] == whole[i]);
    }
    assert forall|i: int| w + 1 <= i < full.len() implies is_digit(#[trigger] full[i]) by {
        assert(full[i] == part[i - w - 1]);
    }
    run_stops(full, 0, w);
    run_stops(full, w + 1, full.len() as int);
    assert(full[0] == whole[0]);
    let short = whole + seq!['.'];
    assert forall|i: int| 0 <= i < w implies is_digit(#[trigger] short[i]) by {
        assert(short[i] == whole[i]);
    }
    run_stops(short, 0, w);
    run_stops(short, w + 1, w + 1);
    assert(short[0] == whole[0]);
    let bare = seq!['.'] + part;
    assert forall|i: int| 1 <= i < bare.len() implies is_digit(#[trigger] bare[i]) by {
        assert(bare[i] == part[i - 1]);
    }
    run_stops(bare, 0, 0);
    run_stops(bare, 1, bare.len() as int);
    let raised = whole + seq!['e'] + power;
    assert forall|i: int| 0 <= i < w implies is_digit(#[trigger] raised[i]) by {
        assert(raised[i] == whole[i]);
    }
    assert forall|i: int| w + 1 <= i < raised.len() implies is_digit(#[trigger] raised[i]) by {
        assert(raised[i] == power[i - w - 1]);
    }
    run_stops(raised, 0, w);
    run_stops(raised, w + 1, raised.len() as int);
    assert(raised[0] == whole[0]);
    assert(raised[w] == 'e');
    assert(raised[w + 1] == power[0]);
    let long = full + seq!['e', '-'] + power;
    assert forall|i: int| 0 <= i < full.len() implies long[i] == full[i] by {}
    assert forall|i: int| w + p + 3 <= i < long.len() implies is_digit(#[trigger] long[i]) by {
        assert(long[i] == power[i - w - p - 3]);
    }
    assert(long[w + p + 1] == 'e' && long[w + p + 2] == '-');
    assert(long[w] == '.');
    assert(long[0] == whole[0]);
    assert forall|i: int| 0 <= i < w implies is_digit(#[trigger] long[i]) by {
        assert(long[i] == full[i]);
    }
    assert forall|i: int| w + 1 <= i < w + p + 1 implies is_digit(#[trigger] long[i]) by {
        assert(long[i] == full[i]);
    }
    run_stops(long, 0, w);
    run_stops(long, w + 1, w + p + 1);
    run_stops(long, w + p + 3, long.len() as int);
    let point = seq!['.'];
    assert(point.skip(0) =~= point);
    run_stops(point, 0, 0);
    run_stops(point, 1, 1);
}

/// A number that is not one of the words for infinity and for no number begins with a digit, a
/// point or a sign, and holds nothing but digits, points, signs and the letter of the exponent.
pub proof fn number_has_no_other_characters(text: Seq<char>, i: int)
    requires
        is_float_text(text),
        0 <= i < text.len(),
        "infatyINFATY"@.contains(text[i]) == false,
    ensures
        is_digit(text[i]) || text[i] == '.' || text[i] == '+' || text[i] == '-' || text[i] == 'e'
            || text[i] == 'E',
{
    reveal_strlit("infatyINFATY");
    reveal_strlit("inf");
    reveal_strlit("infinity");
    reveal_strlit("nan");
    let letters = "infatyINFATY"@;
    assert(letters[0] == 'i' && letters[1] == 'n' && letters[2] == 'f' && letters[3] == 'a'
        && letters[4] == 't' && letters[5] == 'y' && letters[6] == 'I' && letters[7] == 'N'
        && letters[8] == 'F' && letters[9] == 'A' && letters[10] == 'T' && letters[11] == 'Y');
    let from: int = if text.len() > 0 && (text[0] == '+' || text[0] == '-') {
        1
    } else {
        0
    };
    let body = text.skip(from);
    if i >= from {
        assert(body[i - from] == text[i]);
    }
    if is_plain_number(text, from) {
        digit_run_grows(text, from);
        let whole = digit_run(text, from);
        digits_in_run(text, from);
        if whole < text.len() && text[whole] == '.' {
            digit_run_grows(text, whole + 1);
            digits_in_run(text, whole + 1);
            let end = digit_run(text, whole + 1);
            exponent_has_digits(text, end);
        } else {
            exponent_has_digits(text, whole);
        }
    }
}

proof fn digits_in_run(text: Seq<char>, from: int)
    requires
        0 <= from <= text.len(),
    ensures
        forall|i: int| from <= i < digit_run(text, from) ==> is_digit(#[trigger] text[i]),
    decreases text.len() - from,
{
    if from < text.len() && is_digit(text[from]) {
        digits_in_run(text, from + 1);
    }
}

proof fn exponent_has_digits(text: Seq<char>, from: int)
    requires
        0 <= from <= text.len(),
        is_exponent(text, from),
    ensures
        forall|i: int|
            from <= i < text.len() ==> is_digit(#[trigger] text[i]) || text[i] == 'e' || text[i]
                == 'E' || text[i] == '+' || text[i] == '-',
{
    if from < text.len() {
        let signed = from + 1 < text.len() && (text[from + 1] == '+' || text[from + 1] == '-');
        let digits = if signed {
            from + 2
        } else {
            from + 1
        };
        digits_in_run(text, digits);
    }
}

/// The words for infinity and for no number count as numbers, in small letters and in large, with a
/// sign or without.
pub proof fn words_can_be_numbers(a: char, b: char, c: char, sign: char)
    requires
        sign == '+' || sign == '-',
    ensures
        (a == 'i' || a == 'I') && (b == 'n' || b == 'N') && (c == 'f' || c == 'F')
            ==> is_float_text(seq![a, b, c]) && is_float_text(seq![sign, a, b, c]),
        (a == 'n' || a == 'N') && (b == 'a' || b == 'A') && (c == 'n' || c == 'N')
            ==> is_float_text(seq![a, b, c]) && is_float_text(seq![sign, a, b, c]),
        is_float_text("infinity"@),
{
    reveal_strlit("inf");
    reveal_strlit("infinity");
    reveal_strlit("nan");
    let text = seq![a, b, c];
    let signed = seq![sign, a, b, c];
    assert(text.skip(0) =~= text);
    assert(signed.skip(1) =~= text);
    assert("infinity"@.skip(0) =~= "infinity"@);
}

} // verus!
