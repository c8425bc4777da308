//! Whole numbers written as text.
use vstd::prelude::*;
use crate::text;

verus! {

/// Why a text is no number.
#[derive(Debug, Clone, Copy, PartialEq, Eq, Structural)]
pub enum NumberFault {
    /// There is nothing to read.
    Empty,
    /// A character is no digit.
    InvalidDigit,
    /// The number is too great.
    TooLarge,
}

/// The text that reports a fault.
pub open spec fn spec_fault_message(fault: NumberFault) -> Seq<char> {
    match fault {
        NumberFault::Empty => "cannot parse integer from empty string"@,
        NumberFault::InvalidDigit => "invalid digit found in string"@,
        NumberFault::TooLarge => "number too large to fit in target type"@,
    }
}

impl NumberFault {
    /// The text that reports the fault.
    pub fn message(&self) -> (r: &'static str)
        ensures
            r@ == spec_fault_message(*self),
    {
        match self {
            NumberFault::Empty => "cannot parse integer from empty string",
            NumberFault::InvalidDigit => "invalid digit found in string",
            NumberFault::TooLarge => "number too large to fit in target type",
        }
    }
}

/// The value of a digit, where it is one to the base.
pub open spec fn digit_value(c: char, base: int) -> Option<int> {
    let value = if '0' <= c <= '9' {
        c as int - '0' as int
    } else if 'a' <= c <= 'f' {
        c as int - 'a' as int + 10
    } else if 'A' <= c <= 'F' {
        c as int - 'A' as int + 10
    } else {
        16
    };
    if value < base {
        Some(value)
    } else {
        None
    }
}

/// The value of a digit, where it is one to the base.
fn digit_of(c: char, base: u64) -> (r: Option<u64>)
    requires
        base <= 16,
    ensures
        match r {
            Some(value) => digit_value(c, base as int) == Some(value as int) && value < 16,
            None => digit_value(c, base as int) is None,
        },
{
    let value: u64 = if '0' <= c && c <= '9' {
        (c as u32 - 48) as u64
    } else if 'a' <= c && c <= 'f' {
        (c as u32 - 87) as u64
    } else if 'A' <= c && c <= 'F' {
        (c as u32 - 55) as u64
    } else {
        16
    };
    if value < base {
        Some(value)
    } else {
        None
    }
}

/// The number that the digits from a position on add to one that was read before them. The first
/// character that cannot be taken decides what is wrong.
pub open spec fn digits_from(text: Seq<char>, i: int, read: int, base: int, max: int) -> Result<
    int,
    NumberFault,
>
    decreases text.len() - i,
{
    if i >= text.len() {
        Ok(read)
    } else {
        match digit_value(text[i], base) {
            None => Err(NumberFault::InvalidDigit),
            Some(value) => if read * base + value > max {
                Err(NumberFault::TooLarge)
            } else {
                digits_from(text, i + 1, read * base + value, base, max)
            },
        }
    }
}

/// The number that a text stands for: digits to the base, at most one plus sign before them, and
/// no more than the greatest number allowed.
pub open spec fn spec_parse(text: Seq<char>, base: int, max: int) -> Result<int, NumberFault> {
    if text.len() == 0 {
        Err(NumberFault::Empty)
    } else if text[0] == '+' && text.len() > 1 {
        digits_from(text, 1, 0, base, max)
    } else {
        digits_from(text, 0, 0, base, max)
    }
}

/// The number that a text stands for.
pub fn parse(text: &str, base: u64, max: u64) -> (r: Result<u64, NumberFault>)
    requires
        2 <= base <= 16,
    ensures
        match r {
            Ok(value) => spec_parse(text@, base as int, max as int) == Ok::<int, NumberFault>(
                value as int,
            ) && value <= max,
            Err(fault) => spec_parse(text@, base as int, max as int) == Err::<int, NumberFault>(
                fault,
            ),
        },
{
    let chars: Vec<char> = text::to_chars(text);
    if chars.len() == 0 {
        return Err(NumberFault::Empty);
    }
    let mut i: usize = if chars[0] == '+' && chars.len() > 1 {
        1
    } else {
        0
    };
    let mut read: u64 = 0;
    while i < chars.len()
        invariant
            2 <= base <= 16,
            chars@ == text@,
            i <= chars@.len(),
            read <= max,
            spec_parse(text@, base as int, max as int) == digits_from(
                text@,
                i as int,
                read as int,
                base as int,
                max as int,
            ),
        decreases chars@.len() - i,
    {
        match digit_of(chars[i], base) {
            None => {
                return Err(NumberFault::InvalidDigit);
            },
            Some(value) => {
                assert(0 <= read * base <= 0xffff_ffff_ffff_ffff * 16) by (nonlinear_arith)
                    requires
                        0 <= read <= 0xffff_ffff_ffff_ffff,
                        2 <= base <= 16,
                ;
                let next: u128 = (read as u128) * (base as u128) + value as u128;
                if next > max as u128 {
                    return Err(NumberFault::TooLarge);
                }
                read = next as u64;
            },
        }
        i = i + 1;
    }
    Ok(read)
}

/// A number with one digit more is the number times the base and the digit, unless that is too
/// great. A character that is no digit is a fault.
pub proof fn numbers_grow_by_digits(text: Seq<char>, c: char, base: int, max: int)
    requires
        2 <= base <= 16,
        spec_parse(text, base, max) is Ok,
    ensures
        digit_value(c, base) matches Some(value) ==> if spec_parse(text, base, max)->Ok_0 * base
            + value <= max {
            spec_parse(text.push(c), base, max) == Ok::<int, NumberFault>(
                spec_parse(text, base, max)->Ok_0 * base + value,
            )
        } else {
            spec_parse(text.push(c), base, max) == Err::<int, NumberFault>(NumberFault::TooLarge)
        },
        digit_value(c, base) is None ==> spec_parse(text.push(c), base, max) == Err::<
            int,
            NumberFault,
        >(NumberFault::InvalidDigit),
{
    let more = text.push(c);
    if text[0] == '+' && text.len() > 1 {
        one_digit_more(text, c, 1, 0, base, max);
    } else {
        if text[0] == '+' {
            assert(digit_value('+', base) is None);
            assert(digits_from(text, 0, 0, base, max) is Err);
        }
        one_digit_more(text, c, 0, 0, base, max);
    }
    assert(more[0] == text[0]);
}

/// Digits that were read before one more change by it alone.
proof fn one_digit_more(text: Seq<char>, c: char, i: int, read: int, base: int, max: int)
    requires
        0 <= i <= text.len(),
        digits_from(text, i, read, base, max) is Ok,
    ensures
        digits_from(text.push(c), i, read, base, max) == digits_from(
            text.push(c),
            text.len() as int,
            digits_from(text, i, read, base, max)->Ok_0,
            base,
            max,
        ),
        forall|n: int| #[trigger]
            digits_from(text.push(c), text.len() as int, n, base, max) == match digit_value(c, base) {
                None => Err::<int, NumberFault>(NumberFault::InvalidDigit),
                Some(value) => if n * base + value > max {
                    Err::<int, NumberFault>(NumberFault::TooLarge)
                } else {
                    Ok::<int, NumberFault>(n * base + value)
                },
            },
    decreases text.len() - i,
{
    let more = text.push(c);
    assert(more[text.len() as int] == c);
    reveal_with_fuel(digits_from, 2);
    if i < text.len() {
        assert(more[i] == text[i]);
        match digit_value(text[i], base) {
            None => {},
            Some(value) => {
                one_digit_more(text, c, i + 1, read * base + value, base, max);
            },
        }
    }
}

/// The digits that numbers are written with: the ten digits, and to a base of sixteen the letters
/// from `a` to `f` in either case.
pub proof fn digits_have_their_values(c: char)
    ensures
        digit_value(c, 10) is Some <==> '0' <= c <= '9',
        digit_value(c, 16) is Some <==> '0' <= c <= '9' || 'a' <= c <= 'f' || 'A' <= c <= 'F',
        digit_value(c, 10) is Some ==> digit_value(c, 16) == digit_value(c, 10),
        digit_value('0', 10) == Some(0int),
        digit_value('a', 16) == Some(10int),
        digit_value('A', 16) == Some(10int),
        forall|d: char|
            #![trigger digit_value(d, 16)]
            d as int == c as int + 1 && digit_value(c, 16) is Some && digit_value(d, 16) is Some
                ==> digit_value(d, 16)->0 == digit_value(c, 16)->0 + 1,
{
}

/// A number is read back from its decimal notation.
pub proof fn numbers_are_read_back(n: nat, max: int)
    requires
        n <= max,
    ensures
        spec_parse(text::spec_decimal(n), 10, max) == Ok::<int, NumberFault>(n as int),
        text::spec_decimal(n).len() > 0,
        '0' <= text::spec_decimal(n)[0] <= '9',
    decreases n,
{
    if n < 10 {
        let written = text::spec_decimal(n);
        assert(written[0] == text::digit_char(n as int));
        reveal_with_fuel(digits_from, 2);
    } else {
        let before = text::spec_decimal(n / 10);
        numbers_are_read_back(n / 10, max);
        numbers_grow_by_digits(before, text::digit_char((n % 10) as int), 10, max);
        assert(text::spec_decimal(n)[0] == before[0]);
    }
}

/// A plus sign before the digits changes nothing.
pub proof fn plus_signs_change_nothing(text: Seq<char>, base: int, max: int)
    requires
        text.len() > 0,
        text[0] != '+',
    ensures
        spec_parse(seq!['+'] + text, base, max) == spec_parse(text, base, max),
{
    moved_by_one(text, 0, 0, base, max);
}

/// Digits after a sign are read as they are without it.
proof fn moved_by_one(text: Seq<char>, i: int, read: int, base: int, max: int)
    requires
        0 <= i <= text.len(),
    ensures
        digits_from(seq!['+'] + text, i + 1, read, base, max) == digits_from(
            text,
            i,
            read,
            base,
            max,
        ),
    decreases text.len() - i,
{
    let signed = seq!['+'] + text;
    if i < text.len() {
        assert(signed[i + 1] == text[i]);
        match digit_value(text[i], base) {
            None => {},
            Some(value) => {
                moved_by_one(text, i + 1, read * base + value, base, max);
            },
        }
    }
}

} // verus!
