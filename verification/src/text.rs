//! Text as sequences of characters: the classes of character that the
//! tokenizer tells apart, decimal numerals, and the joining of pieces.

use vstd::prelude::*;
use vstd::string::StrSliceExecFns;
use vstd::string::StringExecFns;

verus! {

/// The three kinds of character of which the tokenizer reads whole runs.
pub enum CharClass {
    /// Space, tab, line feed and carriage return.
    Blank,
    /// The ASCII letters and the underscore.
    Letter,
    /// The ASCII digits.
    Digit,
}

/// Whether `c` belongs to `class`.
pub open spec fn in_class(class: CharClass, c: char) -> bool {
    match class {
        CharClass::Blank => c == ' ' || c == '\t' || c == '\n' || c == '\r',
        CharClass::Letter => ('a' <= c && c <= 'z') || ('A' <= c && c <= 'Z') || c == '_',
        CharClass::Digit => '0' <= c && c <= '9',
    }
}

/// Whether every character of `text` belongs to `class`.
pub open spec fn all_in_class(class: CharClass, text: Seq<char>) -> bool {
    forall|i: int| 0 <= i < text.len() ==> in_class(class, #[trigger] text[i])
}

/// The pieces of `parts` one after another.
pub open spec fn concat(parts: Seq<Seq<char>>) -> Seq<char>
    decreases parts.len(),
{
    if parts.len() == 0 {
        Seq::empty()
    } else {
        concat(parts.drop_last()) + parts.last()
    }
}

/// The pieces of `parts` one after another, with `separator` between each
/// two neighbours.
pub open spec fn join(parts: Seq<Seq<char>>, separator: Seq<char>) -> Seq<char> {
    concat(
        Seq::new(
            parts.len(),
            |i: int|
                if i == 0 {
                    parts[i]
                } else {
                    separator + parts[i]
                },
        ),
    )
}

/// Taking one more piece appends that piece.
pub proof fn lemma_concat_take(parts: Seq<Seq<char>>, count: int)
    requires
        0 <= count < parts.len(),
    ensures
        concat(parts.take(count + 1)) == concat(parts.take(count)) + parts[count],
{
    assert(parts.take(count + 1).drop_last() == parts.take(count));
}

/// Where three pieces in a row stand in a sequence, each of them stands
/// there.
pub proof fn lemma_part_stands<T>(
    input: Seq<T>,
    at: int,
    before: Seq<T>,
    part: Seq<T>,
    behind: Seq<T>,
)
    requires
        0 <= at,
        at + before.len() + part.len() + behind.len() <= input.len(),
        input.subrange(at, at + before.len() + part.len() + behind.len()) == before + part
            + behind,
    ensures
        input.subrange(at + before.len(), at + before.len() + part.len()) == part,
        forall|i: int| 0 <= i < before.len() ==> input[at + i] == #[trigger] before[i],
        forall|i: int|
            0 <= i < behind.len() ==> input[at + before.len() + part.len() + i]
                == #[trigger] behind[i],
{
    let whole = before + part + behind;
    let found = input.subrange(at, at + whole.len());
    assert forall|i: int| 0 <= i < part.len() implies input[at + before.len() + i]
        == part[i] by {
        assert(found[before.len() + i] == whole[before.len() + i]);
    }
    assert forall|i: int| 0 <= i < before.len() implies input[at + i] == before[i] by {
        assert(found[i] == whole[i]);
    }
    assert forall|i: int| 0 <= i < behind.len() implies input[at + before.len() + part.len()
        + i] == behind[i] by {
        assert(found[before.len() + part.len() + i] == whole[before.len() + part.len() + i]);
    }
}

/// A sequence of four pieces in a row holds each piece at its place.
pub proof fn lemma_four_parts<T>(first: Seq<T>, second: Seq<T>, third: Seq<T>, fourth: Seq<T>)
    ensures
        (first + second + third + fourth).len() == first.len() + second.len() + third.len()
            + fourth.len(),
        (first + second + third + fourth).subrange(0, first.len() as int) == first,
        (first + second + third + fourth).subrange(
            first.len() as int,
            (first.len() + second.len()) as int,
        ) == second,
        (first + second + third + fourth).subrange(
            (first.len() + second.len()) as int,
            (first.len() + second.len() + third.len()) as int,
        ) == third,
        (first + second + third + fourth).subrange(
            (first.len() + second.len() + third.len()) as int,
            (first.len() + second.len() + third.len() + fourth.len()) as int,
        ) == fourth,
{
}

/// The character of the digit `d`.
pub open spec fn digit_char(d: int) -> char {
    if d == 0 {
        '0'
    } else if d == 1 {
        '1'
    } else if d == 2 {
        '2'
    } else if d == 3 {
        '3'
    } else if d == 4 {
        '4'
    } else if d == 5 {
        '5'
    } else if d == 6 {
        '6'
    } else if d == 7 {
        '7'
    } else if d == 8 {
        '8'
    } else {
        '9'
    }
}

/// The digit that the character `c` shows.
pub open spec fn digit_value(c: char) -> int {
    c as int - '0' as int
}

/// The decimal numeral of `n`, without leading zeros.
pub open spec fn decimal_digits(n: nat) -> Seq<char>
    decreases n,
{
    if n < 10 {
        seq![digit_char(n as int)]
    } else {
        decimal_digits(n / 10).push(digit_char((n % 10) as int))
    }
}

/// The decimal numeral of `v`, with a minus sign in front when `v` is
/// negative.
pub open spec fn decimal(v: int) -> Seq<char> {
    if v < 0 {
        seq!['-'] + decimal_digits((-v) as nat)
    } else {
        decimal_digits(v as nat)
    }
}

/// The number that a numeral shows, read as decimal digits.
pub open spec fn numeral_value(digits: Seq<char>) -> int
    decreases digits.len(),
{
    if digits.len() == 0 {
        0
    } else {
        numeral_value(digits.drop_last()) * 10 + digit_value(digits.last())
    }
}

/// What a text is worth as a 32-bit signed integer literal: the number it
/// shows when it is a non-empty run of digits and that number fits.
pub open spec fn literal_value(text: Seq<char>) -> Option<int> {
    if text.len() > 0 && all_in_class(CharClass::Digit, text) && numeral_value(text) <= i32::MAX {
        Some(numeral_value(text))
    } else {
        None
    }
}

/// A numeral of digits shows at least what any of its beginnings shows.
pub proof fn lemma_numeral_value_grows(digits: Seq<char>, count: int)
    requires
        all_in_class(CharClass::Digit, digits),
        0 <= count <= digits.len(),
    ensures
        0 <= numeral_value(digits.take(count)) <= numeral_value(digits),
    decreases digits.len() - count,
{
    lemma_numeral_value_bounds(digits.take(count));
    if count < digits.len() {
        assert(digits.take(count + 1).drop_last() == digits.take(count));
        lemma_numeral_value_grows(digits, count + 1);
    } else {
        assert(digits.take(count) == digits);
    }
}

/// A numeral of digits shows no negative number.
pub proof fn lemma_numeral_value_bounds(digits: Seq<char>)
    requires
        all_in_class(CharClass::Digit, digits),
    ensures
        0 <= numeral_value(digits),
    decreases digits.len(),
{
    if digits.len() > 0 {
        lemma_numeral_value_bounds(digits.drop_last());
    }
}

/// The decimal numeral of a number is a non-empty run of digits, and the
/// number it shows is that number.
pub proof fn lemma_decimal_digits(n: nat)
    ensures
        decimal_digits(n).len() > 0,
        all_in_class(CharClass::Digit, decimal_digits(n)),
        numeral_value(decimal_digits(n)) == n,
    decreases n,
{
    let digits = decimal_digits(n);
    if n < 10 {
        assert(digits.drop_last() == Seq::<char>::empty());
        assert(numeral_value(digits.drop_last()) == 0);
    } else {
        lemma_decimal_digits(n / 10);
        let front = decimal_digits(n / 10);
        assert(digits.drop_last() == front);
        assert forall|i: int| 0 <= i < digits.len() implies in_class(
            CharClass::Digit,
            #[trigger] digits[i],
        ) by {
            if i < front.len() {
                assert(digits[i] == front[i]);
            }
        }
    }
}

/// A number of 32 bits that is not negative is the value of its own
/// decimal numeral as an integer literal.
pub proof fn lemma_literal_of_decimal(v: int)
    requires
        0 <= v <= i32::MAX,
    ensures
        literal_value(decimal(v)) == Some(v),
{
    lemma_decimal_digits(v as nat);
}

/// The text of one digit.
fn digit_text(d: u32) -> (text: &'static str)
    requires
        d < 10,
    ensures
        text@ == seq![digit_char(d as int)],
{
    proof {
        reveal_strlit("0");
        reveal_strlit("1");
        reveal_strlit("2");
        reveal_strlit("3");
        reveal_strlit("4");
        reveal_strlit("5");
        reveal_strlit("6");
        reveal_strlit("7");
        reveal_strlit("8");
        reveal_strlit("9");
    }
    if d == 0 {
        "0"
    } else if d == 1 {
        "1"
    } else if d == 2 {
        "2"
    } else if d == 3 {
        "3"
    } else if d == 4 {
        "4"
    } else if d == 5 {
        "5"
    } else if d == 6 {
        "6"
    } else if d == 7 {
        "7"
    } else if d == 8 {
        "8"
    } else {
        "9"
    }
}

/// Appends the decimal numeral of `n` to `text`.
fn append_decimal_digits(text: &mut String, n: u32)
    ensures
        final(text)@ == old(text)@ + decimal_digits(n as nat),
    decreases n,
{
    if n >= 10 {
        append_decimal_digits(text, n / 10);
    }
    text.append(digit_text(n % 10));
}

/// The decimal numeral of `v`.
pub fn decimal_text(v: i32) -> (text: String)
    ensures
        text@ == decimal(v as int),
{
    let mut text = String::new();
    if v < 0 {
        proof {
            reveal_strlit("-");
        }
        text.append("-");
        append_decimal_digits(&mut text, (-(v as i64)) as u32);
    } else {
        append_decimal_digits(&mut text, v as u32);
    }
    text
}

/// Reads `text` as a 32-bit signed integer literal.
pub fn parse_decimal(text: &str) -> (value: Option<i32>)
    ensures
        value is Some == literal_value(text@) is Some,
        value matches Some(v) ==> literal_value(text@) == Some(v as int),
{
    let length = text.unicode_len();
    if length == 0 {
        return None;
    }
    let mut value: i32 = 0;
    let mut i: usize = 0;
    while i < length
        invariant
            length == text@.len(),
            0 <= i <= length,
            all_in_class(CharClass::Digit, text@.take(i as int)),
            value == numeral_value(text@.take(i as int)),
            0 <= value,
        decreases length - i,
    {
        let ch = text.get_char(i);
        if !('0' <= ch && ch <= '9') {
            return None;
        }
        let digit = (ch as u32 - '0' as u32) as i32;
        proof {
            assert(text@.take(i + 1).drop_last() == text@.take(i as int));
            assert(all_in_class(CharClass::Digit, text@.take(i + 1))) by {
                assert forall|k: int| 0 <= k < i + 1 implies in_class(
                    CharClass::Digit,
                    #[trigger] text@.take(i + 1)[k],
                ) by {
                    if k < i {
                        assert(text@.take(i + 1)[k] == text@.take(i as int)[k]);
                    }
                }
            }
        }
        if value > (i32::MAX - digit) / 10 {
            proof {
                if all_in_class(CharClass::Digit, text@) {
                    lemma_numeral_value_grows(text@, i + 1);
                }
            }
            return None;
        }
        value = value * 10 + digit;
        i = i + 1;
    }
    proof {
        assert(text@.take(length as int) == text@);
    }
    Some(value)
}

} // verus!
