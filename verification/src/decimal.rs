//! Unsigned decimal numbers as text.

use vstd::prelude::*;

verus! {

/// Whether the character is one of `0` to `9`.
pub open spec fn is_digit(c: char) -> bool {
    '0' as int <= c as int <= '9' as int
}

/// The number that a digit stands for.
pub open spec fn digit_value(c: char) -> int {
    c as int - '0' as int
}

/// Whether a text consists of digits only.
pub open spec fn all_digits(text: Seq<char>) -> bool {
    forall|i: int| 0 <= i < text.len() ==> is_digit(#[trigger] text[i])
}

/// The number that a row of digits stands for, the last one counting ones.
pub open spec fn digits_value(text: Seq<char>) -> int
    decreases text.len(),
{
    if text.len() == 0 {
        0
    } else {
        10 * digits_value(text.drop_last()) + digit_value(text.last())
    }
}

/// The digits of a number: what is left after one leading plus sign, if there is one.
pub open spec fn without_plus(text: Seq<char>) -> Seq<char> {
    if text.len() > 0 && text[0] == '+' {
        text.drop_first()
    } else {
        text
    }
}

/// The number that a text stands for, where it is an optional plus sign followed by one or more
/// digits and nothing else, and where the number is no larger than `max`.
pub open spec fn number_in(text: Seq<char>, max: int) -> Option<int> {
    let digits = without_plus(text);
    if digits.len() > 0 && all_digits(digits) && digits_value(digits) <= max {
        Some(digits_value(digits))
    } else {
        None
    }
}

proof fn lemma_digits_value_grows(text: Seq<char>, n: int)
    requires
        all_digits(text),
        0 <= n <= text.len(),
    ensures
        0 <= digits_value(text.take(n)) <= digits_value(text),
    decreases text.len(),
{
    if text.len() == 0 {
        assert(text.take(n) == text);
    } else if n < text.len() {
        assert(is_digit(text[text.len() - 1]));
        assert(text.take(n) == text.drop_last().take(n));
        lemma_digits_value_grows(text.drop_last(), n);
    } else {
        assert(is_digit(text[text.len() - 1]));
        assert(text.take(n) == text);
        lemma_digits_value_grows(text.drop_last(), text.len() - 1);
        assert(text.drop_last().take(text.len() - 1) == text.drop_last());
    }
}

fn digit_of(c: char) -> (digit: Option<u64>)
    ensures
        digit == (if is_digit(c) {
            Some(digit_value(c) as u64)
        } else {
            None
        }),
{
    let code: u32 = c as u32;
    if 48 <= code && code <= 57 {
        Some((code - 48) as u64)
    } else {
        None
    }
}

/// Reads the number that a text stands for.
pub fn parse_number(text: &Vec<char>, max: u64) -> (number: Option<u64>)
    ensures
        match number_in(text@, max as int) {
            Some(n) => number is Some && number->0 == n,
            None => number is None,
        },
{
    let start: usize = if text.len() > 0 && text[0] == '+' {
        1
    } else {
        0
    };
    let ghost digits = without_plus(text@);
    if start == text.len() {
        return None;
    }
    let mut value: u64 = 0;
    let mut i: usize = start;
    assert(digits == text@.skip(start as int));
    while i < text.len()
        invariant
            start <= i <= text.len(),
            start < text.len(),
            digits == without_plus(text@),
            digits == text@.skip(start as int),
            value <= max,
            value == digits_value(digits.take(i - start)),
            all_digits(digits.take(i - start)),
        decreases text.len() - i,
    {
        let ghost done = digits.take(i - start);
        let ghost next = digits.take(i + 1 - start);
        assert(next.drop_last() == done);
        assert(next.last() == text@[i as int]);
        assert(digits[i - start] == text@[i as int]);
        match digit_of(text[i]) {
            None => {
                return None;
            },
            Some(digit) => {
                assert(all_digits(next)) by {
                    assert forall|j: int| 0 <= j < next.len() implies is_digit(
                        #[trigger] next[j],
                    ) by {
                        if j < done.len() {
                            assert(next[j] == done[j]);
                        }
                    }
                }
                if digit > max || value > (max - digit) / 10 {
                    proof {
                        assert(digits_value(next) > max);
                        if all_digits(digits) {
                            lemma_digits_value_grows(digits, i + 1 - start);
                        }
                    }
                    return None;
                }
                value = value * 10 + digit;
            },
        }
        i += 1;
    }
    assert(digits.take(i - start) == digits);
    Some(value)
}

/// The character for a digit.
pub open spec fn digit_char(digit: int) -> char {
    (digit + '0' as int) as char
}

/// A number written in decimal, without leading zeros.
pub open spec fn decimal(number: int) -> Seq<char>
    decreases number,
{
    if number < 10 {
        seq![digit_char(number)]
    } else {
        decimal(number / 10).push(digit_char(number % 10))
    }
}

fn digit_text(digit: u64) -> (text: &'static str)
    requires
        digit < 10,
    ensures
        text@ == seq![digit_char(digit as int)],
{
    proof {
        reveal_strlit("0");
        reveal_strlit("1");
        reveal_strlit("2");
        reveal_strlit("3");
        reveal_strlit("4");
        reveal_strlit("5");
        reveal_strlit("6");
        reveal_strlit("7");
        reveal_strlit("8");
        reveal_strlit("9");
    }
    if digit == 0 {
        "0"
    } else if digit == 1 {
        "1"
    } else if digit == 2 {
        "2"
    } else if digit == 3 {
        "3"
    } else if digit == 4 {
        "4"
    } else if digit == 5 {
        "5"
    } else if digit == 6 {
        "6"
    } else if digit == 7 {
        "7"
    } else if digit == 8 {
        "8"
    } else {
        "9"
    }
}

/// Writes a number in decimal.
pub fn render_number(number: u64) -> (text: String)
    ensures
        text@ == decimal(number as int),
    decreases number,
{
    if number < 10 {
        digit_text(number).to_owned()
    } else {
        let mut text = render_number(number / 10);
        text.append(digit_text(number % 10));
        text
    }
}

/// What decimal notation consists of: digits, at least one, that stand for the number.
pub proof fn lemma_decimal(number: int)
    requires
        number >= 0,
    ensures
        decimal(number).len() > 0,
        all_digits(decimal(number)),
        digits_value(decimal(number)) == number,
    decreases number,
{
    let text = decimal(number);
    if number < 10 {
        assert(digits_value(text.drop_last()) == 0);
        assert(is_digit(text[0]));
    } else {
        let front = decimal(number / 10);
        lemma_decimal(number / 10);
        assert(text.drop_last() == front);
        assert forall|i: int| 0 <= i < text.len() implies is_digit(#[trigger] text[i]) by {
            if i < front.len() {
                assert(text[i] == front[i]);
            }
        }
    }
}

/// A number written in decimal reads back as that number, wherever it is within the bound.
pub proof fn law_decimal_reads_back(number: int, max: int)
    requires
        0 <= number <= max,
    ensures
        number_in(decimal(number), max) == Some(number),
{
    lemma_decimal(number);
    assert(is_digit(decimal(number)[0]));
}

/// A number that is read is one from 0 up to the bound.
pub proof fn law_numbers_are_in_bounds(text: Seq<char>, max: int)
    ensures
        number_in(text, max) matches Some(n) ==> 0 <= n <= max,
{
    let digits = without_plus(text);
    if all_digits(digits) {
        lemma_digits_value_grows(digits, 0);
        assert(digits.take(0).len() == 0);
    }
}

/// Whether the text consists of one or more of the digits 0 to 9.
pub open spec fn plain_digits(text: Seq<char>) -> bool {
    &&& text.len() > 0
    &&& forall|i: int| 0 <= i < text.len() ==> '0' <= #[trigger] text[i] <= '9'
}

/// What is read as a number, and which: one digit stands for its own value, each further digit
/// makes the number ten times as large and adds its value, and a plus sign in front changes
/// nothing.
pub proof fn law_digits_count(text: Seq<char>, digit: char, max: int)
    requires
        '0' <= digit <= '9',
        max >= 9,
    ensures
        number_in(seq![digit], max) == Some(digit as int - 48),
        plain_digits(text) ==> number_in(text.push(digit), max) == (match number_in(text, max) {
            Some(n) if 10 * n + (digit as int - 48) <= max => Some(10 * n + (digit as int - 48)),
            _ => None,
        }),
        plain_digits(text) ==> number_in(seq!['+'] + text, max) == number_in(text, max),
{
    let one = seq![digit];
    assert(one.drop_last() == Seq::<char>::empty());
    assert(is_digit(one[0]));
    assert(digits_value(one.drop_last()) == 0);
    assert(digits_value(one) == digit as int - 48);
    if plain_digits(text) {
        let longer = text.push(digit);
        assert(all_digits(text));
        assert(longer[0] == text[0]);
        assert(longer.drop_last() == text);
        assert(all_digits(longer)) by {
            assert forall|i: int| 0 <= i < longer.len() implies is_digit(#[trigger] longer[i]) by {
                if i < text.len() {
                    assert(longer[i] == text[i]);
                }
            }
        }
        lemma_digits_value_grows(text, 0);
        assert(text.take(0).len() == 0);
        assert((seq!['+'] + text).drop_first() == text);
    }
}

/// What is not a row of digits, with or without a plus sign in front, is no number.
pub proof fn law_only_digits_count(text: Seq<char>, max: int)
    requires
        !plain_digits(text),
        !(text.len() > 0 && text[0] == '+' && plain_digits(text.skip(1))),
    ensures
        number_in(text, max) is None,
{
    let digits = without_plus(text);
    assert(text.len() > 0 ==> text.skip(1) == text.drop_first());
    if digits.len() > 0 && all_digits(digits) {
        assert forall|i: int| 0 <= i < digits.len() implies '0' <= #[trigger] digits[i] <= '9' by {
            assert(is_digit(digits[i]));
        }
        assert(plain_digits(digits));
    }
}

/// A number is written in digits, without a zero in front unless it is 0 itself, and in one
/// digit more for each factor of ten.
pub proof fn law_decimal_is_plain(number: int)
    requires
        number >= 0,
    ensures
        plain_digits(decimal(number)),
        number > 0 ==> decimal(number)[0] != '0',
        number == 0 ==> decimal(number) == seq!['0'],
        number < 10 ==> decimal(number).len() == 1,
        decimal(10 * number + 10).len() == decimal(number + 1).len() + 1,
    decreases number,
{
    lemma_decimal(number);
    let text = decimal(number);
    assert forall|i: int| 0 <= i < text.len() implies '0' <= #[trigger] text[i] <= '9' by {
        assert(is_digit(text[i]));
    }
    if number >= 10 {
        law_decimal_is_plain(number / 10);
        assert(text[0] == decimal(number / 10)[0]);
    }
    assert((10 * number + 10) / 10 == number + 1);
}

} // verus!
