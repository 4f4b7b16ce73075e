//! Decimal numerals.

use vstd::prelude::*;
use vstd::string::StringExecFns;

use crate::text;

verus! {

/// The ten digits.
pub open spec fn digits() -> Seq<char> {
    seq!['0', '1', '2', '3', '4', '5', '6', '7', '8', '9']
}

/// The decimal numeral of a number.
pub open spec fn numeral(number: nat) -> Seq<char>
    decreases number,
{
    if number < 10 {
        seq![digits()[number as int]]
    } else {
        numeral(number / 10).push(digits()[(number % 10) as int])
    }
}

/// One digit, as a string.
fn digit(value: u128) -> (text: &'static str)
    requires
        value < 10,
    ensures
        text@ == seq![digits()[value as int]],
{
    proof {
        reveal_strlit("0");
        reveal_strlit("1");
        reveal_strlit("2");
        reveal_strlit("3");
        reveal_strlit("4");
        reveal_strlit("5");
        reveal_strlit("6");
        reveal_strlit("7");
        reveal_strlit("8");
        reveal_strlit("9");
        assert("0"@ =~= seq!['0']);
        assert("1"@ =~= seq!['1']);
        assert("2"@ =~= seq!['2']);
        assert("3"@ =~= seq!['3']);
        assert("4"@ =~= seq!['4']);
        assert("5"@ =~= seq!['5']);
        assert("6"@ =~= seq!['6']);
        assert("7"@ =~= seq!['7']);
        assert("8"@ =~= seq!['8']);
        assert("9"@ =~= seq!['9']);
    }
    match value {
        0 => "0",
        1 => "1",
        2 => "2",
        3 => "3",
        4 => "4",
        5 => "5",
        6 => "6",
        7 => "7",
        8 => "8",
        _ => "9",
    }
}

/// The decimal numeral of a number.
pub fn to_numeral(number: u128) -> (text: String)
    ensures
        text@ == numeral(number as nat),
    decreases number,
{
    if number < 10 {
        digit(number).to_owned()
    } else {
        let text = to_numeral(number / 10).concat(digit(number % 10));
        assert(text@ =~= numeral((number / 10) as nat).push(digits()[(number % 10) as int]));
        text
    }
}

/// Whether a character is a decimal digit.
pub open spec fn is_digit(c: char) -> bool {
    '0' <= c && c <= '9'
}

/// Whether a string is made of digits.
pub open spec fn all_digits(text: Seq<char>) -> bool {
    forall|i: int| 0 <= i < text.len() ==> is_digit(#[trigger] text[i])
}

/// The number that a string of digits stands for.
pub open spec fn value_of(text: Seq<char>) -> nat
    decreases text.len(),
{
    if text.len() == 0 {
        0
    } else {
        10 * value_of(text.drop_last()) + (text.last() as nat - '0' as nat) as nat
    }
}

/// The number that a string stands for: digits, at least one, after an optional plus sign, that
/// do not exceed the largest `u64`.
pub open spec fn parsed(text: Seq<char>) -> Option<u64> {
    let number = if text.len() > 0 && text[0] == '+' {
        text.skip(1)
    } else {
        text
    };
    if number.len() > 0 && all_digits(number) && value_of(number) <= u64::MAX {
        Some(value_of(number) as u64)
    } else {
        None
    }
}

/// More digits never make a number smaller.
proof fn lemma_value_grows(text: Seq<char>, i: int)
    requires
        0 <= i <= text.len(),
    ensures
        value_of(text.take(i)) <= value_of(text),
    decreases text.len(),
{
    if i == text.len() {
        assert(text.take(i) =~= text);
    } else {
        lemma_value_grows(text.drop_last(), i);
        assert(text.drop_last().take(i) =~= text.take(i));
    }
}

/// The number that a string stands for.
pub fn parse_u64(text: &str) -> (number: Option<u64>)
    ensures
        number == parsed(text@),
{
    let chars = text::characters(text);
    let start: usize = if chars.len() > 0 && chars[0] == '+' {
        1
    } else {
        0
    };
    let ghost number = if start == 1 {
        text@.skip(1)
    } else {
        text@
    };
    if chars.len() == start {
        return None;
    }
    let mut value: u64 = 0;
    assert(number.take(0) =~= Seq::<char>::empty());
    for i in start..chars.len()
        invariant
            chars@ == text@,
            start <= 1,
            number == (if start == 1 {
                text@.skip(1)
            } else {
                text@
            }),
            start == (if text@.len() > 0 && text@[0] == '+' {
                1int
            } else {
                0int
            }),
            start < chars@.len(),
            forall|j: int| 0 <= j < i - start ==> is_digit(#[trigger] number[j]),
            value == value_of(number.take(i - start)),
    {
        let c = chars[i];
        let ghost k = i - start;
        assert(number[k] == c);
        if c < '0' || c > '9' {
            assert(!is_digit(number[k]) && 0 <= k < number.len());
            assert(!all_digits(number));
            return None;
        }
        let d: u32 = c as u32 - '0' as u32;
        let next: u128 = value as u128 * 10 + d as u128;
        proof {
            assert(number.take(k + 1).drop_last() =~= number.take(k));
            assert(number.take(k + 1).last() == c);
            lemma_value_grows(number, k + 1);
        }
        if next > u64::MAX as u128 {
            return None;
        }
        value = next as u64;
    }
    assert(number.take(number.len() as int) =~= number);
    Some(value)
}

// ---------------------------------------------------------------------------
// What holds of numerals

/// A digit, by its value.
proof fn lemma_digit(value: nat)
    requires
        value < 10,
    ensures
        is_digit(digits()[value as int]),
        digits()[value as int] as nat - '0' as nat == value,
{
}

proof fn lemma_numeral(number: nat)
    ensures
        numeral(number).len() > 0,
        all_digits(numeral(number)),
        value_of(numeral(number)) == number,
    decreases number,
{
    reveal_with_fuel(value_of, 2);
    lemma_digit(number % 10);
    if number < 10 {
        lemma_digit(number);
        assert(numeral(number).drop_last() =~= Seq::<char>::empty());
    } else {
        lemma_numeral(number / 10);
        let head = numeral(number / 10);
        assert(numeral(number).drop_last() =~= head);
        assert forall|i: int| 0 <= i < numeral(number).len() implies is_digit(
            #[trigger] numeral(number)[i],
        ) by {
            if i < head.len() {
                assert(is_digit(head[i]));
            }
        }
    }
}

/// A numeral stands for the number of which it is the numeral.
pub proof fn law_numeral_reads_back(number: nat)
    requires
        number <= u64::MAX,
    ensures
        parsed(numeral(number)) == Some(number as u64),
{
    lemma_numeral(number);
    assert(is_digit(numeral(number)[0]));
}

/// Different numbers have different numerals, so that messages sent at different times have
/// different labels.
pub proof fn law_numerals_differ(a: nat, b: nat)
    requires
        a != b,
    ensures
        numeral(a) != numeral(b),
{
    lemma_numeral(a);
    lemma_numeral(b);
}

/// What stands for a number: at least one digit, and digits alone but for a plus sign before them.
/// Zeros before a number change nothing, and nor does the sign. What would be too large stands for
/// none.
pub proof fn law_what_is_a_number(text: Seq<char>, digits_of: Seq<char>)
    requires
        text == digits_of || text == seq!['+'] + digits_of,
        digits_of.len() > 0 ==> digits_of[0] != '+',
    ensures
        parsed(text) == parsed(digits_of),
        parsed(text) is Some ==> digits_of.len() > 0 && forall|i: int|
            0 <= i < digits_of.len() ==> '0' <= #[trigger] digits_of[i] && digits_of[i] <= '9',
        digits_of.len() > 0 && all_digits(digits_of) ==> parsed(seq!['0'] + digits_of) == parsed(
            digits_of,
        ),
{
    if text == seq!['+'] + digits_of {
        assert(text[0] == '+');
        assert(text.skip(1) =~= digits_of);
    }
    if parsed(text) is Some {
        assert(all_digits(digits_of));
        assert forall|i: int| 0 <= i < digits_of.len() implies '0' <= #[trigger] digits_of[i]
            && digits_of[i] <= '9' by {
            assert(is_digit(digits_of[i]));
        }
    }
    if digits_of.len() > 0 && all_digits(digits_of) {
        let longer = seq!['0'] + digits_of;
        lemma_leading_zero(digits_of);
        assert(longer[0] == '0');
        assert forall|i: int| 0 <= i < longer.len() implies is_digit(#[trigger] longer[i]) by {
            if i > 0 {
                assert(longer[i] == digits_of[i - 1]);
            }
        }
    }
}

proof fn lemma_leading_zero(text: Seq<char>)
    ensures
        value_of(seq!['0'] + text) == value_of(text),
    decreases text.len(),
{
    let longer = seq!['0'] + text;
    if text.len() == 0 {
        reveal_with_fuel(value_of, 2);
        assert(longer.drop_last() =~= Seq::<char>::empty());
    } else {
        lemma_leading_zero(text.drop_last());
        assert(longer.drop_last() =~= seq!['0'] + text.drop_last());
    }
}

/// A number with one digit more is ten times as large, and larger by the digit; where that is too
/// large, it stands for none.
pub proof fn law_one_digit_more(text: Seq<char>, number: u64, digit: char)
    requires
        parsed(text) == Some(number),
        '0' <= digit && digit <= '9',
    ensures
        parsed(text.push(digit)) == (if 10 * number + (digit as int - '0' as int) <= u64::MAX {
            Some((10 * number + (digit as int - '0' as int)) as u64)
        } else {
            None
        }),
{
    let signed = text[0] == '+';
    let digits_of = if signed {
        text.skip(1)
    } else {
        text
    };
    let longer = digits_of.push(digit);
    assert(text.push(digit)[0] == text[0]);
    if signed {
        assert(text.push(digit).skip(1) =~= longer);
    }
    assert(longer.drop_last() =~= digits_of);
    assert forall|i: int| 0 <= i < longer.len() implies is_digit(#[trigger] longer[i]) by {
        if i < digits_of.len() {
            assert(is_digit(digits_of[i]));
        }
    }
}

/// A numeral is made of digits, and a larger number has the numeral of its tenth part with one
/// digit more.
pub proof fn law_numeral(number: nat)
    ensures
        number < 10 ==> numeral(number).len() == 1 && numeral(number)[0] as nat == '0' as nat + number,
        number >= 10 ==> numeral(number).drop_last() == numeral(number / 10)
            && numeral(number).last() as nat == '0' as nat + number % 10,
{
    if number >= 10 {
        lemma_digit(number % 10);
        assert(numeral(number).drop_last() =~= numeral(number / 10));
    } else {
        lemma_digit(number);
    }
}

} // verus!
