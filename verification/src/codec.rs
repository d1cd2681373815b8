//! Counts as decimal ASCII text.

use vstd::prelude::*;
use vstd::string::StringSliceAdditionalSpecFns;

use crate::error::StoreError;

verus! {

/// A counter's value.
pub type Count = u64;

/// The count of a counter that was never written, or whose text is no count.
pub const DEFAULT_COUNT: Count = 0;

/// `c` is one of the characters `0` to `9`.
pub open spec fn is_digit(c: char) -> bool {
    '0' <= c <= '9'
}

/// The number that the digit `c` stands for.
pub open spec fn digit_value(c: char) -> nat {
    (c as int - '0' as int) as nat
}

/// The character of the digit `d`, for `d` below ten.
pub open spec fn digit_char(d: nat) -> char {
    (d + '0' as nat) as u8 as char
}

/// Every character of `s` is a digit.
pub open spec fn all_digits(s: Seq<char>) -> bool {
    forall|i: int| 0 <= i < s.len() ==> is_digit(#[trigger] s[i])
}

/// The number that a sequence of digits denotes, most significant digit first.
pub open spec fn digits_value(s: Seq<char>) -> nat
    decreases s.len(),
{
    if s.len() == 0 {
        0
    } else {
        10 * digits_value(s.drop_last()) + digit_value(s.last())
    }
}

/// `s` without its leading plus sign, if it has one.
pub open spec fn unsigned_part(s: Seq<char>) -> Seq<char> {
    if s.len() > 0 && s[0] == '+' {
        s.skip(1)
    } else {
        s
    }
}

/// The count that the text `s` denotes: an optional plus sign, then one or more
/// digits, whose number fits a `Count`. Any other text denotes none.
pub open spec fn parse_text(s: Seq<char>) -> Option<Count> {
    let digits = unsigned_part(s);
    if digits.len() > 0 && all_digits(digits) && digits_value(digits) <= Count::MAX {
        Some(digits_value(digits) as Count)
    } else {
        None
    }
}

/// The text that is stored for the count `c`: its decimal digits, without sign
/// or leading zeros.
pub open spec fn decimal_text(c: nat) -> Seq<char>
    decreases c,
{
    if c < 10 {
        seq![digit_char(c)]
    } else {
        decimal_text(c / 10).push(digit_char(c % 10))
    }
}

/// The count of a counter whose stored text is `stored`: zero where nothing is
/// stored or the text denotes no count.
pub open spec fn stored_count(stored: Option<Seq<char>>) -> Count {
    match stored {
        Some(text) => match parse_text(text) {
            Some(c) => c,
            None => DEFAULT_COUNT,
        },
        None => DEFAULT_COUNT,
    }
}

/// Extending a digit sequence never lowers the number it denotes.
proof fn lemma_prefix_value_grows(s: Seq<char>, n: int)
    requires
        0 <= n <= s.len(),
    ensures
        digits_value(s.take(n)) <= digits_value(s),
    decreases s.len() - n,
{
    if n < s.len() {
        lemma_prefix_value_grows(s, n + 1);
        assert(s.take(n + 1).drop_last() =~= s.take(n));
    } else {
        assert(s.take(n) =~= s);
    }
}

/// Reads `text` as a count.
pub fn parse_count(text: &str) -> (parsed: Result<Count, StoreError>)
    ensures
        parsed == match parse_text(text@) {
            Some(c) => Ok::<Count, StoreError>(c),
            None => Err(StoreError::MalformedValue),
        },
{
    broadcast use vstd::string::is_ascii_spec_bytes;

    if !text.is_ascii() {
        proof {
            let digits = unsigned_part(text@);
            if all_digits(digits) && digits.len() < text@.len() {
                let i = choose|i: int|
                    0 <= i < text@.len() && !('\0' <= #[trigger] text@[i] <= '\u{7f}');
                if i > 0 {
                    assert(is_digit(digits[i - 1]));
                }
            }
        }
        return Err(StoreError::MalformedValue);
    }
    let bytes = text.as_bytes();
    let len: usize = bytes.len();
    let start: usize = if len > 0 && bytes[0] == '+' as u8 { 1 } else { 0 };
    let ghost digits = unsigned_part(text@);
    if start == len {
        return Err(StoreError::MalformedValue);
    }
    let mut value: Count = 0;
    let mut at: usize = start;
    while at < len
        invariant
            text.is_ascii(),
            bytes@ == text.spec_bytes(),
            len == text@.len(),
            digits == unsigned_part(text@),
            digits == text@.skip(start as int),
            start <= at <= len,
            all_digits(digits.take(at - start)),
            value == digits_value(digits.take(at - start)),
        decreases len - at,
    {
        let byte: u8 = bytes[at];
        if byte < '0' as u8 || byte > '9' as u8 {
            assert(!is_digit(digits[at - start]));
            return Err(StoreError::MalformedValue);
        }
        proof {
            assert(digits.take(at - start + 1).drop_last() =~= digits.take(at - start));
            lemma_prefix_value_grows(digits, at - start + 1);
        }
        let tens = match value.checked_mul(10) {
            Some(tens) => tens,
            None => {
                return Err(StoreError::MalformedValue);
            },
        };
        value = match tens.checked_add((byte - '0' as u8) as Count) {
            Some(sum) => sum,
            None => {
                return Err(StoreError::MalformedValue);
            },
        };
        at = at + 1;
    }
    assert(digits.take(at - start) =~= digits);
    Ok(value)
}

/// The text of a single digit.
fn digit_text(d: Count) -> (text: &'static str)
    requires
        d < 10,
    ensures
        text@ == seq![digit_char(d as nat)],
{
    proof {
        reveal_strlit("0");
        reveal_strlit("1");
        reveal_strlit("2");
        reveal_strlit("3");
        reveal_strlit("4");
        reveal_strlit("5");
        reveal_strlit("6");
        reveal_strlit("7");
        reveal_strlit("8");
        reveal_strlit("9");
    }
    match d {
        0 => "0",
        1 => "1",
        2 => "2",
        3 => "3",
        4 => "4",
        5 => "5",
        6 => "6",
        7 => "7",
        8 => "8",
        _ => "9",
    }
}

/// Writes `count` as the text that is stored for it.
pub fn render_count(count: Count) -> (text: String)
    ensures
        text@ == decimal_text(count as nat),
{
    let mut text = String::from_str(digit_text(count % 10));
    let mut rest: Count = count / 10;
    while rest > 0
        invariant
            rest > 0 ==> decimal_text(count as nat) == decimal_text(rest as nat) + text@,
            rest == 0 ==> text@ == decimal_text(count as nat),
        decreases rest,
    {
        let mut longer = String::from_str(digit_text(rest % 10));
        longer.append(text.as_str());
        text = longer;
        rest = rest / 10;
    }
    text
}

/// The stored text of a count is one or more digits that denote it.
proof fn lemma_decimal_text_digits(c: nat)
    ensures
        decimal_text(c).len() > 0,
        all_digits(decimal_text(c)),
        digits_value(decimal_text(c)) == c,
    decreases c,
{
    let text = decimal_text(c);
    if c < 10 {
        assert(digits_value(text.drop_last()) == 0);
    } else {
        lemma_decimal_text_digits(c / 10);
        assert(text.drop_last() =~= decimal_text(c / 10));
    }
}

/// A count that is written as text and read back is the same count.
pub proof fn law_round_trip(c: Count)
    ensures
        parse_text(decimal_text(c as nat)) == Some(c),
        stored_count(Some(decimal_text(c as nat))) == c,
{
    lemma_decimal_text_digits(c as nat);
}

} // verus!
