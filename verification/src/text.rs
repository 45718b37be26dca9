//! Helpers on strings and their characters.

use vstd::prelude::*;

verus! {

/// The characters of `text`, in order.
pub fn chars_of(text: &str) -> (chars: Vec<char>)
    ensures
        chars@ == text@,
{
    let mut chars: Vec<char> = Vec::new();
    for c in rest: text.chars()
        invariant
            rest.seq() == text@,
            chars@ == rest.seq().take(rest.index()),
    {
        chars.push(c);
    }
    chars
}

/// The character of `text` at position `at`, as a string of its own.
pub(crate) fn char_text(text: &str, at: usize) -> (one: String)
    requires
        at < text@.len(),
        at < usize::MAX,
    ensures
        one@ == seq![text@[at as int]],
{
    let one = text.substring_char(at, at + 1).to_string();
    one
}

/// The digit that stands for `value`, a number below ten.
pub open spec fn digit_char(value: nat) -> char {
    "0123456789"@[value as int]
}

/// `number` written in base ten, without leading zeros.
pub open spec fn decimal_text(number: nat) -> Seq<char>
    decreases number,
{
    if number < 10 {
        seq![digit_char(number)]
    } else {
        decimal_text(number / 10).push(digit_char(number % 10))
    }
}

/// `number` written in base ten.
pub fn decimal_string(number: u32) -> (text: String)
    ensures
        text@ == decimal_text(number as nat),
    decreases number,
{
    let mut text = if number < 10 {
        String::new()
    } else {
        decimal_string(number / 10)
    };
    let digit = (number % 10) as usize;
    proof {
        reveal_strlit("0123456789");
    }
    text.append("0123456789".substring_char(digit, digit + 1));
    text
}

} // verus!
