//! Numbers and lists as text, for the messages of the errors.

use vstd::prelude::*;
use vstd::string::StringExecFns;

verus! {

/// The character of a decimal digit.
pub open spec fn digit_char(digit: nat) -> char
    recommends
        digit < 10,
{
    (0x30 + digit) as char
}

/// A number in decimal digits, without leading zeros.
pub open spec fn decimal_digits(value: nat) -> Seq<char>
    decreases value,
{
    if value < 10 {
        seq![digit_char(value)]
    } else {
        decimal_digits(value / 10).push(digit_char(value % 10))
    }
}

/// Appends a number in decimal digits.
pub fn push_decimal(text: &mut String, value: u64)
    ensures
        final(text)@ == old(text)@ + decimal_digits(value as nat),
    decreases value,
{
    if value >= 10 {
        push_decimal(text, value / 10);
    }
    let digit: u8 = (value % 10) as u8;
    text.push((0x30 + digit) as char);
    assert(final(text)@ =~= old(text)@ + decimal_digits(value as nat));
}

/// A number in decimal digits.
pub fn decimal(value: u64) -> (text: String)
    ensures
        text@ == decimal_digits(value as nat),
{
    let mut text = String::new();
    push_decimal(&mut text, value);
    assert(Seq::<char>::empty() + decimal_digits(value as nat) =~= decimal_digits(value as nat));
    text
}

/// The first `count` parts, with `": "` between one and the next.
pub open spec fn joined(parts: Seq<Seq<char>>, count: int) -> Seq<char>
    decreases count,
{
    if count <= 0 {
        Seq::empty()
    } else if count == 1 {
        parts[0]
    } else {
        joined(parts, count - 1) + ": "@ + parts[count - 1]
    }
}

/// The messages of an error and of what caused it, outermost first, as one
/// line with `": "` between them.
pub fn error_chain(messages: &[String]) -> (line: String)
    ensures
        line@ == joined(Seq::new(messages@.len(), |i: int| messages@[i]@), messages@.len() as int),
{
    let ghost parts = Seq::new(messages@.len(), |i: int| messages@[i]@);
    let mut line = String::new();
    let mut i: usize = 0;
    while i < messages.len()
        invariant
            i <= messages.len(),
            parts == Seq::new(messages@.len(), |i: int| messages@[i]@),
            line@ == joined(parts, i as int),
        decreases messages.len() - i,
    {
        if i > 0 {
            line.append(": ");
        }
        line.append(messages[i].as_str());
        assert(parts[i as int] == messages@[i as int]@);
        assert(i == 0 ==> line@ =~= parts[0]);
        i += 1;
    }
    line
}

} // verus!
