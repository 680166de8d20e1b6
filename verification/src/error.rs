//! Why an event could not be decoded.

use vstd::prelude::*;

verus! {

/// Errors that can occur while an event is decoded.
#[derive(Debug)]
pub enum TdhDecodeError {
    /// The event carries no schema item in its extended data.
    NotFound,
    /// The query for the event information failed with a Win32 error code.
    Win32(u32),
    /// The event information is structurally invalid.
    Malformed(&'static str),
}

/// The character of a decimal digit.
pub open spec fn digit_char(d: nat) -> char {
    (48 + d) as char
}

/// `n` in decimal notation, without leading zeros.
pub open spec fn decimal(n: nat) -> Seq<char>
    decreases n,
{
    if n < 10 {
        seq![digit_char(n)]
    } else {
        decimal(n / 10).push(digit_char(n % 10))
    }
}

/// The text of a decimal digit.
fn digit_text(d: u32) -> (text: &'static str)
    requires
        d < 10,
    ensures
        text@ == seq![digit_char(d as nat)],
{
    proof {
        reveal_strlit("0");
        reveal_strlit("1");
        reveal_strlit("2");
        reveal_strlit("3");
        reveal_strlit("4");
        reveal_strlit("5");
        reveal_strlit("6");
        reveal_strlit("7");
        reveal_strlit("8");
        reveal_strlit("9");
    }
    match d {
        0 => "0",
        1 => "1",
        2 => "2",
        3 => "3",
        4 => "4",
        5 => "5",
        6 => "6",
        7 => "7",
        8 => "8",
        _ => "9",
    }
}

/// Appends `n` to `text` in decimal notation.
fn append_decimal(text: &mut String, n: u32)
    ensures
        final(text)@ == old(text)@ + decimal(n as nat),
    decreases n,
{
    if n >= 10 {
        append_decimal(text, n / 10);
    }
    text.append(digit_text(n % 10));
}

impl TdhDecodeError {
    /// The error as a message for people.
    pub fn message(&self) -> (text: String)
        ensures
            text@ == match *self {
                TdhDecodeError::NotFound => "no schema TL extended-data item found on event"@,
                TdhDecodeError::Win32(code) => "TdhGetEventInformation failed with Win32 error "@
                    + decimal(code as nat),
                TdhDecodeError::Malformed(reason) => "malformed TRACE_EVENT_INFO: "@ + reason@,
            },
    {
        let mut text = String::new();
        match self {
            TdhDecodeError::NotFound => {
                text.append("no schema TL extended-data item found on event");
            },
            TdhDecodeError::Win32(code) => {
                text.append("TdhGetEventInformation failed with Win32 error ");
                append_decimal(&mut text, *code);
            },
            TdhDecodeError::Malformed(reason) => {
                text.append("malformed TRACE_EVENT_INFO: ");
                text.append(reason);
            },
        }
        text
    }
}

/// The number that a decimal text stands for.
pub open spec fn decimal_value(text: Seq<char>) -> int
    decreases text.len(),
{
    if text.len() == 0 {
        0
    } else {
        10 * decimal_value(text.drop_last()) + (text.last() as int - '0' as int)
    }
}

/// The decimal notation of a number is made of digits, begins with a zero only
/// where it is nothing else, and stands for that number.
pub proof fn law_decimal_stands_for_its_number(n: nat)
    ensures
        decimal(n).len() > 0,
        decimal_value(decimal(n)) == n,
        forall|i: int| 0 <= i < decimal(n).len() ==> '0' <= #[trigger] decimal(n)[i] <= '9',
        n > 0 ==> decimal(n)[0] != '0',
        n == 0 ==> decimal(n).len() == 1,
    decreases n,
{
    reveal_with_fuel(decimal_value, 2);
    if n < 10 {
        assert(decimal(n).drop_last() =~= Seq::empty());
    } else {
        law_decimal_stands_for_its_number(n / 10);
        assert(decimal(n).drop_last() =~= decimal(n / 10));
        assert(decimal(n)[0] == decimal(n / 10)[0]);
        assert forall|i: int| 0 <= i < decimal(n).len() implies '0' <= #[trigger] decimal(n)[i]
            <= '9' by {
            if i < decimal(n / 10).len() {
                assert(decimal(n)[i] == decimal(n / 10)[i]);
            }
        }
    }
}

} // verus!
