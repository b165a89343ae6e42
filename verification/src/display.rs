//! Playing times as text.

use vstd::prelude::*;
use vstd::string::StringExecFns;

verus! {

/// The character of the decimal digit `d`.
pub open spec fn digit_char(d: int) -> char {
    if d == 0 {
        '0'
    } else if d == 1 {
        '1'
    } else if d == 2 {
        '2'
    } else if d == 3 {
        '3'
    } else if d == 4 {
        '4'
    } else if d == 5 {
        '5'
    } else if d == 6 {
        '6'
    } else if d == 7 {
        '7'
    } else if d == 8 {
        '8'
    } else {
        '9'
    }
}

/// The decimal numeral of `n`, without leading zeros.
pub open spec fn decimal(n: nat) -> Seq<char>
    decreases n,
{
    if n < 10 {
        seq![digit_char(n as int)]
    } else {
        decimal(n / 10).push(digit_char((n % 10) as int))
    }
}

/// A playing time of `millis` milliseconds as minutes and seconds: the
/// whole minutes, a colon, and the whole seconds that are left over, both
/// as plain numerals.
pub open spec fn duration_text(millis: nat) -> Seq<char> {
    decimal(millis / 60_000) + seq![':'] + decimal((millis / 1_000) % 60)
}

/// The text of one decimal digit.
fn digit_text(d: u8) -> (text: &'static str)
    requires
        d < 10,
    ensures
        text@ == seq![digit_char(d as int)],
{
    proof {
        reveal_strlit("0");
        reveal_strlit("1");
        reveal_strlit("2");
        reveal_strlit("3");
        reveal_strlit("4");
        reveal_strlit("5");
        reveal_strlit("6");
        reveal_strlit("7");
        reveal_strlit("8");
        reveal_strlit("9");
    }
    let text = if d == 0 {
        "0"
    } else if d == 1 {
        "1"
    } else if d == 2 {
        "2"
    } else if d == 3 {
        "3"
    } else if d == 4 {
        "4"
    } else if d == 5 {
        "5"
    } else if d == 6 {
        "6"
    } else if d == 7 {
        "7"
    } else if d == 8 {
        "8"
    } else {
        "9"
    };
    assert(text@ =~= seq![digit_char(d as int)]);
    text
}

/// Writes the decimal numeral of `n` at the end of `text`.
pub fn push_decimal(text: &mut String, n: u128)
    ensures
        final(text)@ == old(text)@ + decimal(n as nat),
    decreases n,
{
    if n >= 10 {
        push_decimal(text, n / 10);
    }
    let d = (n % 10) as u8;
    text.append(digit_text(d));
    assert(final(text)@ =~= old(text)@ + decimal(n as nat));
}

/// A playing time as minutes and seconds, such as `3:5` for three minutes
/// and five seconds.
pub fn display_duration(millis: u128) -> (text: String)
    ensures
        text@ == duration_text(millis as nat),
{
    let minutes = millis / 60_000;
    let seconds = (millis / 1_000) % 60;
    let mut text = String::new();
    push_decimal(&mut text, minutes);
    proof {
        reveal_strlit(":");
    }
    text.append(":");
    push_decimal(&mut text, seconds);
    assert(text@ =~= duration_text(millis as nat));
    text
}

} // verus!
