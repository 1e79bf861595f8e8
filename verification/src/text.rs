//! The texts that the handlers answer with.

use vstd::prelude::*;
use vstd::string::StringExecFns;

verus! {

/// The character of a decimal digit.
pub open spec fn digit_char(d: nat) -> char
    recommends
        d < 10,
{
    if d == 0 {
        '0'
    } else if d == 1 {
        '1'
    } else if d == 2 {
        '2'
    } else if d == 3 {
        '3'
    } else if d == 4 {
        '4'
    } else if d == 5 {
        '5'
    } else if d == 6 {
        '6'
    } else if d == 7 {
        '7'
    } else if d == 8 {
        '8'
    } else {
        '9'
    }
}

/// A number written in base ten, without sign and without leading zeros.
pub open spec fn decimal(n: nat) -> Seq<char>
    decreases n,
{
    if n < 10 {
        seq![digit_char(n)]
    } else {
        decimal(n / 10).push(digit_char(n % 10))
    }
}

/// The greeting for a name, which is taken as it comes.
pub open spec fn greeting(name: Seq<char>) -> Seq<char> {
    "Hello, "@ + name + "!"@
}

/// What a successful delete answers.
pub open spec fn deleted_message(id: nat) -> Seq<char> {
    "User with ID "@ + decimal(id) + " successfully deleted."@
}

/// What a delete answers when no record carries the identifier.
pub open spec fn not_found_message(id: nat) -> Seq<char> {
    "User with ID "@ + decimal(id) + " not found."@
}

/// The text of one decimal digit.
fn digit_str(d: u32) -> (text: &'static str)
    requires
        d < 10,
    ensures
        text@ == seq![digit_char(d as nat)],
{
    proof {
        reveal_strlit("0");
        reveal_strlit("1");
        reveal_strlit("2");
        reveal_strlit("3");
        reveal_strlit("4");
        reveal_strlit("5");
        reveal_strlit("6");
        reveal_strlit("7");
        reveal_strlit("8");
        reveal_strlit("9");
    }
    let text = match d {
        0 => "0",
        1 => "1",
        2 => "2",
        3 => "3",
        4 => "4",
        5 => "5",
        6 => "6",
        7 => "7",
        8 => "8",
        _ => "9",
    };
    assert(text@ =~= seq![digit_char(d as nat)]);
    text
}

/// Appends a number in base ten to a text.
pub fn push_decimal(out: &mut String, n: u32)
    ensures
        final(out)@ == old(out)@ + decimal(n as nat),
    decreases n,
{
    if n >= 10 {
        push_decimal(out, n / 10);
    }
    out.append(digit_str(n % 10));
    proof {
        if n >= 10 {
            assert(old(out)@ + decimal(n as nat / 10) + seq![digit_char(n as nat % 10)] =~= old(out)@
                + decimal(n as nat));
        }
    }
}

/// The answer to a delete that removed the record with this identifier.
pub fn deleted(id: u32) -> (text: String)
    ensures
        text@ == deleted_message(id as nat),
{
    let mut text = String::from_str("User with ID ");
    push_decimal(&mut text, id);
    text.append(" successfully deleted.");
    text
}

/// The answer to a delete that found no record with this identifier.
pub fn not_found(id: u32) -> (text: String)
    ensures
        text@ == not_found_message(id as nat),
{
    let mut text = String::from_str("User with ID ");
    push_decimal(&mut text, id);
    text.append(" not found.");
    text
}

} // verus!
