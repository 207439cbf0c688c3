//! The pieces of which the texts that show a value are made.

use vstd::prelude::*;
use vstd::string::*;

verus! {

/// The character for a digit below 16, in lower case.
pub open spec fn digit_char(digit: nat) -> char {
    if digit == 0 {
        '0'
    } else if digit == 1 {
        '1'
    } else if digit == 2 {
        '2'
    } else if digit == 3 {
        '3'
    } else if digit == 4 {
        '4'
    } else if digit == 5 {
        '5'
    } else if digit == 6 {
        '6'
    } else if digit == 7 {
        '7'
    } else if digit == 8 {
        '8'
    } else if digit == 9 {
        '9'
    } else if digit == 10 {
        'a'
    } else if digit == 11 {
        'b'
    } else if digit == 12 {
        'c'
    } else if digit == 13 {
        'd'
    } else if digit == 14 {
        'e'
    } else {
        'f'
    }
}

/// A number written in decimal, without leading zeros.
pub open spec fn decimal_text(n: nat) -> Seq<char>
    decreases n,
{
    if n < 10 {
        seq![digit_char(n)]
    } else {
        decimal_text(n / 10).push(digit_char(n % 10))
    }
}

/// A number written in hexadecimal, in lower case and without leading zeros.
pub open spec fn hex_text(n: nat) -> Seq<char>
    decreases n,
{
    if n < 16 {
        seq![digit_char(n)]
    } else {
        hex_text(n / 16).push(digit_char(n % 16))
    }
}

/// An address as `{:p}` shows a pointer: `0x` and the hexadecimal digits.
pub open spec fn pointer_text(address: u64) -> Seq<char> {
    "0x"@ + hex_text(address as nat)
}

/// A flag as `{}` shows it.
pub open spec fn flag_text(flag: bool) -> Seq<char> {
    if flag {
        "true"@
    } else {
        "false"@
    }
}

/// Two spaces for each level of `depth`.
pub open spec fn indent_text(depth: nat) -> Seq<char>
    decreases depth,
{
    if depth == 0 {
        Seq::empty()
    } else {
        indent_text((depth - 1) as nat) + "  "@
    }
}

/// The digit as a string.
fn digit(value: u64) -> (text: &'static str)
    requires
        value < 16,
    ensures
        text@ == seq![digit_char(value as nat)],
{
    proof {
        reveal_strlit("0");
        reveal_strlit("1");
        reveal_strlit("2");
        reveal_strlit("3");
        reveal_strlit("4");
        reveal_strlit("5");
        reveal_strlit("6");
        reveal_strlit("7");
        reveal_strlit("8");
        reveal_strlit("9");
        reveal_strlit("a");
        reveal_strlit("b");
        reveal_strlit("c");
        reveal_strlit("d");
        reveal_strlit("e");
        reveal_strlit("f");
    }
    let text = if value == 0 {
        "0"
    } else if value == 1 {
        "1"
    } else if value == 2 {
        "2"
    } else if value == 3 {
        "3"
    } else if value == 4 {
        "4"
    } else if value == 5 {
        "5"
    } else if value == 6 {
        "6"
    } else if value == 7 {
        "7"
    } else if value == 8 {
        "8"
    } else if value == 9 {
        "9"
    } else if value == 10 {
        "a"
    } else if value == 11 {
        "b"
    } else if value == 12 {
        "c"
    } else if value == 13 {
        "d"
    } else if value == 14 {
        "e"
    } else {
        "f"
    };
    text
}

/// Writes a number in decimal.
pub fn decimal(n: u64) -> (text: String)
    ensures
        text@ == decimal_text(n as nat),
    decreases n,
{
    if n < 10 {
        digit(n).to_owned()
    } else {
        let mut text = decimal(n / 10);
        text.append(digit(n % 10));
        text
    }
}

/// Writes a number in hexadecimal.
pub fn hex(n: u64) -> (text: String)
    ensures
        text@ == hex_text(n as nat),
    decreases n,
{
    if n < 16 {
        digit(n).to_owned()
    } else {
        let mut text = hex(n / 16);
        text.append(digit(n % 16));
        text
    }
}

/// Writes an address as `{:p}` shows a pointer.
pub fn pointer(address: u64) -> (text: String)
    ensures
        text@ == pointer_text(address),
{
    let mut text = "0x".to_owned();
    text.append(hex(address).as_str());
    text
}

/// Writes a flag as `{}` shows it.
pub fn flag(set: bool) -> (text: &'static str)
    ensures
        text@ == flag_text(set),
{
    if set {
        "true"
    } else {
        "false"
    }
}

/// Writes two spaces for each level of `depth`.
pub fn indent(depth: usize) -> (text: String)
    ensures
        text@ == indent_text(depth as nat),
{
    let mut text = String::new();
    let mut level: usize = 0;
    while level < depth
        invariant
            level <= depth,
            text@ == indent_text(level as nat),
        decreases depth - level,
    {
        text.append("  ");
        level = level + 1;
    }
    text
}

/// A link as it is shown: the position that it leads to, or `null`.
pub open spec fn link_text(link: Option<usize>) -> Seq<char> {
    match link {
        Some(to) => decimal_text(to as nat),
        None => "null"@,
    }
}

/// Writes a link as it is shown.
pub fn link(to: Option<usize>) -> (text: String)
    ensures
        text@ == link_text(to),
{
    match to {
        Some(to) => decimal(to as u64),
        None => "null".to_owned(),
    }
}

/// Puts a line together: what it is indented by, the name of what it shows,
/// and the value.
pub fn labelled(indent: &str, label: &str, value: &str) -> (text: String)
    ensures
        text@ == indent@ + label@ + value@,
{
    let mut text = indent.to_owned();
    text.append(label);
    text.append(value);
    text
}

/// The texts of the lines.
pub open spec fn texts(lines: Seq<String>) -> Seq<Seq<char>> {
    lines.map_values(|line: String| line@)
}
} // verus!
