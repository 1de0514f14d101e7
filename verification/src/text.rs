//! Numbers as text.
use vstd::prelude::*;
use vstd::string::StringExecFns;

verus! {

/// A decimal digit.
pub open spec fn digit(value: nat) -> char {
    if value == 0 {
        '0'
    } else if value == 1 {
        '1'
    } else if value == 2 {
        '2'
    } else if value == 3 {
        '3'
    } else if value == 4 {
        '4'
    } else if value == 5 {
        '5'
    } else if value == 6 {
        '6'
    } else if value == 7 {
        '7'
    } else if value == 8 {
        '8'
    } else {
        '9'
    }
}

/// A number in decimal digits.
pub open spec fn decimal(value: nat) -> Seq<char>
    decreases value,
{
    if value < 10 {
        seq![digit(value)]
    } else {
        decimal(value / 10).push(digit(value % 10))
    }
}

/// A number below a thousand in three digits.
pub open spec fn three_digits(value: nat) -> Seq<char> {
    seq![digit(value / 100), digit(value / 10 % 10), digit(value % 10)]
}

/// A number in decimal digits, with a comma before every three digits from the end.
pub open spec fn grouped_digits(value: nat) -> Seq<char>
    decreases value,
{
    if value < 1000 {
        decimal(value)
    } else {
        grouped_digits(value / 1000).push(',') + three_digits(value % 1000)
    }
}

fn digit_text(value: usize) -> (result: &'static str)
    requires
        value < 10,
    ensures
        result@ == seq![digit(value as nat)],
{
    proof {
        reveal_strlit("0");
        reveal_strlit("1");
        reveal_strlit("2");
        reveal_strlit("3");
        reveal_strlit("4");
        reveal_strlit("5");
        reveal_strlit("6");
        reveal_strlit("7");
        reveal_strlit("8");
        reveal_strlit("9");
    }
    let result = match value {
        0 => "0",
        1 => "1",
        2 => "2",
        3 => "3",
        4 => "4",
        5 => "5",
        6 => "6",
        7 => "7",
        8 => "8",
        _ => "9",
    };
    assert(result@ =~= seq![digit(value as nat)]);
    result
}

/// Writes a number in decimal digits.
pub fn number(value: usize) -> (result: String)
    ensures
        result@ == decimal(value as nat),
    decreases value,
{
    if value < 10 {
        digit_text(value).to_owned()
    } else {
        let mut text = number(value / 10);
        text.append(digit_text(value % 10));
        assert(text@ =~= decimal(value as nat));
        text
    }
}

/// Writes a number with a comma before every three digits from the end.
pub fn grouped(value: usize) -> (result: String)
    ensures
        result@ == grouped_digits(value as nat),
    decreases value,
{
    if value < 1000 {
        number(value)
    } else {
        let mut text = grouped(value / 1000);
        let rest = value % 1000;
        proof {
            reveal_strlit(",");
        }
        text.append(",");
        text.append(digit_text(rest / 100));
        text.append(digit_text(rest / 10 % 10));
        text.append(digit_text(rest % 10));
        assert(text@ =~= grouped_digits(value as nat));
        text
    }
}

} // verus!
