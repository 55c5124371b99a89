//! Numbers in messages.

use vstd::prelude::*;
use vstd::string::StringExecFns;

verus! {

/// The digit for `value`, which is less than sixteen.
pub open spec fn digit_char(value: int) -> char {
    seq!['0', '1', '2', '3', '4', '5', '6', '7', '8', '9', 'a', 'b', 'c', 'd', 'e', 'f'][value]
}

/// `value` in base `base`, without leading zeros.
pub open spec fn digits(value: nat, base: nat) -> Seq<char>
    decreases value,
{
    if value < base || base < 2 {
        seq![digit_char(value as int)]
    } else {
        proof {
            assert(value / base < value) by (nonlinear_arith)
                requires
                    value >= base,
                    base >= 2,
            ;
        }
        digits(value / base, base).push(digit_char((value % base) as int))
    }
}

/// `value` in decimal.
pub open spec fn decimal(value: nat) -> Seq<char> {
    digits(value, 10)
}

/// `value` in hexadecimal, with the prefix `0x`.
pub open spec fn hexadecimal(value: nat) -> Seq<char> {
    "0x"@ + digits(value, 16)
}

fn digit_str(value: u64) -> (digit: &'static str)
    requires
        value < 16,
    ensures
        digit@ == seq![digit_char(value as int)],
{
    proof {
        reveal_strlit("0");
        reveal_strlit("1");
        reveal_strlit("2");
        reveal_strlit("3");
        reveal_strlit("4");
        reveal_strlit("5");
        reveal_strlit("6");
        reveal_strlit("7");
        reveal_strlit("8");
        reveal_strlit("9");
        reveal_strlit("a");
        reveal_strlit("b");
        reveal_strlit("c");
        reveal_strlit("d");
        reveal_strlit("e");
        reveal_strlit("f");
    }
    let digit = match value {
        0 => "0",
        1 => "1",
        2 => "2",
        3 => "3",
        4 => "4",
        5 => "5",
        6 => "6",
        7 => "7",
        8 => "8",
        9 => "9",
        10 => "a",
        11 => "b",
        12 => "c",
        13 => "d",
        14 => "e",
        _ => "f",
    };
    assert(digit@ =~= seq![digit_char(value as int)]);
    digit
}

fn append_digits(text: &mut String, value: u64, base: u64)
    requires
        2 <= base <= 16,
    ensures
        final(text)@ == old(text)@ + digits(value as nat, base as nat),
    decreases value,
{
    if value < base {
        text.append(digit_str(value));
    } else {
        assert(value / base < value) by (nonlinear_arith)
            requires
                value >= base,
                base >= 2,
        ;
        append_digits(text, value / base, base);
        text.append(digit_str(value % base));
    }
    assert(text@ =~= old(text)@ + digits(value as nat, base as nat));
}

/// Appends `value` in decimal.
pub(crate) fn append_decimal(text: &mut String, value: u64)
    ensures
        final(text)@ == old(text)@ + decimal(value as nat),
{
    append_digits(text, value, 10);
}

/// Appends `value` in hexadecimal, with the prefix `0x`.
pub(crate) fn append_hexadecimal(text: &mut String, value: u64)
    ensures
        final(text)@ == old(text)@ + hexadecimal(value as nat),
{
    text.append("0x");
    append_digits(text, value, 16);
    assert(text@ =~= old(text)@ + hexadecimal(value as nat));
}

} // verus!
