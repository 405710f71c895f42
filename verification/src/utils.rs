//! Text for diagnostics: numbers in decimal and bit patterns.

use vstd::prelude::*;
use vstd::string::StringExecFns;

verus! {

/// The character of one decimal digit.
pub open spec fn digit_char(d: int) -> char {
    if d == 0 {
        '0'
    } else if d == 1 {
        '1'
    } else if d == 2 {
        '2'
    } else if d == 3 {
        '3'
    } else if d == 4 {
        '4'
    } else if d == 5 {
        '5'
    } else if d == 6 {
        '6'
    } else if d == 7 {
        '7'
    } else if d == 8 {
        '8'
    } else {
        '9'
    }
}

/// The digits of a number that is not negative, without leading zeros.
pub open spec fn decimal_digits(n: int) -> Seq<char>
    decreases n,
{
    if n < 10 {
        seq![digit_char(n)]
    } else {
        decimal_digits(n / 10).push(digit_char(n % 10))
    }
}

/// A number in decimal, with a minus sign where it is negative.
pub open spec fn decimal(n: int) -> Seq<char> {
    if n < 0 {
        seq!['-'] + decimal_digits(-n)
    } else {
        decimal_digits(n)
    }
}

/// One decimal digit as text.
fn digit_str(d: u8) -> (s: &'static str)
    requires
        d < 10,
    ensures
        s@ == seq![digit_char(d as int)],
{
    proof {
        reveal_strlit("0");
        reveal_strlit("1");
        reveal_strlit("2");
        reveal_strlit("3");
        reveal_strlit("4");
        reveal_strlit("5");
        reveal_strlit("6");
        reveal_strlit("7");
        reveal_strlit("8");
        reveal_strlit("9");
    }
    let s: &'static str = match d {
        0 => "0",
        1 => "1",
        2 => "2",
        3 => "3",
        4 => "4",
        5 => "5",
        6 => "6",
        7 => "7",
        8 => "8",
        _ => "9",
    };
    assert(s@ =~= seq![digit_char(d as int)]);
    s
}

/// Appends the digits of `n` to the text.
pub fn push_digits(text: &mut String, n: u128)
    ensures
        final(text)@ == old(text)@ + decimal_digits(n as int),
    decreases n,
{
    if n >= 10 {
        push_digits(text, n / 10);
    }
    text.append(digit_str((n % 10) as u8));
    assert(final(text)@ =~= old(text)@ + decimal_digits(n as int));
}

/// Appends `n` in decimal to the text.
pub fn push_decimal(text: &mut String, n: i128)
    ensures
        final(text)@ == old(text)@ + decimal(n as int),
{
    if n < 0 {
        proof {
            reveal_strlit("-");
        }
        text.append("-");
        // One less than the size, so that the size of the least number
        // can be formed.
        let short: u128 = (-(n + 1)) as u128;
        push_digits(text, short + 1);
        assert(final(text)@ =~= old(text)@ + decimal(n as int));
    } else {
        push_digits(text, n as u128);
    }
}

/// Whether the second-lowest bit of a number in two's complement is set.
pub open spec fn second_bit(bits: int) -> bool {
    bits % 4 >= 2
}

/// The text of [`print_bits`] before the decimal value: thirteen places in
/// groups of one, four, four and four, a space after each group, then an
/// equals sign and a space.
pub open spec fn bit_places(place: char) -> Seq<char> {
    seq![
        place, ' ', place, place, place, place, ' ', place, place, place, place, ' ', place,
        place, place, place, ' ', '=', ' ',
    ]
}

/// The text that [`print_bits`] gives.
pub open spec fn bits_text(bits: int) -> Seq<char> {
    bit_places(
        if second_bit(bits) {
            '1'
        } else {
            '0'
        },
    ) + decimal(bits)
}

/// Debug method that prints thirteen binary places in groups of four and the
/// value in decimal after them. Each place shows the second-lowest bit of
/// the value.
pub fn print_bits(bits: isize) -> (text: String)
    ensures
        text@ == bits_text(bits as int),
{
    let low: isize = bits % 4;
    let set: bool = low >= 2 || low == -1 || low == -2;
    assert(set == second_bit(bits as int));
    let place: &'static str = if set {
        "1"
    } else {
        "0"
    };
    proof {
        reveal_strlit("1");
        reveal_strlit("0");
        reveal_strlit(" ");
        reveal_strlit("= ");
    }
    let mut lsb = String::new();
    let mut i: usize = 13;
    while i > 0
        invariant
            i <= 13,
            place@ == seq![
                if set {
                    '1'
                } else {
                    '0'
                },
            ],
            " "@ == seq![' '],
            lsb@ == bit_places(place@[0]).subrange(0, (13 - i) + (16 - i) / 4),
        decreases i,
    {
        i -= 1;
        lsb.append(place);
        if (44 - i) % 4 == 0 {
            lsb.append(" ");
        }
        assert(lsb@ =~= bit_places(place@[0]).subrange(0, (13 - i) + (16 - i) / 4));
    }
    lsb.append("= ");
    assert(lsb@ =~= bit_places(place@[0]));
    push_decimal(&mut lsb, bits as i128);
    lsb
}

} // verus!
