//! Text rendering of numbers, for diagnostics and the metrics exposition format.

use vstd::prelude::*;

verus! {

/// The character of a decimal digit.
pub open spec fn digit_char(d: int) -> char {
    if d == 0 {
        '0'
    } else if d == 1 {
        '1'
    } else if d == 2 {
        '2'
    } else if d == 3 {
        '3'
    } else if d == 4 {
        '4'
    } else if d == 5 {
        '5'
    } else if d == 6 {
        '6'
    } else if d == 7 {
        '7'
    } else if d == 8 {
        '8'
    } else {
        '9'
    }
}

/// The character of a lower-case hexadecimal digit.
pub open spec fn hex_char(d: int) -> char {
    if d < 10 {
        digit_char(d)
    } else if d == 10 {
        'a'
    } else if d == 11 {
        'b'
    } else if d == 12 {
        'c'
    } else if d == 13 {
        'd'
    } else if d == 14 {
        'e'
    } else {
        'f'
    }
}

/// The decimal numeral of `n`, without leading zeros.
pub open spec fn decimal(n: nat) -> Seq<char>
    decreases n,
{
    if n < 10 {
        seq![digit_char(n as int)]
    } else {
        decimal(n / 10).push(digit_char((n % 10) as int))
    }
}

/// The decimal numeral of `n` padded with zeros to `width` digits.
pub open spec fn decimal_padded(n: nat, width: nat) -> Seq<char>
    decreases width,
{
    if width == 0 {
        Seq::empty()
    } else {
        decimal_padded(n / 10, (width - 1) as nat).push(digit_char((n % 10) as int))
    }
}

/// The decimal numeral of a signed number, with a leading minus sign when negative.
pub open spec fn decimal_signed(n: int) -> Seq<char> {
    if n < 0 {
        seq!['-'] + decimal((-n) as nat)
    } else {
        decimal(n as nat)
    }
}

/// The two hexadecimal digits of a byte.
pub open spec fn hex_byte(b: u8) -> Seq<char> {
    seq![hex_char(b as int / 16), hex_char(b as int % 16)]
}

fn push_digit(out: &mut String, d: u8)
    requires
        d < 10,
    ensures
        final(out)@ == old(out)@.push(digit_char(d as int)),
{
    proof {
        reveal_strlit("0");
        reveal_strlit("1");
        reveal_strlit("2");
        reveal_strlit("3");
        reveal_strlit("4");
        reveal_strlit("5");
        reveal_strlit("6");
        reveal_strlit("7");
        reveal_strlit("8");
        reveal_strlit("9");
    }
    if d == 0 {
        out.append("0");
    } else if d == 1 {
        out.append("1");
    } else if d == 2 {
        out.append("2");
    } else if d == 3 {
        out.append("3");
    } else if d == 4 {
        out.append("4");
    } else if d == 5 {
        out.append("5");
    } else if d == 6 {
        out.append("6");
    } else if d == 7 {
        out.append("7");
    } else if d == 8 {
        out.append("8");
    } else {
        out.append("9");
    }
    assert(out@ =~= old(out)@.push(digit_char(d as int)));
}

fn push_hex_digit(out: &mut String, d: u8)
    requires
        d < 16,
    ensures
        final(out)@ == old(out)@.push(hex_char(d as int)),
{
    proof {
        reveal_strlit("a");
        reveal_strlit("b");
        reveal_strlit("c");
        reveal_strlit("d");
        reveal_strlit("e");
        reveal_strlit("f");
    }
    if d < 10 {
        push_digit(out, d);
    } else if d == 10 {
        out.append("a");
    } else if d == 11 {
        out.append("b");
    } else if d == 12 {
        out.append("c");
    } else if d == 13 {
        out.append("d");
    } else if d == 14 {
        out.append("e");
    } else {
        out.append("f");
    }
    assert(out@ =~= old(out)@.push(hex_char(d as int)));
}

/// Append the decimal numeral of `n`.
pub fn push_decimal(out: &mut String, n: u64)
    ensures
        final(out)@ == old(out)@ + decimal(n as nat),
    decreases n,
{
    if n < 10 {
        push_digit(out, n as u8);
        assert(out@ =~= old(out)@ + decimal(n as nat));
    } else {
        push_decimal(out, n / 10);
        push_digit(out, (n % 10) as u8);
        assert(out@ =~= old(out)@ + decimal(n as nat));
    }
}

/// Append the decimal numeral of a signed number.
pub fn push_decimal_signed(out: &mut String, n: i64)
    ensures
        final(out)@ == old(out)@ + decimal_signed(n as int),
{
    if n < 0 {
        proof {
            reveal_strlit("-");
        }
        out.append("-");
        let magnitude: u64 = (-(n as i128)) as u64;
        push_decimal(out, magnitude);
        assert(out@ =~= old(out)@ + decimal_signed(n as int));
    } else {
        push_decimal(out, n as u64);
    }
}

/// Append the low `width` decimal digits of `n`, padded with zeros.
pub fn push_decimal_padded(out: &mut String, n: u64, width: u32)
    ensures
        final(out)@ == old(out)@ + decimal_padded(n as nat, width as nat),
    decreases width,
{
    if width == 0 {
        assert(out@ =~= old(out)@ + decimal_padded(n as nat, width as nat));
    } else {
        push_decimal_padded(out, n / 10, width - 1);
        push_digit(out, (n % 10) as u8);
        assert(out@ =~= old(out)@ + decimal_padded(n as nat, width as nat));
    }
}

/// Append the two hexadecimal digits of a byte.
pub fn push_hex_byte(out: &mut String, b: u8)
    ensures
        final(out)@ == old(out)@ + hex_byte(b),
{
    push_hex_digit(out, b / 16);
    push_hex_digit(out, b % 16);
    assert(out@ =~= old(out)@ + hex_byte(b));
}

/// The text `prefix`, the numeral of `a`, `infix` and the numeral of `b`.
pub open spec fn two_numbers(prefix: Seq<char>, a: nat, infix: Seq<char>, b: nat) -> Seq<char> {
    prefix + decimal(a) + infix + decimal(b)
}

/// Build the text `prefix`, the numeral of `a`, `infix` and the numeral of `b`.
pub fn two_numbers_text(prefix: &str, a: u64, infix: &str, b: u64) -> (text: String)
    ensures
        text@ == two_numbers(prefix@, a as nat, infix@, b as nat),
{
    let mut text: String = String::new();
    text.append(prefix);
    push_decimal(&mut text, a);
    text.append(infix);
    push_decimal(&mut text, b);
    assert(text@ =~= two_numbers(prefix@, a as nat, infix@, b as nat));
    text
}

/// The number that a run of digits stands for.
pub open spec fn numeral_value(s: Seq<char>) -> int
    decreases s.len(),
{
    if s.len() == 0 {
        0
    } else {
        numeral_value(s.drop_last()) * 10 + (s.last() as int - '0' as int)
    }
}

/// A decimal numeral stands for its number: it is made of digits, has no leading zero unless it is the zero, and
/// is read back.
pub proof fn law_decimal_is_read_back(n: nat)
    ensures
        numeral_value(decimal(n)) == n,
        decimal(n).len() > 0,
        n > 0 ==> decimal(n)[0] != '0',
        forall|i: int| 0 <= i < decimal(n).len() ==> '0' <= #[trigger] decimal(n)[i] <= '9',
    decreases n,
{
    if n < 10 {
        assert(seq![digit_char(n as int)].drop_last() =~= Seq::<char>::empty());
        reveal_with_fuel(numeral_value, 2);
    } else {
        law_decimal_is_read_back(n / 10);
        let front = decimal(n / 10);
        assert(decimal(n).drop_last() =~= front);
        assert(decimal(n)[0] == front[0]);
    }
}

/// Ten to the power of `width`.
pub open spec fn ten_to(width: nat) -> int
    decreases width,
{
    if width == 0 {
        1
    } else {
        10 * ten_to((width - 1) as nat)
    }
}

/// A padded numeral has its width, and stands for its number where that has no more digits.
pub proof fn law_padded_decimal_is_read_back(n: nat, width: nat)
    ensures
        decimal_padded(n, width).len() == width,
        n < ten_to(width) ==> numeral_value(decimal_padded(n, width)) == n,
    decreases width,
{
    if width > 0 {
        law_padded_decimal_is_read_back(n / 10, (width - 1) as nat);
        assert(decimal_padded(n, width).drop_last() =~= decimal_padded(n / 10, (width - 1) as nat));
    }
}

/// A signed numeral is that of the amount, behind a minus sign where the number is below zero.
pub proof fn law_signed_decimal_is_read_back(n: int)
    ensures
        n >= 0 ==> numeral_value(decimal_signed(n)) == n,
        n < 0 ==> decimal_signed(n)[0] == '-' && numeral_value(decimal_signed(n).skip(1)) == -n,
{
    if n >= 0 {
        law_decimal_is_read_back(n as nat);
    } else {
        law_decimal_is_read_back((-n) as nat);
        assert(decimal_signed(n).skip(1) =~= decimal((-n) as nat));
    }
}

/// The value of a hexadecimal digit.
pub open spec fn hex_value(c: char) -> int {
    if '0' <= c <= '9' {
        c as int - 48
    } else {
        c as int - 87
    }
}

/// A byte as two hexadecimal digits, read back, is the byte; the digits are `0` to `9` and `a` to `f`.
pub proof fn law_hex_is_read_back(b: u8)
    ensures
        hex_byte(b).len() == 2,
        16 * hex_value(hex_byte(b)[0]) + hex_value(hex_byte(b)[1]) == b,
        forall|i: int|
            0 <= i < 2 ==> '0' <= #[trigger] hex_byte(b)[i] <= '9' || 'a' <= hex_byte(b)[i] <= 'f',
{
}

} // verus!
