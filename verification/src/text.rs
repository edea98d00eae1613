//! Decimal numbers and padding, as the printed forms of notes and voices
//! need them.

use vstd::prelude::*;
use vstd::string::StringExecFns;

verus! {

/// The character of a decimal digit.
pub open spec fn spec_digit(d: int) -> char {
    if d == 0 {
        '0'
    } else if d == 1 {
        '1'
    } else if d == 2 {
        '2'
    } else if d == 3 {
        '3'
    } else if d == 4 {
        '4'
    } else if d == 5 {
        '5'
    } else if d == 6 {
        '6'
    } else if d == 7 {
        '7'
    } else if d == 8 {
        '8'
    } else {
        '9'
    }
}

/// The digit that a character stands for, if it is one of `0` to `9`.
pub open spec fn spec_digit_value(c: char) -> Option<int> {
    if c == '0' {
        Some(0)
    } else if c == '1' {
        Some(1)
    } else if c == '2' {
        Some(2)
    } else if c == '3' {
        Some(3)
    } else if c == '4' {
        Some(4)
    } else if c == '5' {
        Some(5)
    } else if c == '6' {
        Some(6)
    } else if c == '7' {
        Some(7)
    } else if c == '8' {
        Some(8)
    } else if c == '9' {
        Some(9)
    } else {
        None
    }
}

/// The decimal digits of a natural number, without leading zeros.
pub open spec fn spec_decimal_nat(n: nat) -> Seq<char>
    decreases n,
{
    if n < 10 {
        seq![spec_digit(n as int)]
    } else {
        spec_decimal_nat(n / 10).push(spec_digit((n % 10) as int))
    }
}

/// The decimal form of an integer, with a minus sign if it is negative.
pub open spec fn spec_decimal(n: int) -> Seq<char> {
    if n < 0 {
        seq!['-'] + spec_decimal_nat((-n) as nat)
    } else {
        spec_decimal_nat(n as nat)
    }
}

/// A text followed by as many spaces as bring it to `width` characters;
/// a longer text is left as it is.
pub open spec fn spec_pad_right(s: Seq<char>, width: nat) -> Seq<char> {
    if s.len() >= width {
        s
    } else {
        s + Seq::new((width - s.len()) as nat, |i: int| ' ')
    }
}

/// The digit that a character stands for.
pub fn digit_value(c: char) -> (r: Option<u8>)
    ensures
        match spec_digit_value(c) {
            Some(d) => r == Some(d as u8),
            None => r is None,
        },
{
    match c {
        '0' => Some(0),
        '1' => Some(1),
        '2' => Some(2),
        '3' => Some(3),
        '4' => Some(4),
        '5' => Some(5),
        '6' => Some(6),
        '7' => Some(7),
        '8' => Some(8),
        '9' => Some(9),
        _ => None,
    }
}

/// The one-character text of a decimal digit.
pub fn digit_str(d: u8) -> (s: &'static str)
    requires
        d < 10,
    ensures
        s@ == seq![spec_digit(d as int)],
{
    proof {
        reveal_strlit("0");
        reveal_strlit("1");
        reveal_strlit("2");
        reveal_strlit("3");
        reveal_strlit("4");
        reveal_strlit("5");
        reveal_strlit("6");
        reveal_strlit("7");
        reveal_strlit("8");
        reveal_strlit("9");
    }
    let s = match d {
        0 => "0",
        1 => "1",
        2 => "2",
        3 => "3",
        4 => "4",
        5 => "5",
        6 => "6",
        7 => "7",
        8 => "8",
        _ => "9",
    };
    assert(s@ =~= seq![spec_digit(d as int)]);
    s
}

/// Writes a small integer in decimal.
pub fn decimal(n: i8) -> (s: String)
    ensures
        s@ == spec_decimal(n as int),
{
    proof {
        reveal_strlit("-");
        reveal_with_fuel(spec_decimal_nat, 3);
    }
    let mut s = String::new();
    let m: u8 = if n < 0 {
        s.append("-");
        (-(n as i16)) as u8
    } else {
        n as u8
    };
    if m >= 100 {
        s.append(digit_str(m / 100));
    }
    if m >= 10 {
        s.append(digit_str((m / 10) % 10));
    }
    s.append(digit_str(m % 10));
    assert(s@ =~= spec_decimal(n as int));
    s
}

/// Appends spaces to a text until it is `width` characters long.
pub fn pad_right(s: String, width: usize) -> (padded: String)
    ensures
        padded@ == spec_pad_right(s@, width as nat),
{
    let ghost start = s@;
    let mut padded = s;
    let mut len: usize = padded.as_str().unicode_len();
    while len < width
        invariant
            len == padded@.len(),
            start.len() <= len,
            start.len() < width ==> len <= width,
            start.len() >= width ==> len == start.len(),
            padded@ == start + Seq::new((len - start.len()) as nat, |i: int| ' '),
        decreases width - len,
    {
        proof {
            reveal_strlit(" ");
        }
        padded.append(" ");
        len += 1;
        assert(padded@ =~= start + Seq::new((len - start.len()) as nat, |i: int| ' '));
    }
    assert(padded@ =~= spec_pad_right(start, width as nat));
    padded
}

/// Whether two texts hold the same characters.
pub fn str_eq(a: &str, b: &str) -> (same: bool)
    ensures
        same == (a@ == b@),
{
    let len = a.unicode_len();
    if len != b.unicode_len() {
        return false;
    }
    let mut i: usize = 0;
    while i < len
        invariant
            i <= len,
            len == a@.len(),
            len == b@.len(),
            forall|j: int| 0 <= j < i ==> a@[j] == b@[j],
        decreases len - i,
    {
        if a.get_char(i) != b.get_char(i) {
            return false;
        }
        i += 1;
    }
    assert(a@ =~= b@);
    true
}

/// A text with another after it.
pub fn joined(a: &str, b: &str) -> (both: String)
    ensures
        both@ == a@ + b@,
{
    let mut both = a.to_owned();
    both.append(b);
    both
}

} // verus!
