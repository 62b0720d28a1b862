//! Byte encodings shared by the escape sequences the server writes: decimal
//! numbers and UTF-8 encoded characters.

use vstd::prelude::*;
use vstd::utf8::encode_scalar;

verus! {

/// The ASCII digit for a value below ten.
pub open spec fn digit(d: u8) -> u8 {
    (48 + d) as u8
}

/// The decimal representation of a byte, without leading zeros.
pub open spec fn decimal_u8(n: u8) -> Seq<u8> {
    if n < 10 {
        seq![digit(n)]
    } else if n < 100 {
        seq![digit(n / 10), digit(n % 10)]
    } else {
        seq![digit(n / 100), digit((n / 10) % 10), digit(n % 10)]
    }
}

/// The UTF-8 encoding of a character.
pub open spec fn utf8_of_char(c: char) -> Seq<u8> {
    encode_scalar(c as u32)
}

/// Appends the decimal representation of `n` to `out`.
pub fn push_decimal_u8(out: &mut Vec<u8>, n: u8)
    ensures
        final(out)@ == old(out)@ + decimal_u8(n),
{
    if n < 10 {
        out.push(48 + n);
    } else if n < 100 {
        out.push(48 + n / 10);
        out.push(48 + n % 10);
    } else {
        out.push(48 + n / 100);
        out.push(48 + (n / 10) % 10);
        out.push(48 + n % 10);
    }
}

/// Appends the UTF-8 encoding of `c` to `out`.
pub fn push_utf8_char(out: &mut Vec<u8>, c: char)
    ensures
        final(out)@ == old(out)@ + utf8_of_char(c),
{
    let v: u32 = c as u32;
    if v <= 0x7F {
        out.push((v & 0x7F) as u8);
    } else if v <= 0x7FF {
        out.push(0xC0 | ((v >> 6) & 0x1F) as u8);
        out.push(0x80 | (v & 0x3F) as u8);
    } else if v <= 0xFFFF {
        out.push(0xE0 | ((v >> 12) & 0x0F) as u8);
        out.push(0x80 | ((v >> 6) & 0x3F) as u8);
        out.push(0x80 | (v & 0x3F) as u8);
    } else {
        out.push(0xF0 | ((v >> 18) & 0x7) as u8);
        out.push(0x80 | ((v >> 12) & 0x3F) as u8);
        out.push(0x80 | ((v >> 6) & 0x3F) as u8);
        out.push(0x80 | (v & 0x3F) as u8);
    }
}

/// The character of a decimal digit.
pub open spec fn digit_char(d: int) -> char {
    (48 + d) as char
}

/// The decimal representation of a number, without leading zeros.
pub open spec fn decimal_chars(n: nat) -> Seq<char>
    decreases n,
{
    if n < 10 {
        seq![digit_char(n as int)]
    } else {
        decimal_chars(n / 10) + seq![digit_char((n % 10) as int)]
    }
}

fn digit_str(d: u32) -> (s: &'static str)
    requires
        d < 10,
    ensures
        s@ == seq![digit_char(d as int)],
{
    match d {
        0 => {
            proof {
                reveal_strlit("0");
            }
            "0"
        },
        1 => {
            proof {
                reveal_strlit("1");
            }
            "1"
        },
        2 => {
            proof {
                reveal_strlit("2");
            }
            "2"
        },
        3 => {
            proof {
                reveal_strlit("3");
            }
            "3"
        },
        4 => {
            proof {
                reveal_strlit("4");
            }
            "4"
        },
        5 => {
            proof {
                reveal_strlit("5");
            }
            "5"
        },
        6 => {
            proof {
                reveal_strlit("6");
            }
            "6"
        },
        7 => {
            proof {
                reveal_strlit("7");
            }
            "7"
        },
        8 => {
            proof {
                reveal_strlit("8");
            }
            "8"
        },
        _ => {
            proof {
                reveal_strlit("9");
            }
            "9"
        },
    }
}

/// Appends the decimal representation of `n` to `s`.
pub fn push_decimal_u32(s: &mut String, n: u32)
    ensures
        final(s)@ == old(s)@ + decimal_chars(n as nat),
    decreases n,
{
    if n >= 10 {
        push_decimal_u32(s, n / 10);
    }
    s.append(digit_str(n % 10));
    assert(s@ =~= old(s)@ + decimal_chars(n as nat)) by {
        if n >= 10 {
            assert(decimal_chars(n as nat) == decimal_chars((n / 10) as nat) + seq![digit_char((n % 10) as int)]);
        }
    }
}

/// Appends the decimal representation of `n` to `s`.
pub fn push_decimal_usize(s: &mut String, n: usize)
    ensures
        final(s)@ == old(s)@ + decimal_chars(n as nat),
    decreases n,
{
    if n >= 10 {
        push_decimal_usize(s, n / 10);
    }
    s.append(digit_str((n % 10) as u32));
    assert(s@ =~= old(s)@ + decimal_chars(n as nat)) by {
        if n >= 10 {
            assert(decimal_chars(n as nat) == decimal_chars((n / 10) as nat) + seq![digit_char((n % 10) as int)]);
        }
    }
}

} // verus!
