//! Parse errors of the bitstream layer.

use vstd::prelude::*;

verus! {

/// Parse errors. All variants are recoverable; the parser never panics on
/// malformed input.
#[derive(Debug, Clone, Copy, PartialEq, Eq, Structural)]
pub enum Error {
    /// Input ended before a complete syntax element was read.
    UnexpectedEof {
        /// Byte offset at which more data was needed.
        offset: usize,
    },
    /// A leb128 value was longer than the 8-byte maximum or overflowed u32.
    InvalidLeb128 { offset: usize },
    /// An OBU declared a size that is inconsistent with its own fields
    /// (e.g. smaller than its trimming/extension headers).
    InvalidObuSize { offset: usize },
    /// A reserved OBU type (25..=30) was encountered.
    ReservedObuType { obu_type: u8, offset: usize },
    /// A descriptor payload is malformed (bad 4CC, zero count where
    /// nonzero is required, reserved enum value, ...).
    InvalidDescriptor { offset: usize },
}

/// Decimal digits of `n`, most significant first (what `{}` prints for an
/// unsigned integer).
pub open spec fn decimal(n: nat) -> Seq<char>
    decreases n,
{
    if n < 10 {
        seq![digit_char(n)]
    } else {
        decimal(n / 10).push(digit_char(n % 10))
    }
}

pub open spec fn digit_char(d: nat) -> char {
    ((d + 48) as u8) as char
}

/// The decimal digit `d` (0..=9) as text.
fn digit_str(d: usize) -> (s: &'static str)
    requires
        d < 10,
    ensures
        s@ == seq![digit_char(d as nat)],
{
    match d {
        0 => {
            proof {
                reveal_strlit("0");
            }
            "0"
        },
        1 => {
            proof {
                reveal_strlit("1");
            }
            "1"
        },
        2 => {
            proof {
                reveal_strlit("2");
            }
            "2"
        },
        3 => {
            proof {
                reveal_strlit("3");
            }
            "3"
        },
        4 => {
            proof {
                reveal_strlit("4");
            }
            "4"
        },
        5 => {
            proof {
                reveal_strlit("5");
            }
            "5"
        },
        6 => {
            proof {
                reveal_strlit("6");
            }
            "6"
        },
        7 => {
            proof {
                reveal_strlit("7");
            }
            "7"
        },
        8 => {
            proof {
                reveal_strlit("8");
            }
            "8"
        },
        _ => {
            proof {
                reveal_strlit("9");
            }
            "9"
        },
    }
}

/// `n` in decimal, as `{}` prints it.
pub fn decimal_string(n: usize) -> (s: String)
    ensures
        s@ == decimal(n as nat),
    decreases n,
{
    if n < 10 {
        String::from_str(digit_str(n))
    } else {
        let head = decimal_string(n / 10);
        head.concat(digit_str(n % 10))
    }
}

/// `prefix`, `n` in decimal, then `suffix`.
pub(crate) fn format_number(prefix: &str, n: usize, suffix: &str) -> (text: String)
    ensures
        text@ == prefix@ + decimal(n as nat) + suffix@,
{
    let digits = decimal_string(n);
    prefix.to_owned().concat(digits.as_str()).concat(suffix)
}

/// `prefix`, `a` in decimal, `middle`, `b` in decimal, then `suffix`.
pub(crate) fn format_two_numbers(prefix: &str, a: usize, middle: &str, b: usize, suffix: &str) -> (text: String)
    ensures
        text@ == prefix@ + decimal(a as nat) + middle@ + decimal(b as nat) + suffix@,
{
    let da = decimal_string(a);
    let db = decimal_string(b);
    prefix.to_owned().concat(da.as_str()).concat(middle).concat(db.as_str()).concat(suffix)
}

impl Error {
    /// Human-readable description of the error (the text `Display` shows).
    pub fn message(&self) -> (text: String)
        ensures
            text@ == self.spec_message(),
    {
        match self {
            Error::UnexpectedEof { offset } => format_number("unexpected end of input at byte ", *offset, ""),
            Error::InvalidLeb128 { offset } => format_number("invalid leb128 at byte ", *offset, ""),
            Error::InvalidObuSize { offset } => format_number("inconsistent obu_size at byte ", *offset, ""),
            Error::ReservedObuType { obu_type, offset } => format_two_numbers(
                "reserved OBU type ",
                *obu_type as usize,
                " at byte ",
                *offset,
                "",
            ),
            Error::InvalidDescriptor { offset } => format_number("invalid descriptor near byte ", *offset, ""),
        }
    }

    pub open spec fn spec_message(&self) -> Seq<char> {
        match self {
            Error::UnexpectedEof { offset } => "unexpected end of input at byte "@ + decimal(*offset as nat) + ""@,
            Error::InvalidLeb128 { offset } => "invalid leb128 at byte "@ + decimal(*offset as nat) + ""@,
            Error::InvalidObuSize { offset } => "inconsistent obu_size at byte "@ + decimal(*offset as nat) + ""@,
            Error::ReservedObuType { obu_type, offset } => "reserved OBU type "@ + decimal(*obu_type as nat)
                + " at byte "@ + decimal(*offset as nat) + ""@,
            Error::InvalidDescriptor { offset } => "invalid descriptor near byte "@ + decimal(*offset as nat) + ""@,
        }
    }
}

} // verus!
