//! What the command line asks for: a host and a number of workers.

use crate::decimal::{append_decimal, decimal_text};
use vstd::prelude::*;
use vstd::string::{StrSliceExecFns, StringExecFns};

verus! {

/// The exit code of a run that was refused for its arguments.
pub const USAGE_EXIT_CODE: i32 = 1;

/// Whether the character is one of the ten decimal digits.
pub open spec fn is_digit(c: char) -> bool {
    '0' <= c <= '9'
}

/// Whether the text consists of decimal digits only.
pub open spec fn all_digits(text: Seq<char>) -> bool {
    forall|i: int| 0 <= i < text.len() ==> is_digit(#[trigger] text[i])
}

/// The value of a string of decimal digits; leading zeros do not count.
pub open spec fn digits_value(digits: Seq<char>) -> int
    decreases digits.len(),
{
    if digits.len() == 0 {
        0
    } else {
        digits_value(digits.drop_last()) * 10 + (digits.last() as int - '0' as int)
    }
}

/// The number that a text denotes: an optional sign, `+` or `-`, and then
/// digits only, at least one. A text of another shape denotes no number, nor
/// does one whose value does not fit into an `i32`.
pub open spec fn parsed_decimal(text: Seq<char>) -> Option<int> {
    let negative = text.len() > 0 && text[0] == '-';
    let signed = text.len() > 0 && (text[0] == '-' || text[0] == '+');
    let digits = if signed {
        text.skip(1)
    } else {
        text
    };
    let value = if negative {
        -digits_value(digits)
    } else {
        digits_value(digits)
    };
    if digits.len() > 0 && all_digits(digits) && i32::MIN <= value <= i32::MAX {
        Some(value)
    } else {
        None
    }
}

/// Reads a decimal number, as `str::parse::<i32>` does.
pub fn parse_decimal(text: &str) -> (number: Option<i32>)
    ensures
        match number {
            Some(value) => parsed_decimal(text@) == Some(value as int),
            None => parsed_decimal(text@) is None,
        },
{
    let length = text.unicode_len();
    if length == 0 {
        return None;
    }
    let first = text.get_char(0);
    let negative = first == '-';
    let begin: usize = if first == '-' || first == '+' {
        1
    } else {
        0
    };
    if begin == length {
        return None;
    }
    let ghost digits = text@.skip(begin as int);
    let limit: u64 = 4_000_000_000;
    let mut magnitude: u64 = 0;
    let mut i: usize = begin;
    assert(digits.take(0) =~= Seq::<char>::empty());
    assert(begin == 0 ==> digits =~= text@);
    while i < length
        invariant
            begin <= i <= length,
            length == text@.len(),
            limit == 4_000_000_000,
            digits == text@.skip(begin as int),
            begin == 0 ==> digits == text@,
            begin == (if text@[0] == '-' || text@[0] == '+' {
                1int
            } else {
                0int
            }),
            all_digits(digits.take(i - begin)),
            digits_value(digits.take(i - begin)) >= 0,
            magnitude == if digits_value(digits.take(i - begin)) < limit {
                digits_value(digits.take(i - begin))
            } else {
                limit as int
            },
        decreases length - i,
    {
        let c = text.get_char(i);
        if c < '0' || c > '9' {
            assert(!is_digit(digits[i - begin]));
            assert(!all_digits(digits));
            return None;
        }
        let digit: u64 = (c as u32 - '0' as u32) as u64;
        proof {
            let longer = digits.take(i - begin + 1);
            assert(longer.drop_last() =~= digits.take(i - begin));
            assert(longer.last() == c);
            assert(is_digit(c));
            assert(all_digits(longer)) by {
                assert forall|k: int| 0 <= k < longer.len() implies is_digit(
                    #[trigger] longer[k],
                ) by {
                    if k < longer.len() - 1 {
                        assert(longer[k] == digits.take(i - begin)[k]);
                    }
                }
            }
        }
        magnitude = magnitude * 10 + digit;
        if magnitude > limit {
            magnitude = limit;
        }
        i = i + 1;
    }
    assert(digits.take(length - begin) =~= digits);
    let value: i64 = if negative {
        -(magnitude as i64)
    } else {
        magnitude as i64
    };
    if value < -2147483648 || value > 2147483647 {
        None
    } else {
        Some(value as i32)
    }
}

/// A scan that the command line asked for.
pub struct ScanRequest {
    /// The host to scan, as it was given.
    pub host: String,
    /// How many workers share the port space; at least one.
    pub worker_count: i32,
}

/// Why a command line was refused.
#[derive(Clone, Copy, Debug, PartialEq, Eq, Structural)]
pub enum UsageError {
    /// The host or the number of threads is missing.
    MissingArguments,
    /// The number of threads is no decimal number.
    UnreadableThreadCount,
    /// The number of threads is below one.
    InvalidThreadCount(i32),
}

/// What a command line asks for, the program's name included in `args`:
/// the host and the number of workers, or the reason for refusing it.
pub open spec fn request_of(args: Seq<Seq<char>>) -> Result<(Seq<char>, int), UsageError> {
    if args.len() < 3 {
        Err(UsageError::MissingArguments)
    } else {
        match parsed_decimal(args[2]) {
            None => Err(UsageError::UnreadableThreadCount),
            Some(count) => if count <= 0 {
                Err(UsageError::InvalidThreadCount(count as i32))
            } else {
                Ok((args[1], count))
            },
        }
    }
}

/// Reads the command line, the program's name included: the host comes
/// second, the number of threads third, and what follows is ignored.
pub fn parse_arguments(args: &Vec<String>) -> (parsed: Result<ScanRequest, UsageError>)
    ensures
        match parsed {
            Ok(request) => request.worker_count >= 1 && request_of(args.deep_view()) == Ok::<
                (Seq<char>, int),
                UsageError,
            >((request.host@, request.worker_count as int)),
            Err(reason) => request_of(args.deep_view()) == Err::<(Seq<char>, int), UsageError>(
                reason,
            ),
        },
{
    if args.len() < 3 {
        return Err(UsageError::MissingArguments);
    }
    assert(args.deep_view()[1] == args[1]@);
    assert(args.deep_view()[2] == args[2]@);
    match parse_decimal(args[2].as_str()) {
        None => Err(UsageError::UnreadableThreadCount),
        Some(count) => {
            if count <= 0 {
                Err(UsageError::InvalidThreadCount(count))
            } else {
                Ok(ScanRequest { host: args[1].clone(), worker_count: count })
            }
        },
    }
}

/// The line that tells how the program is called.
pub open spec fn usage_text(program: Seq<char>) -> Seq<char> {
    "Usage: \n\t"@ + program + " HOST THREADS"@
}

/// The line that refuses a number of threads below one.
pub open spec fn invalid_count_text(count: int) -> Seq<char> {
    "Invalid thread count '"@ + decimal_text(count) + "', must be >= 1."@
}

/// What the user is told about a refused command line.
pub open spec fn message_text(reason: UsageError, program: Seq<char>) -> Seq<char> {
    match reason {
        UsageError::InvalidThreadCount(count) => invalid_count_text(count as int),
        _ => usage_text(program),
    }
}

impl UsageError {
    /// The message for the user; `program` is the name the program was
    /// called by.
    pub fn message(&self, program: &str) -> (text: String)
        ensures
            text@ == message_text(*self, program@),
    {
        match self {
            UsageError::InvalidThreadCount(count) => {
                let mut text = String::from_str("Invalid thread count '");
                append_decimal(&mut text, *count);
                text.append("', must be >= 1.");
                text
            },
            _ => {
                let mut text = String::from_str("Usage: \n\t");
                text.append(program);
                text.append(" HOST THREADS");
                text
            },
        }
    }
}

} // verus!
