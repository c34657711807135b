//! The command line: which capture is asked for, and into which file.

use vstd::prelude::*;
use crate::region::CaptureMode;
use crate::text::{chars_of, same_chars};

verus! {

/// A decimal digit.
pub open spec fn is_digit(c: char) -> bool {
    '0' <= c && c <= '9'
}

/// The value of a decimal digit.
pub open spec fn digit_value(c: char) -> int {
    (c as u8) - 48
}

/// Every character of `s` is a decimal digit.
pub open spec fn all_digits(s: Seq<char>) -> bool {
    forall|i: int| 0 <= i < s.len() ==> is_digit(#[trigger] s[i])
}

/// The number that the digits of `s` write in base ten.
pub open spec fn digits_value(s: Seq<char>) -> int
    decreases s.len(),
{
    if s.len() == 0 {
        0
    } else {
        digits_value(s.drop_last()) * 10 + digit_value(s.last())
    }
}

/// The 32-bit signed integer that `s` writes: an optional `+` or `-`, then at
/// least one decimal digit and nothing else, with a value that fits.
pub open spec fn parsed_i32(s: Seq<char>) -> Option<int> {
    let signed = s.len() > 0 && (s[0] == '-' || s[0] == '+');
    let digits = if signed {
        s.drop_first()
    } else {
        s
    };
    let value = if signed && s[0] == '-' {
        -digits_value(digits)
    } else {
        digits_value(digits)
    };
    if digits.len() > 0 && all_digits(digits) && -2147483648 <= value <= 2147483647 {
        Some(value)
    } else {
        None
    }
}

/// More digits never write a smaller number.
pub proof fn lemma_digits_grow(s: Seq<char>, n: int)
    requires
        all_digits(s),
        0 <= n <= s.len(),
    ensures
        0 <= digits_value(s.take(n)) <= digits_value(s),
    decreases s.len() - n,
{
    if n == s.len() {
        assert(s.take(n) =~= s);
        lemma_digits_nonnegative(s);
    } else {
        lemma_digits_grow(s, n + 1);
        assert(s.take(n + 1).drop_last() =~= s.take(n));
        assert(is_digit(s[n]));
        lemma_digits_nonnegative(s.take(n));
        assert(all_digits(s.take(n)));
    }
}

proof fn lemma_digits_nonnegative(s: Seq<char>)
    requires
        all_digits(s),
    ensures
        0 <= digits_value(s),
    decreases s.len(),
{
    if s.len() > 0 {
        assert(is_digit(s.last()));
        assert(all_digits(s.drop_last()));
        lemma_digits_nonnegative(s.drop_last());
    }
}

/// Reads a 32-bit signed integer in decimal notation.
#[verifier::loop_isolation(false)]
pub fn parse_i32(text: &str) -> (value: Option<i32>)
    ensures
        match value {
            Some(v) => parsed_i32(text@) == Some(v as int),
            None => parsed_i32(text@) is None,
        },
{
    let chars = chars_of(text);
    let n: usize = chars.len();
    let signed = n > 0 && (chars[0] == '-' || chars[0] == '+');
    let negative = signed && chars[0] == '-';
    let start: usize = if signed {
        1
    } else {
        0
    };
    let ghost digits = if signed {
        text@.drop_first()
    } else {
        text@
    };
    assert(digits =~= chars@.skip(start as int));
    if start == n {
        return None;
    }
    let mut total: i64 = 0;
    let mut i: usize = start;
    assert(digits.take(0) =~= Seq::<char>::empty());
    while i < n
        invariant
            start <= i <= n,
            n == chars@.len(),
            digits == chars@.skip(start as int),
            all_digits(digits.take(i - start)),
            total == digits_value(digits.take(i - start)),
            0 <= total <= 2147483648,
        decreases n - i,
    {
        let c: char = chars[i];
        assert(digits[i - start] == c);
        if !('0' <= c && c <= '9') {
            assert(!all_digits(digits));
            return None;
        }
        let digit: i64 = ((c as u8) - 48) as i64;
        assert(digits.take(i - start + 1).drop_last() =~= digits.take(i - start));
        assert(digits.take(i - start + 1).last() == c);
        total = total * 10 + digit;
        if total > 2147483648 {
            proof {
                if all_digits(digits) {
                    lemma_digits_grow(digits, i - start + 1);
                }
            }
            return None;
        }
        i = i + 1;
    }
    assert(digits.take(n - start) =~= digits);
    if negative {
        Some((0 - total) as i32)
    } else if total <= 2147483647 {
        Some(total as i32)
    } else {
        None
    }
}

/// One of the four numbers of an explicit rectangle.
#[derive(Clone, Copy, Debug, PartialEq, Eq, Structural)]
pub enum Field {
    X,
    Y,
    Width,
    Height,
}

/// Why the command line asks for no capture.
#[derive(Clone, Copy, Debug, PartialEq, Eq, Structural)]
pub enum CliError {
    /// This number of the rectangle is no 32-bit integer.
    NotAnInteger(Field),
    /// Not one of the accepted forms: the caller is shown how to call.
    Usage,
}

/// What the command line asks for: the capture mode, and the index among the
/// arguments of the name of the file to write.
#[derive(Clone, Copy, Debug, PartialEq, Eq, Structural)]
pub struct Invocation {
    pub mode: CaptureMode,
    pub file: usize,
}

/// The text of each argument.
pub open spec fn texts(args: Seq<String>) -> Seq<Seq<char>> {
    Seq::new(args.len(), |i: int| args[i]@)
}

/// The rectangle that four arguments write, or the first of them, in the
/// order x, y, width, height, that is no integer.
pub open spec fn rectangle(
    x: Seq<char>,
    y: Seq<char>,
    width: Seq<char>,
    height: Seq<char>,
) -> Result<CaptureMode, CliError> {
    match parsed_i32(x) {
        None => Err(CliError::NotAnInteger(Field::X)),
        Some(x) => match parsed_i32(y) {
            None => Err(CliError::NotAnInteger(Field::Y)),
            Some(y) => match parsed_i32(width) {
                None => Err(CliError::NotAnInteger(Field::Width)),
                Some(width) => match parsed_i32(height) {
                    None => Err(CliError::NotAnInteger(Field::Height)),
                    Some(height) => Ok(
                        CaptureMode::ExplicitRect {
                            x: x as i32,
                            y: y as i32,
                            width: width as i32,
                            height: height as i32,
                        },
                    ),
                },
            },
        },
    }
}

/// What the arguments ask for; the first argument is the program's own name.
///
/// - `<x> <y> <width> <height> <file>`: that rectangle;
/// - `--full <file>`: all displays;
/// - `--primary <file>`, or `<file>` alone: the primary display;
/// - anything else: usage.
pub open spec fn invocation(args: Seq<Seq<char>>) -> Result<Invocation, CliError> {
    if args.len() == 6 {
        match rectangle(args[1], args[2], args[3], args[4]) {
            Ok(mode) => Ok(Invocation { mode, file: 5 }),
            Err(error) => Err(error),
        }
    } else if args.len() == 3 {
        if args[1] == "--full"@ {
            Ok(Invocation { mode: CaptureMode::FullVirtualDesktop, file: 2 })
        } else if args[1] == "--primary"@ {
            Ok(Invocation { mode: CaptureMode::PrimaryDisplay, file: 2 })
        } else {
            Err(CliError::Usage)
        }
    } else if args.len() == 2 {
        Ok(Invocation { mode: CaptureMode::PrimaryDisplay, file: 1 })
    } else {
        Err(CliError::Usage)
    }
}

/// Whether two texts hold the same characters.
pub fn same_text(a: &str, b: &str) -> (same: bool)
    ensures
        same == (a@ == b@),
{
    let left = chars_of(a);
    let right = chars_of(b);
    same_chars(&left, &right)
}

/// Reads the four numbers of an explicit rectangle.
pub fn parse_rectangle(x: &str, y: &str, width: &str, height: &str) -> (result: Result<
    CaptureMode,
    CliError,
>)
    ensures
        result == rectangle(x@, y@, width@, height@),
{
    let x = match parse_i32(x) {
        Some(x) => x,
        None => {
            return Err(CliError::NotAnInteger(Field::X));
        },
    };
    let y = match parse_i32(y) {
        Some(y) => y,
        None => {
            return Err(CliError::NotAnInteger(Field::Y));
        },
    };
    let width = match parse_i32(width) {
        Some(width) => width,
        None => {
            return Err(CliError::NotAnInteger(Field::Width));
        },
    };
    let height = match parse_i32(height) {
        Some(height) => height,
        None => {
            return Err(CliError::NotAnInteger(Field::Height));
        },
    };
    Ok(CaptureMode::ExplicitRect { x, y, width, height })
}

/// Reads the command line. `args` starts with the program's own name.
///
/// The rectangle's numbers are read here and not judged: whether its size can
/// be captured is for [`crate::region::resolve`] to say.
pub fn parse_args(args: &Vec<String>) -> (result: Result<Invocation, CliError>)
    ensures
        result == invocation(texts(args@)),
        result matches Ok(found) ==> found.file < args@.len(),
{
    if args.len() == 6 {
        match parse_rectangle(
            args[1].as_str(),
            args[2].as_str(),
            args[3].as_str(),
            args[4].as_str(),
        ) {
            Ok(mode) => Ok(Invocation { mode, file: 5 }),
            Err(error) => Err(error),
        }
    } else if args.len() == 3 {
        if same_text(args[1].as_str(), "--full") {
            Ok(Invocation { mode: CaptureMode::FullVirtualDesktop, file: 2 })
        } else if same_text(args[1].as_str(), "--primary") {
            Ok(Invocation { mode: CaptureMode::PrimaryDisplay, file: 2 })
        } else {
            Err(CliError::Usage)
        }
    } else if args.len() == 2 {
        Ok(Invocation { mode: CaptureMode::PrimaryDisplay, file: 1 })
    } else {
        Err(CliError::Usage)
    }
}

} // verus!
