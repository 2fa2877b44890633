//! The errors that allocators return.
use crate::pretty_wrappers::PrettyBitflag;
use vstd::prelude::*;
use vstd::string::StringExecFns;

verus! {

/// The character for a decimal digit.
pub open spec fn digit_char(digit: int) -> char {
    if digit == 0 {
        '0'
    } else if digit == 1 {
        '1'
    } else if digit == 2 {
        '2'
    } else if digit == 3 {
        '3'
    } else if digit == 4 {
        '4'
    } else if digit == 5 {
        '5'
    } else if digit == 6 {
        '6'
    } else if digit == 7 {
        '7'
    } else if digit == 8 {
        '8'
    } else {
        '9'
    }
}

/// The decimal digits of a number, the most significant one first.
pub open spec fn decimal_digits(value: nat) -> Seq<char>
    decreases value,
{
    if value < 10 {
        seq![digit_char(value as int)]
    } else {
        decimal_digits(value / 10).push(digit_char((value % 10) as int))
    }
}

/// The text of one decimal digit.
fn digit_text(digit: u64) -> (text: &'static str)
    requires
        digit < 10,
    ensures
        text@ == seq![digit_char(digit as int)],
{
    proof {
        reveal_strlit("0");
        reveal_strlit("1");
        reveal_strlit("2");
        reveal_strlit("3");
        reveal_strlit("4");
        reveal_strlit("5");
        reveal_strlit("6");
        reveal_strlit("7");
        reveal_strlit("8");
        reveal_strlit("9");
    }
    let text = if digit == 0 {
        "0"
    } else if digit == 1 {
        "1"
    } else if digit == 2 {
        "2"
    } else if digit == 3 {
        "3"
    } else if digit == 4 {
        "4"
    } else if digit == 5 {
        "5"
    } else if digit == 6 {
        "6"
    } else if digit == 7 {
        "7"
    } else if digit == 8 {
        "8"
    } else {
        "9"
    };
    assert(text@ =~= seq![digit_char(digit as int)]);
    text
}

/// The number in decimal digits.
pub fn decimal_string(value: u64) -> (text: String)
    ensures
        text@ == decimal_digits(value as nat),
    decreases value,
{
    if value < 10 {
        digit_text(value).to_owned()
    } else {
        let mut text = decimal_string(value / 10);
        text.append(digit_text(value % 10));
        assert(text@ =~= decimal_digits(value as nat));
        text
    }
}

/// The message of the error for a request that is too large for a pool's
/// chunks.
pub open spec fn chunk_too_large_message(size_in_bytes: u64) -> Seq<char> {
    "Unable to allocate a chunk of memory with "@ + decimal_digits(size_in_bytes as nat)
        + " bytes"@
}

/// Why an allocator could not do what it was asked.
#[derive(Debug)]
pub enum AllocatorError {
    /// No memory type is both allowed by the resource's type bits (first
    /// field) and has every requested property flag (second field).
    NoSupportedTypeForProperties(PrettyBitflag, u32),
    /// Anything that went wrong while allocating, with a message for the
    /// caller.
    RuntimeError(String),
}

impl AllocatorError {
    /// The error is a `RuntimeError` that carries exactly `message`.
    pub open spec fn is_runtime_error(self, message: Seq<char>) -> bool {
        match self {
            AllocatorError::RuntimeError(text) => text@ == message,
            AllocatorError::NoSupportedTypeForProperties(_, _) => false,
        }
    }

    /// A `RuntimeError` with the given message.
    pub fn runtime(message: &str) -> (error: Self)
        ensures
            error.is_runtime_error(message@),
    {
        AllocatorError::RuntimeError(message.to_owned())
    }

    /// The error for a request of `size_in_bytes` bytes that is too large
    /// for a pool's chunks.
    pub fn chunk_too_large(size_in_bytes: u64) -> (error: Self)
        ensures
            error.is_runtime_error(chunk_too_large_message(size_in_bytes)),
    {
        let mut message = "Unable to allocate a chunk of memory with ".to_owned();
        let digits = decimal_string(size_in_bytes);
        message.append(digits.as_str());
        message.append(" bytes");
        AllocatorError::RuntimeError(message)
    }
}

} // verus!
