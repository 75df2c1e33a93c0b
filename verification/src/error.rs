//! Why a consistent read could not be produced.

use vstd::prelude::*;
use vstd::string::StringExecFns;

verus! {

/// The two ways in which the construction of a reader ends without one.
#[derive(Debug)]
pub enum InconsistentReadError {
    /// A read of the file failed. No further read is made after it.
    Io { path: String, cause: String },
    /// Every permitted read differed from the one before it.
    Unstable { path: String, attempts: u32 },
}

/// Why a line could not be handed out as text.
#[derive(Debug, Clone, Copy, PartialEq, Eq, Structural)]
pub enum LineError {
    /// The bytes of the line are not valid UTF-8.
    InvalidUtf8,
}

/// The mathematical content of an [`InconsistentReadError`].
pub enum Failure {
    Io { path: Seq<char>, cause: Seq<char> },
    Unstable { path: Seq<char>, attempts: nat },
}

impl View for InconsistentReadError {
    type V = Failure;

    open spec fn view(&self) -> Failure {
        match self {
            InconsistentReadError::Io { path, cause } => Failure::Io {
                path: path@,
                cause: cause@,
            },
            InconsistentReadError::Unstable { path, attempts } => Failure::Unstable {
                path: path@,
                attempts: *attempts as nat,
            },
        }
    }
}

impl InconsistentReadError {
    /// The error in words, with the path and the cause or the retry limit.
    pub fn message(&self) -> (text: String)
        ensures
            text@ == message_text(self@),
    {
        match self {
            InconsistentReadError::Io { path, cause } => {
                let mut text = String::from_str("failed to read file at ");
                text.append(path.as_str());
                text.append(": ");
                text.append(cause.as_str());
                assert(text@ =~= message_text(self@));
                text
            },
            InconsistentReadError::Unstable { path, attempts } => {
                let mut text = String::from_str(
                    "failed to get a consistent read output from file ",
                );
                text.append(path.as_str());
                text.append(" after ");
                append_decimal(&mut text, *attempts);
                text.append(" attempts");
                assert(text@ =~= message_text(self@));
                text
            },
        }
    }
}

/// What [`InconsistentReadError::message`] returns.
pub open spec fn message_text(failure: Failure) -> Seq<char> {
    match failure {
        Failure::Io { path, cause } => "failed to read file at "@ + path + ": "@ + cause,
        Failure::Unstable { path, attempts } =>
            "failed to get a consistent read output from file "@ + path + " after "@ + decimal(
                attempts,
            ) + " attempts"@,
    }
}

/// The character of a decimal digit.
pub open spec fn digit(d: nat) -> char {
    if d == 0 {
        '0'
    } else if d == 1 {
        '1'
    } else if d == 2 {
        '2'
    } else if d == 3 {
        '3'
    } else if d == 4 {
        '4'
    } else if d == 5 {
        '5'
    } else if d == 6 {
        '6'
    } else if d == 7 {
        '7'
    } else if d == 8 {
        '8'
    } else {
        '9'
    }
}

/// A number in decimal, without sign or leading zeros.
pub open spec fn decimal(n: nat) -> Seq<char>
    decreases n,
{
    if n < 10 {
        seq![digit(n)]
    } else {
        decimal(n / 10).push(digit(n % 10))
    }
}

/// The text of one decimal digit.
fn digit_text(d: u32) -> (text: &'static str)
    requires
        d < 10,
    ensures
        text@ == seq![digit(d as nat)],
{
    proof {
        reveal_strlit("0");
        reveal_strlit("1");
        reveal_strlit("2");
        reveal_strlit("3");
        reveal_strlit("4");
        reveal_strlit("5");
        reveal_strlit("6");
        reveal_strlit("7");
        reveal_strlit("8");
        reveal_strlit("9");
    }
    let text = if d == 0 {
        "0"
    } else if d == 1 {
        "1"
    } else if d == 2 {
        "2"
    } else if d == 3 {
        "3"
    } else if d == 4 {
        "4"
    } else if d == 5 {
        "5"
    } else if d == 6 {
        "6"
    } else if d == 7 {
        "7"
    } else if d == 8 {
        "8"
    } else {
        "9"
    };
    assert(text@ =~= seq![digit(d as nat)]);
    text
}

/// Appends `n` in decimal to `text`.
fn append_decimal(text: &mut String, n: u32)
    ensures
        final(text)@ == old(text)@ + decimal(n as nat),
    decreases n,
{
    if n >= 10 {
        append_decimal(text, n / 10);
    }
    text.append(digit_text(n % 10));
    assert(text@ =~= old(text)@ + decimal(n as nat));
}

} // verus!
