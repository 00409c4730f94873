//! Reasons for which a session operation is refused.

use vstd::prelude::*;
use vstd::string::StringExecFns;

verus! {

/// What a caller was trying to do with a shell that turned out to be missing.
#[derive(Debug, Clone, Copy, PartialEq, Eq, Structural)]
pub enum ShellAction {
    /// Closing the shell.
    Close,
    /// Moving it, resizing it or adding data to it.
    Update,
}

/// An error returned by an operation on a session.
#[derive(Debug, Clone, Copy, PartialEq, Eq, Structural)]
pub enum SessionError {
    /// A shell with this id is already present, open or closed.
    AlreadyExists(u32),
    /// No shell with this id was ever added.
    NotFound { id: u32, action: ShellAction },
    /// The shell with this id has been closed.
    Closed(u32),
    /// The part of a fragment that is new does not start on a character boundary.
    BadEncoding,
}

/// The character that stands for a digit below ten.
pub open spec fn digit_char(d: nat) -> char
    recommends
        d < 10,
{
    if d == 0 {
        '0'
    } else if d == 1 {
        '1'
    } else if d == 2 {
        '2'
    } else if d == 3 {
        '3'
    } else if d == 4 {
        '4'
    } else if d == 5 {
        '5'
    } else if d == 6 {
        '6'
    } else if d == 7 {
        '7'
    } else if d == 8 {
        '8'
    } else {
        '9'
    }
}

/// A number written in base ten, most significant digit first, without padding.
pub open spec fn decimal(n: nat) -> Seq<char>
    decreases n,
{
    if n < 10 {
        seq![digit_char(n)]
    } else {
        decimal(n / 10).push(digit_char(n % 10))
    }
}

fn digit_str(d: u32) -> (s: &'static str)
    requires
        d < 10,
    ensures
        s@ == seq![digit_char(d as nat)],
{
    proof {
        reveal_strlit("0");
        reveal_strlit("1");
        reveal_strlit("2");
        reveal_strlit("3");
        reveal_strlit("4");
        reveal_strlit("5");
        reveal_strlit("6");
        reveal_strlit("7");
        reveal_strlit("8");
        reveal_strlit("9");
    }
    let s = match d {
        0 => "0",
        1 => "1",
        2 => "2",
        3 => "3",
        4 => "4",
        5 => "5",
        6 => "6",
        7 => "7",
        8 => "8",
        _ => "9",
    };
    assert(s@ =~= seq![digit_char(d as nat)]);
    s
}

/// Writes a number in base ten.
pub fn decimal_string(n: u32) -> (s: String)
    ensures
        s@ == decimal(n as nat),
    decreases n,
{
    if n < 10 {
        String::from_str(digit_str(n))
    } else {
        let mut s = decimal_string(n / 10);
        s.append(digit_str(n % 10));
        assert(s@ =~= decimal(n as nat));
        s
    }
}

impl SessionError {
    /// The text shown to whoever asked for the operation.
    pub open spec fn message_spec(self) -> Seq<char> {
        match self {
            SessionError::AlreadyExists(id) => "shell already exists with id="@ + decimal(
                id as nat,
            ),
            SessionError::NotFound { id, action: ShellAction::Close } =>
                "cannot close shell with id="@ + decimal(id as nat) + ", does not exist"@,
            SessionError::NotFound { id, action: ShellAction::Update } =>
                "cannot update shell with id="@ + decimal(id as nat) + ", does not exist"@,
            SessionError::Closed(id) => "cannot update shell with id="@ + decimal(id as nat)
                + ", already closed"@,
            SessionError::BadEncoding => "failed to decode utf-8 suffix in data"@,
        }
    }

    /// Renders the error as text.
    pub fn message(&self) -> (text: String)
        ensures
            text@ == self.message_spec(),
    {
        match *self {
            SessionError::AlreadyExists(id) => {
                let mut text = String::from_str("shell already exists with id=");
                text.append(decimal_string(id).as_str());
                text
            },
            SessionError::NotFound { id, action: ShellAction::Close } => {
                let mut text = String::from_str("cannot close shell with id=");
                text.append(decimal_string(id).as_str());
                text.append(", does not exist");
                text
            },
            SessionError::NotFound { id, action: ShellAction::Update } => {
                let mut text = String::from_str("cannot update shell with id=");
                text.append(decimal_string(id).as_str());
                text.append(", does not exist");
                text
            },
            SessionError::Closed(id) => {
                let mut text = String::from_str("cannot update shell with id=");
                text.append(decimal_string(id).as_str());
                text.append(", already closed");
                text
            },
            SessionError::BadEncoding => String::from_str("failed to decode utf-8 suffix in data"),
        }
    }
}

} // verus!
