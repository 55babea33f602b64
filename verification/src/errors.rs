//! The errors the loader and the machine can report, with their
//! human-readable messages.

use vstd::prelude::*;
use vstd::string::StringExecFns;

verus! {

/// Everything that can go wrong while validating or executing a program.
#[derive(Clone, Copy, Debug, PartialEq, Eq, Structural)]
pub enum VMError {
    /// A loop bracket without a partner, found during validation.  `open`
    /// tells which kind is unmatched; `line` and `column` are the 1-based
    /// source position of the offending bracket.
    BracketMismatch { open: bool, line: usize, column: usize },
    /// The head would move past index 0, or past the last index of a
    /// non-extensible tape.  `at_start` tells which end was hit.
    TapeBounds { at_start: bool },
    /// The input source ran out of bytes during an input instruction.
    ReadError,
    /// The machine was asked to run a second time.
    AlreadyExecuted,
}

/// The decimal digit character for a value below ten.
pub open spec fn digit_char(d: nat) -> char {
    if d == 0 {
        '0'
    } else if d == 1 {
        '1'
    } else if d == 2 {
        '2'
    } else if d == 3 {
        '3'
    } else if d == 4 {
        '4'
    } else if d == 5 {
        '5'
    } else if d == 6 {
        '6'
    } else if d == 7 {
        '7'
    } else if d == 8 {
        '8'
    } else {
        '9'
    }
}

/// The decimal rendering of a natural number, most significant digit first.
pub open spec fn dec_rep(n: nat) -> Seq<char>
    decreases n,
    via dec_rep_decreases
{
    if n < 10 {
        seq![digit_char(n)]
    } else {
        dec_rep(n / 10).push(digit_char(n % 10))
    }
}

#[via_fn]
proof fn dec_rep_decreases(n: nat) {
    if n >= 10 {
        assert(n / 10 < n) by (nonlinear_arith)
            requires
                n >= 10,
        ;
    }
}

/// The one-character string for a decimal digit.
fn digit_str(d: usize) -> (r: &'static str)
    requires
        d < 10,
    ensures
        r@ == seq![digit_char(d as nat)],
{
    proof {
        reveal_strlit("0");
        reveal_strlit("1");
        reveal_strlit("2");
        reveal_strlit("3");
        reveal_strlit("4");
        reveal_strlit("5");
        reveal_strlit("6");
        reveal_strlit("7");
        reveal_strlit("8");
        reveal_strlit("9");
    }
    let r = if d == 0 {
        "0"
    } else if d == 1 {
        "1"
    } else if d == 2 {
        "2"
    } else if d == 3 {
        "3"
    } else if d == 4 {
        "4"
    } else if d == 5 {
        "5"
    } else if d == 6 {
        "6"
    } else if d == 7 {
        "7"
    } else if d == 8 {
        "8"
    } else {
        "9"
    };
    proof {
        assert(r@ =~= seq![digit_char(d as nat)]);
    }
    r
}

/// Renders a number in decimal, for the diagnostic messages.
fn usize_to_string(n: usize) -> (s: String)
    ensures
        s@ == dec_rep(n as nat),
    decreases n,
{
    if n < 10 {
        digit_str(n).to_owned()
    } else {
        proof {
            assert(n / 10 < n) by (nonlinear_arith)
                requires
                    n >= 10,
            ;
        }
        let mut s = usize_to_string(n / 10);
        s.append(digit_str(n % 10));
        proof {
            assert(s@ =~= dec_rep(n as nat));
        }
        s
    }
}

impl VMError {
    /// The human-readable message for this error.
    pub open spec fn message_spec(self) -> Seq<char> {
        match self {
            VMError::BracketMismatch { open, line, column } => {
                let head = if open {
                    "Extra open bracket at line "@
                } else {
                    "Extra close bracket at line "@
                };
                head + dec_rep(line as nat) + " character "@ + dec_rep(column as nat) + "."@
            },
            VMError::TapeBounds { at_start } => {
                if at_start {
                    "Already at the beginning of the tape."@
                } else {
                    "Already at the end of the tape."@
                }
            },
            VMError::ReadError => "Ran out of input."@,
            VMError::AlreadyExecuted => "The machine has already executed its program."@,
        }
    }

    /// Builds the human-readable message for this error.
    pub fn message(&self) -> (s: String)
        ensures
            s@ == self.message_spec(),
    {
        match *self {
            VMError::BracketMismatch { open, line, column } => {
                let mut s = if open {
                    "Extra open bracket at line ".to_owned()
                } else {
                    "Extra close bracket at line ".to_owned()
                };
                let ln = usize_to_string(line);
                s.append(ln.as_str());
                s.append(" character ");
                let cn = usize_to_string(column);
                s.append(cn.as_str());
                s.append(".");
                proof {
                    assert(s@ =~= self.message_spec());
                }
                s
            },
            VMError::TapeBounds { at_start } => {
                if at_start {
                    "Already at the beginning of the tape.".to_owned()
                } else {
                    "Already at the end of the tape.".to_owned()
                }
            },
            VMError::ReadError => "Ran out of input.".to_owned(),
            VMError::AlreadyExecuted => "The machine has already executed its program.".to_owned(),
        }
    }
}

} // verus!
