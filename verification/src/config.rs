//! The validated configuration of one invocation: the ordered input names
//! and the numbering mode, with the two numbering flags checked for mutual
//! exclusion before any processing starts.

use vstd::prelude::*;
use vstd::string::StringExecFns;

verus! {

/// How emitted lines are numbered.
#[derive(Clone, Copy, PartialEq, Eq, Structural, Debug)]
pub enum Mode {
    /// Lines are emitted verbatim.
    Plain,
    /// Every line gets a number.
    NumberAll,
    /// Only non-blank lines get a number; blank lines are emitted bare.
    NumberNonBlank,
}

/// A configuration error, reported before any input is processed.
#[derive(Clone, Copy, PartialEq, Eq, Structural, Debug)]
pub enum UsageError {
    /// Both numbering flags were supplied; they are mutually exclusive.
    ConflictingNumberFlags,
}

/// An immutable configuration: input names in order (the name `-` denotes
/// standard input) and the numbering mode.
pub struct Config {
    pub files: Vec<String>,
    pub mode: Mode,
}

/// The mode selected by the two command-line flags, assuming they are not
/// both set: the non-blank flag wins over no flag, the all-lines flag over
/// no flag, and neither means plain output.
pub open spec fn mode_of_flags(number_all: bool, number_nonblank: bool) -> Mode {
    if number_nonblank {
        Mode::NumberNonBlank
    } else if number_all {
        Mode::NumberAll
    } else {
        Mode::Plain
    }
}

/// The name that denotes standard input.
pub open spec fn stdin_name() -> Seq<char> {
    "-"@
}

impl Config {
    /// Validates the command-line surface: the two numbering flags are
    /// mutually exclusive, and an empty list of input names defaults to
    /// standard input alone.
    pub fn new(files: Vec<String>, number_all: bool, number_nonblank: bool) -> (r: Result<
        Config,
        UsageError,
    >)
        ensures
            r is Err <==> number_all && number_nonblank,
            r matches Err(e) ==> e == UsageError::ConflictingNumberFlags,
            r matches Ok(c) ==> {
                &&& c.mode == mode_of_flags(number_all, number_nonblank)
                &&& files@.len() > 0 ==> c.files == files
                &&& files@.len() == 0 ==> c.files@.len() == 1 && c.files@[0]@ == stdin_name()
            },
    {
        if number_all && number_nonblank {
            return Err(UsageError::ConflictingNumberFlags);
        }
        let mode = if number_nonblank {
            Mode::NumberNonBlank
        } else if number_all {
            Mode::NumberAll
        } else {
            Mode::Plain
        };
        let files = if files.len() == 0 {
            let mut defaulted: Vec<String> = Vec::new();
            defaulted.push(String::from_str("-"));
            defaulted
        } else {
            files
        };
        Ok(Config { files, mode })
    }
}

/// Whether an input name is the standard-input sentinel `-`.
pub fn is_stdin_name(name: &str) -> (r: bool)
    ensures
        r == (name@ == stdin_name()),
{
    proof {
        reveal_strlit("-");
    }
    let len = name.unicode_len();
    if len != 1 {
        proof {
            assert(name@ != stdin_name());
        }
        return false;
    }
    let c = name.get_char(0);
    if c == '-' {
        proof {
            assert(name@ =~= stdin_name());
        }
        true
    } else {
        false
    }
}

} // verus!
