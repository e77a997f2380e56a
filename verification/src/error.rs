//! The reasons for which a machine definition cannot be had from an input.

use crate::machine::{Machine, MachineView};
use vstd::prelude::*;
use vstd::string::StringExecFns;

verus! {

/// Why an input gives no machine. Each input fails alone: an error never
/// concerns another input.
#[derive(Clone, Copy, Debug, PartialEq, Eq, Structural)]
pub enum LoadError {
    /// The file could not be read.
    Unreadable,
    /// The file has no extension, or one of neither format.
    UnsupportedExtension,
    /// The text of a structured definition is not JSON.
    InvalidJson,
    /// A structured definition has no array of rules.
    MissingRules,
    /// A tabular definition has fewer than two lines that are not empty.
    MissingHeader,
    /// The initial head position is not a decimal integer of 64 bits.
    InvalidPosition,
}

impl LoadError {
    /// The message shown for this error.
    pub open spec fn message_text(self) -> Seq<char> {
        match self {
            LoadError::Unreadable => "Something went wrong with reading file"@,
            LoadError::UnsupportedExtension => "Unsupported file extension"@,
            LoadError::InvalidJson => "Something went wrong with parsing json data"@,
            LoadError::MissingRules => "Rules are missing from json data"@,
            LoadError::MissingHeader => "Tape or initial position is missing"@,
            LoadError::InvalidPosition => "Initial position is not an integer"@,
        }
    }

    /// The message shown for this error.
    pub fn message(&self) -> (text: String)
        ensures
            text@ == self.message_text(),
    {
        match self {
            LoadError::Unreadable => String::from_str("Something went wrong with reading file"),
            LoadError::UnsupportedExtension => String::from_str("Unsupported file extension"),
            LoadError::InvalidJson => String::from_str(
                "Something went wrong with parsing json data",
            ),
            LoadError::MissingRules => String::from_str("Rules are missing from json data"),
            LoadError::MissingHeader => String::from_str("Tape or initial position is missing"),
            LoadError::InvalidPosition => String::from_str("Initial position is not an integer"),
        }
    }
}

/// The mathematical content of what loading an input gives: the machine's
/// view, or the error as it is.
pub open spec fn loaded_view(loaded: Result<Machine, LoadError>) -> Result<MachineView, LoadError> {
    match loaded {
        Ok(machine) => Ok(machine@),
        Err(error) => Err(error),
    }
}

} // verus!
