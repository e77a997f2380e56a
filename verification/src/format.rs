//! The choice between the two formats of a machine definition, made by the
//! extension of the file that holds it.

use crate::error::{loaded_view, LoadError};
use crate::machine::{Machine, MachineView};
use crate::structured::{parse_json, structured_machine};
use crate::tabular::{parse_txt, tabular_machine};
use crate::text::chars_of;
use vstd::prelude::*;

verus! {

/// A format of machine definitions.
#[derive(Clone, Copy, Debug, PartialEq, Eq, Structural)]
pub enum Format {
    /// Plain text, line by line.
    Tabular,
    /// A JSON object.
    Structured,
}

/// The format that a file extension stands for: `txt` for the tabular format
/// and `json` for the structured one, in lower case.
pub open spec fn format_of(extension: Seq<char>) -> Option<Format> {
    if extension == seq!['t', 'x', 't'] {
        Some(Format::Tabular)
    } else if extension == seq!['j', 's', 'o', 'n'] {
        Some(Format::Structured)
    } else {
        None
    }
}

/// The view of an extension that may be missing.
pub open spec fn extension_view(extension: Option<&str>) -> Option<Seq<char>> {
    match extension {
        Some(extension) => Some(extension@),
        None => None,
    }
}

/// The machine that the contents of a file give, by the extension of the
/// file, or why they give none.
pub open spec fn definition(extension: Option<Seq<char>>, contents: Seq<char>) -> Result<
    MachineView,
    LoadError,
> {
    match extension {
        None => Err(LoadError::UnsupportedExtension),
        Some(extension) => match format_of(extension) {
            None => Err(LoadError::UnsupportedExtension),
            Some(Format::Tabular) => tabular_machine(contents),
            Some(Format::Structured) => structured_machine(contents),
        },
    }
}

/// The format that the extension `extension` stands for.
pub fn format_of_extension(extension: &str) -> (format: Option<Format>)
    ensures
        format == format_of(extension@),
{
    let letters = chars_of(extension);
    if letters.len() == 3 && letters[0] == 't' && letters[1] == 'x' && letters[2] == 't' {
        assert(letters@ == seq!['t', 'x', 't']);
        Some(Format::Tabular)
    } else if letters.len() == 4 && letters[0] == 'j' && letters[1] == 's' && letters[2] == 'o'
        && letters[3] == 'n' {
        assert(letters@ == seq!['j', 's', 'o', 'n']);
        Some(Format::Structured)
    } else {
        assert(letters@ != seq!['t', 'x', 't']) by {
            if letters@ == seq!['t', 'x', 't'] {
                assert(letters@.len() == 3);
                assert(letters@[0] == 't' && letters@[1] == 'x' && letters@[2] == 't');
            }
        }
        assert(letters@ != seq!['j', 's', 'o', 'n']) by {
            if letters@ == seq!['j', 's', 'o', 'n'] {
                assert(letters@.len() == 4);
                assert(letters@[0] == 'j' && letters@[1] == 's' && letters@[2] == 'o'
                    && letters@[3] == 'n');
            }
        }
        None
    }
}

/// Reads the contents of a definition file in the format that the file's
/// extension stands for. A file without extension, or with another one, has
/// no supported format.
pub fn parse_definition(extension: Option<&str>, contents: &str) -> (parsed: Result<
    Machine,
    LoadError,
>)
    ensures
        loaded_view(parsed) == definition(extension_view(extension), contents@),
{
    match extension {
        None => Err(LoadError::UnsupportedExtension),
        Some(extension) => match format_of_extension(extension) {
            None => Err(LoadError::UnsupportedExtension),
            Some(Format::Tabular) => parse_txt(contents),
            Some(Format::Structured) => parse_json(contents),
        },
    }
}

} // verus!
