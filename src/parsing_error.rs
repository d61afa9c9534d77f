use vstd::prelude::*;

verus! {

/// What is wrong with a line of a scene descriptor.
#[derive(Clone, Copy, Debug, PartialEq, Eq, Structural)]
pub enum ParseFailure {
    /// A line outside any block that is neither blank nor an object header; the
    /// character it begins with.
    UnknownLine(char),
    /// A header line that holds nothing after its opening bracket.
    UnterminatedHeader,
    /// A header line whose last character is not a closing bracket.
    InvalidHeaderEnd,
    /// A header that names no known kind of object.
    UnknownObjectType,
    /// A line inside a block without a `=`.
    MissingValue,
    /// A block that lacks a key it requires.
    MissingKey,
    /// The file ends inside a block that needs more lines.
    UnexpectedEndOfFile,
    /// A `material_type` that names no known material.
    UnknownMaterialType,
    /// A key that the block does not know.
    UnknownKey,
    /// A key that the current material type does not have.
    NotAProperty,
    /// A value that should be an unsigned integer and is not one.
    InvalidInteger,
}

/// A failure to parse a descriptor, with the file and the line (counted from 1) where
/// it happened, and the text on that line that it is about (empty where there is none).
#[derive(Debug)]
pub struct ParsingError {
    pub filename: String,
    pub line: usize,
    pub message: ParseFailure,
    pub text: Vec<char>,
}

} // verus!
