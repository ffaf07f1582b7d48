//! Error taxonomy for compilation and for decoding/evaluation.

use vstd::prelude::*;

use crate::types::DataType;

verus! {

/// Errors raised while compiling a line of LitScript source.
#[derive(Debug, Clone, PartialEq, Eq)]
pub enum LitsCcError {
    /// A token kind that cannot start a statement or an operand.
    UnexpectedToken,
    /// A literal token that is neither a quoted string nor a decimal number.
    UnexpectedLiteral(String),
    /// A punctuation token other than the variable sigil `@`.
    UnexpectedPunctuation(char),
    /// A group delimited by anything but parentheses.
    UnsupportedGroupDelimiter,
    /// A defining command or a `@` sigil was not followed by an identifier.
    ExpectedIdent,
    /// A statement began with a command name that is not in the opcode table.
    UnknownCommand(String),
    /// A `@name` invocation of a name never registered by a defining command.
    VariableNotFound(String),
    /// A string literal or a group whose encoded length exceeds one byte.
    ValueTooLongToEncode,
}

/// The mathematical model of a compile error: name payloads become
/// character sequences.
pub enum SpecCcError {
    UnexpectedToken,
    UnexpectedLiteral(Seq<char>),
    UnexpectedPunctuation(char),
    UnsupportedGroupDelimiter,
    ExpectedIdent,
    UnknownCommand(Seq<char>),
    VariableNotFound(Seq<char>),
    ValueTooLongToEncode,
}

impl View for LitsCcError {
    type V = SpecCcError;

    open spec fn view(&self) -> SpecCcError {
        match self {
            LitsCcError::UnexpectedToken => SpecCcError::UnexpectedToken,
            LitsCcError::UnexpectedLiteral(s) => SpecCcError::UnexpectedLiteral(s@),
            LitsCcError::UnexpectedPunctuation(c) => SpecCcError::UnexpectedPunctuation(*c),
            LitsCcError::UnsupportedGroupDelimiter => SpecCcError::UnsupportedGroupDelimiter,
            LitsCcError::ExpectedIdent => SpecCcError::ExpectedIdent,
            LitsCcError::UnknownCommand(s) => SpecCcError::UnknownCommand(s@),
            LitsCcError::VariableNotFound(s) => SpecCcError::VariableNotFound(s@),
            LitsCcError::ValueTooLongToEncode => SpecCcError::ValueTooLongToEncode,
        }
    }
}

/// Errors raised while decoding or evaluating a bytecode stream, or while
/// resolving materials into resources.
#[derive(Debug, Clone, Copy, PartialEq, Eq, Structural)]
pub enum LitError {
    /// An unrecognized literal tag byte.
    BytecodeRead8(u8),
    /// An unrecognized instruction opcode word.
    BytecodeRead16(u16),
    /// The stream ended in the middle of an instruction or literal.
    UnexpectedEof,
    /// A tag-4 payload that is not valid UTF-8.
    FromUtf8,
    /// No variable is bound to this id.
    VariableNotFound(u32),
    /// No color override table exists for this object id.
    ColorIdObjectNotFound(u32),
    /// The object's override table has no entry for this color index.
    ColorIdNotFound(u32, u8),
    /// An object of the first kind was found where the second was expected.
    IncorrectDataType(DataType, DataType),
    /// A non-numeric object was found where a number was expected.
    ExpectedNumericalDataType(DataType),
    /// A numeric value that does not fit the required width.
    Conversion,
    /// A color tuple with a channel count other than three or four.
    ImproperColorArity(usize),
    /// A chain of variable invocations that never reaches a plain object.
    CircularReference(u32),
    /// A material's dependency descriptors form a cycle.
    DependencyCycle(u32),
    /// No material is registered under this resource id.
    MissingMaterial(u32),
}

} // verus!
