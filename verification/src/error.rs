//! Error types of the machine, the parser and the command line.

use vstd::prelude::*;
use vstd::string::*;

verus! {

/// A failure raised while executing bytecode.
#[derive(Debug, Clone, Copy, PartialEq, Eq, Structural)]
pub enum VmError {
    /// The bytecode ran out before a `RET` was decoded.
    RetOpcodeNotFound,
    /// A register index was expected but no byte was left.
    NoIndexInBytecode,
    /// A value was expected but fewer than eight bytes were left.
    NoValueInBytecode,
    /// An instruction needed an operand and the stack was empty.
    NoValueInStack,
    /// A byte in opcode position is not the tag of any opcode.
    InvalidOpcode,
}

impl VmError {
    /// What went wrong, without the `RUNTIME ERROR: ` prefix.
    pub open spec fn detail(self) -> Seq<char> {
        match self {
            VmError::RetOpcodeNotFound => "there is no `RET` opcode"@,
            VmError::NoIndexInBytecode => "there is no index in bytecode"@,
            VmError::NoValueInBytecode => "there is no value in bytecode"@,
            VmError::NoValueInStack => "there is no value in stack"@,
            VmError::InvalidOpcode => "there is an invalid opcode"@,
        }
    }

    /// The text shown to the user for this error.
    pub open spec fn message_text(self) -> Seq<char> {
        "RUNTIME ERROR: "@ + self.detail()
    }

    /// Renders the error as the line shown to the user.
    pub fn message(&self) -> (text: String)
        ensures
            text@ == self.message_text(),
    {
        let detail = match self {
            VmError::RetOpcodeNotFound => "there is no `RET` opcode",
            VmError::NoIndexInBytecode => "there is no index in bytecode",
            VmError::NoValueInBytecode => "there is no value in bytecode",
            VmError::NoValueInStack => "there is no value in stack",
            VmError::InvalidOpcode => "there is an invalid opcode",
        };
        let mut text = String::from_str("RUNTIME ERROR: ");
        text.append(detail);
        text
    }
}

/// A failure raised while parsing tokens; each variant carries the text
/// that the message quotes.
#[derive(Debug, Clone, Copy, PartialEq)]
pub enum ParseError<'a> {
    /// An opcode token that names no opcode.
    MistakenOpcode(&'a str),
    /// A number token where an opcode was expected.
    OpcodeRequired(&'a str),
    /// An opcode that takes a value and is not followed by a number.
    ValueRequired(&'a str),
    /// An opcode that takes an index and is not followed by a number.
    IndexRequired(&'a str),
    /// A number token that denotes no value.
    MistakenValue(&'a str),
    /// A number token that denotes no register index.
    MistakenIndex(&'a str),
}

/// A parse error as a mathematical value: its kind and the UTF-8 bytes of
/// the text it carries.
pub enum ParseErrorView {
    MistakenOpcode(Seq<u8>),
    OpcodeRequired(Seq<u8>),
    ValueRequired(Seq<u8>),
    IndexRequired(Seq<u8>),
    MistakenValue(Seq<u8>),
    MistakenIndex(Seq<u8>),
}

impl<'a> View for ParseError<'a> {
    type V = ParseErrorView;

    open spec fn view(&self) -> ParseErrorView {
        match self {
            ParseError::MistakenOpcode(text) => ParseErrorView::MistakenOpcode(text.spec_bytes()),
            ParseError::OpcodeRequired(text) => ParseErrorView::OpcodeRequired(text.spec_bytes()),
            ParseError::ValueRequired(text) => ParseErrorView::ValueRequired(text.spec_bytes()),
            ParseError::IndexRequired(text) => ParseErrorView::IndexRequired(text.spec_bytes()),
            ParseError::MistakenValue(text) => ParseErrorView::MistakenValue(text.spec_bytes()),
            ParseError::MistakenIndex(text) => ParseErrorView::MistakenIndex(text.spec_bytes()),
        }
    }
}

impl<'a> ParseError<'a> {
    /// The text shown to the user for this error.
    pub open spec fn message_text(self) -> Seq<char> {
        match self {
            ParseError::MistakenOpcode(text) => "PARSING ERROR: `"@ + text@
                + "` is not a valid opcode"@,
            ParseError::OpcodeRequired(text) => "PARSING ERROR: an opcode is required before `"@
                + text@ + "`"@,
            ParseError::ValueRequired(text) => "PARSING ERROR: a value is required after `"@
                + text@ + "`"@,
            ParseError::IndexRequired(text) => "PARSING ERROR: an index is required after `"@
                + text@ + "`"@,
            ParseError::MistakenValue(text) => "PARSING ERROR: `"@ + text@
                + "` is not a valid value"@,
            ParseError::MistakenIndex(text) => "PARSING ERROR: `"@ + text@
                + "` is not a valid index"@,
        }
    }

    /// Renders the error as the line shown to the user.
    pub fn message(&self) -> (text: String)
        ensures
            text@ == self.message_text(),
    {
        match self {
            ParseError::MistakenOpcode(mistaken_opcode) => {
                let mut text = String::from_str("PARSING ERROR: `");
                text.append(mistaken_opcode);
                text.append("` is not a valid opcode");
                text
            },
            ParseError::OpcodeRequired(number_string) => {
                let mut text = String::from_str("PARSING ERROR: an opcode is required before `");
                text.append(number_string);
                text.append("`");
                text
            },
            ParseError::ValueRequired(opcode_string) => {
                let mut text = String::from_str("PARSING ERROR: a value is required after `");
                text.append(opcode_string);
                text.append("`");
                text
            },
            ParseError::IndexRequired(opcode_string) => {
                let mut text = String::from_str("PARSING ERROR: an index is required after `");
                text.append(opcode_string);
                text.append("`");
                text
            },
            ParseError::MistakenValue(value_string) => {
                let mut text = String::from_str("PARSING ERROR: `");
                text.append(value_string);
                text.append("` is not a valid value");
                text
            },
            ParseError::MistakenIndex(index_string) => {
                let mut text = String::from_str("PARSING ERROR: `");
                text.append(index_string);
                text.append("` is not a valid index");
                text
            },
        }
    }
}

/// A mistake in how the program was invoked.
#[derive(Debug, Clone, Copy, PartialEq)]
pub enum UserError<'a> {
    /// The named file could not be read.
    FileNotFound(&'a str),
    /// A command was given without a file name.
    NoFilenameGiven,
}

impl<'a> UserError<'a> {
    /// The text shown to the user for this error.
    pub open spec fn message_text(self) -> Seq<char> {
        match self {
            UserError::FileNotFound(file_name) => "USER ERROR: `"@ + file_name@
                + "` is not found"@,
            UserError::NoFilenameGiven => "USER ERROR: no file name is given"@,
        }
    }

    /// Renders the error as the line shown to the user.
    pub fn message(&self) -> (text: String)
        ensures
            text@ == self.message_text(),
    {
        match self {
            UserError::FileNotFound(file_name) => {
                let mut text = String::from_str("USER ERROR: `");
                text.append(file_name);
                text.append("` is not found");
                text
            },
            UserError::NoFilenameGiven => String::from_str("USER ERROR: no file name is given"),
        }
    }
}

} // verus!
