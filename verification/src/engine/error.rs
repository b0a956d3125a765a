//! The failures of the interpreter and of its command line, with the line of
//! text that reports each.
use vstd::prelude::*;
use vstd::string::StringExecFns;

verus! {

/// What can go wrong while a program is rewritten or run.
#[derive(Debug, Clone, Copy, PartialEq, Eq, Structural)]
pub enum OperationError {
    /// The stack holds fewer values than the operation needs.
    StackUnderflow,
    /// The stack is full.
    StackOverflow,
    /// The divisor is zero.
    DivisionByZero,
    /// A definition names a number, or an `if` has no `then`.
    InvalidWord,
    /// The final stack could not be written out.
    FailWritingFile,
    /// The value to emit is not a character.
    InvalidCharacter,
    /// The word is neither built in nor defined.
    WordNotFound,
    /// The colons and semicolons of the definitions do not pair up.
    InvalidWordFormat,
    /// A conditional is malformed.
    InvalidIfFormat,
}

/// What can be wrong with the command line.
#[derive(Debug, Clone, Copy, PartialEq, Eq, Structural)]
pub enum CommandArgsError {
    /// The stack size leaves room for one element at most.
    InvalidStackSize,
    /// The stack size is not a 16-bit number.
    FailParseStackSize,
    /// The stack size argument has no `=`.
    InvalidFormat,
    /// No source file was named.
    FileNotSpecified,
    /// The source file has no extension.
    InvalidFileFormat,
}

impl OperationError {
    /// The line that reports the error, newline included.
    pub open spec fn rendered(self) -> Seq<char> {
        match self {
            OperationError::StackUnderflow => "stack-underflow\n"@,
            OperationError::StackOverflow => "stack-overflow\n"@,
            OperationError::DivisionByZero => "division-by-zero\n"@,
            OperationError::InvalidWord => "invalid-word\n"@,
            OperationError::FailWritingFile
                => "We have a problem with writing the stack in stack.fht\n"@,
            OperationError::InvalidCharacter => "The current character to emit is not valid\n"@,
            OperationError::WordNotFound => "?\n"@,
            OperationError::InvalidWordFormat => "? invalid word format\n"@,
            OperationError::InvalidIfFormat => "if - invalid if format\n"@,
        }
    }

    /// The line that reports the error, newline included.
    pub fn message(&self) -> (text: String)
        ensures
            text@ == self.rendered(),
    {
        match self {
            OperationError::StackUnderflow => String::from_str("stack-underflow\n"),
            OperationError::StackOverflow => String::from_str("stack-overflow\n"),
            OperationError::DivisionByZero => String::from_str("division-by-zero\n"),
            OperationError::InvalidWord => String::from_str("invalid-word\n"),
            OperationError::FailWritingFile => String::from_str(
                "We have a problem with writing the stack in stack.fht\n",
            ),
            OperationError::InvalidCharacter => String::from_str(
                "The current character to emit is not valid\n",
            ),
            OperationError::WordNotFound => String::from_str("?\n"),
            OperationError::InvalidWordFormat => String::from_str("? invalid word format\n"),
            OperationError::InvalidIfFormat => String::from_str("if - invalid if format\n"),
        }
    }
}

impl CommandArgsError {
    /// The line that reports the error, newline included.
    pub open spec fn rendered(self) -> Seq<char> {
        match self {
            CommandArgsError::InvalidStackSize
                => "Stack size cannot be zero or less than or equal to one\n"@,
            CommandArgsError::FailParseStackSize
                => "There was an error parsing the number for stack-size\n"@,
            CommandArgsError::InvalidFormat => "Invalid format: the '=' is missing \n"@,
            CommandArgsError::FileNotSpecified => "The file to be read has not been specified \n"@,
            CommandArgsError::InvalidFileFormat
                => "The first parameter should be the file to read\n"@,
        }
    }

    /// The line that reports the error, newline included.
    pub fn message(&self) -> (text: String)
        ensures
            text@ == self.rendered(),
    {
        match self {
            CommandArgsError::InvalidStackSize => String::from_str(
                "Stack size cannot be zero or less than or equal to one\n",
            ),
            CommandArgsError::FailParseStackSize => String::from_str(
                "There was an error parsing the number for stack-size\n",
            ),
            CommandArgsError::InvalidFormat => String::from_str(
                "Invalid format: the '=' is missing \n",
            ),
            CommandArgsError::FileNotSpecified => String::from_str(
                "The file to be read has not been specified \n",
            ),
            CommandArgsError::InvalidFileFormat => String::from_str(
                "The first parameter should be the file to read\n",
            ),
        }
    }
}

} // verus!
