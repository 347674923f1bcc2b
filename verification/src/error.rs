//! The error taxonomy shared by every stage.
use vstd::prelude::*;
use vstd::string::StringExecFns;

verus! {

/// The stage an error came from.
#[derive(Clone, Copy, PartialEq, Eq, Structural, Debug)]
pub enum ErrorKind {
    Processor,
    Tokenizer,
    Parser,
    Converter,
    Interpreter,
    Compiler,
    Argument,
    File,
    Generic,
}

/// The mathematical content of an error: its stage and its message.
pub struct Failure {
    pub kind: ErrorKind,
    pub message: Seq<char>,
}

/// An error of the toolchain. Each variant carries a human-readable message.
#[derive(Debug)]
pub enum DSAsmError {
    ProcessorError(String),
    TokenizerError(String),
    ParserError(String),
    ConverterError(String),
    InterpreterError(String),
    CompilerError(String),
    ArgumentError(String),
    FileError(String),
    GenericError(String),
}

/// The name under which an error of the given kind is reported.
pub open spec fn kind_name(kind: ErrorKind) -> Seq<char> {
    match kind {
        ErrorKind::Processor => "ProcessorError"@,
        ErrorKind::Tokenizer => "TokenizerError"@,
        ErrorKind::Parser => "ParserError"@,
        ErrorKind::Converter => "ConverterError"@,
        ErrorKind::Interpreter => "InterpreterError"@,
        ErrorKind::Compiler => "CompilerError"@,
        ErrorKind::Argument => "ArgumentError"@,
        ErrorKind::File => "FileError"@,
        ErrorKind::Generic => "GenericError"@,
    }
}

/// A failure of the given kind with the given message.
pub open spec fn failure(kind: ErrorKind, message: Seq<char>) -> Failure {
    Failure { kind, message }
}

/// `r` carries the value or the failure that `model` prescribes.
pub open spec fn agrees<T>(r: Result<T, DSAsmError>, model: Result<T, Failure>) -> bool {
    match r {
        Ok(v) => model == Ok::<T, Failure>(v),
        Err(e) => model == Err::<T, Failure>(e@),
    }
}

impl View for DSAsmError {
    type V = Failure;

    open spec fn view(&self) -> Failure {
        match *self {
            DSAsmError::ProcessorError(m) => failure(ErrorKind::Processor, m@),
            DSAsmError::TokenizerError(m) => failure(ErrorKind::Tokenizer, m@),
            DSAsmError::ParserError(m) => failure(ErrorKind::Parser, m@),
            DSAsmError::ConverterError(m) => failure(ErrorKind::Converter, m@),
            DSAsmError::InterpreterError(m) => failure(ErrorKind::Interpreter, m@),
            DSAsmError::CompilerError(m) => failure(ErrorKind::Compiler, m@),
            DSAsmError::ArgumentError(m) => failure(ErrorKind::Argument, m@),
            DSAsmError::FileError(m) => failure(ErrorKind::File, m@),
            DSAsmError::GenericError(m) => failure(ErrorKind::Generic, m@),
        }
    }
}

impl DSAsmError {
    /// An error of the given kind with the given message.
    pub fn new(kind: ErrorKind, message: String) -> (e: DSAsmError)
        ensures
            e@ == failure(kind, message@),
    {
        match kind {
            ErrorKind::Processor => DSAsmError::ProcessorError(message),
            ErrorKind::Tokenizer => DSAsmError::TokenizerError(message),
            ErrorKind::Parser => DSAsmError::ParserError(message),
            ErrorKind::Converter => DSAsmError::ConverterError(message),
            ErrorKind::Interpreter => DSAsmError::InterpreterError(message),
            ErrorKind::Compiler => DSAsmError::CompilerError(message),
            ErrorKind::Argument => DSAsmError::ArgumentError(message),
            ErrorKind::File => DSAsmError::FileError(message),
            ErrorKind::Generic => DSAsmError::GenericError(message),
        }
    }

    /// The stage the error came from.
    pub fn kind(&self) -> (k: ErrorKind)
        ensures
            k == self@.kind,
    {
        match self {
            DSAsmError::ProcessorError(_) => ErrorKind::Processor,
            DSAsmError::TokenizerError(_) => ErrorKind::Tokenizer,
            DSAsmError::ParserError(_) => ErrorKind::Parser,
            DSAsmError::ConverterError(_) => ErrorKind::Converter,
            DSAsmError::InterpreterError(_) => ErrorKind::Interpreter,
            DSAsmError::CompilerError(_) => ErrorKind::Compiler,
            DSAsmError::ArgumentError(_) => ErrorKind::Argument,
            DSAsmError::FileError(_) => ErrorKind::File,
            DSAsmError::GenericError(_) => ErrorKind::Generic,
        }
    }

    /// The message the error carries.
    pub fn message(&self) -> (m: &String)
        ensures
            m@ == self@.message,
    {
        match self {
            DSAsmError::ProcessorError(m) => m,
            DSAsmError::TokenizerError(m) => m,
            DSAsmError::ParserError(m) => m,
            DSAsmError::ConverterError(m) => m,
            DSAsmError::InterpreterError(m) => m,
            DSAsmError::CompilerError(m) => m,
            DSAsmError::ArgumentError(m) => m,
            DSAsmError::FileError(m) => m,
            DSAsmError::GenericError(m) => m,
        }
    }

    /// The error as it is shown to a user: the kind's name, a colon and a
    /// space, then the message.
    pub fn to_string(&self) -> (s: String)
        ensures
            s@ == kind_name(self@.kind) + ": "@ + self@.message,
    {
        let mut s = match self {
            DSAsmError::ProcessorError(_) => String::from_str("ProcessorError"),
            DSAsmError::TokenizerError(_) => String::from_str("TokenizerError"),
            DSAsmError::ParserError(_) => String::from_str("ParserError"),
            DSAsmError::ConverterError(_) => String::from_str("ConverterError"),
            DSAsmError::InterpreterError(_) => String::from_str("InterpreterError"),
            DSAsmError::CompilerError(_) => String::from_str("CompilerError"),
            DSAsmError::ArgumentError(_) => String::from_str("ArgumentError"),
            DSAsmError::FileError(_) => String::from_str("FileError"),
            DSAsmError::GenericError(_) => String::from_str("GenericError"),
        };
        s.append(": ");
        s.append(self.message().as_str());
        s
    }
}

} // verus!
