//! Errors of outputs.

use vstd::prelude::*;

verus! {

#[derive(Clone, Debug, PartialEq, Eq)]
pub enum OutputError {
    /// An I/O error, by its operating system code where it has one.
    Io(Option<i32>),
    Socks5(String),
    InvalidTarget(String),
}

/// The mathematical form of an `OutputError`.
pub enum OutputFault {
    Io(Option<i32>),
    Socks5(Seq<char>),
    InvalidTarget(Seq<char>),
}

impl View for OutputError {
    type V = OutputFault;

    open spec fn view(&self) -> OutputFault {
        match self {
            OutputError::Io(code) => OutputFault::Io(*code),
            OutputError::Socks5(message) => OutputFault::Socks5(message@),
            OutputError::InvalidTarget(message) => OutputFault::InvalidTarget(message@),
        }
    }
}

} // verus!
