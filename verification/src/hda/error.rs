//! The errors of the audio driver's command ring setup.

use vstd::prelude::*;

verus! {

/// An error raised while bringing up the command outbound ring buffer.
#[derive(Debug, Clone, Copy, PartialEq, Eq, Structural)]
pub enum Error {
    CorbRPResetTimeout,
    CorbMemoryError,
}

/// The name of a variant, as its debug form prints it.
pub open spec fn error_name(e: Error) -> Seq<char> {
    match e {
        Error::CorbRPResetTimeout => "CorbRPResetTimeout"@,
        Error::CorbMemoryError => "CorbMemoryError"@,
    }
}

/// The sentence that describes a variant.
pub open spec fn error_description(e: Error) -> Seq<char> {
    match e {
        Error::CorbRPResetTimeout => "Corb RP Reset Timeout"@,
        Error::CorbMemoryError => "Corb Memory Error"@,
    }
}

impl Error {
    /// A short description of the error.
    pub fn description(&self) -> (r: &'static str)
        ensures
            r@ == error_description(*self),
    {
        match self {
            Error::CorbRPResetTimeout => "Corb RP Reset Timeout",
            Error::CorbMemoryError => "Corb Memory Error",
        }
    }

    /// The text that displaying the error shows: the variant's name.
    pub fn to_string(&self) -> (r: String)
        ensures
            r@ == error_name(*self),
    {
        match self {
            Error::CorbRPResetTimeout => String::from_str("CorbRPResetTimeout"),
            Error::CorbMemoryError => String::from_str("CorbMemoryError"),
        }
    }
}

} // verus!
