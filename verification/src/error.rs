//! The closed set of failures that a run can meet.

use vstd::prelude::*;

verus! {

/// Why a run, or one input of a run, could not be processed.
#[derive(Debug)]
pub enum Error {
    /// The command line is not acceptable. Carries the offending value.
    Configuration(String),
    /// An input could not be opened. Carries the reason.
    Open(String),
    /// An input failed while it was being read. Carries the reason.
    Read(String),
}

impl Error {
    /// The text that the error carries.
    pub open spec fn message(self) -> Seq<char> {
        match self {
            Error::Configuration(m) => m@,
            Error::Open(m) => m@,
            Error::Read(m) => m@,
        }
    }

    /// The text that the error carries, as the caller shows it to the user.
    pub fn to_string(&self) -> (r: String)
        ensures
            r@ == self.message(),
    {
        match self {
            Error::Configuration(m) => m.clone(),
            Error::Open(m) => m.clone(),
            Error::Read(m) => m.clone(),
        }
    }

    /// The text that the error carries, borrowed.
    pub fn as_str(&self) -> (r: &str)
        ensures
            r@ == self.message(),
    {
        match self {
            Error::Configuration(m) => m.as_str(),
            Error::Open(m) => m.as_str(),
            Error::Read(m) => m.as_str(),
        }
    }
}

} // verus!
