//! Errors that the services report to whoever started or called them.

use vstd::prelude::*;

verus! {

/// What went wrong, with the text that is shown.
#[derive(Debug, Clone)]
pub enum Error {
    /// A configuration value is not acceptable.
    Config(String),
    /// A request was refused or failed.
    Service(String),
}

impl Error {
    /// The text that is shown.
    pub open spec fn text(self) -> Seq<char> {
        match self {
            Error::Config(text) => text@,
            Error::Service(text) => text@,
        }
    }

    /// A configuration error with the given text.
    pub fn config(text: &str) -> (error: Error)
        ensures
            error is Config,
            error.text() == text@,
    {
        Error::Config(text.to_owned())
    }

    /// A service error with the given text.
    pub fn service(text: &str) -> (error: Error)
        ensures
            error is Service,
            error.text() == text@,
    {
        Error::Service(text.to_owned())
    }

    /// The text that is shown.
    pub fn message(&self) -> (text: String)
        ensures
            text@ == self.text(),
    {
        match self {
            Error::Config(text) => text.clone(),
            Error::Service(text) => text.clone(),
        }
    }
}

} // verus!
