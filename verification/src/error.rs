use vstd::prelude::*;

verus! {

/// The failure taxonomy of the composer. No error is caught or retried
/// internally: every failure aborts the remaining pipeline and carries its
/// message to the caller.
#[derive(Debug)]
pub enum Error {
    /// The schema file was malformed or unreadable.
    Config(String),
    /// A history query or commit invocation failed at the process level.
    Io(String),
    /// The commit tool ran but reported failure; carries its combined output.
    Commit(String),
    /// The prompt layer failed, e.g. the input stream was closed.
    Interaction(String),
}

impl Error {
    /// The human-readable message carried by the error.
    pub fn message(&self) -> (r: &str)
        ensures
            r@ == self.message_text(),
    {
        match self {
            Error::Config(m) => m.as_str(),
            Error::Io(m) => m.as_str(),
            Error::Commit(m) => m.as_str(),
            Error::Interaction(m) => m.as_str(),
        }
    }

    /// The message each variant carries.
    pub open spec fn message_text(&self) -> Seq<char> {
        match self {
            Error::Config(m) => m@,
            Error::Io(m) => m@,
            Error::Commit(m) => m@,
            Error::Interaction(m) => m@,
        }
    }
}

} // verus!
