use vstd::prelude::*;

verus! {

/// The two failure kinds the library reports. Every other operation is total:
/// malformed input degrades to empty or lossy output instead of failing.
#[derive(Debug)]
pub enum MailError {
    /// A caller-supplied pattern failed to compile; carries the compiler's
    /// diagnostic text.
    InvalidPattern(String),
    /// A file could not be opened or mapped; carries the reported cause.
    IoError(String),
}

impl MailError {
    /// The diagnostic text carried by the error.
    pub fn message(&self) -> (r: &str)
        ensures
            self matches MailError::InvalidPattern(m) ==> r@ == m@,
            self matches MailError::IoError(m) ==> r@ == m@,
    {
        match self {
            MailError::InvalidPattern(m) => m.as_str(),
            MailError::IoError(m) => m.as_str(),
        }
    }
}

} // verus!
