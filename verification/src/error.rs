//! The kinds of failure that the library tells apart.

use vstd::prelude::*;
use vstd::string::StringExecFns;

verus! {

/// The kinds of failure.
#[derive(Clone, Copy, Debug, PartialEq, Eq, Structural)]
pub enum ErrorKind {
    /// One candidate file could not be read; the next one is tried.
    SourceUnavailable,
    /// No candidate file gave a credential.
    NoReadableSource,
    /// Imported text is in neither of the accepted JSON shapes.
    InvalidFormat,
    /// The platform is too old for adding networks.
    ImportUnsupported,
    /// The command that adds one network failed.
    PerItemAddFailure,
}

impl ErrorKind {
    /// The words in which the failure is told to the user.
    pub open spec fn words(self) -> Seq<char> {
        match self {
            ErrorKind::SourceUnavailable => "could not read the file"@,
            ErrorKind::NoReadableSource => "root denied or config not found"@,
            ErrorKind::InvalidFormat => "invalid JSON format"@,
            ErrorKind::ImportUnsupported => "adding networks is not supported on this platform"@,
            ErrorKind::PerItemAddFailure => "could not add the network"@,
        }
    }

    /// Tells the failure in a few words.
    pub fn message(self) -> (s: String)
        ensures
            s@ == self.words(),
    {
        match self {
            ErrorKind::SourceUnavailable => String::from_str("could not read the file"),
            ErrorKind::NoReadableSource => String::from_str("root denied or config not found"),
            ErrorKind::InvalidFormat => String::from_str("invalid JSON format"),
            ErrorKind::ImportUnsupported => String::from_str(
                "adding networks is not supported on this platform",
            ),
            ErrorKind::PerItemAddFailure => String::from_str("could not add the network"),
        }
    }
}

} // verus!
