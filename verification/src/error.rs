//! The reasons for which a file name, or a set of file names, is rejected.

use vstd::prelude::*;

verus! {

/// A failed check, with what is needed to report it.
#[derive(Debug, PartialEq, Eq)]
pub enum FlywayNaimngCheckerError {
    /// The first character is none of the accepted prefixes.
    FlywayNamingPrefixError { file: String, expected: String, found: String },
    /// The file name is empty, so there is no prefix to look at.
    FlywayNamingCanNotFindPrefix { file: String },
    /// The text after the last `.` is not `sql`.
    FlywayNamingSufixError { file: String, expected: String, found: String },
    /// The file name does not hold exactly one `__`.
    FlywayNamingSeparatorError { file: String },
    /// A `V` or `U` prefix with nothing after it.
    FlywayNamingCanNotFindVersion { file: String },
    /// The character after a `V` or `U` prefix is not a digit.
    FlywayNamingVersionError { file: String, prefix: String, found: String },
    /// The file's version was already used by an earlier file.
    DuplicateVersion { file: String },
    /// Two neighbouring versions, in ascending order, are not one apart.
    SkippedVersion { file: String },
}

/// What a `FlywayNaimngCheckerError` says, with its texts as sequences of
/// characters. The rules are stated over this type.
pub enum Fault {
    /// The first character `found` is no prefix; `expected` is the prefix
    /// that was most likely meant.
    Prefix { file: Seq<char>, expected: Seq<char>, found: Seq<char> },
    /// The name is empty.
    NoPrefix { file: Seq<char> },
    /// The extension `found` is not the one `expected`.
    Suffix { file: Seq<char>, expected: Seq<char>, found: Seq<char> },
    /// The name does not hold exactly one separator.
    Separator { file: Seq<char> },
    /// Nothing follows the prefix `V` or `U`.
    NoVersion { file: Seq<char> },
    /// The character `found` behind `prefix` is no digit.
    Version { file: Seq<char>, prefix: Seq<char>, found: Seq<char> },
    /// `file` carries a version that an earlier file carries too.
    DuplicateVersion { file: Seq<char> },
    /// Two neighbouring versions are not one apart; `file` holds the report,
    /// `From V1 to V3` for one.
    SkippedVersion { file: Seq<char> },
}

/// The outcome of a check in the model: passed, or the fault found.
pub type Verdict = Result<(), Fault>;

impl View for FlywayNaimngCheckerError {
    type V = Fault;

    open spec fn view(&self) -> Fault {
        match *self {
            Self::FlywayNamingPrefixError { file, expected, found } => Fault::Prefix {
                file: file@,
                expected: expected@,
                found: found@,
            },
            Self::FlywayNamingCanNotFindPrefix { file } => Fault::NoPrefix { file: file@ },
            Self::FlywayNamingSufixError { file, expected, found } => Fault::Suffix {
                file: file@,
                expected: expected@,
                found: found@,
            },
            Self::FlywayNamingSeparatorError { file } => Fault::Separator { file: file@ },
            Self::FlywayNamingCanNotFindVersion { file } => Fault::NoVersion { file: file@ },
            Self::FlywayNamingVersionError { file, prefix, found } => Fault::Version {
                file: file@,
                prefix: prefix@,
                found: found@,
            },
            Self::DuplicateVersion { file } => Fault::DuplicateVersion { file: file@ },
            Self::SkippedVersion { file } => Fault::SkippedVersion { file: file@ },
        }
    }
}

/// The verdict that a returned result stands for.
pub open spec fn verdict_of(result: Result<(), FlywayNaimngCheckerError>) -> Verdict {
    match result {
        Ok(()) => Ok(()),
        Err(error) => Err(error@),
    }
}

} // verus!
