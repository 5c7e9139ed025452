//! The failures an export can end in.

use vstd::prelude::*;

verus! {

/// A reference that cannot be written into the reference listing.
#[derive(Debug, PartialEq, Eq)]
pub enum RefError {
    /// The reference has no name.
    RefHasNoName,
    /// The reference does not point at an object.
    RefHasNoTarget { name: String },
}

/// A setting that a run cannot work with.
#[derive(Clone, Copy, Debug, PartialEq, Eq)]
pub enum ConfigError {
    /// No operation may be in flight: the concurrency limit is zero.
    ConcurrencyLimit,
    /// No attempt may be made: the number of attempts is zero.
    MaxAttempts,
    /// The directory of the run is not `TMP_PATH_LEN` ASCII letters and
    /// digits.
    Namespace,
}

/// Why an export, or one file of it, failed.
#[derive(Debug, PartialEq, Eq)]
pub enum Error {
    /// The IPFS daemon refused a request or could not be reached. Such a
    /// failure may pass: the request is worth repeating.
    Ipfs { text: String },
    /// The repository could not be read or walked.
    Git { text: String },
    /// The daemon stored another number of bytes than it was sent.
    MismatchedSizes { data: usize, ipfs: usize },
    /// A reference cannot be listed.
    Ref { source: RefError },
    /// The repository cannot tell whether a reference is direct or symbolic.
    NoReferenceKind,
    /// The target of a symbolic reference is not UTF-8.
    FromUtf8 { text: String },
    /// Compressing an object failed.
    Io { text: String },
    /// A setting of the run makes no sense.
    Config { source: ConfigError },
    /// Anything else that the surrounding program wants to report.
    Custom { text: String },
}

impl Clone for RefError {
    fn clone(&self) -> (res: Self)
        ensures
            res == *self,
    {
        match self {
            RefError::RefHasNoName => RefError::RefHasNoName,
            RefError::RefHasNoTarget { name } => RefError::RefHasNoTarget { name: name.clone() },
        }
    }
}

impl Clone for Error {
    fn clone(&self) -> (res: Self)
        ensures
            res == *self,
    {
        match self {
            Error::Ipfs { text } => Error::Ipfs { text: text.clone() },
            Error::Git { text } => Error::Git { text: text.clone() },
            Error::MismatchedSizes { data, ipfs } => Error::MismatchedSizes {
                data: *data,
                ipfs: *ipfs,
            },
            Error::Ref { source } => Error::Ref { source: source.clone() },
            Error::NoReferenceKind => Error::NoReferenceKind,
            Error::FromUtf8 { text } => Error::FromUtf8 { text: text.clone() },
            Error::Io { text } => Error::Io { text: text.clone() },
            Error::Config { source } => Error::Config { source: *source },
            Error::Custom { text } => Error::Custom { text: text.clone() },
        }
    }
}

impl Error {
    /// A failure reported by the IPFS daemon.
    pub fn ipfs(text: String) -> (e: Self)
        ensures
            e == (Error::Ipfs { text }),
    {
        Error::Ipfs { text }
    }

    /// A failure of the surrounding program.
    pub fn custom(text: String) -> (e: Self)
        ensures
            e == (Error::Custom { text }),
    {
        Error::Custom { text }
    }

    /// Whether repeating the failed request may help.
    pub open spec fn transient(self) -> bool {
        self is Ipfs
    }

    /// Whether repeating the failed request may help: true of a failure of
    /// the daemon's API, false of everything else.
    pub fn is_transient(&self) -> (b: bool)
        ensures
            b == self.transient(),
    {
        match self {
            Error::Ipfs { .. } => true,
            _ => false,
        }
    }
}

/// A file that could not be exported, and why.
#[derive(Debug, PartialEq, Eq)]
pub struct Failure {
    /// The path of the file inside the export.
    pub path: String,
    pub cause: Error,
}

/// A `Failure` with its path as a sequence of characters.
pub struct FailureView {
    pub path: Seq<char>,
    pub cause: Error,
}

impl View for Failure {
    type V = FailureView;

    open spec fn view(&self) -> FailureView {
        FailureView { path: self.path@, cause: self.cause }
    }
}

/// The views of a list of failures, in its order.
pub open spec fn failure_views(failures: Seq<Failure>) -> Seq<FailureView> {
    Seq::new(failures.len(), |i: int| failures[i]@)
}

} // verus!
