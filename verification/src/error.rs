use vstd::prelude::*;

verus! {

/// The ways an operation of this library can fail, one variant per
/// distinguishable failure cause.
#[derive(Clone, Copy, PartialEq, Eq, Structural, Debug)]
pub enum ErrorKind {
    /// A candidate address does not match the email syntax pattern.
    InvalidFormat,
    /// A syntactically valid address has a banned local part or an
    /// unsupported domain.
    InvalidAddress,
    /// The transport failed before a response body was obtained.
    NetworkError,
    /// A response body is not valid JSON of the expected shape.
    DecodeError,
    /// A well-formed response is missing the expected field.
    ApiResponseError,
    /// A message could not be fetched under the given id.
    MessageNotFound,
    /// A date string deviates from the `YYYY-MM-DD HH:MM:SS` format.
    MalformedTimestamp,
}

/// An error value: a classified kind plus a human-readable message.
#[derive(Debug)]
pub struct Error {
    kind: ErrorKind,
    message: String,
}

impl Error {
    /// The kind of this error, for use in specifications.
    pub closed spec fn spec_kind(&self) -> ErrorKind {
        self.kind
    }

    /// The message of this error, for use in specifications.
    pub closed spec fn spec_message(&self) -> Seq<char> {
        self.message@
    }

    /// Builds an error of the given kind carrying the given message.
    pub fn new(kind: ErrorKind, message: &str) -> (r: Error)
        ensures
            r.spec_kind() == kind,
            r.spec_message() == message@,
    {
        Error { kind, message: message.to_owned() }
    }

    /// Which kind of failure this error reports.
    pub fn kind(&self) -> (k: ErrorKind)
        ensures
            k == self.spec_kind(),
    {
        self.kind
    }

    /// The human-readable message, for presentation by the caller.
    pub fn message(&self) -> (m: String)
        ensures
            m@ == self.spec_message(),
    {
        self.message.clone()
    }
}

} // verus!
