//! The errors of a composition.
//!
//! Every failure is fatal and carries one of seven kinds and a message
//! for the user. Nothing is retried.

use vstd::prelude::*;
use vstd::string::*;

verus! {

/// What went wrong.
#[derive(Clone, Copy, Debug, PartialEq, Eq, Structural)]
pub enum ErrorKind {
    /// A missing or malformed manifest, a bad output path, a request with nothing to do.
    Configuration,
    /// The store cannot be opened or a required reference does not resolve.
    StoreUnavailable,
    /// Both `/etc` and `/usr/etc`, the removal of a package that is not
    /// layered, a file of an unknown type at the top level.
    InvariantViolation,
    /// A tool that was run ended with a failure.
    SubprocessFailed,
    /// The file system failed while normalizing, walking or checking out.
    Io,
    /// A path that is not UTF-8, an attribute of an unexpected shape.
    Encoding,
    /// Both ends of the archive pipe failed.
    DualFailure,
}

/// A fatal error: its kind and the message shown to the user.
#[derive(Debug)]
pub struct Error {
    pub kind: ErrorKind,
    pub message: String,
}

/// What an `Error` holds, as plain values.
pub ghost struct Failure {
    pub kind: ErrorKind,
    pub message: Seq<char>,
}

impl View for Error {
    type V = Failure;

    open spec fn view(&self) -> Failure {
        Failure { kind: self.kind, message: self.message@ }
    }
}

impl Error {
    /// An error of `kind` that says `message`.
    pub fn new(kind: ErrorKind, message: &str) -> (e: Error)
        ensures
            e.kind == kind,
            e.message@ == message@,
    {
        Error { kind, message: message.to_owned() }
    }

    /// The message of the error.
    pub fn message(&self) -> (m: &str)
        ensures
            m@ == self.message@,
    {
        self.message.as_str()
    }
}

/// The message of the failure of both ends of the archive pipe: it names
/// the failure of the producer and that of the extractor.
pub open spec fn dual_failure_message(producer: Seq<char>, extractor: Seq<char>) -> Seq<char> {
    "archive producer failed: "@ + producer + "; extractor failed: "@ + extractor
}

/// How the two ends of the archive pipe ended, as one result: success if
/// both succeeded, the failure of the one that failed, and a failure that
/// names both if both failed.
pub fn join_pipe_ends(producer: Result<(), Error>, extractor: Result<(), Error>) -> (r: Result<
    (),
    Error,
>)
    ensures
        r is Ok <==> producer is Ok && extractor is Ok,
        producer is Err && extractor is Ok ==> r == producer,
        producer is Ok && extractor is Err ==> r == extractor,
        producer is Err && extractor is Err ==> r->Err_0.kind == ErrorKind::DualFailure
            && r->Err_0.message@ == dual_failure_message(
            producer->Err_0.message@,
            extractor->Err_0.message@,
        ),
{
    match (producer, extractor) {
        (Ok(()), Ok(())) => Ok(()),
        (Err(p), Ok(())) => Err(p),
        (Ok(()), Err(x)) => Err(x),
        (Err(p), Err(x)) => {
            let mut message = "archive producer failed: ".to_owned();
            message.append(p.message.as_str());
            message.append("; extractor failed: ");
            message.append(x.message.as_str());
            Err(Error { kind: ErrorKind::DualFailure, message })
        },
    }
}

} // verus!
