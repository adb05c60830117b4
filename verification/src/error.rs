//! Error taxonomy shared across the runtime.
//!
//! Every module maps its failures into `DtrError` at its public boundary so the
//! RPC layer can translate them into stable status codes.

use crate::text;
use vstd::prelude::*;

verus! {

#[derive(Debug)]
pub enum DtrError {
    Config(String),
    Storage { uri: String, source: String },
    UnknownWorker(String),
    InvalidSession(String),
    UnknownDataset(String),
    UnknownLease(String),
    LeaseExpired(String),
    UnknownCheckpoint(String),
    CheckpointNotReady { token: String, reason: String },
    CheckpointCorrupt { token: String, reason: String },
    CheckpointAborted { token: String, reason: String },
    InvalidArgument(String),
    Internal(String),
}

/// A [`DtrError`] with its texts as character sequences.
pub enum ErrorView {
    Config(Seq<char>),
    Storage { uri: Seq<char>, source: Seq<char> },
    UnknownWorker(Seq<char>),
    InvalidSession(Seq<char>),
    UnknownDataset(Seq<char>),
    UnknownLease(Seq<char>),
    LeaseExpired(Seq<char>),
    UnknownCheckpoint(Seq<char>),
    CheckpointNotReady { token: Seq<char>, reason: Seq<char> },
    CheckpointCorrupt { token: Seq<char>, reason: Seq<char> },
    CheckpointAborted { token: Seq<char>, reason: Seq<char> },
    InvalidArgument(Seq<char>),
    Internal(Seq<char>),
}

impl View for DtrError {
    type V = ErrorView;

    open spec fn view(&self) -> ErrorView {
        match *self {
            DtrError::Config(m) => ErrorView::Config(m@),
            DtrError::Storage { uri, source } => ErrorView::Storage { uri: uri@, source: source@ },
            DtrError::UnknownWorker(id) => ErrorView::UnknownWorker(id@),
            DtrError::InvalidSession(id) => ErrorView::InvalidSession(id@),
            DtrError::UnknownDataset(id) => ErrorView::UnknownDataset(id@),
            DtrError::UnknownLease(id) => ErrorView::UnknownLease(id@),
            DtrError::LeaseExpired(id) => ErrorView::LeaseExpired(id@),
            DtrError::UnknownCheckpoint(id) => ErrorView::UnknownCheckpoint(id@),
            DtrError::CheckpointNotReady { token, reason } => ErrorView::CheckpointNotReady {
                token: token@,
                reason: reason@,
            },
            DtrError::CheckpointCorrupt { token, reason } => ErrorView::CheckpointCorrupt {
                token: token@,
                reason: reason@,
            },
            DtrError::CheckpointAborted { token, reason } => ErrorView::CheckpointAborted {
                token: token@,
                reason: reason@,
            },
            DtrError::InvalidArgument(m) => ErrorView::InvalidArgument(m@),
            DtrError::Internal(m) => ErrorView::Internal(m@),
        }
    }
}

impl ErrorView {
    /// The error as one line of text.
    pub open spec fn message(self) -> Seq<char> {
        match self {
            ErrorView::Config(m) => "configuration error: "@ + m,
            ErrorView::Storage { uri, source } => "storage error at "@ + uri + ": "@ + source,
            ErrorView::UnknownWorker(id) => "unknown worker '"@ + id
                + "' (not registered or evicted)"@,
            ErrorView::InvalidSession(id) => "invalid session token for worker '"@ + id + "'"@,
            ErrorView::UnknownDataset(id) => "unknown dataset '"@ + id + "'"@,
            ErrorView::UnknownLease(id) => "unknown lease '"@ + id + "'"@,
            ErrorView::LeaseExpired(id) => "lease '"@ + id
                + "' expired and its shards were reassigned"@,
            ErrorView::UnknownCheckpoint(id) => "unknown checkpoint token '"@ + id + "'"@,
            ErrorView::CheckpointNotReady { token, reason } => "checkpoint "@ + token
                + " cannot commit: "@ + reason,
            ErrorView::CheckpointCorrupt { token, reason } => "checkpoint "@ + token
                + " verification failed: "@ + reason,
            ErrorView::CheckpointAborted { token, reason } => "checkpoint "@ + token
                + " aborted: "@ + reason,
            ErrorView::InvalidArgument(m) => "invalid argument: "@ + m,
            ErrorView::Internal(m) => "internal error: "@ + m,
        }
    }
}

fn sentence(start: &str, first: &str, middle: &str, second: &str) -> (out: String)
    ensures
        out@ == start@ + first@ + middle@ + second@,
{
    let mut out: String = start.to_owned();
    out.append(first);
    out.append(middle);
    out.append(second);
    out
}

impl DtrError {
    /// A storage failure with the URI at which it came up.
    pub fn storage(uri: &str, source: &str) -> (out: Self)
        ensures
            out@ == (ErrorView::Storage { uri: uri@, source: source@ }),
    {
        DtrError::Storage { uri: uri.to_owned(), source: source.to_owned() }
    }

    /// The error as one line of text.
    pub fn to_string(&self) -> (out: String)
        ensures
            out@ == self@.message(),
    {
        match self {
            DtrError::Config(m) => text::join2("configuration error: ", m.as_str()),
            DtrError::Storage { uri, source } => sentence(
                "storage error at ",
                uri.as_str(),
                ": ",
                source.as_str(),
            ),
            DtrError::UnknownWorker(id) => text::join3(
                "unknown worker '",
                id.as_str(),
                "' (not registered or evicted)",
            ),
            DtrError::InvalidSession(id) => text::join3(
                "invalid session token for worker '",
                id.as_str(),
                "'",
            ),
            DtrError::UnknownDataset(id) => text::join3("unknown dataset '", id.as_str(), "'"),
            DtrError::UnknownLease(id) => text::join3("unknown lease '", id.as_str(), "'"),
            DtrError::LeaseExpired(id) => text::join3(
                "lease '",
                id.as_str(),
                "' expired and its shards were reassigned",
            ),
            DtrError::UnknownCheckpoint(id) => text::join3(
                "unknown checkpoint token '",
                id.as_str(),
                "'",
            ),
            DtrError::CheckpointNotReady { token, reason } => sentence(
                "checkpoint ",
                token.as_str(),
                " cannot commit: ",
                reason.as_str(),
            ),
            DtrError::CheckpointCorrupt { token, reason } => sentence(
                "checkpoint ",
                token.as_str(),
                " verification failed: ",
                reason.as_str(),
            ),
            DtrError::CheckpointAborted { token, reason } => sentence(
                "checkpoint ",
                token.as_str(),
                " aborted: ",
                reason.as_str(),
            ),
            DtrError::InvalidArgument(m) => text::join2("invalid argument: ", m.as_str()),
            DtrError::Internal(m) => text::join2("internal error: ", m.as_str()),
        }
    }
}

/// A result that carries nothing but success, in views.
pub open spec fn done(out: Result<(), DtrError>) -> Result<(), ErrorView> {
    match out {
        Ok(()) => Ok(()),
        Err(e) => Err(e@),
    }
}

/// Every error keeps its kind and its texts on the way to its view.
pub proof fn errors_are_seen_as_they_are(e: DtrError)
    ensures
        match e {
            DtrError::Config(m) => e@ == ErrorView::Config(m@),
            DtrError::Storage { uri, source } => e@ == (ErrorView::Storage {
                uri: uri@,
                source: source@,
            }),
            DtrError::UnknownWorker(id) => e@ == ErrorView::UnknownWorker(id@),
            DtrError::InvalidSession(id) => e@ == ErrorView::InvalidSession(id@),
            DtrError::UnknownDataset(id) => e@ == ErrorView::UnknownDataset(id@),
            DtrError::UnknownLease(id) => e@ == ErrorView::UnknownLease(id@),
            DtrError::LeaseExpired(id) => e@ == ErrorView::LeaseExpired(id@),
            DtrError::UnknownCheckpoint(id) => e@ == ErrorView::UnknownCheckpoint(id@),
            DtrError::CheckpointNotReady { token, reason } => e@
                == (ErrorView::CheckpointNotReady { token: token@, reason: reason@ }),
            DtrError::CheckpointCorrupt { token, reason } => e@ == (ErrorView::CheckpointCorrupt {
                token: token@,
                reason: reason@,
            }),
            DtrError::CheckpointAborted { token, reason } => e@ == (ErrorView::CheckpointAborted {
                token: token@,
                reason: reason@,
            }),
            DtrError::InvalidArgument(m) => e@ == ErrorView::InvalidArgument(m@),
            DtrError::Internal(m) => e@ == ErrorView::Internal(m@),
        },
        done(Ok(())) == Ok::<(), ErrorView>(()),
        done(Err(e)) == Err::<(), ErrorView>(e@),
{
}

/// Every error says what it is about, and why.
pub proof fn messages_say_what_and_why(id: Seq<char>, why: Seq<char>)
    ensures
        ErrorView::Config(why).message() == "configuration error: "@ + why,
        (ErrorView::Storage { uri: id, source: why }).message() == "storage error at "@ + id
            + ": "@ + why,
        ErrorView::UnknownWorker(id).message() == "unknown worker '"@ + id
            + "' (not registered or evicted)"@,
        ErrorView::InvalidSession(id).message() == "invalid session token for worker '"@ + id
            + "'"@,
        ErrorView::UnknownDataset(id).message() == "unknown dataset '"@ + id + "'"@,
        ErrorView::UnknownLease(id).message() == "unknown lease '"@ + id + "'"@,
        ErrorView::LeaseExpired(id).message() == "lease '"@ + id
            + "' expired and its shards were reassigned"@,
        ErrorView::UnknownCheckpoint(id).message() == "unknown checkpoint token '"@ + id + "'"@,
        (ErrorView::CheckpointNotReady { token: id, reason: why }).message() == "checkpoint "@ + id
            + " cannot commit: "@ + why,
        (ErrorView::CheckpointCorrupt { token: id, reason: why }).message() == "checkpoint "@ + id
            + " verification failed: "@ + why,
        (ErrorView::CheckpointAborted { token: id, reason: why }).message() == "checkpoint "@ + id
            + " aborted: "@ + why,
        ErrorView::InvalidArgument(why).message() == "invalid argument: "@ + why,
        ErrorView::Internal(why).message() == "internal error: "@ + why,
{
}

} // verus!
