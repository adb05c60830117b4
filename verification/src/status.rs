//! Status codes of the RPC layer, and what domain errors map to.

use crate::error::DtrError;
use crate::error::ErrorView;
use vstd::prelude::*;

verus! {

/// The RPC status codes that the services answer with.
#[derive(Debug, Clone, Copy, PartialEq, Eq, Structural)]
pub enum Code {
    InvalidArgument,
    NotFound,
    Unauthenticated,
    FailedPrecondition,
    Aborted,
    Internal,
    Unavailable,
    DataLoss,
}

/// A refused request: a code and a message.
#[derive(Debug)]
pub struct Status {
    pub code: Code,
    pub message: String,
}

/// A [`Status`] with its message as a character sequence.
#[verifier::ext_equal]
pub struct StatusView {
    pub code: Code,
    pub message: Seq<char>,
}

impl View for Status {
    type V = StatusView;

    open spec fn view(&self) -> StatusView {
        StatusView { code: self.code, message: self.message@ }
    }
}

/// The code for an error.
pub open spec fn code_for(e: ErrorView) -> Code {
    match e {
        ErrorView::Config(_) => Code::Internal,
        ErrorView::Internal(_) => Code::Internal,
        ErrorView::Storage { .. } => Code::Unavailable,
        ErrorView::UnknownWorker(_) => Code::NotFound,
        ErrorView::InvalidSession(_) => Code::Unauthenticated,
        ErrorView::UnknownDataset(_) => Code::NotFound,
        ErrorView::UnknownLease(_) => Code::NotFound,
        ErrorView::UnknownCheckpoint(_) => Code::NotFound,
        ErrorView::LeaseExpired(_) => Code::FailedPrecondition,
        ErrorView::CheckpointNotReady { .. } => Code::FailedPrecondition,
        ErrorView::CheckpointCorrupt { .. } => Code::DataLoss,
        ErrorView::CheckpointAborted { .. } => Code::Aborted,
        ErrorView::InvalidArgument(_) => Code::InvalidArgument,
    }
}

/// The status for an error.
pub open spec fn status_for(e: ErrorView) -> StatusView {
    StatusView { code: code_for(e), message: e.message() }
}

/// Map the domain error taxonomy onto stable status codes.
pub fn to_status(err: DtrError) -> (out: Status)
    ensures
        out@ == status_for(err@),
{
    let message: String = err.to_string();
    let code: Code = match err {
        DtrError::Config(_) | DtrError::Internal(_) => Code::Internal,
        DtrError::Storage { .. } => Code::Unavailable,
        DtrError::UnknownWorker(_) => Code::NotFound,
        DtrError::InvalidSession(_) => Code::Unauthenticated,
        DtrError::UnknownDataset(_) | DtrError::UnknownLease(_)
        | DtrError::UnknownCheckpoint(_) => Code::NotFound,
        DtrError::LeaseExpired(_) => Code::FailedPrecondition,
        DtrError::CheckpointNotReady { .. } => Code::FailedPrecondition,
        DtrError::CheckpointCorrupt { .. } => Code::DataLoss,
        DtrError::CheckpointAborted { .. } => Code::Aborted,
        DtrError::InvalidArgument(_) => Code::InvalidArgument,
    };
    Status { code, message }
}

impl Code {
    /// The code as metrics label it.
    pub open spec fn label_text(self) -> Seq<char> {
        match self {
            Code::InvalidArgument => "invalid_argument"@,
            Code::NotFound => "not_found"@,
            Code::Unauthenticated => "unauthenticated"@,
            Code::FailedPrecondition => "failed_precondition"@,
            Code::Aborted => "aborted"@,
            Code::Internal => "internal"@,
            Code::Unavailable => "unavailable"@,
            Code::DataLoss => "data_loss"@,
        }
    }

    /// The code as metrics label it.
    pub fn label(&self) -> (out: String)
        ensures
            out@ == self.label_text(),
    {
        match self {
            Code::InvalidArgument => "invalid_argument".to_owned(),
            Code::NotFound => "not_found".to_owned(),
            Code::Unauthenticated => "unauthenticated".to_owned(),
            Code::FailedPrecondition => "failed_precondition".to_owned(),
            Code::Aborted => "aborted".to_owned(),
            Code::Internal => "internal".to_owned(),
            Code::Unavailable => "unavailable".to_owned(),
            Code::DataLoss => "data_loss".to_owned(),
        }
    }
}

/// The outcome of a request as metrics label it.
pub fn code_of<T>(outcome: &Result<T, Status>) -> (out: String)
    ensures
        out@ == (match *outcome {
            Ok(_) => "ok"@,
            Err(status) => status.code.label_text(),
        }),
{
    match outcome {
        Ok(_) => "ok".to_owned(),
        Err(status) => status.code.label(),
    }
}

/// A refusal with the given code.
pub fn refuse(code: Code, message: &str) -> (out: Status)
    ensures
        out@ == (StatusView { code, message: message@ }),
{
    Status { code, message: message.to_owned() }
}

/// A point in time since 1970, as it goes over the wire.
#[derive(Debug, Clone, Copy, PartialEq, Eq, Structural)]
pub struct Timestamp {
    pub seconds: i64,
    pub nanos: i32,
}

/// The wall-clock reading `wall`, in nanoseconds since 1970, `ms` milliseconds
/// later. What would lie before 1970 counts as 1970.
pub open spec fn wall_after(wall: i128, ms: u64) -> int {
    if wall + ms * 1000000 < 0 {
        0
    } else {
        wall + ms * 1000000
    }
}

/// The point in time that lies in the given number of milliseconds.
pub open spec fn timestamp(wall: i128, ms: u64) -> Timestamp {
    Timestamp {
        seconds: (wall_after(wall, ms) / 1000000000) as i64,
        nanos: (wall_after(wall, ms) % 1000000000) as i32,
    }
}

/// The earliest wall-clock reading, in nanoseconds since 1970.
pub const MIN_WALL: i128 = -9223372036854775808000000000;

/// The latest wall-clock reading that any delay can be added to.
pub const MAX_WALL: i128 = 9204925292781066255385000000;

/// What a wall clock can read if delays are to be added to it.
pub open spec fn wall_clock(wall: i128) -> bool {
    MIN_WALL <= wall <= MAX_WALL
}

/// Convert a wall-clock duration-from-now into a timestamp. `wall` is the
/// wall-clock reading in nanoseconds since 1970.
pub fn timestamp_after(wall: i128, ms_from_now: u64) -> (out: Timestamp)
    requires
        wall_clock(wall),
    ensures
        out == timestamp(wall, ms_from_now),
        out.seconds * 1000000000 + out.nanos == wall_after(wall, ms_from_now),
        0 <= out.nanos < 1000000000,
{
    let at: i128 = wall + ms_from_now as i128 * 1000000;
    let since: i128 = if at < 0 {
        0
    } else {
        at
    };
    Timestamp { seconds: (since / 1000000000) as i64, nanos: (since % 1000000000) as i32 }
}

/// Every error is answered with the code of its kind and its own message: what is
/// not known is not found, a wrong session unauthenticated, a lapsed lease and a
/// missing quorum a failed precondition, and a store that fails unavailable.
pub proof fn errors_are_answered_by_kind(e: ErrorView)
    ensures
        status_for(e).message == e.message(),
        match e {
            ErrorView::Config(_) => status_for(e).code == Code::Internal,
            ErrorView::Storage { .. } => status_for(e).code == Code::Unavailable,
            ErrorView::UnknownWorker(_) => status_for(e).code == Code::NotFound,
            ErrorView::InvalidSession(_) => status_for(e).code == Code::Unauthenticated,
            ErrorView::UnknownDataset(_) => status_for(e).code == Code::NotFound,
            ErrorView::UnknownLease(_) => status_for(e).code == Code::NotFound,
            ErrorView::LeaseExpired(_) => status_for(e).code == Code::FailedPrecondition,
            ErrorView::UnknownCheckpoint(_) => status_for(e).code == Code::NotFound,
            ErrorView::CheckpointNotReady { .. } => status_for(e).code == Code::FailedPrecondition,
            ErrorView::CheckpointCorrupt { .. } => status_for(e).code == Code::DataLoss,
            ErrorView::CheckpointAborted { .. } => status_for(e).code == Code::Aborted,
            ErrorView::InvalidArgument(_) => status_for(e).code == Code::InvalidArgument,
            ErrorView::Internal(_) => status_for(e).code == Code::Internal,
        },
{
}

/// Metrics label every code with its name, and a status is seen as it is.
pub proof fn codes_are_labelled_by_name(answered: Status)
    ensures
        Code::InvalidArgument.label_text() == "invalid_argument"@,
        Code::NotFound.label_text() == "not_found"@,
        Code::Unauthenticated.label_text() == "unauthenticated"@,
        Code::FailedPrecondition.label_text() == "failed_precondition"@,
        Code::Aborted.label_text() == "aborted"@,
        Code::Internal.label_text() == "internal"@,
        Code::Unavailable.label_text() == "unavailable"@,
        Code::DataLoss.label_text() == "data_loss"@,
        answered@.code == answered.code,
        answered@.message == answered.message@,
{
}

/// A point in time goes over the wire as whole seconds since 1970 and the
/// nanoseconds beyond them, exactly; what would lie before 1970 counts as 1970.
pub proof fn timestamps_are_exact(wall: i128, ms: u64)
    requires
        wall_clock(wall),
    ensures
        ({
            let at = wall + ms * 1000000;
            let sent = timestamp(wall, ms);
            &&& 0 <= sent.nanos < 1000000000
            &&& at >= 0 ==> sent.seconds * 1000000000 + sent.nanos == at
            &&& at < 0 ==> sent.seconds == 0 && sent.nanos == 0
        }),
{
    let since = wall_after(wall, ms);
    assert(0 <= since / 1000000000 <= i64::MAX);
    assert(0 <= since % 1000000000 < 1000000000);
    assert(since == (since / 1000000000) * 1000000000 + since % 1000000000);
}

} // verus!
