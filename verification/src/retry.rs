//! Which failed storage and spreadsheet requests are worth retrying.

use vstd::prelude::*;

verus! {

/// A failed GCS request, as far as retrying is concerned.
#[derive(Debug, Clone, Copy, PartialEq, Eq, Structural)]
pub enum GcsFailure {
    /// The service answered with an error status.
    Response { code: u16 },
    /// The HTTP client failed; whether it timed out or could not connect.
    HttpClient { is_timeout: bool, is_connect: bool },
    /// Anything else (middleware, token source, invalid range).
    Other,
}

/// A failed Sheets request, as far as retrying is concerned.
#[derive(Debug, Clone, Copy, PartialEq, Eq, Structural)]
pub enum SheetsFailure {
    /// The connection failed (reset, timeout).
    Transport,
    /// The service answered with a non-success status.
    Status { code: u16 },
    /// Anything else.
    Other,
}

/// Statuses that are retried: 408, 429 and every 5xx.
pub open spec fn retryable_status(code: u16) -> bool {
    code == 408 || code == 429 || (500 <= code && code <= 599)
}

fn is_retryable_status(code: u16) -> (r: bool)
    ensures
        r == retryable_status(code),
{
    code == 408 || code == 429 || (500 <= code && code <= 599)
}

/// The statuses retried are exactly 408 (request timeout), 429 (too many
/// requests) and every server error, 500 to 599; no other status is.
pub proof fn lemma_retried_statuses(code: u16)
    ensures
        500 <= code <= 599 ==> retryable_status(code),
        code == 408 ==> retryable_status(code),
        code == 429 ==> retryable_status(code),
        code < 500 && code != 408 && code != 429 ==> !retryable_status(code),
        code > 599 ==> !retryable_status(code),
{
}

/// Whether a GCS failure is transient: a retryable status, or a client
/// timeout or connection failure.
pub fn gcs_retryable(e: &GcsFailure) -> (r: bool)
    ensures
        r == match *e {
            GcsFailure::Response { code } => retryable_status(code),
            GcsFailure::HttpClient { is_timeout, is_connect } => is_timeout || is_connect,
            GcsFailure::Other => false,
        },
        (*e matches GcsFailure::Response { code } && (code == 408 || code == 429 || (500 <= code
            && code <= 599))) ==> r,
        (*e matches GcsFailure::Response { code } && !(code == 408 || code == 429 || (500
            <= code && code <= 599))) ==> !r,
{
    match e {
        GcsFailure::Response { code } => is_retryable_status(*code),
        GcsFailure::HttpClient { is_timeout, is_connect } => *is_timeout || *is_connect,
        GcsFailure::Other => false,
    }
}

/// Whether a Sheets failure is transient: any transport failure, or a
/// retryable status.
pub fn sheets_retryable(e: &SheetsFailure) -> (r: bool)
    ensures
        r == match *e {
            SheetsFailure::Transport => true,
            SheetsFailure::Status { code } => retryable_status(code),
            SheetsFailure::Other => false,
        },
        (*e matches SheetsFailure::Status { code } && (code == 408 || code == 429 || (500 <= code
            && code <= 599))) ==> r,
        (*e matches SheetsFailure::Status { code } && !(code == 408 || code == 429 || (500
            <= code && code <= 599))) ==> !r,
{
    match e {
        SheetsFailure::Transport => true,
        SheetsFailure::Status { code } => is_retryable_status(*code),
        SheetsFailure::Other => false,
    }
}

} // verus!
