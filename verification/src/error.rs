//! The error vocabulary every read path of this crate reports in.

use crate::budget::BudgetDimension;
use vstd::prelude::*;

verus! {


/// Why a read did not produce its answer.
///
/// `code` is the stable identifier a caller matches on; `message` is the human reading of the
/// same fact.
#[derive(Clone, Debug, PartialEq, Eq)]
pub enum Error {
    /// The input (or a request about it) is malformed.
    InvalidInput { code: String, message: String },
    /// The input is well formed but names something this reader does not support.
    Unsupported { code: String, message: String },
    /// Cooperative cancellation was requested.
    Cancelled { reason: String },
    /// A counted or high-water dimension of the request's budget refused the work.
    BudgetExceeded { dimension: BudgetDimension, limit: u64, consumed: u64, requested: u64 },
}

pub type Result<T> = core::result::Result<T, Error>;

/// The error is an `InvalidInput` with this code.
pub open spec fn is_invalid(e: Error, code: Seq<char>) -> bool {
    e matches Error::InvalidInput { code: c, .. } && c@ == code
}

/// The error is an `Unsupported` with this code.
pub open spec fn is_unsupported(e: Error, code: Seq<char>) -> bool {
    e matches Error::Unsupported { code: c, .. } && c@ == code
}

/// The error is an `InvalidInput` with this code and this message.
pub open spec fn is_invalid_with(e: Error, code: Seq<char>, message: Seq<char>) -> bool {
    e matches Error::InvalidInput { code: c, message: m } && c@ == code && m@ == message
}

/// The error is a budget refusal of this dimension.
pub open spec fn is_budget(e: Error, dimension: BudgetDimension) -> bool {
    e matches Error::BudgetExceeded { dimension: d, .. } && d == dimension
}

/// The error is one a checkpoint of the request raises by itself: cancellation, or the
/// elapsed-time limit.
pub open spec fn is_stop(e: Error) -> bool {
    ||| e is Cancelled
    ||| is_budget(e, BudgetDimension::ElapsedMillis)
}

impl Error {
    pub fn invalid_input(code: &str, message: &str) -> (e: Error)
        ensures
            is_invalid_with(e, code@, message@),
    {
        Error::InvalidInput { code: String::from_str(code), message: String::from_str(message) }
    }

    pub fn invalid_input_owned(code: &str, message: String) -> (e: Error)
        ensures
            is_invalid_with(e, code@, message@),
    {
        Error::InvalidInput { code: String::from_str(code), message }
    }

    pub fn unsupported(code: &str, message: &str) -> (e: Error)
        ensures
            is_unsupported(e, code@),
            e matches Error::Unsupported { message: m, .. } && m@ == message@,
    {
        Error::Unsupported { code: String::from_str(code), message: String::from_str(message) }
    }

    pub fn unsupported_owned(code: &str, message: String) -> (e: Error)
        ensures
            is_unsupported(e, code@),
            e matches Error::Unsupported { message: m, .. } && m@ == message@,
    {
        Error::Unsupported { code: String::from_str(code), message }
    }

    /// The cancellation every checkpoint of this crate reports.
    pub fn cancelled() -> (e: Error)
        ensures
            e matches Error::Cancelled { reason } && reason@ == "cooperative cancellation requested"@,
    {
        Error::Cancelled { reason: String::from_str("cooperative cancellation requested") }
    }
}

} // verus!
