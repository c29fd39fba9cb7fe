//! Status kinds that the outer interface reports.

use vstd::prelude::*;

verus! {

/// How a call through the outer interface ended.
#[derive(Debug, Clone, Copy, PartialEq, Eq, Structural)]
pub enum SaxsStatus {
    /// Success.
    Success,
    /// A required handle was absent.
    NullPointer,
    /// A condition on the shape or range of an input failed.
    InvalidArgument,
    /// The vectors of a sample differ in length.
    LengthMismatch,
    /// An identifier was not valid text.
    InvalidUtf8,
    /// An unexpected failure inside the runtime.
    RuntimeError,
    /// The batch was cancelled before it was done.
    Cancelled,
    /// A resource, such as a stage, is not registered.
    NotFound,
}

/// The number that stands for each status.
pub open spec fn code_of(status: SaxsStatus) -> u32 {
    match status {
        SaxsStatus::Success => 0,
        SaxsStatus::NullPointer => 1,
        SaxsStatus::InvalidArgument => 2,
        SaxsStatus::LengthMismatch => 3,
        SaxsStatus::InvalidUtf8 => 4,
        SaxsStatus::RuntimeError => 5,
        SaxsStatus::Cancelled => 6,
        SaxsStatus::NotFound => 7,
    }
}

impl SaxsStatus {
    /// The number that stands for the status.
    pub fn code(&self) -> (code: u32)
        ensures
            code == code_of(*self),
    {
        match self {
            SaxsStatus::Success => 0,
            SaxsStatus::NullPointer => 1,
            SaxsStatus::InvalidArgument => 2,
            SaxsStatus::LengthMismatch => 3,
            SaxsStatus::InvalidUtf8 => 4,
            SaxsStatus::RuntimeError => 5,
            SaxsStatus::Cancelled => 6,
            SaxsStatus::NotFound => 7,
        }
    }

    /// The status that `code` stands for, if any.
    pub fn from_code(code: u32) -> (status: Option<SaxsStatus>)
        ensures
            status is Some <==> code <= 7,
            status matches Some(s) ==> code_of(s) == code,
    {
        match code {
            0 => Some(SaxsStatus::Success),
            1 => Some(SaxsStatus::NullPointer),
            2 => Some(SaxsStatus::InvalidArgument),
            3 => Some(SaxsStatus::LengthMismatch),
            4 => Some(SaxsStatus::InvalidUtf8),
            5 => Some(SaxsStatus::RuntimeError),
            6 => Some(SaxsStatus::Cancelled),
            7 => Some(SaxsStatus::NotFound),
            _ => None,
        }
    }
}

} // verus!
