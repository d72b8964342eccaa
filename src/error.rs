//! Failures the library reports.
use vstd::prelude::*;
use crate::decimal::Decimal;

verus! {

/// Why a step of the pipeline could not go on.
#[derive(Debug, Clone, PartialEq, Eq)]
pub enum Error {
    /// The scene detector exited unsuccessfully.
    FfprobeCommand,
    /// The extraction, encoding or remux tool exited unsuccessfully.
    FfmpegCommand,
    /// The frame generator exited unsuccessfully.
    InterpolationCommand,
    /// The pattern for the detector's report does not compile.
    Pattern,
    /// The text is not a decimal number this library can hold.
    Decimal(String),
    /// A pair of scene boundaries does not bound a window sequence:
    /// start, maximum step, end.
    UnableToCreateTimeRanges(Decimal, usize, Decimal),
    /// The frame count does not fit: frame rate times duration.
    MultiplicationOverflow(Decimal, Decimal),
    /// A window's duration rounds to zero or does not fit: start, end.
    EmptyWindow(Decimal, Decimal),
    /// The path has no file extension.
    MissingExtension(String),
}

} // verus!
