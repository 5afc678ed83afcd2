use vstd::prelude::*;

verus! {

/// Failures that the library reports to its callers.
///
/// Point lookups and mutations on an absent id yield `NotFound`; validation
/// failures on settings or on requested image paths yield `InvalidInput`.
/// Capture-time rejections (excluded app, sensitive content, oversized or
/// malformed images) are not errors: the capture is silently skipped.
#[derive(Debug)]
pub enum AppError {
    /// No stored item carries the requested id.
    NotFound(i64),
    /// A settings update or a requested path failed validation.
    InvalidInput(String),
}

} // verus!
