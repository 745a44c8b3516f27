//! The errors the attention core reports.

use vstd::prelude::*;

verus! {

/// Why a call into the attention core was aborted. All of them are fatal for
/// the call at hand; none is retried here.
#[derive(Debug)]
pub enum AttentionError {
    /// Tensor dimensions disagree with each other or with the configured
    /// embedding width and head count, or a tensor holds whole numbers where
    /// floating-point numbers are needed.
    Shape,
    /// A layer that has already consumed tokens carries no key/value cache.
    MissingState,
    /// Some query would be left without any key to attend to, so its softmax
    /// row would be undefined.
    Numeric,
    /// The numeric backend reported a failure of its own.
    Backend(candle_core::Error),
}

impl AttentionError {
    /// A short description of the error's kind.
    pub fn message(&self) -> (text: &'static str)
        ensures
            text@ == (match self {
                AttentionError::Shape => "tensor shape does not match the attention configuration"@,
                AttentionError::MissingState => "key/value cache is missing from the layer state"@,
                AttentionError::Numeric => "a query row has no key left to attend to"@,
                AttentionError::Backend(_) => "the tensor backend failed"@,
            }),
    {
        match self {
            AttentionError::Shape => "tensor shape does not match the attention configuration",
            AttentionError::MissingState => "key/value cache is missing from the layer state",
            AttentionError::Numeric => "a query row has no key left to attend to",
            AttentionError::Backend(_) => "the tensor backend failed",
        }
    }
}

/// Carries a backend failure over into the library's own error type.
pub fn backend<T>(outcome: Result<T, candle_core::Error>) -> (r: Result<T, AttentionError>)
    ensures
        match outcome {
            Ok(value) => r == Ok::<T, AttentionError>(value),
            Err(cause) => r == Err::<T, AttentionError>(AttentionError::Backend(cause)),
        },
{
    match outcome {
        Ok(value) => Ok(value),
        Err(cause) => Err(AttentionError::Backend(cause)),
    }
}

} // verus!
