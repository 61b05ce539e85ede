//! The errors a generation request can end with. Every error is terminal for
//! the request: no partial output accompanies one.

use vstd::prelude::*;

verus! {

/// Why a generation request failed.
#[derive(Clone, Copy, Debug, PartialEq, Eq, Structural)]
pub enum TextGenError {
    /// The normalized corpus has zero length.
    EmptyCorpusError,
    /// The normalized corpus is shorter than one window; the payload is the
    /// minimum length required, `key_len + val_len`.
    CorpusTooShortError(usize),
    /// A generated suffix never appeared as a key during training, so it has
    /// no known continuation.
    LookupError,
}

} // verus!
