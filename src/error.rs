//! Failures that the library reports.

use vstd::prelude::*;

verus! {

/// A size or pairing of parameters that does not fit together.
#[derive(Clone, Copy, Debug, PartialEq, Eq, Structural)]
pub enum ConfigError {
    /// The requested log-size exceeds what the scalar field's domains support.
    DomainTooLarge { k: u32 },
    /// The evaluation vector does not have the domain's size.
    EvalsLength { expected: usize, got: usize },
    /// The precomputed table does not have twice the domain's size.
    PrecomputedLength { expected: usize, got: usize },
    /// More choice bits than the domain holds.
    TooManyBits { capacity: usize, got: usize },
    /// A commitment or message of one backend met parties of the other.
    BackendMismatch,
    /// A receiver was asked of parameters that only a sender can use.
    SenderOnlyParams,
}

/// The part of an encoding that failed to decode.
#[derive(Clone, Copy, Debug, PartialEq, Eq, Structural)]
pub enum Part {
    Tag,
    Header,
    Commitment,
    Label,
    Ciphertext,
    /// A length prefix of a framed list.
    Length,
    Generator,
    Power,
}

/// An encoding that cannot be read back.
#[derive(Clone, Copy, Debug, PartialEq, Eq, Structural)]
pub enum DecodeError {
    /// The input ends before this part is complete.
    Truncated { part: Part },
    /// This part does not hold a valid value (an unknown tag, a point off the curve).
    Invalid { part: Part },
    /// Bytes remain after the last part.
    TrailingBytes,
}

/// Every failure of the library.
#[derive(Clone, Copy, Debug, PartialEq, Eq, Structural)]
pub enum LotError {
    Configuration(ConfigError),
    Decode(DecodeError),
    /// The well-formedness certificate of a commitment was rejected.
    VerificationFailure,
    /// An index outside `[0, size)`.
    Usage { index: usize, size: usize },
}

} // verus!
