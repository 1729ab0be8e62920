use vstd::prelude::*;

verus! {

use vstd::string::*;

/// Closed error taxonomy of the proving pipeline.
///
/// Every failure that the library can report is one of these variants;
/// failures of the proving backend are wrapped into this set, never passed
/// through as a foreign type.
#[derive(Debug)]
pub enum InnerEZKLError {
    /// Malformed caller-supplied JSON or configuration.
    InvalidInput(String),
    /// A required byte buffer was absent or empty.
    MissingInput(String),
    /// A binary artifact is corrupt or in an unrecognized format.
    DecodeError(String),
    /// A key records dimensions that disagree with the supplied circuit shape.
    ShapeMismatch(String),
    /// A witness does not fit the circuit it is bound to.
    WitnessMismatch(String),
    /// The supplied SRS has capacity `k`, strictly below the required `logrows`.
    InsufficientCapacity { k: u32, logrows: u32 },
    /// The proving backend failed to create a proof.
    ProofCreationError(String),
    /// Verification ran to completion and rejected the proof.
    VerificationError(String),
    /// Encoding an artifact for transport failed.
    SerializationError(String),
    /// Any other unexpected backend failure.
    InternalError(String),
}

impl InnerEZKLError {
    /// The variants that report a caller mistake rather than a backend failure.
    pub open spec fn is_caller_fault(&self) -> bool {
        self matches InnerEZKLError::InvalidInput(_)
    }
}

/// The error type of the public boundary: a deliberately small surface that
/// distinguishes caller mistakes from everything else, each with a
/// human-readable message.
#[derive(Debug)]
pub enum EZKLError {
    InternalError(String),
    InvalidInput(String),
}

impl EZKLError {
    /// Human-readable rendering of the error, message included.
    pub fn message(&self) -> (r: String)
        ensures
            match self {
                EZKLError::InternalError(m) => r@ == "Internal error: "@ + m@,
                EZKLError::InvalidInput(m) => r@ == "Invalid input: "@ + m@,
            },
    {
        match self {
            EZKLError::InternalError(m) => String::from_str("Internal error: ").concat(
                m.as_str(),
            ),
            EZKLError::InvalidInput(m) => String::from_str("Invalid input: ").concat(m.as_str()),
        }
    }
}

impl From<InnerEZKLError> for EZKLError {
    /// Wraps an internal error for the public boundary.
    fn from(e: InnerEZKLError) -> (r: EZKLError)
        ensures
            match e {
                InnerEZKLError::InvalidInput(m) => r == EZKLError::InvalidInput(m),
                InnerEZKLError::InsufficientCapacity { .. } => r matches
                    EZKLError::InternalError(msg) && msg@ == "insufficient SRS capacity"@,
                InnerEZKLError::MissingInput(m) => r == EZKLError::InternalError(m),
                InnerEZKLError::DecodeError(m) => r == EZKLError::InternalError(m),
                InnerEZKLError::ShapeMismatch(m) => r == EZKLError::InternalError(m),
                InnerEZKLError::WitnessMismatch(m) => r == EZKLError::InternalError(m),
                InnerEZKLError::ProofCreationError(m) => r == EZKLError::InternalError(m),
                InnerEZKLError::VerificationError(m) => r == EZKLError::InternalError(m),
                InnerEZKLError::SerializationError(m) => r == EZKLError::InternalError(m),
                InnerEZKLError::InternalError(m) => r == EZKLError::InternalError(m),
            },
    {
        match e {
            InnerEZKLError::InvalidInput(m) => EZKLError::InvalidInput(m),
            InnerEZKLError::MissingInput(m) => EZKLError::InternalError(m),
            InnerEZKLError::DecodeError(m) => EZKLError::InternalError(m),
            InnerEZKLError::ShapeMismatch(m) => EZKLError::InternalError(m),
            InnerEZKLError::WitnessMismatch(m) => EZKLError::InternalError(m),
            InnerEZKLError::InsufficientCapacity { .. } => EZKLError::InternalError(
                String::from_str("insufficient SRS capacity"),
            ),
            InnerEZKLError::ProofCreationError(m) => EZKLError::InternalError(m),
            InnerEZKLError::VerificationError(m) => EZKLError::InternalError(m),
            InnerEZKLError::SerializationError(m) => EZKLError::InternalError(m),
            InnerEZKLError::InternalError(m) => EZKLError::InternalError(m),
        }
    }
}

impl vstd::std_specs::convert::FromSpecImpl<InnerEZKLError> for EZKLError {
    open spec fn obeys_from_spec() -> bool {
        false
    }

    open spec fn from_spec(e: InnerEZKLError) -> EZKLError {
        arbitrary()
    }
}

} // verus!
