use vstd::prelude::*;

verus! {

/// How the content of a wire-level error is to be read by the receiver.
#[derive(Debug, Clone, Copy, PartialEq, Eq, Structural)]
pub enum ErrorType {
    /// The content is a locale error code.
    Code,
    /// The content is a plain human-readable string.
    Message,
}

/// A wire-level error carried inside a message's `errors` list.
#[derive(Debug, Clone, PartialEq)]
pub struct Error {
    pub error_type: ErrorType,
    pub error_content: String,
}

/// Mathematical model of an [`Error`].
pub struct ErrorV {
    pub error_type: ErrorType,
    pub error_content: Seq<char>,
}

impl View for Error {
    type V = ErrorV;

    open spec fn view(&self) -> ErrorV {
        ErrorV { error_type: self.error_type, error_content: self.error_content@ }
    }
}

impl Error {
    pub fn new(error_type: ErrorType, error_content: String) -> (r: Error)
        ensures
            r@ == (ErrorV { error_type, error_content: error_content@ }),
    {
        Error { error_type, error_content }
    }
}

/// Why a decode, encode or decrypt operation failed.  The classes let a
/// transport layer tell "cannot even parse" from "parsed but the shape is
/// wrong" from "cannot authenticate" from "unknown peer".
#[derive(Debug, Clone, Copy, PartialEq, Eq, Structural)]
pub enum DecodeError {
    /// The raw text is not valid structured text, or a packet does not
    /// follow the wire layout.
    StructureParse,
    /// The structured text parsed, but its shape does not match the
    /// expected `{type, content}` or field set (unknown tag, wrong field
    /// type, missing required field).
    Shape,
    /// AEAD authentication failed: the packet was tampered with or sealed
    /// under a different key.  The two cases are deliberately not told apart.
    Crypto,
    /// No key material is known for the packet's peer id.
    Routing,
}

impl DecodeError {
    /// A short description, for logging by unverified callers.
    pub fn describe(&self) -> &'static str {
        match self {
            DecodeError::StructureParse => "input is not valid structured text",
            DecodeError::Shape => "structured text does not match the expected shape",
            DecodeError::Crypto => "failed to authenticate and decrypt",
            DecodeError::Routing => "unknown peer id",
        }
    }
}

} // verus!
