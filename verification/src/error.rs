//! The error taxonomy of the library.

use vstd::prelude::*;

verus! {

/// Why an operation on a document failed.
///
/// Every fallible public operation reports exactly one of these:
/// a malformed input document, a data key that could not be recovered from
/// the configured key groups, a malformed or tampered encrypted value, a
/// whole-document digest mismatch, a path that does not resolve, or a tree
/// that the requested output format cannot carry.
#[derive(Clone, Copy, Debug, PartialEq, Eq, Structural)]
pub enum Error {
    ParseError,
    KeyRecoveryError,
    CipherError,
    MacVerificationError,
    PathError,
    SerializeError,
}

} // verus!
