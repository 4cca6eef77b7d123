//! The value codec: items are stored in the byte form that `bincode` gives
//! them, with nothing added.
//!
//! Everything here is believed, not proved. Nothing is claimed of the bytes or
//! of the decoded items: what the codec does with an item is decided by the
//! item type's own serialisation.

use vstd::prelude::*;

verus! {

/// The codec's error, `bincode::ErrorKind`.
#[verifier::external_type_specification]
#[verifier::external_body]
pub struct ExCodecError(bincode::ErrorKind);

/// Calls `bincode::serialize`: the bytes of `value`, or the codec's error.
#[verifier::external_body]
pub(crate) fn encode<T: serde::Serialize>(value: &T) -> (bytes: Result<
    Vec<u8>,
    Box<bincode::ErrorKind>,
>) {
    bincode::serialize(value)
}

/// Calls `bincode::deserialize`: the item that `bytes` hold, or the codec's
/// error where they hold none.
#[verifier::external_body]
pub(crate) fn decode<T: serde::de::DeserializeOwned>(bytes: &[u8]) -> (item: Result<
    T,
    Box<bincode::ErrorKind>,
>) {
    bincode::deserialize(bytes)
}

/// Calls the `Display` impl of `bincode::ErrorKind` through `to_string`.
/// Nothing is claimed of the text.
#[verifier::external_body]
pub(crate) fn codec_error_text(error: &bincode::ErrorKind) -> (text: String) {
    error.to_string()
}

} // verus!
