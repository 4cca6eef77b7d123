//! The errors that queue operations report.

use crate::codec::codec_error_text;
use crate::store::store_error_text;
use vstd::prelude::*;

verus! {

/// What went wrong in a queue operation.
#[derive(Debug)]
pub enum HashQueueError {
    /// The durable store could not be opened, read, written or flushed.
    SledError { message: String },
    /// The in-memory set and the durable region no longer agree; `message`
    /// names the operation that saw it.
    SyncError { message: String },
    /// A value could not be serialised or deserialised.
    BinCodeError { error: bincode::ErrorKind },
}

/// `String::push_str` appends the characters of `tail` to `text`.
pub assume_specification[ String::push_str ](text: &mut String, tail: &str)
    ensures
        final(text)@ == old(text)@ + tail@,
;

/// How the description of a store error begins.
pub open spec fn store_prefix() -> Seq<char> {
    "Failed to acquire lock: "@
}

/// How the description of a desynchronisation begins.
pub open spec fn sync_prefix() -> Seq<char> {
    "Sled and the HashSet fell out of sync, the data structure is no longer valid: "@
}

/// How the description of a codec error begins.
pub open spec fn codec_prefix() -> Seq<char> {
    "Failed to deserialize data: "@
}

/// `detail` behind `prefix`, in one string.
pub fn prefixed(prefix: &str, detail: &str) -> (text: String)
    ensures
        text@ == prefix@ + detail@,
{
    let mut text = prefix.to_owned();
    text.push_str(detail);
    text
}

impl HashQueueError {
    /// The error for a failure of the durable store that the store described
    /// as `message`.
    pub fn with_store_message(message: String) -> (result: Self)
        ensures
            result == (HashQueueError::SledError { message }),
    {
        HashQueueError::SledError { message }
    }

    /// The error for a failure of the durable store: it carries the
    /// store's own diagnostic message, whatever that is.
    pub fn from_store(error: &sled::Error) -> (result: Self)
        ensures
            result is SledError,
    {
        HashQueueError::with_store_message(store_error_text(error))
    }

    /// The error for a failure of the codec: it carries the codec's error.
    pub fn from_codec(error: Box<bincode::ErrorKind>) -> (result: Self)
        ensures
            result == (HashQueueError::BinCodeError { error: *error }),
    {
        HashQueueError::BinCodeError { error: *error }
    }

    /// The error for a desynchronisation seen by `operation`.
    pub fn out_of_sync(operation: &str) -> (result: Self)
        ensures
            result matches HashQueueError::SyncError { message } && message@ == operation@,
    {
        HashQueueError::SyncError { message: operation.to_owned() }
    }

    /// A one-line description: a prefix that tells the kind of error, then
    /// the message it carries (for a codec error, the codec's own text).
    pub fn describe(&self) -> (text: String)
        ensures
            match *self {
                HashQueueError::SledError { message } => text@ == store_prefix() + message@,
                HashQueueError::SyncError { message } => text@ == sync_prefix() + message@,
                HashQueueError::BinCodeError { .. } => codec_prefix().is_prefix_of(text@),
            },
    {
        match self {
            HashQueueError::SledError { message } => prefixed(
                "Failed to acquire lock: ",
                message.as_str(),
            ),
            HashQueueError::SyncError { message } => prefixed(
                "Sled and the HashSet fell out of sync, the data structure is no longer valid: ",
                message.as_str(),
            ),
            HashQueueError::BinCodeError { error } => {
                let detail = codec_error_text(error);
                prefixed("Failed to deserialize data: ", detail.as_str())
            },
        }
    }
}

} // verus!
