//! Bytes read as text.

use crate::error::Error;
use vstd::prelude::*;
use vstd::utf8::{decode_utf8, valid_utf8};

verus! {

/// Calls `String::from_utf8`: the text that the bytes encode, or `None` if they are not
/// UTF-8.
#[verifier::external_body]
fn string_from_utf8(bytes: Vec<u8>) -> (r: Option<String>)
    ensures
        match r {
            Some(text) => valid_utf8(bytes@) && text@ == decode_utf8(bytes@),
            None => !valid_utf8(bytes@),
        },
{
    String::from_utf8(bytes).ok()
}

/// A read `M` whose bytes are to be text.
#[derive(Debug, PartialEq, Eq)]
pub struct Text<M> {
    pub bytes: M,
}

/// Whether `text` is what the outcome `bytes` of a read is as text.
pub open spec fn is_text_of<E>(
    text: Result<String, Error<E>>,
    bytes: Result<Vec<u8>, Error<E>>,
) -> bool {
    match bytes {
        Err(e) => text == Err::<String, Error<E>>(e),
        Ok(b) => if valid_utf8(b@) {
            text matches Ok(t) && t@ == decode_utf8(b@)
        } else {
            text == Err::<String, Error<E>>(Error::InvalidUtf8)
        },
    }
}

/// The outcome of a read as text. Bytes that are not UTF-8 are an error.
pub fn decode<E>(bytes: Result<Vec<u8>, Error<E>>) -> (r: Result<String, Error<E>>)
    ensures
        is_text_of(r, bytes),
{
    match bytes {
        Err(e) => Err(e),
        Ok(b) => match string_from_utf8(b) {
            Some(text) => Ok(text),
            None => Err(Error::InvalidUtf8),
        },
    }
}

impl<M> Text<M> {
    /// Takes the read out, to be gone on with. What is left makes text of its outcome.
    pub fn start(self) -> (r: (M, Text<()>))
        ensures
            r.0 == self.bytes,
    {
        (self.bytes, Text { bytes: () })
    }

    /// Ends the read: the outcome of its bytes, as text.
    pub fn finish<E>(self, bytes: Result<Vec<u8>, Error<E>>) -> (r: Result<String, Error<E>>)
        ensures
            is_text_of(r, bytes),
    {
        decode(bytes)
    }
}

} // verus!
