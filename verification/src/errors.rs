//! The library's error type.

use vstd::prelude::*;

verus! {

/// An error of this library; signature and key handling report `Signature`
/// with a human-readable message.
#[derive(Debug, Clone)]
pub enum AAuthError {
    Signature(String),
}

impl AAuthError {
    /// A `Signature` error with this message.
    pub fn signature(message: &str) -> (e: AAuthError)
        ensures
            e == AAuthError::Signature(e->Signature_0) && e->Signature_0@ == message@,
    {
        AAuthError::Signature(message.to_owned())
    }

    /// A `Signature` error whose message is `message` followed by `detail`.
    pub fn signature_with(message: &str, detail: &str) -> (e: AAuthError)
        ensures
            e is Signature,
            e->Signature_0@ == message@ + detail@,
    {
        let mut text = message.to_owned();
        text.append(detail);
        AAuthError::Signature(text)
    }

    /// The message carried by the error.
    pub fn message(&self) -> (m: &str)
        ensures
            m@ == self->Signature_0@,
    {
        match self {
            AAuthError::Signature(m) => m.as_str(),
        }
    }
}

} // verus!
