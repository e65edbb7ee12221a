//! How a server identifier is written in a configuration file: its 32 bytes
//! in base64.

use vstd::prelude::*;

verus! {

/// Why a text is not a server identifier.
#[derive(Clone, Copy, Debug, PartialEq, Eq, Structural)]
pub enum IdError {
    /// The text is not valid base64.
    InvalidBase64,
    /// The text decodes to other than 32 bytes.
    InvalidLength,
}

impl IdError {
    /// The message that goes with the error.
    pub fn message(&self) -> (text: &'static str)
        ensures
            text@ == match *self {
                IdError::InvalidBase64 => "Invalid base64"@,
                IdError::InvalidLength => "Invalid byte array length"@,
            },
    {
        match self {
            IdError::InvalidBase64 => "Invalid base64",
            IdError::InvalidLength => "Invalid byte array length",
        }
    }
}

/// The standard base64 text of bytes, with padding.
pub uninterp spec fn base64_text(bytes: Seq<u8>) -> Seq<char>;

/// The bytes that a standard base64 text denotes, or `None` where the text
/// is not valid base64.
pub uninterp spec fn base64_bytes(text: Seq<char>) -> Option<Seq<u8>>;

/// Encodes an identifier with `base64`'s `STANDARD` engine (`Engine::encode`).
/// The contract only names the outcome: equal bytes give equal text.
#[verifier::external_body]
pub(crate) fn base64_encode_id(bytes: &[u8; 32]) -> (text: String)
    ensures
        text@ == base64_text(bytes@),
{
    base64::Engine::encode(&base64::engine::general_purpose::STANDARD, bytes)
}

/// Decodes a text with `base64`'s `STANDARD` engine (`Engine::decode`). The
/// contract only names the outcome: equal texts denote equal bytes.
#[verifier::external_body]
pub(crate) fn base64_decode(text: &str) -> (bytes: Option<Vec<u8>>)
    ensures
        match bytes {
            Some(b) => base64_bytes(text@) == Some(b@),
            None => base64_bytes(text@).is_none(),
        },
{
    base64::Engine::decode(&base64::engine::general_purpose::STANDARD, text).ok()
}

/// The text an identifier is written as.
pub fn serialize_bytes_as_base64(bytes: &[u8; 32]) -> (text: String)
    ensures
        text@ == base64_text(bytes@),
{
    base64_encode_id(bytes)
}

/// The identifier that decoded bytes make: the bytes themselves where there
/// are exactly 32 of them.
pub open spec fn id_of_decoded(decoded: Option<Seq<u8>>) -> Result<Seq<u8>, IdError> {
    match decoded {
        Some(bytes) => if bytes.len() == 32 {
            Ok(bytes)
        } else {
            Err(IdError::InvalidLength)
        },
        None => Err(IdError::InvalidBase64),
    }
}

/// Makes an identifier from what decoding gave: exactly 32 bytes are taken
/// as they are; any other number is refused as `InvalidLength`, and no bytes
/// at all (the text was not base64) as `InvalidBase64`.
pub fn id_from_decoded(decoded: Option<Vec<u8>>) -> (id: Result<[u8; 32], IdError>)
    ensures
        match (id, decoded) {
            (Ok(array), Some(bytes)) => bytes@.len() == 32 && array@ == bytes@,
            (Err(e), Some(bytes)) => bytes@.len() != 32 && e == IdError::InvalidLength,
            (Err(e), None) => e == IdError::InvalidBase64,
            _ => false,
        },
{
    match decoded {
        Some(bytes) => {
            if bytes.len() != 32 {
                return Err(IdError::InvalidLength);
            }
            let mut array: [u8; 32] = [0u8;32];
            let mut i: usize = 0;
            while i < 32
                invariant
                    bytes@.len() == 32,
                    i <= 32,
                    forall|k: int| 0 <= k < i ==> array@[k] == bytes@[k],
                decreases 32 - i,
            {
                array[i] = bytes[i];
                i += 1;
            }
            assert(array@ =~= bytes@);
            Ok(array)
        },
        None => Err(IdError::InvalidBase64),
    }
}

/// Reads an identifier from the text it is written as.
pub fn deserialize_bytes_from_base64(text: &str) -> (id: Result<[u8; 32], IdError>)
    ensures
        match (id, id_of_decoded(base64_bytes(text@))) {
            (Ok(array), Ok(bytes)) => array@ == bytes,
            (Err(e), Err(expected)) => e == expected,
            _ => false,
        },
{
    id_from_decoded(base64_decode(text))
}

} // verus!
