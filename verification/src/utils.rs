//! Fixed-width identifiers: a text kept in a 32-byte array, and read back.

use vstd::prelude::*;
use vstd::string::StringSliceAdditionalSpecFns;
use vstd::utf8::{encode_utf8, valid_utf8};

verus! {

/// The first 32 of `bytes`, followed by zeros where there are fewer.
pub open spec fn fixed_bytes(bytes: Seq<u8>) -> Seq<u8> {
    Seq::new(32, |i: int| if i < bytes.len() { bytes[i] } else { 0u8 })
}

/// The bytes of `array` before its first zero byte: all of them where none
/// is zero.
pub open spec fn before_first_zero(array: Seq<u8>) -> Seq<u8>
    decreases array.len(),
{
    if array.len() == 0 || array[0] == 0 {
        Seq::empty()
    } else {
        seq![array[0]] + before_first_zero(array.drop_first())
    }
}

/// The text that bytes stand for when every ill-formed UTF-8 sequence among
/// them is replaced by the replacement character U+FFFD.
pub uninterp spec fn utf8_lossy_text(bytes: Seq<u8>) -> Seq<char>;

/// Decodes bytes with `String::from_utf8_lossy`, which the standard library
/// documents as returning valid UTF-8 unchanged and replacing each invalid
/// sequence by U+FFFD. The contract names the outcome and states the first.
#[verifier::external_body]
pub(crate) fn utf8_lossy(bytes: &[u8]) -> (text: String)
    ensures
        text@ == utf8_lossy_text(bytes@),
        valid_utf8(bytes@) ==> encode_utf8(text@) == bytes@,
{
    String::from_utf8_lossy(bytes).to_string()
}

/// Keeps a text in 32 bytes: the first 32 bytes of its UTF-8 encoding,
/// padded with zeros.
pub fn string_to_fixed_array(s: &str) -> (array: [u8; 32])
    ensures
        array@ == fixed_bytes(s.spec_bytes()),
{
    let mut array: [u8; 32] = [0u8;32];
    let bytes = s.as_bytes();
    let len: usize = if bytes.len() < 32 { bytes.len() } else { 32 };
    let mut i: usize = 0;
    while i < len
        invariant
            len <= 32,
            len <= bytes@.len(),
            bytes@ == s.spec_bytes(),
            i <= len,
            forall|k: int| 0 <= k < i ==> array@[k] == bytes@[k],
            forall|k: int| i <= k < 32 ==> array@[k] == 0,
        decreases len - i,
    {
        array[i] = bytes[i];
        i += 1;
    }
    assert(array@ =~= fixed_bytes(s.spec_bytes()));
    array
}

/// Reads a text back from 32 bytes: the bytes before the first zero byte,
/// decoded as UTF-8 with replacement of what is ill-formed.
pub fn fixed_array_to_string(array: &[u8; 32]) -> (text: String)
    ensures
        text@ == utf8_lossy_text(before_first_zero(array@)),
        valid_utf8(before_first_zero(array@)) ==> encode_utf8(text@) == before_first_zero(array@),
{
    let mut prefix: Vec<u8> = Vec::new();
    let mut i: usize = 0;
    assert(array@.skip(0) =~= array@);
    while i < 32 && array[i] != 0
        invariant
            i <= 32,
            before_first_zero(array@) == prefix@ + before_first_zero(array@.skip(i as int)),
        decreases 32 - i,
    {
        let ghost rest = array@.skip(i as int);
        assert(rest[0] == array@[i as int]);
        assert(rest.drop_first() =~= array@.skip(i + 1));
        let ghost old_prefix = prefix@;
        prefix.push(array[i]);
        assert(prefix@ + before_first_zero(array@.skip(i + 1)) =~= old_prefix + (seq![rest[0]]
            + before_first_zero(rest.drop_first())));
        i += 1;
    }
    assert(before_first_zero(array@.skip(i as int)) =~= Seq::<u8>::empty()) by {
        if i < 32 {
            assert(array@.skip(i as int)[0] == array@[i as int]);
        }
    }
    assert(prefix@ =~= before_first_zero(array@));
    utf8_lossy(prefix.as_slice())
}

/// Whether two identifiers hold the same bytes.
pub fn same_id(a: &[u8; 32], b: &[u8; 32]) -> (same: bool)
    ensures
        same == (a@ == b@),
{
    let mut i: usize = 0;
    while i < 32
        invariant
            i <= 32,
            forall|k: int| 0 <= k < i ==> a@[k] == b@[k],
        decreases 32 - i,
    {
        if a[i] != b[i] {
            return false;
        }
        i += 1;
    }
    assert(a@ =~= b@);
    true
}

} // verus!
