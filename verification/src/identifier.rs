//! Service identifier normalization.
//!
//! A service's identifier is derived deterministically from its
//! human-readable name: the name is lowercased per Unicode, spaces become
//! underscores, and every other byte that is not an ASCII letter, digit or
//! underscore is dropped. A name whose normalization is empty is rejected.

use vstd::prelude::*;
use vstd::string::StringExecFns;
use vstd::string::StringSliceAdditionalSpecFns;
use crate::MonitoringError;

verus! {

/// The Unicode lowercase of a character sequence.
pub uninterp spec fn lower_of(s: Seq<char>) -> Seq<char>;

/// Relies on str::to_lowercase: the Unicode lowercase of the string, a
/// function of its characters alone.
#[verifier::external_body]
fn lowercase(s: &str) -> (r: String)
    ensures
        r@ == lower_of(s@),
{
    s.to_lowercase()
}

/// The normalized form of one byte of a lowercased service name: a space
/// becomes an underscore, an ASCII letter, digit or underscore stays, and
/// everything else (including every byte of a non-ASCII character) is
/// dropped.
pub open spec fn normalize_byte(b: u8) -> Option<u8> {
    if b == 0x20 {
        Some(0x5f)
    } else if b == 0x5f || (0x41 <= b && b <= 0x5a) || (0x61 <= b && b <= 0x7a) || (0x30 <= b && b
        <= 0x39) {
        Some(b)
    } else {
        None
    }
}

/// The normalized form of a lowercased name given as UTF-8 bytes: each
/// byte's normalized form, in order, with the dropped bytes left out.
pub open spec fn normalized_id(s: Seq<u8>) -> Seq<u8>
    decreases s.len(),
{
    if s.len() == 0 {
        Seq::empty()
    } else {
        normalized_id(s.drop_last()) + match normalize_byte(s.last()) {
            Some(b) => seq![b],
            None => Seq::empty(),
        }
    }
}

/// The identifier a service name normalizes to, as ASCII bytes: the name is
/// lowercased per Unicode first, then filtered byte by byte.
pub open spec fn service_id_of(name: Seq<char>) -> Seq<u8> {
    normalized_id(vstd::utf8::encode_utf8(lower_of(name)))
}

/// Byte-for-byte equality of two strings, which coincides with equality of
/// their character sequences, since UTF-8 encoding is injective.
pub fn str_eq(a: &str, b: &str) -> (r: bool)
    ensures
        r == (a@ == b@),
{
    let ab = a.as_bytes();
    let bb = b.as_bytes();
    if ab.len() != bb.len() {
        return false;
    }
    let mut i: usize = 0;
    while i < ab.len()
        invariant
            ab@ == a.spec_bytes(),
            bb@ == b.spec_bytes(),
            ab@.len() == bb@.len(),
            i <= ab@.len(),
            forall|k: int| 0 <= k < i ==> ab@[k] == bb@[k],
        decreases ab@.len() - i,
    {
        if ab[i] != bb[i] {
            return false;
        }
        i = i + 1;
    }
    proof {
        assert(a.spec_bytes() =~= b.spec_bytes());
        vstd::utf8::encode_utf8_decode_utf8(a@);
        vstd::utf8::encode_utf8_decode_utf8(b@);
    }
    true
}

/// Relies on String::from_utf8: a sequence of bytes below 0x80 is valid
/// UTF-8 and decodes one to one into the chars with the same code points.
#[verifier::external_body]
pub(crate) fn string_from_ascii(bytes: Vec<u8>) -> (r: String)
    requires
        forall|j: int| 0 <= j < bytes@.len() ==> bytes@[j] < 0x80,
    ensures
        r@ == bytes@.map_values(|b: u8| b as char),
{
    String::from_utf8(bytes).unwrap()
}

/// Derives the normalized identifier of a service name — the Unicode
/// lowercase of the name, filtered to ASCII letters, digits and underscores
/// with spaces as underscores — or an error when nothing of the name
/// survives normalization.
pub fn format_service_id(name: &str) -> (r: Result<String, MonitoringError>)
    ensures
        r is Err <==> service_id_of(name@).len() == 0,
        r matches Ok(id) ==> id@ == service_id_of(name@).map_values(|b: u8| b as char),
{
    let lowered = lowercase(name);
    let bytes = lowered.as_str().as_bytes();
    proof {
        assert(bytes@ == vstd::utf8::encode_utf8(lower_of(name@)));
    }
    let mut out: Vec<u8> = Vec::new();
    let mut i: usize = 0;
    while i < bytes.len()
        invariant
            i <= bytes@.len(),
            bytes@ == vstd::utf8::encode_utf8(lower_of(name@)),
            out@ == normalized_id(bytes@.subrange(0, i as int)),
            forall|j: int| 0 <= j < out@.len() ==> out@[j] < 0x80,
        decreases bytes@.len() - i,
    {
        let b = bytes[i];
        if b == 0x20 {
            out.push(0x5f);
        } else if b == 0x5f || (b >= 0x41 && b <= 0x5a) || (b >= 0x61 && b <= 0x7a) || (b >= 0x30
            && b <= 0x39) {
            out.push(b);
        }
        proof {
            assert(bytes@.subrange(0, i + 1).drop_last() =~= bytes@.subrange(0, i as int));
            assert(bytes@.subrange(0, i + 1).last() == bytes@[i as int]);
        }
        i = i + 1;
    }
    assert(bytes@.subrange(0, bytes@.len() as int) =~= bytes@);
    if out.len() == 0 {
        Err(MonitoringError(String::from_str("Invalid service name")))
    } else {
        Ok(string_from_ascii(out))
    }
}

} // verus!
