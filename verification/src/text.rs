//! How a requested segment is held against the name of a directory entry.
//!
//! Names that are valid text are compared with the letters `A` to `Z` taken as
//! `a` to `z`; nothing else is folded. Names that are not valid text have no
//! safe folding and are compared byte for byte.

use vstd::prelude::*;
use vstd::utf8::valid_utf8;

verus! {

/// A byte with the ASCII capitals turned into small letters.
pub open spec fn ascii_lower(byte: u8) -> u8 {
    if 0x41 <= byte <= 0x5a {
        (byte + 0x20) as u8
    } else {
        byte
    }
}

/// A name with the ASCII capitals turned into small letters, byte by byte.
pub open spec fn ascii_lowercase(name: Seq<u8>) -> Seq<u8> {
    Seq::new(name.len(), |i: int| ascii_lower(name[i]))
}

/// Whether two names are the same once the ASCII capitals are folded.
pub open spec fn same_ignoring_ascii_case(a: Seq<u8>, b: Seq<u8>) -> bool {
    ascii_lowercase(a) == ascii_lowercase(b)
}

/// Whether the entry name `name` answers the requested segment `target`.
///
/// A target that is valid text is answered by every name that is valid text
/// and the same up to ASCII case. A target that is not valid text is answered
/// by the byte-identical name only.
pub open spec fn segment_matches(target: Seq<u8>, name: Seq<u8>) -> bool {
    if valid_utf8(target) {
        valid_utf8(name) && same_ignoring_ascii_case(target, name)
    } else {
        name == target
    }
}

/// Checks whether `bytes` are valid text.
///
/// Calls `core::str::from_utf8`, which succeeds exactly on well-formed UTF-8.
/// The contract takes that on trust, with `vstd::utf8::valid_utf8` as the
/// meaning of "well-formed".
#[verifier::external_body]
pub(crate) fn is_text(bytes: &[u8]) -> (ok: bool)
    ensures
        ok == valid_utf8(bytes@),
{
    core::str::from_utf8(bytes).is_ok()
}

/// Turns an ASCII capital into the small letter and leaves other bytes alone.
pub fn to_ascii_lower(byte: u8) -> (folded: u8)
    ensures
        folded == ascii_lower(byte),
{
    if 0x41 <= byte && byte <= 0x5a {
        byte + 0x20
    } else {
        byte
    }
}

/// Compares two names with the ASCII capitals folded.
pub fn eq_ignore_ascii_case(a: &Vec<u8>, b: &Vec<u8>) -> (same: bool)
    ensures
        same == same_ignoring_ascii_case(a@, b@),
{
    if a.len() != b.len() {
        assert(ascii_lowercase(a@).len() != ascii_lowercase(b@).len());
        return false;
    }
    let mut i: usize = 0;
    while i < a.len()
        invariant
            a.len() == b.len(),
            i <= a.len(),
            forall|k: int| 0 <= k < i ==> ascii_lower(a[k]) == ascii_lower(b[k]),
        decreases a.len() - i,
    {
        if to_ascii_lower(a[i]) != to_ascii_lower(b[i]) {
            assert(ascii_lowercase(a@)[i as int] != ascii_lowercase(b@)[i as int]);
            return false;
        }
        i += 1;
    }
    assert(ascii_lowercase(a@) =~= ascii_lowercase(b@));
    true
}

/// Compares two names byte for byte.
pub fn eq_bytes(a: &Vec<u8>, b: &Vec<u8>) -> (same: bool)
    ensures
        same == (a@ == b@),
{
    if a.len() != b.len() {
        return false;
    }
    let mut i: usize = 0;
    while i < a.len()
        invariant
            a.len() == b.len(),
            i <= a.len(),
            forall|k: int| 0 <= k < i ==> a[k] == b[k],
        decreases a.len() - i,
    {
        if a[i] != b[i] {
            return false;
        }
        i += 1;
    }
    assert(a@ =~= b@);
    true
}

} // verus!
