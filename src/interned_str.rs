//! Interned strings: where the bytes of one interned string live.
use vstd::prelude::*;
use vstd::string::StringSliceAdditionalSpecFns;
use vstd::utf8::valid_utf8;

verus! {

/// Reference to an interned string.
///
/// An owned string is named by the number of the bucket that holds it and
/// its byte range there; a static string is held as it was handed in.
#[derive(Debug, Clone, Copy)]
pub enum InternedStr {
    /// `len` bytes starting at byte `start` of bucket number `bucket`.
    Owned { bucket: usize, start: usize, len: usize },
    /// A string that outlives every interner.
    Static(&'static str),
}

impl InternedStr {
    /// Creates a reference to `len` bytes at `start` in bucket number `bucket`.
    pub fn new(bucket: usize, start: usize, len: usize) -> (r: Self)
        ensures
            r == (InternedStr::Owned { bucket, start, len }),
    {
        InternedStr::Owned { bucket, start, len }
    }

    /// Creates a reference to a static string, which is not copied.
    pub fn new_static(value: &'static str) -> (r: Self)
        ensures
            r == InternedStr::Static(value),
    {
        InternedStr::Static(value)
    }

    /// The number of bytes of the referenced string.
    pub open spec fn spec_len(&self) -> nat {
        match self {
            InternedStr::Owned { len, .. } => *len as nat,
            InternedStr::Static(s) => s.len() as nat,
        }
    }

    /// Returns the number of bytes of the referenced string.
    pub fn len(&self) -> (r: usize)
        ensures
            r == self.spec_len(),
    {
        match self {
            InternedStr::Owned { len, .. } => *len,
            InternedStr::Static(s) => s.len(),
        }
    }
}

/// Relies on `core::str::from_utf8`: it accepts exactly the valid UTF-8 byte
/// sequences and then views the same bytes as text.
#[verifier::external_body]
pub(crate) fn str_from_utf8(bytes: &[u8]) -> (r: Option<&str>)
    ensures
        (r is Some) <==> valid_utf8(bytes@),
        r matches Some(s) ==> s.spec_bytes() == bytes@,
{
    core::str::from_utf8(bytes).ok()
}

} // verus!
