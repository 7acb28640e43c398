//! Buckets: fixed-capacity byte buffers that strings are appended to.
use crate::interned_str::InternedStr;
use vstd::prelude::*;
use vstd::string::StringSliceAdditionalSpecFns;

verus! {

/// Relies on `Vec::shrink_to_fit`: releases spare capacity and keeps the elements.
#[verifier::external_body]
pub(crate) fn shrink_vec<T>(v: &mut Vec<T>)
    ensures
        final(v)@ == old(v)@,
{
    v.shrink_to_fit()
}

/// Error returned when a bucket has too little room left for a push.
#[derive(Debug, PartialEq, Eq, Structural)]
pub struct ExceedsCapacityError {
    /// The number of bytes that were to be pushed.
    pub requested: usize,
    /// The number of bytes that were free.
    pub remaining: usize,
}

/// An open bucket: an append-only byte buffer of fixed capacity.
///
/// Its buffer is allocated once, with the full capacity, and never grows
/// beyond it, so it is never moved while the bucket is open.
#[derive(Debug)]
pub struct OpenBucket {
    data: Vec<u8>,
    capacity: usize,
}

impl View for OpenBucket {
    type V = Seq<u8>;

    /// The bytes written so far.
    closed spec fn view(&self) -> Seq<u8> {
        self.data@
    }
}

impl OpenBucket {
    #[verifier::type_invariant]
    spec fn inv(&self) -> bool {
        self.data@.len() <= self.capacity
    }

    /// The fixed capacity, in bytes.
    pub closed spec fn spec_capacity(&self) -> nat {
        self.capacity as nat
    }

    /// Creates an empty bucket with room for `capacity` bytes.
    pub fn with_capacity(capacity: usize) -> (r: Self)
        requires
            capacity <= isize::MAX,
        ensures
            r@ == Seq::<u8>::empty(),
            r.spec_capacity() == capacity,
    {
        OpenBucket { data: Vec::with_capacity(capacity), capacity }
    }

    /// Returns the capacity, in bytes.
    pub fn capacity(&self) -> (r: usize)
        ensures
            r == self.spec_capacity(),
            self@.len() <= r,
    {
        proof { use_type_invariant(self); }
        self.capacity
    }

    /// Returns the number of bytes written.
    pub fn len(&self) -> (r: usize)
        ensures
            r == self@.len(),
            r <= self.spec_capacity(),
    {
        proof { use_type_invariant(self); }
        self.data.len()
    }

    /// Returns the bytes written.
    pub fn as_bytes(&self) -> (r: &[u8])
        ensures
            r@ == self@,
    {
        self.data.as_slice()
    }

    /// Returns `true` if the bucket has a non-zero capacity and room for
    /// `additional` more bytes.
    pub fn can_store(&self, additional: usize) -> (r: bool)
        ensures
            r == (self.spec_capacity() > 0 && self.spec_capacity() - self@.len() >= additional),
    {
        proof { use_type_invariant(self); }
        self.capacity != 0 && self.capacity - self.data.len() >= additional
    }

    /// Appends `data`, which must fit, and returns the room left.
    pub(crate) fn extend_from_slice_unchecked(&mut self, data: &[u8]) -> (r: usize)
        requires
            old(self)@.len() + data@.len() <= old(self).spec_capacity(),
        ensures
            final(self)@ == old(self)@ + data@,
            final(self).spec_capacity() == old(self).spec_capacity(),
            r == final(self).spec_capacity() - final(self)@.len(),
    {
        proof { use_type_invariant(&*self); }
        let mut bytes: Vec<u8> = Vec::new();
        std::mem::swap(&mut bytes, &mut self.data);
        let ghost start = bytes@;
        let mut i: usize = 0;
        while i < data.len()
            invariant
                i <= data@.len(),
                bytes@ == start + data@.subrange(0, i as int),
                start.len() + data@.len() <= self.capacity,
                self.capacity == old(self).capacity,
                start == old(self)@,
            decreases data@.len() - i,
        {
            bytes.push(data[i]);
            i = i + 1;
            proof {
                assert(data@.subrange(0, i as int) == data@.subrange(0, i - 1 as int).push(data@[i - 1]));
            }
        }
        proof { assert(data@.subrange(0, data@.len() as int) == data@); }
        self.data = bytes;
        self.capacity - self.data.len()
    }
}

impl OpenBucket {
    /// Appends `data` if it fits and returns the room left; otherwise reports
    /// the shortfall and leaves the bucket as it was.
    pub fn extend_from_slice(&mut self, data: &[u8]) -> (r: Result<usize, ExceedsCapacityError>)
        ensures
            final(self).spec_capacity() == old(self).spec_capacity(),
            (r is Ok) <==> old(self)@.len() + data@.len() <= old(self).spec_capacity(),
            r matches Ok(remaining) ==> final(self)@ == old(self)@ + data@ && remaining
                == final(self).spec_capacity() - final(self)@.len(),
            r matches Err(e) ==> final(self)@ == old(self)@ && e.requested == data@.len()
                && e.remaining == old(self).spec_capacity() - old(self)@.len(),
    {
        let remaining = self.capacity() - self.len();
        if remaining < data.len() {
            return Err(ExceedsCapacityError { requested: data.len(), remaining });
        }
        Ok(self.extend_from_slice_unchecked(data))
    }

    /// Appends the bytes of `string`, which must fit, and returns a reference
    /// to them as bucket number `bucket`.
    pub(crate) fn push_str_unchecked(&mut self, bucket: usize, string: &str) -> (r: InternedStr)
        requires
            old(self)@.len() + string.spec_bytes().len() <= old(self).spec_capacity(),
        ensures
            final(self)@ == old(self)@ + string.spec_bytes(),
            final(self).spec_capacity() == old(self).spec_capacity(),
            r == (InternedStr::Owned {
                bucket,
                start: old(self)@.len() as usize,
                len: string.spec_bytes().len() as usize,
            }),
    {
        let start = self.len();
        let bytes = string.as_bytes();
        self.extend_from_slice_unchecked(bytes);
        InternedStr::new(bucket, start, bytes.len())
    }

    /// Appends the bytes of `string` if they fit and returns a reference to
    /// them as bucket number `bucket`; otherwise reports the shortfall and
    /// leaves the bucket as it was.
    pub fn push_str(&mut self, bucket: usize, string: &str) -> (r: Result<InternedStr, ExceedsCapacityError>)
        ensures
            final(self).spec_capacity() == old(self).spec_capacity(),
            (r is Ok) <==> old(self)@.len() + string.spec_bytes().len() <= old(self).spec_capacity(),
            r matches Ok(interned) ==> final(self)@ == old(self)@ + string.spec_bytes() && interned == (
            InternedStr::Owned {
                bucket,
                start: old(self)@.len() as usize,
                len: string.spec_bytes().len() as usize,
            }),
            r matches Err(e) ==> final(self)@ == old(self)@ && e.requested == string.spec_bytes().len()
                && e.remaining == old(self).spec_capacity() - old(self)@.len(),
    {
        let remaining = self.capacity() - self.len();
        let requested = string.as_bytes().len();
        if remaining < requested {
            return Err(ExceedsCapacityError { requested, remaining });
        }
        Ok(self.push_str_unchecked(bucket, string))
    }
}

/// A closed bucket: an immutable byte buffer with no spare room.
#[derive(Debug)]
pub struct ClosedBucket {
    data: Vec<u8>,
}

impl View for ClosedBucket {
    type V = Seq<u8>;

    /// The bytes held.
    closed spec fn view(&self) -> Seq<u8> {
        self.data@
    }
}

impl ClosedBucket {
    /// Closes an open bucket: keeps the bytes written, without copying them,
    /// and releases the unused room.
    pub fn from_open(bucket: OpenBucket) -> (r: Self)
        ensures
            r@ == bucket@,
    {
        let mut data = bucket.data;
        shrink_vec(&mut data);
        ClosedBucket { data }
    }

    /// Returns the number of bytes held.
    pub fn len(&self) -> (r: usize)
        ensures
            r == self@.len(),
    {
        self.data.len()
    }

    /// Returns the bytes held.
    pub fn as_bytes(&self) -> (r: &[u8])
        ensures
            r@ == self@,
    {
        self.data.as_slice()
    }
}

} // verus!
