use vstd::prelude::*;

use crate::error::TlsError;

verus! {

/// The fixed capacity, in bytes, of an outbound record buffer.
pub const RECORD_BUFFER_CAPACITY: usize = 256;

/// A fixed-capacity byte buffer that outbound records are serialized
/// into. It is backed by a stack-resident vector of compile-time size;
/// appending past the capacity is rejected rather than truncated.
#[verifier::external_body]
pub struct RecordBuffer {
    inner: heapless::Vec<u8, 256>,
}

/// The bytes a record buffer holds, oldest first.
pub uninterp spec fn record_buffer_bytes(b: RecordBuffer) -> Seq<u8>;

impl RecordBuffer {
    pub open spec fn bytes(self) -> Seq<u8> {
        record_buffer_bytes(self)
    }

    /// Relies on heapless::Vec::new: an empty vector.
    #[verifier::external_body]
    pub fn new() -> (r: RecordBuffer)
        ensures
            record_buffer_bytes(r) == Seq::<u8>::empty(),
    {
        RecordBuffer { inner: heapless::Vec::new() }
    }

    /// Relies on heapless::Vec::len: the number of elements held.
    #[verifier::external_body]
    pub fn len(&self) -> (r: usize)
        ensures
            r == record_buffer_bytes(*self).len(),
            r <= RECORD_BUFFER_CAPACITY,
    {
        self.inner.len()
    }

    /// Relies on heapless::Vec::push: appends the byte when the vector is
    /// below capacity, and otherwise rejects it and leaves the vector
    /// unchanged.
    #[verifier::external_body]
    pub(crate) fn push(&mut self, b: u8) -> (r: Result<(), TlsError>)
        ensures
            record_buffer_bytes(*final(self)).len() <= RECORD_BUFFER_CAPACITY,
            match r {
                Ok(()) => {
                    &&& record_buffer_bytes(*old(self)).len() < RECORD_BUFFER_CAPACITY
                    &&& record_buffer_bytes(*final(self)) == record_buffer_bytes(*old(self)).push(b)
                },
                Err(e) => {
                    &&& e == TlsError::InsufficientSpace
                    &&& record_buffer_bytes(*old(self)).len() >= RECORD_BUFFER_CAPACITY
                    &&& record_buffer_bytes(*final(self)) == record_buffer_bytes(*old(self))
                },
            },
    {
        self.inner.push(b).map_err(|_| TlsError::InsufficientSpace)
    }

    /// Relies on heapless::Vec::extend_from_slice: appends every byte of
    /// the slice when they all fit, and otherwise leaves the vector
    /// unchanged and reports a capacity error.
    #[verifier::external_body]
    pub(crate) fn extend_from_slice(&mut self, other: &[u8]) -> (r: Result<(), TlsError>)
        ensures
            record_buffer_bytes(*final(self)).len() <= RECORD_BUFFER_CAPACITY,
            match r {
                Ok(()) => {
                    &&& record_buffer_bytes(*old(self)).len() + other@.len() <= RECORD_BUFFER_CAPACITY
                    &&& record_buffer_bytes(*final(self)) == record_buffer_bytes(*old(self)) + other@
                },
                Err(e) => {
                    &&& e == TlsError::InsufficientSpace
                    &&& record_buffer_bytes(*old(self)).len() + other@.len() > RECORD_BUFFER_CAPACITY
                    &&& record_buffer_bytes(*final(self)) == record_buffer_bytes(*old(self))
                },
            },
    {
        self.inner.extend_from_slice(other).map_err(|_| TlsError::InsufficientSpace)
    }

    /// Relies on heapless::Vec's slice view: writes one element in place.
    #[verifier::external_body]
    pub(crate) fn set(&mut self, i: usize, b: u8)
        requires
            i < record_buffer_bytes(*old(self)).len(),
        ensures
            record_buffer_bytes(*final(self)) == record_buffer_bytes(*old(self)).update(i as int, b),
    {
        self.inner[i] = b;
    }

    /// Relies on heapless::Vec::as_slice: the elements held, in order.
    #[verifier::external_body]
    pub fn as_slice(&self) -> (r: &[u8])
        ensures
            r@ == record_buffer_bytes(*self),
    {
        self.inner.as_slice()
    }

    /// Relies on heapless::Vec's slice view: the elements from `from` on,
    /// in order.
    #[verifier::external_body]
    pub(crate) fn tail(&self, from: usize) -> (r: &[u8])
        requires
            from <= record_buffer_bytes(*self).len(),
        ensures
            r@ == record_buffer_bytes(*self).skip(from as int),
    {
        &self.inner[from..]
    }
}

} // verus!
