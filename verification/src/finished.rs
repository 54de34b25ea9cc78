use vstd::prelude::*;

use crate::buffer::{record_buffer_bytes, RecordBuffer, RECORD_BUFFER_CAPACITY};
use crate::error::TlsError;

verus! {

/// A Finished handshake message, in either direction: its body is exactly
/// the sender's verification data, an HMAC over the transcript hash.
#[derive(Debug, PartialEq, Eq)]
pub struct Finished {
    pub verify_data: Vec<u8>,
}

impl Finished {
    pub open spec fn model(&self) -> Seq<u8> {
        self.verify_data@
    }

    /// The verification data is one hash output: never empty, at most 64
    /// bytes for the hash families in scope.
    pub open spec fn wf(&self) -> bool {
        1 <= self.verify_data@.len() <= 64
    }
}

/// The serialized body of a Finished message is its verification data,
/// unframed.
pub open spec fn finished_enc(m: Seq<u8>) -> Seq<u8> {
    m
}

/// Decoding a Finished body takes the whole body as verification data.
pub open spec fn finished_dec(b: Seq<u8>) -> Option<Seq<u8>> {
    if 1 <= b.len() <= 64 {
        Some(b)
    } else {
        None
    }
}

/// Round-trip framing for a Finished message.
pub proof fn lemma_finished_round_trip(m: Seq<u8>)
    requires
        1 <= m.len() <= 64,
    ensures
        finished_dec(finished_enc(m)) == Some(m),
{
}

impl Finished {
    /// Appends this message's serialized body to the buffer; the caller
    /// has already checked that the whole record fits.
    pub fn encode_body(&self, buf: &mut RecordBuffer) -> (r: Result<(), TlsError>)
        requires
            self.wf(),
            record_buffer_bytes(*old(buf)).len() + self.verify_data@.len()
                <= RECORD_BUFFER_CAPACITY as int,
        ensures
            r is Ok,
            record_buffer_bytes(*final(buf)) == record_buffer_bytes(*old(buf)) + finished_enc(
                self.model(),
            ),
    {
        buf.extend_from_slice(self.verify_data.as_slice())
    }
}

} // verus!
