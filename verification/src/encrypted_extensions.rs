use vstd::prelude::*;

use crate::error::TlsError;
use crate::extensions::{
    ext_wf, exts_dec, exts_enc, exts_model, lemma_be16_prefix_round_trip, Extension,
};
use crate::parse_buffer::ParseBuffer;
use crate::wire::{be16_bytes, dec_u16};

verus! {

/// The server's EncryptedExtensions handshake message: an ordered,
/// capacity-bounded sequence of server extensions.
#[derive(Debug, PartialEq, Eq)]
pub struct EncryptedExtensions {
    pub extensions: Vec<Extension>,
}

impl EncryptedExtensions {
    pub open spec fn model(&self) -> Seq<(u16, Seq<u8>)> {
        exts_model(self.extensions@)
    }

    /// At most 16 entries in this configuration, each with a body that
    /// fits its length field.
    pub open spec fn wf(&self) -> bool {
        &&& self.extensions@.len() <= 16
        &&& (forall|k: int| 0 <= k < self.extensions@.len() ==> (#[trigger] self.extensions@[k]).wf())
    }
}

/// The serialized body of an EncryptedExtensions message: a 2-byte length
/// over the extension block that follows it.
pub open spec fn encrypted_extensions_enc(s: Seq<(u16, Seq<u8>)>) -> Seq<u8> {
    be16_bytes(exts_enc(s).len() as int) + exts_enc(s)
}

/// Decodes an EncryptedExtensions body; the declared block length must
/// equal the size of the block that actually follows.
pub open spec fn encrypted_extensions_dec(b: Seq<u8>) -> Option<Seq<(u16, Seq<u8>)>> {
    match dec_u16(b, 0) {
        None => None,
        Some((el, i)) => if i + el != b.len() {
            None
        } else {
            exts_dec(b, i, b.len() as int)
        },
    }
}

/// Round-trip framing for an EncryptedExtensions message.
pub proof fn lemma_encrypted_extensions_round_trip(s: Seq<(u16, Seq<u8>)>)
    requires
        forall|k: int| 0 <= k < s.len() ==> ext_wf(#[trigger] s[k]),
        exts_enc(s).len() <= 0xFFFF,
    ensures
        encrypted_extensions_dec(encrypted_extensions_enc(s)) == Some(s),
{
    lemma_be16_prefix_round_trip(s);
}

impl EncryptedExtensions {
    /// Parses an EncryptedExtensions message from a buffer holding exactly
    /// its body: a declared extension-block length, then that many bytes
    /// of extension entries. A declared length that does not match the
    /// bytes actually present is a protocol error, and a block of more
    /// than 16 entries does not fit this configuration.
    pub fn parse(buf: &mut ParseBuffer) -> (r: Result<EncryptedExtensions, TlsError>)
        requires
            old(buf).wf(),
            old(buf).cursor() == 0,
        ensures
            final(buf).wf(),
            final(buf).bytes() == old(buf).bytes(),
            match r {
                Ok(ee) => {
                    &&& encrypted_extensions_dec(old(buf).bytes()) == Some(ee.model())
                    &&& ee.wf()
                    &&& final(buf).cursor() == old(buf).bytes().len()
                },
                Err(e) => {
                    &&& (dec_u16(old(buf).bytes(), 0) is None ==> final(buf).cursor() == old(
                        buf,
                    ).cursor())
                    &&& {
                        ||| (e == TlsError::InvalidExtensionsLength && encrypted_extensions_dec(
                            old(buf).bytes(),
                        ) is None)
                        ||| (e == TlsError::InsufficientSpace && match encrypted_extensions_dec(
                            old(buf).bytes(),
                        ) {
                            Some(s) => s.len() > 16,
                            None => false,
                        })
                    }
                },
            },
    {
        let extensions_len = match buf.read_u16() {
            Ok(v) => v,
            Err(_) => {
                return Err(TlsError::InvalidExtensionsLength);
            },
        };
        if buf.remaining() != extensions_len as usize {
            return Err(TlsError::InvalidExtensionsLength);
        }
        let extensions = match Extension::parse_vector(buf, extensions_len as usize) {
            Ok(v) => v,
            Err(e) => {
                return Err(e);
            },
        };
        if extensions.len() > 16 {
            return Err(TlsError::InsufficientSpace);
        }
        Ok(EncryptedExtensions { extensions })
    }
}

} // verus!
