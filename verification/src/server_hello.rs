use vstd::prelude::*;

use crate::error::TlsError;
use crate::extensions::{ext_wf, exts_dec, exts_enc, exts_model, lemma_exts_round_trip, Extension};
use crate::parse_buffer::ParseBuffer;
use crate::wire::{be16_bytes, be16_val, dec_bytes, dec_u16, dec_u8, lemma_be16_round_trip};

verus! {

/// The mathematical value a ServerHello stands for: legacy version, random,
/// echoed session id, selected cipher suite, legacy compression method,
/// and extensions.
pub type ServerHelloModel = (u16, Seq<u8>, Seq<u8>, u16, u8, Seq<(u16, Seq<u8>)>);

/// The server's opening handshake message.
#[derive(Debug, PartialEq, Eq)]
pub struct ServerHello {
    pub legacy_version: u16,
    pub random: Vec<u8>,
    pub legacy_session_id_echo: Vec<u8>,
    pub cipher_suite: u16,
    pub legacy_compression_method: u8,
    pub extensions: Vec<Extension>,
}

impl ServerHello {
    pub open spec fn model(&self) -> ServerHelloModel {
        (
            self.legacy_version,
            self.random@,
            self.legacy_session_id_echo@,
            self.cipher_suite,
            self.legacy_compression_method,
            exts_model(self.extensions@),
        )
    }
}

/// Decodes a ServerHello body: a 2-byte version (carried, not validated),
/// the 32-byte random, a session-id echo of at most 32 bytes, the selected
/// cipher suite, one compression byte, and an extension block that must
/// end exactly at the end of the body.
pub open spec fn server_hello_dec(b: Seq<u8>) -> Option<ServerHelloModel> {
    match dec_u16(b, 0) {
        None => None,
        Some((ver, i0)) => match dec_bytes(b, i0, 32) {
            None => None,
            Some((random, i1)) => match dec_u8(b, i1) {
                None => None,
                Some((sid_len, i2)) => if sid_len > 32 {
                    None
                } else {
                    match dec_bytes(b, i2, sid_len as int) {
                        None => None,
                        Some((sid, i3)) => match dec_u16(b, i3) {
                            None => None,
                            Some((cs, i4)) => match dec_u8(b, i4) {
                                None => None,
                                Some((comp, i5)) => match dec_u16(b, i5) {
                                    None => None,
                                    Some((el, i6)) => if i6 + el != b.len() {
                                        None
                                    } else {
                                        match exts_dec(b, i6, b.len() as int) {
                                            None => None,
                                            Some(exts) => Some((ver, random, sid, cs, comp, exts)),
                                        }
                                    },
                                },
                            },
                        },
                    }
                },
            },
        },
    }
}

/// The serialized body of a ServerHello.
pub open spec fn server_hello_enc(m: ServerHelloModel) -> Seq<u8> {
    be16_bytes(m.0 as int) + m.1 + seq![m.2.len() as u8] + m.2 + be16_bytes(m.3 as int) + seq![m.4]
        + be16_bytes(exts_enc(m.5).len() as int) + exts_enc(m.5)
}

/// Round-trip framing for a ServerHello: decoding its encoding yields the
/// message back, for all fields it carries.
#[verifier::rlimit(60)]
pub proof fn lemma_server_hello_round_trip(m: ServerHelloModel)
    requires
        m.1.len() == 32,
        m.2.len() <= 32,
        forall|k: int| 0 <= k < m.5.len() ==> ext_wf(#[trigger] m.5[k]),
        exts_enc(m.5).len() <= 0xFFFF,
    ensures
        server_hello_dec(server_hello_enc(m)) == Some(m),
{
    let b = server_hello_enc(m);
    let sl = m.2.len() as int;
    let el = exts_enc(m.5).len() as int;
    lemma_be16_round_trip(m.0 as int);
    lemma_be16_round_trip(m.3 as int);
    lemma_be16_round_trip(el);
    let i1 = 34;
    let i2 = 35;
    let i3 = 35 + sl;
    let i4 = i3 + 2;
    let i6 = i4 + 1 + 2;
    assert(b.len() == i6 + el);
    assert(b[0] == be16_bytes(m.0 as int)[0]);
    assert(b[1] == be16_bytes(m.0 as int)[1]);
    assert(be16_val(b[0], b[1]) == m.0 as int);
    assert(dec_u16(b, 0) == Some((m.0, 2int)));
    assert(b.subrange(2, 34) =~= m.1) by {
        assert forall|k: int| 0 <= k < 32 implies b.subrange(2, 34)[k] == m.1[k] by {
            assert(b[2 + k] == m.1[k]);
        }
    }
    assert(dec_bytes(b, 2, 32) == Some((m.1, i1)));
    assert(b[i1] == sl as u8);
    assert(dec_u8(b, i1) == Some((sl as u8, i2)));
    assert(sl as u8 <= 32);
    assert(b.subrange(i2, i2 + sl) =~= m.2) by {
        assert forall|k: int| 0 <= k < sl implies b.subrange(i2, i2 + sl)[k] == m.2[k] by {
            assert(b[i2 + k] == m.2[k]);
        }
    }
    assert(dec_bytes(b, i2, sl) == Some((m.2, i3)));
    assert(b[i3] == be16_bytes(m.3 as int)[0]);
    assert(b[i3 + 1] == be16_bytes(m.3 as int)[1]);
    assert(be16_val(b[i3], b[i3 + 1]) == m.3 as int);
    assert(dec_u16(b, i3) == Some((m.3, i4)));
    assert(b[i4] == m.4);
    assert(dec_u8(b, i4) == Some((m.4, i4 + 1)));
    assert(b[i4 + 1] == be16_bytes(el)[0]);
    assert(b[i4 + 2] == be16_bytes(el)[1]);
    assert(be16_val(b[i4 + 1], b[i4 + 2]) == el);
    assert(dec_u16(b, i4 + 1) == Some((el as u16, i6)));
    assert(i6 + el == b.len());
    assert(b.subrange(i6, i6 + el) =~= exts_enc(m.5)) by {
        assert forall|k: int| 0 <= k < el implies b.subrange(i6, i6 + el)[k] == exts_enc(m.5)[k] by {
            assert(b[i6 + k] == exts_enc(m.5)[k]);
        }
    }
    lemma_exts_round_trip(m.5, b, i6);
    assert(exts_dec(b, i6, i6 + el) == Some(m.5));
    assert(Some((m.0, m.1, m.2, m.3, m.4, m.5)) == Some(m));
}

impl ServerHello {
    /// Parses a ServerHello from a buffer holding exactly its body.
    pub fn parse(buf: &mut ParseBuffer) -> (r: Result<ServerHello, TlsError>)
        requires
            old(buf).wf(),
            old(buf).cursor() == 0,
        ensures
            final(buf).wf(),
            final(buf).bytes() == old(buf).bytes(),
            match r {
                Ok(sh) => {
                    &&& server_hello_dec(old(buf).bytes()) == Some(sh.model())
                    &&& final(buf).cursor() == old(buf).bytes().len()
                },
                Err(e) => {
                    &&& server_hello_dec(old(buf).bytes()) is None
                    &&& (e == TlsError::InvalidLength || e == TlsError::InvalidHandshake || e
                        == TlsError::InvalidExtensionsLength)
                },
            },
    {
        let legacy_version = match buf.read_u16() {
            Ok(v) => v,
            Err(e) => {
                return Err(e);
            },
        };
        let random = match buf.read_slice(32) {
            Ok(v) => v,
            Err(e) => {
                return Err(e);
            },
        };
        let sid_len = match buf.read_u8() {
            Ok(v) => v,
            Err(e) => {
                return Err(e);
            },
        };
        if sid_len > 32 {
            return Err(TlsError::InvalidHandshake);
        }
        let legacy_session_id_echo = match buf.read_slice(sid_len as usize) {
            Ok(v) => v,
            Err(e) => {
                return Err(e);
            },
        };
        let cipher_suite = match buf.read_u16() {
            Ok(v) => v,
            Err(e) => {
                return Err(e);
            },
        };
        let legacy_compression_method = match buf.read_u8() {
            Ok(v) => v,
            Err(e) => {
                return Err(e);
            },
        };
        let ext_len = match buf.read_u16() {
            Ok(v) => v,
            Err(e) => {
                return Err(e);
            },
        };
        if buf.remaining() != ext_len as usize {
            return Err(TlsError::InvalidHandshake);
        }
        let extensions = match Extension::parse_vector(buf, ext_len as usize) {
            Ok(v) => v,
            Err(e) => {
                return Err(e);
            },
        };
        Ok(
            ServerHello {
                legacy_version,
                random,
                legacy_session_id_echo,
                cipher_suite,
                legacy_compression_method,
                extensions,
            },
        )
    }
}

} // verus!
