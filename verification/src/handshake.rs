use vstd::prelude::*;

use crate::buffer::{record_buffer_bytes, RecordBuffer, RECORD_BUFFER_CAPACITY};
use crate::client_hello::{client_hello_enc, ClientHello};
use crate::digest::HandshakeDigest;
use crate::encrypted_extensions::{encrypted_extensions_dec, EncryptedExtensions};
use crate::error::TlsError;
use crate::finished::{finished_dec, finished_enc, Finished};
use crate::parse_buffer::ParseBuffer;
use crate::server_hello::{server_hello_dec, ServerHello};
use crate::socket::{read_exact, Socket};
use crate::wire::{be24_bytes, dec_u24, dec_u8};

verus! {

/// The handshake message kinds this core speaks.
#[derive(Clone, Copy, PartialEq, Eq, Structural, Debug)]
pub enum HandshakeType {
    ClientHello,
    ServerHello,
    EncryptedExtensions,
    Certificate,
    CertificateVerify,
    Finished,
}

impl HandshakeType {
    pub open spec fn tag_spec(self) -> u8 {
        match self {
            HandshakeType::ClientHello => 1,
            HandshakeType::ServerHello => 2,
            HandshakeType::EncryptedExtensions => 8,
            HandshakeType::Certificate => 11,
            HandshakeType::CertificateVerify => 15,
            HandshakeType::Finished => 20,
        }
    }

    /// The wire tag of this handshake message kind.
    pub fn tag(&self) -> (r: u8)
        ensures
            r == self.tag_spec(),
    {
        match self {
            HandshakeType::ClientHello => 1,
            HandshakeType::ServerHello => 2,
            HandshakeType::EncryptedExtensions => 8,
            HandshakeType::Certificate => 11,
            HandshakeType::CertificateVerify => 15,
            HandshakeType::Finished => 20,
        }
    }
}

/// A certificate-family handshake message whose payload this core carries
/// through opaquely for the caller's certificate machinery.
#[derive(Debug, PartialEq, Eq)]
pub struct Certificate {
    pub payload: Vec<u8>,
}

/// The signature over the transcript that accompanies the certificate;
/// carried through opaquely like the certificate itself.
#[derive(Debug, PartialEq, Eq)]
pub struct CertificateVerify {
    pub payload: Vec<u8>,
}

/// A handshake message the client sends.
#[derive(Debug, PartialEq, Eq)]
pub enum ClientHandshake {
    ClientHello(ClientHello),
    Finished(Finished),
}

impl ClientHandshake {
    pub open spec fn wf(&self) -> bool {
        match self {
            ClientHandshake::ClientHello(ch) => ch.wf(),
            ClientHandshake::Finished(f) => f.wf(),
        }
    }

    pub open spec fn tag_spec(&self) -> u8 {
        match self {
            ClientHandshake::ClientHello(_) => 1,
            ClientHandshake::Finished(_) => 20,
        }
    }

    /// The serialized body of the carried message.
    pub open spec fn body_enc(&self) -> Seq<u8> {
        match self {
            ClientHandshake::ClientHello(ch) => client_hello_enc(ch.model()),
            ClientHandshake::Finished(f) => finished_enc(f.model()),
        }
    }

    /// The full serialized message: a 1-byte type tag, a 3-byte big-endian
    /// body length, and the body.
    pub open spec fn enc(&self) -> Seq<u8> {
        seq![self.tag_spec()] + be24_bytes(self.body_enc().len() as int) + self.body_enc()
    }

    /// The exact size of the full serialized message.
    pub fn encoded_len(&self) -> (r: usize)
        requires
            self.wf(),
        ensures
            r == self.enc().len(),
            r <= 4 + 41 + 32 + 0xFFFE + 0xFFFF,
    {
        match self {
            ClientHandshake::ClientHello(ch) => 4 + ch.encoded_len(),
            ClientHandshake::Finished(f) => 4 + f.verify_data.len(),
        }
    }

    /// Serializes this message into the buffer and folds exactly the bytes
    /// written — type, length and body — into the running transcript, once,
    /// at this point of authoritative serialization. The caller has
    /// already checked that the whole record fits.
    pub fn encode<D: HandshakeDigest>(&self, buf: &mut RecordBuffer, digest: &mut D) -> (r: Result<
        (),
        TlsError,
    >)
        requires
            self.wf(),
            record_buffer_bytes(*old(buf)).len() + self.enc().len() <= RECORD_BUFFER_CAPACITY as int,
        ensures
            r is Ok,
            record_buffer_bytes(*final(buf)) == record_buffer_bytes(*old(buf)) + self.enc(),
            final(digest).absorbed() == old(digest).absorbed() + self.enc(),
    {
        let ghost start = record_buffer_bytes(*buf);
        let marker = buf.len();
        let body_len: usize = match self {
            ClientHandshake::ClientHello(ch) => ch.encoded_len(),
            ClientHandshake::Finished(f) => f.verify_data.len(),
        };
        let tag: u8 = match self {
            ClientHandshake::ClientHello(_) => 1,
            ClientHandshake::Finished(_) => 20,
        };
        if let Err(e) = buf.push(tag) {
            return Err(e);
        }
        if let Err(e) = buf.push((body_len / 0x10000) as u8) {
            return Err(e);
        }
        if let Err(e) = buf.push(((body_len / 256) % 256) as u8) {
            return Err(e);
        }
        if let Err(e) = buf.push((body_len % 256) as u8) {
            return Err(e);
        }
        let body_result = match self {
            ClientHandshake::ClientHello(ch) => ch.encode_body(buf),
            ClientHandshake::Finished(f) => f.encode_body(buf),
        };
        if let Err(e) = body_result {
            return Err(e);
        }
        proof {
            assert(record_buffer_bytes(*buf) =~= start + self.enc());
            assert(record_buffer_bytes(*buf).skip(marker as int) =~= self.enc());
        }
        let msg = buf.tail(marker);
        digest.update(msg);
        Ok(())
    }
}

/// Round trip of the handshake message framing itself: splitting the
/// serialized form of a client message recovers its type tag and its
/// serialized body exactly.
pub proof fn lemma_client_handshake_framing(h: &ClientHandshake)
    requires
        h.wf(),
        h.body_enc().len() < 0x1000000,
    ensures
        hs_dec_parts(h.enc()) == Some((h.tag_spec(), h.body_enc())),
{
    let b = h.enc();
    let n = h.body_enc().len() as int;
    crate::wire::lemma_be24_round_trip(n);
    assert(b[0] == h.tag_spec());
    assert(b[1] == be24_bytes(n)[0]);
    assert(b[2] == be24_bytes(n)[1]);
    assert(b[3] == be24_bytes(n)[2]);
    assert(crate::wire::be24_val(b[1], b[2], b[3]) == n);
    assert(dec_u24(b, 1) == Some((n as u32, 4int)));
    assert(b.skip(4) =~= h.body_enc());
}

/// Splits a record body into one handshake message's type tag and body,
/// requiring the declared 3-byte length to reach exactly the end.
pub open spec fn hs_dec_parts(b: Seq<u8>) -> Option<(u8, Seq<u8>)> {
    match dec_u8(b, 0) {
        None => None,
        Some((t, _)) => match dec_u24(b, 1) {
            None => None,
            Some((l, j)) => if j + l == b.len() {
                Some((t, b.skip(4)))
            } else {
                None
            },
        },
    }
}

/// A handshake message the server sends.
#[derive(Debug, PartialEq, Eq)]
pub enum ServerHandshake {
    ServerHello(ServerHello),
    EncryptedExtensions(EncryptedExtensions),
    Certificate(Certificate),
    CertificateVerify(CertificateVerify),
    Finished(Finished),
}

impl ServerHandshake {
    /// This value is what the given record body decodes to.
    pub open spec fn is_dec_of(self, b: Seq<u8>) -> bool {
        match hs_dec_parts(b) {
            None => false,
            Some((t, body)) => match self {
                ServerHandshake::ServerHello(sh) => t == 2 && server_hello_dec(body) == Some(
                    sh.model(),
                ),
                ServerHandshake::EncryptedExtensions(ee) => t == 8 && encrypted_extensions_dec(body)
                    == Some(ee.model()) && ee.wf(),
                ServerHandshake::Certificate(c) => t == 11 && c.payload@ == body,
                ServerHandshake::CertificateVerify(cv) => t == 15 && cv.payload@ == body,
                ServerHandshake::Finished(f) => t == 20 && finished_dec(body) == Some(f.model()),
            },
        }
    }

    /// The given record body decodes to some server handshake message.
    pub open spec fn dec_ok(b: Seq<u8>) -> bool {
        match hs_dec_parts(b) {
            None => false,
            Some((t, body)) => if t == 2 {
                server_hello_dec(body) is Some
            } else if t == 8 {
                match encrypted_extensions_dec(body) {
                    Some(s) => s.len() <= 16,
                    None => false,
                }
            } else if t == 11 || t == 15 {
                true
            } else if t == 20 {
                finished_dec(body) is Some
            } else {
                false
            },
        }
    }

    /// Two decoded messages agree on every field they carry.
    pub open spec fn model_eq(self, other: Self) -> bool {
        match (self, other) {
            (ServerHandshake::ServerHello(a), ServerHandshake::ServerHello(b)) => a.model()
                == b.model(),
            (
                ServerHandshake::EncryptedExtensions(a),
                ServerHandshake::EncryptedExtensions(b),
            ) => a.model() == b.model(),
            (ServerHandshake::Certificate(a), ServerHandshake::Certificate(b)) => a.payload@
                == b.payload@,
            (ServerHandshake::CertificateVerify(a), ServerHandshake::CertificateVerify(b)) => a
                .payload@ == b.payload@,
            (ServerHandshake::Finished(a), ServerHandshake::Finished(b)) => a.model() == b.model(),
            _ => false,
        }
    }

    /// Parses one handshake message from a buffer holding exactly one
    /// record body, and folds the body's bytes into the running transcript
    /// only after the message has parsed successfully; a failed parse
    /// leaves the transcript untouched.
    pub fn parse<D: HandshakeDigest>(data: &[u8], digest: &mut D) -> (r: Result<
        ServerHandshake,
        TlsError,
    >)
        ensures
            match r {
                Ok(sh) => {
                    &&& ServerHandshake::dec_ok(data@)
                    &&& sh.is_dec_of(data@)
                    &&& final(digest).absorbed() == old(digest).absorbed() + data@
                },
                Err(e) => {
                    &&& !ServerHandshake::dec_ok(data@)
                    &&& final(digest).absorbed() == old(digest).absorbed()
                    &&& (e == TlsError::InvalidHandshake || e == TlsError::InvalidLength || e
                        == TlsError::InvalidExtensionsLength || e == TlsError::InsufficientSpace)
                },
            },
    {
        let mut header = ParseBuffer::new(data);
        let t = match header.read_u8() {
            Ok(v) => v,
            Err(_) => {
                return Err(TlsError::InvalidHandshake);
            },
        };
        let l = match header.read_u24() {
            Ok(v) => v,
            Err(_) => {
                return Err(TlsError::InvalidHandshake);
            },
        };
        if header.remaining() != l as usize {
            return Err(TlsError::InvalidHandshake);
        }
        let body = match header.read_slice(l as usize) {
            Ok(v) => v,
            Err(_) => {
                return Err(TlsError::InvalidHandshake);
            },
        };
        proof {
            assert(hs_dec_parts(data@) == Some((t, body@))) by {
                assert(data@.subrange(4, data@.len() as int) =~= data@.skip(4));
            }
        }
        let msg: ServerHandshake = if t == 2 {
            let mut pb = ParseBuffer::new(body.as_slice());
            match ServerHello::parse(&mut pb) {
                Ok(sh) => ServerHandshake::ServerHello(sh),
                Err(e) => {
                    return Err(e);
                },
            }
        } else if t == 8 {
            let mut pb = ParseBuffer::new(body.as_slice());
            match EncryptedExtensions::parse(&mut pb) {
                Ok(ee) => ServerHandshake::EncryptedExtensions(ee),
                Err(e) => {
                    return Err(e);
                },
            }
        } else if t == 11 {
            ServerHandshake::Certificate(Certificate { payload: body })
        } else if t == 15 {
            ServerHandshake::CertificateVerify(CertificateVerify { payload: body })
        } else if t == 20 {
            if body.len() < 1 || body.len() > 64 {
                return Err(TlsError::InvalidHandshake);
            }
            ServerHandshake::Finished(Finished { verify_data: body })
        } else {
            return Err(TlsError::InvalidHandshake);
        };
        digest.update(data);
        Ok(msg)
    }
}

impl ServerHandshake {
    /// Reads the declared number of record-body bytes from the transport
    /// and parses them as one handshake message, folding the bytes into
    /// the running transcript only on success.
    pub fn read<S: Socket, D: HandshakeDigest>(
        socket: &mut S,
        content_length: u16,
        digest: &mut D,
    ) -> (r: Result<ServerHandshake, TlsError>)
        ensures
            match r {
                Ok(sh) => {
                    &&& content_length as int <= old(socket).recv_data().len()
                    &&& sh.is_dec_of(old(socket).recv_data().take(content_length as int))
                    &&& final(socket).recv_data() == old(socket).recv_data().skip(
                        content_length as int,
                    )
                    &&& final(digest).absorbed() == old(digest).absorbed() + old(
                        socket,
                    ).recv_data().take(content_length as int)
                },
                Err(e) => {
                    &&& final(digest).absorbed() == old(digest).absorbed()
                    &&& {
                        ||| e == TlsError::ConnectionClosed
                        ||| {
                            &&& (e == TlsError::InvalidHandshake || e == TlsError::InvalidLength
                                || e == TlsError::InvalidExtensionsLength || e
                                == TlsError::InsufficientSpace)
                            &&& content_length as int <= old(socket).recv_data().len()
                            &&& !ServerHandshake::dec_ok(
                                old(socket).recv_data().take(content_length as int),
                            )
                        }
                    }
                },
            },
    {
        let body = match read_exact(socket, content_length as usize) {
            Ok(v) => v,
            Err(e) => {
                return Err(e);
            },
        };
        ServerHandshake::parse(body.as_slice(), digest)
    }
}

/// Round-trip framing across the two directions for the one message kind
/// both sides exchange: the record body the client-side encoder produces
/// for a Finished message is accepted by the server-side message decoder
/// and yields the same verification data.
pub proof fn lemma_finished_framing_round_trip(f: Finished)
    requires
        f.wf(),
    ensures
        ServerHandshake::dec_ok(ClientHandshake::Finished(f).enc()),
        ServerHandshake::Finished(f).is_dec_of(ClientHandshake::Finished(f).enc()),
{
    let h = ClientHandshake::Finished(f);
    lemma_client_handshake_framing(&h);
}

/// Determinism of handshake decoding: two messages decoded from the same
/// record body agree on every field; in particular, how the bytes arrived
/// from the transport cannot change what they decode to.
pub proof fn lemma_handshake_dec_deterministic(b: Seq<u8>, x: ServerHandshake, y: ServerHandshake)
    requires
        x.is_dec_of(b),
        y.is_dec_of(b),
    ensures
        x.model_eq(y),
{
}

} // verus!
