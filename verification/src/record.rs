use vstd::prelude::*;

use crate::application_data::ApplicationData;
use crate::buffer::{record_buffer_bytes, RecordBuffer, RECORD_BUFFER_CAPACITY};
use crate::change_cipher_spec::ChangeCipherSpec;
use crate::client_hello::{ClientHello, Config};
use crate::content_types::ContentType;
use crate::digest::HandshakeDigest;
use crate::error::TlsError;
use crate::handshake::{ClientHandshake, ServerHandshake};
use crate::socket::{read_exact, Socket};
use crate::wire::{be16_bytes, be16_val, lemma_be16_round_trip};

verus! {

/// A pending outbound record: a handshake message or opaque application
/// data, consumed by `encode` and then dropped.
#[derive(Debug, PartialEq, Eq)]
pub enum ClientRecord {
    Handshake(ClientHandshake),
    ApplicationData(ApplicationData),
}

impl ClientRecord {
    /// The serialized body that follows the 5-byte record header.
    pub open spec fn body_enc(&self) -> Seq<u8> {
        match self {
            ClientRecord::Handshake(h) => h.enc(),
            ClientRecord::ApplicationData(ad) => ad.data@,
        }
    }

    pub open spec fn wf(&self) -> bool {
        &&& match self {
            ClientRecord::Handshake(h) => h.wf(),
            ClientRecord::ApplicationData(_) => true,
        }
        &&& self.body_enc().len() <= 0xFFFF
    }

    /// The complete serialized record: the content-type tag, the
    /// protocol-fixed legacy version marker for that content type, the
    /// 2-byte big-endian body length, and the body.
    pub open spec fn enc(&self) -> Seq<u8> {
        (match self {
            ClientRecord::Handshake(_) => seq![22u8, 3u8, 1u8],
            ClientRecord::ApplicationData(_) => seq![23u8, 3u8, 3u8],
        }) + be16_bytes(self.body_enc().len() as int) + self.body_enc()
    }

    /// The record content type this variant is framed under.
    pub fn content_type(&self) -> (r: ContentType)
        ensures
            r == (match self {
                ClientRecord::Handshake(_) => ContentType::Handshake,
                ClientRecord::ApplicationData(_) => ContentType::ApplicationData,
            }),
    {
        match self {
            ClientRecord::Handshake(_) => ContentType::Handshake,
            ClientRecord::ApplicationData(_) => ContentType::ApplicationData,
        }
    }

    /// A record carrying a fresh ClientHello for the given configuration;
    /// the 32-byte random nonce is drawn by the caller from its own
    /// randomness source.
    pub fn client_hello(config: &Config, random: Vec<u8>) -> (r: ClientRecord)
        requires
            config.wf(),
            random@.len() == 32,
        ensures
            r.wf(),
            (match r {
                ClientRecord::Handshake(h) => match h {
                    ClientHandshake::ClientHello(ch) => ch.model() == (
                        random@,
                        Seq::<u8>::empty(),
                        config.cipher_suites@,
                        Seq::<(u16, Seq<u8>)>::empty(),
                    ),
                    _ => false,
                },
                _ => false,
            }),
    {
        let ch = ClientHello::new(config, random);
        proof {
            assert(crate::extensions::exts_enc(ch.model().3) == Seq::<u8>::empty());
            crate::client_hello::lemma_suites_enc_len(ch.model().2);
        }
        let r = ClientRecord::Handshake(ClientHandshake::ClientHello(ch));
        proof {
            assert(r.body_enc().len() == 4 + crate::client_hello::client_hello_enc(
                ch.model(),
            ).len());
        }
        r
    }

    /// Appends one complete record to the buffer: the header is written
    /// first with a zero length field, the body is serialized after it,
    /// and the length field is patched once the body's size is known. For
    /// a handshake record the carried message's bytes are folded into the
    /// running transcript, exactly once; application data leaves the
    /// transcript untouched. A record that does not fit the buffer's fixed
    /// capacity is reported, and buffer and transcript are left unchanged.
    #[verifier::rlimit(60)]
    pub fn encode<D: HandshakeDigest>(&self, buf: &mut RecordBuffer, digest: &mut D) -> (r: Result<
        (),
        TlsError,
    >)
        requires
            self.wf(),
        ensures
            match r {
                Ok(()) => {
                    &&& record_buffer_bytes(*old(buf)).len() + self.enc().len()
                        <= RECORD_BUFFER_CAPACITY as int
                    &&& record_buffer_bytes(*final(buf)) == record_buffer_bytes(*old(buf))
                        + self.enc()
                    &&& (match self {
                        ClientRecord::Handshake(h) => final(digest).absorbed() == old(
                            digest,
                        ).absorbed() + h.enc(),
                        ClientRecord::ApplicationData(_) => final(digest).absorbed() == old(
                            digest,
                        ).absorbed(),
                    })
                },
                Err(e) => {
                    &&& e == TlsError::InsufficientSpace
                    &&& record_buffer_bytes(*old(buf)).len() + self.enc().len()
                        > RECORD_BUFFER_CAPACITY as int
                    &&& record_buffer_bytes(*final(buf)) == record_buffer_bytes(*old(buf))
                    &&& final(digest).absorbed() == old(digest).absorbed()
                },
            },
    {
        let ghost start = record_buffer_bytes(*buf);
        let body_len: usize = match self {
            ClientRecord::Handshake(h) => h.encoded_len(),
            ClientRecord::ApplicationData(ad) => ad.data.len(),
        };
        let used = buf.len();
        if 5 + body_len > RECORD_BUFFER_CAPACITY - used {
            return Err(TlsError::InsufficientSpace);
        }
        match self {
            ClientRecord::Handshake(_) => {
                if let Err(e) = buf.push(22) {
                    return Err(e);
                }
                if let Err(e) = buf.push(3) {
                    return Err(e);
                }
                if let Err(e) = buf.push(1) {
                    return Err(e);
                }
            },
            ClientRecord::ApplicationData(_) => {
                if let Err(e) = buf.push(23) {
                    return Err(e);
                }
                if let Err(e) = buf.push(3) {
                    return Err(e);
                }
                if let Err(e) = buf.push(3) {
                    return Err(e);
                }
            },
        }
        let record_length_marker = buf.len();
        if let Err(e) = buf.push(0) {
            return Err(e);
        }
        if let Err(e) = buf.push(0) {
            return Err(e);
        }
        match self {
            ClientRecord::Handshake(handshake) => {
                if let Err(e) = handshake.encode(buf, digest) {
                    return Err(e);
                }
            },
            ClientRecord::ApplicationData(application_data) => {
                if let Err(e) = buf.extend_from_slice(application_data.data.as_slice()) {
                    return Err(e);
                }
            },
        }
        let record_length = ((buf.len() - record_length_marker) - 2) as u16;
        buf.set(record_length_marker, (record_length / 256) as u8);
        buf.set(record_length_marker + 1, (record_length % 256) as u8);
        proof {
            assert(record_length == self.body_enc().len());
            assert(record_buffer_bytes(*buf) =~= start + self.enc());
        }
        Ok(())
    }
}

/// Length-field correctness: in every encoded record, the patched 2-byte
/// length field, read back big-endian, counts exactly the serialized body
/// that follows the 5-byte header — no more, no less.
pub proof fn lemma_record_length_field(r: &ClientRecord)
    requires
        r.wf(),
    ensures
        r.enc().len() == 5 + r.body_enc().len(),
        be16_val(r.enc()[3], r.enc()[4]) == r.body_enc().len(),
        r.enc().skip(5) == r.body_enc(),
{
    let n = r.body_enc().len() as int;
    lemma_be16_round_trip(n);
    assert(r.enc()[3] == be16_bytes(n)[0]);
    assert(r.enc()[4] == be16_bytes(n)[1]);
    assert(r.enc().skip(5) =~= r.body_enc());
}

/// A decoded inbound record, constructed only by `read`. The Alert arm
/// carries no payload: alert bodies are not yet interpreted, and an alert
/// record is reported as unimplemented rather than parsed.
#[derive(Debug, PartialEq, Eq)]
pub enum ServerRecord {
    Handshake(ServerHandshake),
    ChangeCipherSpec(ChangeCipherSpec),
    Alert,
    ApplicationData(ApplicationData),
}

impl ServerRecord {
    /// This value is what a successful read of the given stream yields:
    /// its content type matches the header tag, and its payload is exactly
    /// the declared number of bytes after the 5-byte header.
    pub open spec fn is_read_of(self, stream: Seq<u8>) -> bool {
        &&& stream.len() >= 5
        &&& {
            let len = be16_val(stream[3], stream[4]);
            let body = stream.subrange(5, 5 + len);
            &&& stream.len() >= 5 + len
            &&& match self {
                ServerRecord::ChangeCipherSpec(ccs) => stream[0] == 20 && ccs.data@ == body,
                ServerRecord::Handshake(sh) => stream[0] == 22 && sh.is_dec_of(body),
                ServerRecord::ApplicationData(ad) => stream[0] == 23 && ad.data@ == body
                    && ad.header@ == stream.take(5),
                ServerRecord::Alert => false,
            }
        }
    }

    /// Two records read from the same stream agree on every field they
    /// carry.
    pub open spec fn model_eq(self, other: ServerRecord) -> bool {
        match (self, other) {
            (ServerRecord::ChangeCipherSpec(a), ServerRecord::ChangeCipherSpec(b)) => a.data@
                == b.data@,
            (ServerRecord::Handshake(a), ServerRecord::Handshake(b)) => a.model_eq(b),
            (ServerRecord::ApplicationData(a), ServerRecord::ApplicationData(b)) => a.data@
                == b.data@ && a.header@ == b.header@,
            (ServerRecord::Alert, ServerRecord::Alert) => true,
            _ => false,
        }
    }

    /// Reads exactly one record from the transport: 5 header bytes —
    /// looping on partial reads until all 5 are obtained — then the
    /// declared number of body bytes, dispatched on the content-type tag.
    /// Only a successfully parsed handshake record touches the running
    /// transcript; every failure, including a transport that closes
    /// mid-header, leaves it unchanged.
    pub fn read<S: Socket, D: HandshakeDigest>(socket: &mut S, digest: &mut D) -> (r: Result<
        ServerRecord,
        TlsError,
    >)
        ensures
            match r {
                Ok(rec) => {
                    let stream = old(socket).recv_data();
                    let len = be16_val(stream[3], stream[4]);
                    &&& rec.is_read_of(stream)
                    &&& final(socket).recv_data() == stream.skip(5 + len)
                    &&& (match rec {
                        ServerRecord::Handshake(_) => final(digest).absorbed() == old(
                            digest,
                        ).absorbed() + stream.subrange(5, 5 + len),
                        _ => final(digest).absorbed() == old(digest).absorbed(),
                    })
                },
                Err(e) => {
                    let stream = old(socket).recv_data();
                    &&& final(digest).absorbed() == old(digest).absorbed()
                    &&& {
                        ||| e == TlsError::ConnectionClosed
                        ||| (e == TlsError::InvalidRecord && stream.len() >= 5
                            && ContentType::of_spec(stream[0]) is None)
                        ||| (e == TlsError::Unimplemented && stream.len() >= 5
                            && ContentType::of_spec(stream[0]) == Some(ContentType::Alert))
                        ||| {
                            &&& (e == TlsError::InvalidHandshake || e == TlsError::InvalidLength
                                || e == TlsError::InvalidExtensionsLength || e
                                == TlsError::InsufficientSpace)
                            &&& stream.len() >= 5
                            &&& ContentType::of_spec(stream[0]) == Some(ContentType::Handshake)
                            &&& 5 + be16_val(stream[3], stream[4]) <= stream.len()
                            &&& !ServerHandshake::dec_ok(
                                stream.subrange(5, 5 + be16_val(stream[3], stream[4])),
                            )
                        }
                    }
                },
            },
    {
        let ghost stream = old(socket).recv_data();
        let header = match read_exact(socket, 5) {
            Ok(v) => v,
            Err(e) => {
                return Err(e);
            },
        };
        let content_length = (header[3] as u16) * 256 + (header[4] as u16);
        proof {
            assert(header@[0] == stream[0]);
            assert(header@[3] == stream[3]);
            assert(header@[4] == stream[4]);
        }
        let ghost len = be16_val(stream[3], stream[4]);
        match ContentType::of(header[0]) {
            None => Err(TlsError::InvalidRecord),
            Some(content_type) => {
                match content_type {
                    // `ContentType::of` assigns only the four wire tags, so
                    // this arm cannot be reached from a header byte; it spells
                    // out the unimplemented-path policy for the Invalid kind.
                    ContentType::Invalid => Err(TlsError::Unimplemented),
                    ContentType::ChangeCipherSpec => {
                        let ccs = match ChangeCipherSpec::read(socket, content_length) {
                            Ok(v) => v,
                            Err(e) => {
                                return Err(e);
                            },
                        };
                        proof {
                            assert(stream.skip(5).take(len) =~= stream.subrange(5, 5 + len));
                            assert(stream.skip(5).skip(len) =~= stream.skip(5 + len));
                        }
                        Ok(ServerRecord::ChangeCipherSpec(ccs))
                    },
                    ContentType::Alert => Err(TlsError::Unimplemented),
                    ContentType::Handshake => {
                        let hs = match ServerHandshake::read(socket, content_length, digest) {
                            Ok(v) => v,
                            Err(e) => {
                                proof {
                                    assert(content_length as int == len);
                                    if e != TlsError::ConnectionClosed {
                                        assert(stream.skip(5).take(len) =~= stream.subrange(
                                            5,
                                            5 + len,
                                        ));
                                    }
                                }
                                return Err(e);
                            },
                        };
                        proof {
                            assert(stream.skip(5).take(len) =~= stream.subrange(5, 5 + len));
                            assert(stream.skip(5).skip(len) =~= stream.skip(5 + len));
                        }
                        Ok(ServerRecord::Handshake(hs))
                    },
                    ContentType::ApplicationData => {
                        let ad = match ApplicationData::read(
                            socket,
                            content_length,
                            header.as_slice(),
                        ) {
                            Ok(v) => v,
                            Err(e) => {
                                return Err(e);
                            },
                        };
                        proof {
                            assert(stream.skip(5).take(len) =~= stream.subrange(5, 5 + len));
                            assert(stream.skip(5).skip(len) =~= stream.skip(5 + len));
                            assert(header@ == stream.take(5));
                        }
                        Ok(ServerRecord::ApplicationData(ad))
                    },
                }
            },
        }
    }
}

/// Partial-read resilience, as a theorem: what `read` yields is a function
/// of the stream's content alone. Two successful reads of the same stream
/// — however the transport fragmented its deliveries — agree on every
/// field of the record.
pub proof fn lemma_record_read_deterministic(stream: Seq<u8>, x: ServerRecord, y: ServerRecord)
    requires
        x.is_read_of(stream),
        y.is_read_of(stream),
    ensures
        x.model_eq(y),
{
    let len = be16_val(stream[3], stream[4]);
    let body = stream.subrange(5, 5 + len);
    match (x, y) {
        (ServerRecord::Handshake(a), ServerRecord::Handshake(b)) => {
            crate::handshake::lemma_handshake_dec_deterministic(body, a, b);
        },
        _ => {},
    }
}

/// Header bytes 1-2 — the legacy protocol version — are carried, never
/// validated: two streams that differ only in those two bytes decode to
/// records that agree on every field. Application data is the one
/// exception, since it keeps the whole header as associated-data context.
pub proof fn lemma_version_bytes_ignored(
    s1: Seq<u8>,
    s2: Seq<u8>,
    x: ServerRecord,
    y: ServerRecord,
)
    requires
        s1.len() == s2.len(),
        forall|i: int| 0 <= i < s1.len() && i != 1 && i != 2 ==> #[trigger] s1[i] == s2[i],
        !(x is ApplicationData),
        x.is_read_of(s1),
        y.is_read_of(s2),
    ensures
        x.model_eq(y),
{
    assert(s1[0] == s2[0]);
    assert(s1[3] == s2[3]);
    assert(s1[4] == s2[4]);
    let len = be16_val(s1[3], s1[4]);
    assert(s1.subrange(5, 5 + len) =~= s2.subrange(5, 5 + len)) by {
        assert forall|k: int| 0 <= k < len implies #[trigger] s1.subrange(5, 5 + len)[k]
            == s2.subrange(5, 5 + len)[k] by {
            assert(s1[5 + k] == s2[5 + k]);
        }
    }
    match (x, y) {
        (ServerRecord::Handshake(a), ServerRecord::Handshake(b)) => {
            crate::handshake::lemma_handshake_dec_deterministic(s1.subrange(5, 5 + len), a, b);
        },
        _ => {},
    }
}

} // verus!
