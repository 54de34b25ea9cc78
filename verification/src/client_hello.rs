use vstd::prelude::*;

use crate::buffer::{record_buffer_bytes, RecordBuffer, RECORD_BUFFER_CAPACITY};
use crate::error::TlsError;
use crate::extensions::{
    encode_extensions, ext_wf, exts_dec, exts_enc, exts_model, lemma_exts_enc_split,
    lemma_exts_round_trip, Extension,
};
use crate::wire::{be16_bytes, be16_val, dec_bytes, dec_u16, dec_u8, lemma_be16_round_trip};

verus! {

/// The mathematical value a ClientHello stands for: its random nonce, its
/// echoed legacy session id, its offered cipher suites, and its extensions.
pub type ClientHelloModel = (Seq<u8>, Seq<u8>, Seq<u16>, Seq<(u16, Seq<u8>)>);

/// The client configuration a ClientHello is built from.
#[derive(Debug, PartialEq, Eq)]
pub struct Config {
    pub cipher_suites: Vec<u16>,
}

impl Config {
    /// The machine limit on the offered suite list: the ClientHello record
    /// built from it — 45 bytes of record framing and fixed fields plus 2
    /// per suite — must fit the record header's 2-byte length field.
    pub open spec fn wf(&self) -> bool {
        45 + 2 * self.cipher_suites@.len() <= 0xFFFF
    }
}

/// The opening client handshake message: a fixed legacy version, a 32-byte
/// random nonce supplied by the caller's randomness source, a legacy
/// session id, the offered cipher suites, and a block of extensions.
#[derive(Debug, PartialEq, Eq)]
pub struct ClientHello {
    pub random: Vec<u8>,
    pub legacy_session_id: Vec<u8>,
    pub cipher_suites: Vec<u16>,
    pub extensions: Vec<Extension>,
}

impl ClientHello {
    pub open spec fn model(&self) -> ClientHelloModel {
        (self.random@, self.legacy_session_id@, self.cipher_suites@, exts_model(self.extensions@))
    }

    pub open spec fn wf(&self) -> bool {
        &&& self.random@.len() == 32
        &&& self.legacy_session_id@.len() <= 32
        &&& self.cipher_suites@.len() <= 0x7FFF
        &&& (forall|k: int| 0 <= k < self.extensions@.len() ==> (#[trigger] self.extensions@[k]).wf())
        &&& exts_enc(exts_model(self.extensions@)).len() <= 0xFFFF
    }

    /// A fresh ClientHello for the given configuration. The random nonce
    /// is passed in by the caller, which draws it from its own
    /// cryptographically secure randomness source.
    pub fn new(config: &Config, random: Vec<u8>) -> (r: ClientHello)
        requires
            config.wf(),
            random@.len() == 32,
        ensures
            r.wf(),
            r.model() == (random@, Seq::<u8>::empty(), config.cipher_suites@, Seq::<(
                u16,
                Seq<u8>,
            )>::empty()),
    {
        let mut suites: Vec<u16> = Vec::new();
        let mut i: usize = 0;
        while i < config.cipher_suites.len()
            invariant
                0 <= i <= config.cipher_suites@.len(),
                suites@ == config.cipher_suites@.take(i as int),
            decreases config.cipher_suites@.len() - i,
        {
            suites.push(config.cipher_suites[i]);
            proof {
                assert(config.cipher_suites@.take(i as int).push(config.cipher_suites@[i as int])
                    =~= config.cipher_suites@.take(i as int + 1));
            }
            i = i + 1;
        }
        proof {
            assert(config.cipher_suites@.take(config.cipher_suites@.len() as int)
                =~= config.cipher_suites@);
        }
        let r = ClientHello {
            random,
            legacy_session_id: Vec::new(),
            cipher_suites: suites,
            extensions: Vec::new(),
        };
        proof {
            assert(exts_model(r.extensions@) =~= Seq::<(u16, Seq<u8>)>::empty());
        }
        r
    }
}

/// The encoding of a list of cipher suites: 2 bytes big-endian each.
pub open spec fn suites_enc(s: Seq<u16>) -> Seq<u8>
    decreases s.len(),
{
    if s.len() == 0 {
        Seq::<u8>::empty()
    } else {
        be16_bytes(s[0] as int) + suites_enc(s.skip(1))
    }
}

/// Decodes cipher suites from cursor `i` until exactly cursor `end`.
pub open spec fn suites_dec(b: Seq<u8>, i: int, end: int) -> Option<Seq<u16>>
    decreases end - i,
{
    if i == end {
        Some(Seq::<u16>::empty())
    } else if i > end {
        None
    } else {
        match dec_u16(b, i) {
            None => None,
            Some((v, j)) => if j <= end {
                match suites_dec(b, j, end) {
                    None => None,
                    Some(rest) => Some(seq![v] + rest),
                }
            } else {
                None
            },
        }
    }
}

pub proof fn lemma_suites_enc_len(s: Seq<u16>)
    ensures
        suites_enc(s).len() == 2 * s.len(),
    decreases s.len(),
{
    if s.len() > 0 {
        lemma_suites_enc_len(s.skip(1));
    }
}

/// The encoding of a suite list splits at any index.
pub proof fn lemma_suites_enc_split(s: Seq<u16>, i: int)
    requires
        0 <= i <= s.len(),
    ensures
        suites_enc(s) == suites_enc(s.take(i)) + suites_enc(s.skip(i)),
    decreases i,
{
    if i == 0 {
        assert(s.take(0) =~= Seq::<u16>::empty());
        assert(s.skip(0) =~= s);
        assert(suites_enc(s.take(0)) + suites_enc(s) =~= suites_enc(s));
    } else {
        lemma_suites_enc_split(s.skip(1), i - 1);
        assert(s.skip(1).take(i - 1) =~= s.take(i).skip(1));
        assert(s.skip(1).skip(i - 1) =~= s.skip(i));
        assert(s.take(i)[0] == s[0]);
        assert(suites_enc(s.take(i)) == be16_bytes(s[0] as int) + suites_enc(s.take(i).skip(1)));
        assert((be16_bytes(s[0] as int) + suites_enc(s.skip(1).take(i - 1))) + suites_enc(s.skip(i))
            =~= be16_bytes(s[0] as int) + (suites_enc(s.skip(1).take(i - 1)) + suites_enc(
            s.skip(i),
        )));
    }
}

/// Round trip for a cipher-suite list.
pub proof fn lemma_suites_round_trip(s: Seq<u16>, b: Seq<u8>, i: int)
    requires
        0 <= i,
        i + 2 * s.len() <= b.len(),
        b.subrange(i, i + 2 * s.len()) == suites_enc(s),
    ensures
        suites_dec(b, i, i + 2 * s.len()) == Some(s),
    decreases s.len(),
{
    lemma_suites_enc_len(s);
    let end = i + 2 * s.len();
    if s.len() == 0 {
        assert(s =~= Seq::<u16>::empty());
    } else {
        let enc = suites_enc(s);
        let rest = s.skip(1);
        lemma_suites_enc_len(rest);
        assert forall|k: int| 0 <= k < enc.len() implies b[i + k] == enc[k] by {
            assert(b.subrange(i, end)[k] == b[i + k]);
        }
        lemma_be16_round_trip(s[0] as int);
        assert(b[i] == enc[0] && b[i + 1] == enc[1]);
        assert(enc[0] == be16_bytes(s[0] as int)[0]);
        assert(enc[1] == be16_bytes(s[0] as int)[1]);
        assert(be16_val(b[i], b[i + 1]) == s[0] as int);
        assert(dec_u16(b, i) == Some((s[0], i + 2)));
        assert(b.subrange(i + 2, i + 2 + 2 * rest.len()) =~= suites_enc(rest)) by {
            assert forall|k: int| 0 <= k < 2 * rest.len() implies b.subrange(
                i + 2,
                i + 2 + 2 * rest.len(),
            )[k] == suites_enc(rest)[k] by {
                assert(b[i + 2 + k] == enc[2 + k]);
                assert(enc[2 + k] == suites_enc(rest)[k]);
            }
        }
        lemma_suites_round_trip(rest, b, i + 2);
        assert(seq![s[0]] + rest =~= s);
    }
}

/// The serialized body of a ClientHello: legacy version 0x0303, the
/// 32-byte random, the length-prefixed session id, the length-prefixed
/// cipher-suite list, the single legacy null compression method, and the
/// length-prefixed extension block.
pub open spec fn client_hello_enc(m: ClientHelloModel) -> Seq<u8> {
    seq![3u8, 3u8] + m.0 + seq![m.1.len() as u8] + m.1 + be16_bytes(2 * m.2.len() as int) + suites_enc(m.2)
        + seq![1u8, 0u8] + be16_bytes(exts_enc(m.3).len() as int) + exts_enc(m.3)
}

/// Decodes a ClientHello body, requiring every declared length to match
/// and the buffer to end exactly with the extension block.
pub open spec fn client_hello_dec(b: Seq<u8>) -> Option<ClientHelloModel> {
    match dec_u16(b, 0) {
        None => None,
        Some((ver, i0)) => if ver != 0x0303 {
            None
        } else {
            match dec_bytes(b, i0, 32) {
                None => None,
                Some((random, i1)) => match dec_u8(b, i1) {
                    None => None,
                    Some((sid_len, i2)) => if sid_len > 32 {
                        None
                    } else {
                        match dec_bytes(b, i2, sid_len as int) {
                            None => None,
                            Some((sid, i3)) => match dec_u16(b, i3) {
                                None => None,
                                Some((cs_len, i4)) => if i4 + cs_len > b.len() {
                                    None
                                } else {
                                    match suites_dec(b, i4, i4 + cs_len) {
                                        None => None,
                                        Some(suites) => client_hello_dec_tail(
                                            b,
                                            i4 + cs_len,
                                            random,
                                            sid,
                                            suites,
                                        ),
                                    }
                                },
                            },
                        }
                    },
                },
            }
        },
    }
}

/// The tail of the ClientHello decoder: compression methods and the
/// extension block, which must end exactly at the end of the buffer.
pub open spec fn client_hello_dec_tail(
    b: Seq<u8>,
    i: int,
    random: Seq<u8>,
    sid: Seq<u8>,
    suites: Seq<u16>,
) -> Option<ClientHelloModel> {
    match dec_u8(b, i) {
        None => None,
        Some((comp_len, i5)) => if comp_len != 1 {
            None
        } else {
            match dec_u8(b, i5) {
                None => None,
                Some((comp, i6)) => if comp != 0 {
                    None
                } else {
                    match dec_u16(b, i6) {
                        None => None,
                        Some((ext_len, i7)) => if i7 + ext_len != b.len() {
                            None
                        } else {
                            match exts_dec(b, i7, b.len() as int) {
                                None => None,
                                Some(exts) => Some((random, sid, suites, exts)),
                            }
                        },
                    }
                },
            }
        },
    }
}

/// Round-trip framing for a ClientHello: decoding its encoding yields the
/// message back, for all fields it carries.
#[verifier::rlimit(60)]
pub proof fn lemma_client_hello_round_trip(m: ClientHelloModel)
    requires
        m.0.len() == 32,
        m.1.len() <= 32,
        m.2.len() <= 0x7FFF,
        forall|k: int| 0 <= k < m.3.len() ==> ext_wf(#[trigger] m.3[k]),
        exts_enc(m.3).len() <= 0xFFFF,
    ensures
        client_hello_dec(client_hello_enc(m)) == Some(m),
{
    let b = client_hello_enc(m);
    let sl = m.1.len() as int;
    let ns = m.2.len() as int;
    let el = exts_enc(m.3).len() as int;
    lemma_suites_enc_len(m.2);
    lemma_be16_round_trip(2 * ns);
    lemma_be16_round_trip(el);
    let i1 = 34;
    let i2 = 35;
    let i3 = 35 + sl;
    let i4 = i3 + 2;
    let i5 = i4 + 2 * ns;
    let i7 = i5 + 2 + 2;
    assert(b.len() == i7 + el);
    assert(b[0] == 3 && b[1] == 3);
    assert(be16_val(3u8, 3u8) == 0x0303);
    assert(dec_u16(b, 0) == Some((0x0303u16, 2int)));
    assert(b.subrange(2, 34) =~= m.0) by {
        assert forall|k: int| 0 <= k < 32 implies b.subrange(2, 34)[k] == m.0[k] by {
            assert(b[2 + k] == m.0[k]);
        }
    }
    assert(dec_bytes(b, 2, 32) == Some((m.0, i1)));
    assert(b[i1] == sl as u8);
    assert(dec_u8(b, i1) == Some((sl as u8, i2)));
    assert(sl as u8 <= 32);
    assert(b.subrange(i2, i2 + sl) =~= m.1) by {
        assert forall|k: int| 0 <= k < sl implies b.subrange(i2, i2 + sl)[k] == m.1[k] by {
            assert(b[i2 + k] == m.1[k]);
        }
    }
    assert(dec_bytes(b, i2, sl) == Some((m.1, i3)));
    assert(b[i3] == be16_bytes(2 * ns)[0]);
    assert(b[i3 + 1] == be16_bytes(2 * ns)[1]);
    assert(be16_val(b[i3], b[i3 + 1]) == 2 * ns);
    assert(dec_u16(b, i3) == Some(((2 * ns) as u16, i4)));
    assert(i4 + 2 * ns <= b.len());
    assert(b.subrange(i4, i4 + 2 * ns) =~= suites_enc(m.2)) by {
        assert forall|k: int| 0 <= k < 2 * ns implies b.subrange(i4, i4 + 2 * ns)[k] == suites_enc(
            m.2,
        )[k] by {
            assert(b[i4 + k] == suites_enc(m.2)[k]);
        }
    }
    lemma_suites_round_trip(m.2, b, i4);
    assert(suites_dec(b, i4, i4 + 2 * ns) == Some(m.2));
    assert(b[i5] == 1u8);
    assert(dec_u8(b, i5) == Some((1u8, i5 + 1)));
    assert(b[i5 + 1] == 0u8);
    assert(dec_u8(b, i5 + 1) == Some((0u8, i5 + 2)));
    assert(b[i5 + 2] == be16_bytes(el)[0]);
    assert(b[i5 + 3] == be16_bytes(el)[1]);
    assert(be16_val(b[i5 + 2], b[i5 + 3]) == el);
    assert(dec_u16(b, i5 + 2) == Some((el as u16, i7)));
    assert(i7 + el == b.len());
    assert(b.subrange(i7, i7 + el) =~= exts_enc(m.3)) by {
        assert forall|k: int| 0 <= k < el implies b.subrange(i7, i7 + el)[k] == exts_enc(m.3)[k] by {
            assert(b[i7 + k] == exts_enc(m.3)[k]);
        }
    }
    lemma_exts_round_trip(m.3, b, i7);
    assert(exts_dec(b, i7, i7 + el) == Some(m.3));
    assert(client_hello_dec_tail(b, i5, m.0, m.1, m.2) == Some(m)) by {
        assert(Some((m.0, m.1, m.2, m.3)) == Some(m));
    }
}

impl ClientHello {
    /// The exact size of this message's serialized body.
    pub fn encoded_len(&self) -> (r: usize)
        requires
            self.wf(),
        ensures
            r == client_hello_enc(self.model()).len(),
            r <= 41 + 32 + 0xFFFE + 0xFFFF,
    {
        proof {
            lemma_suites_enc_len(self.model().2);
        }
        let ext_len = extensions_encoded_len(&self.extensions);
        41 + self.legacy_session_id.len() + 2 * self.cipher_suites.len() + ext_len
    }

    /// Appends this message's serialized body to the buffer; the caller
    /// has already checked that the whole record fits.
    #[verifier::loop_isolation(false)]
    #[verifier::rlimit(60)]
    pub fn encode_body(&self, buf: &mut RecordBuffer) -> (r: Result<(), TlsError>)
        requires
            self.wf(),
            record_buffer_bytes(*old(buf)).len() + client_hello_enc(self.model()).len()
                <= RECORD_BUFFER_CAPACITY as int,
        ensures
            r is Ok,
            record_buffer_bytes(*final(buf)) == record_buffer_bytes(*old(buf)) + client_hello_enc(
                self.model(),
            ),
    {
        let ghost m = self.model();
        let ghost start = record_buffer_bytes(*buf);
        let ghost enc = client_hello_enc(m);
        proof {
            lemma_suites_enc_len(m.2);
        }
        if let Err(e) = buf.push(3) {
            return Err(e);
        }
        if let Err(e) = buf.push(3) {
            return Err(e);
        }
        if let Err(e) = buf.extend_from_slice(self.random.as_slice()) {
            return Err(e);
        }
        if let Err(e) = buf.push(self.legacy_session_id.len() as u8) {
            return Err(e);
        }
        if let Err(e) = buf.extend_from_slice(self.legacy_session_id.as_slice()) {
            return Err(e);
        }
        let cs_len = (2 * self.cipher_suites.len()) as u16;
        if let Err(e) = buf.push((cs_len / 256) as u8) {
            return Err(e);
        }
        if let Err(e) = buf.push((cs_len % 256) as u8) {
            return Err(e);
        }
        let ghost before_suites = record_buffer_bytes(*buf);
        let mut i: usize = 0;
        while i < self.cipher_suites.len()
            invariant
                0 <= i <= self.cipher_suites@.len(),
                record_buffer_bytes(*buf) == before_suites + suites_enc(m.2.take(i as int)),
            decreases self.cipher_suites@.len() - i,
        {
            proof {
                lemma_suites_enc_split(m.2, i as int);
                lemma_suites_enc_len(m.2.take(i as int));
                assert(m.2.skip(i as int)[0] == m.2[i as int]);
                assert(suites_enc(m.2.skip(i as int)) == be16_bytes(m.2[i as int] as int)
                    + suites_enc(m.2.skip(i as int).skip(1)));
                lemma_suites_enc_len(m.2.skip(i as int));
            }
            let s = self.cipher_suites[i];
            if let Err(e) = buf.push((s / 256) as u8) {
                return Err(e);
            }
            if let Err(e) = buf.push((s % 256) as u8) {
                return Err(e);
            }
            proof {
                lemma_suites_enc_split(m.2.take(i as int + 1), i as int);
                assert(m.2.take(i as int + 1).take(i as int) =~= m.2.take(i as int));
                assert(m.2.take(i as int + 1).skip(i as int) =~= seq![m.2[i as int]]);
                assert(suites_enc(seq![m.2[i as int]]) == be16_bytes(m.2[i as int] as int)
                    + suites_enc(seq![m.2[i as int]].skip(1)));
                assert(seq![m.2[i as int]].skip(1) =~= Seq::<u16>::empty());
                assert((before_suites + suites_enc(m.2.take(i as int))) + (be16_bytes(
                    m.2[i as int] as int,
                ) + Seq::<u8>::empty()) =~= before_suites + suites_enc(m.2.take(i as int + 1)));
                assert(record_buffer_bytes(*buf) =~= before_suites + suites_enc(
                    m.2.take(i as int + 1),
                ));
            }
            i = i + 1;
        }
        proof {
            assert(m.2.take(m.2.len() as int) =~= m.2);
        }
        if let Err(e) = buf.push(1) {
            return Err(e);
        }
        if let Err(e) = buf.push(0) {
            return Err(e);
        }
        let ext_len = extensions_encoded_len(&self.extensions) as u16;
        if let Err(e) = buf.push((ext_len / 256) as u8) {
            return Err(e);
        }
        if let Err(e) = buf.push((ext_len % 256) as u8) {
            return Err(e);
        }
        if let Err(e) = encode_extensions(&self.extensions, buf) {
            return Err(e);
        }
        proof {
            assert(record_buffer_bytes(*buf) =~= start + client_hello_enc(m));
        }
        Ok(())
    }
}

/// The exact encoded size of an extension block.
pub fn extensions_encoded_len(exts: &Vec<Extension>) -> (r: usize)
    requires
        forall|k: int| 0 <= k < exts@.len() ==> (#[trigger] exts@[k]).wf(),
        exts_enc(exts_model(exts@)).len() <= 0xFFFF,
    ensures
        r == exts_enc(exts_model(exts@)).len(),
{
    let ghost s = exts_model(exts@);
    let mut total: usize = 0;
    let mut i: usize = 0;
    while i < exts.len()
        invariant
            0 <= i <= exts@.len(),
            s == exts_model(exts@),
            forall|k: int| 0 <= k < exts@.len() ==> (#[trigger] exts@[k]).wf(),
            exts_enc(s).len() <= 0xFFFF,
            total == exts_enc(s.take(i as int)).len(),
        decreases exts@.len() - i,
    {
        proof {
            lemma_exts_enc_split(s, i as int);
            assert(s.skip(i as int)[0] == s[i as int]);
            assert(exts_enc(s.skip(i as int)) == crate::extensions::ext_enc(s[i as int]) + exts_enc(
                s.skip(i as int).skip(1),
            ));
            lemma_exts_enc_split(s, i as int + 1);
            assert(s.take(i as int + 1).take(i as int) =~= s.take(i as int));
            lemma_exts_enc_split(s.take(i as int + 1), i as int);
            assert(s.take(i as int + 1).skip(i as int) =~= seq![s[i as int]]);
            assert(exts_enc(seq![s[i as int]]) == crate::extensions::ext_enc(s[i as int]) + exts_enc(
                seq![s[i as int]].skip(1),
            ));
            assert(seq![s[i as int]].skip(1) =~= Seq::<(u16, Seq<u8>)>::empty());
            assert(s[i as int] == exts@[i as int].model());
        }
        total = total + 4 + exts[i].data.len();
        i = i + 1;
    }
    proof {
        assert(s.take(exts@.len() as int) =~= s);
    }
    total
}

} // verus!
