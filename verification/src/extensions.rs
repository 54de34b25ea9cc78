use vstd::prelude::*;

use crate::buffer::{record_buffer_bytes, RecordBuffer, RECORD_BUFFER_CAPACITY};
use crate::error::TlsError;
use crate::parse_buffer::ParseBuffer;
use crate::wire::{be16_bytes, be16_val, dec_bytes, dec_u16, lemma_be16_round_trip};

verus! {

/// One extension entry of the wire format: a 2-byte tag, a 2-byte length
/// and that many body bytes.
#[derive(Clone, Debug, PartialEq, Eq)]
pub struct Extension {
    pub tag: u16,
    pub data: Vec<u8>,
}

impl Extension {
    /// The mathematical value an extension stands for.
    pub open spec fn model(&self) -> (u16, Seq<u8>) {
        (self.tag, self.data@)
    }

    pub open spec fn wf(&self) -> bool {
        self.data@.len() <= 0xFFFF
    }
}

/// The values of a list of extensions.
pub open spec fn exts_model(s: Seq<Extension>) -> Seq<(u16, Seq<u8>)> {
    s.map_values(|e: Extension| e.model())
}

pub open spec fn ext_wf(e: (u16, Seq<u8>)) -> bool {
    e.1.len() <= 0xFFFF
}

/// The encoding of one extension entry.
pub open spec fn ext_enc(e: (u16, Seq<u8>)) -> Seq<u8>
    recommends
        ext_wf(e),
{
    be16_bytes(e.0 as int) + be16_bytes(e.1.len() as int) + e.1
}

/// The encoding of a sequence of extension entries, in order.
pub open spec fn exts_enc(s: Seq<(u16, Seq<u8>)>) -> Seq<u8>
    decreases s.len(),
{
    if s.len() == 0 {
        Seq::<u8>::empty()
    } else {
        ext_enc(s[0]) + exts_enc(s.skip(1))
    }
}

/// Decodes one extension entry at cursor `i`; all-or-nothing.
pub open spec fn ext_dec(b: Seq<u8>, i: int) -> Option<((u16, Seq<u8>), int)> {
    match dec_u16(b, i) {
        Some((tag, i1)) => match dec_u16(b, i1) {
            Some((len, i2)) => match dec_bytes(b, i2, len as int) {
                Some((data, i3)) => Some(((tag, data), i3)),
                None => None,
            },
            None => None,
        },
        None => None,
    }
}

/// Decodes extension entries from cursor `i` until exactly cursor `end`;
/// a final cursor that misses `end`, or a malformed entry, fails the
/// whole block.
pub open spec fn exts_dec(b: Seq<u8>, i: int, end: int) -> Option<Seq<(u16, Seq<u8>)>>
    decreases end - i,
{
    if i == end {
        Some(Seq::<(u16, Seq<u8>)>::empty())
    } else if i > end {
        None
    } else {
        match ext_dec(b, i) {
            None => None,
            Some((e, j)) => if i < j <= end {
                match exts_dec(b, j, end) {
                    None => None,
                    Some(rest) => Some(seq![e] + rest),
                }
            } else {
                None
            },
        }
    }
}

/// Round trip for one extension entry: decoding at the place its encoding
/// was written reads the entry back.
pub proof fn lemma_ext_round_trip(e: (u16, Seq<u8>), b: Seq<u8>, i: int)
    requires
        ext_wf(e),
        0 <= i,
        i + 4 + e.1.len() <= b.len(),
        b.subrange(i, i + 4 + e.1.len()) == ext_enc(e),
    ensures
        ext_dec(b, i) == Some((e, i + 4 + e.1.len())),
{
    let enc = ext_enc(e);
    let n = e.1.len() as int;
    assert forall|k: int| 0 <= k < 4 + n implies b[i + k] == enc[k] by {
        assert(b.subrange(i, i + 4 + n)[k] == b[i + k]);
    }
    lemma_be16_round_trip(e.0 as int);
    lemma_be16_round_trip(n);
    assert(b[i] == enc[0] && b[i + 1] == enc[1]);
    assert(be16_val(b[i], b[i + 1]) == e.0 as int);
    assert(b[i + 2] == enc[2] && b[i + 3] == enc[3]);
    assert(be16_val(b[i + 2], b[i + 3]) == n);
    assert(dec_u16(b, i) == Some((e.0, i + 2)));
    assert(dec_u16(b, i + 2) == Some((n as u16, i + 4)));
    assert(b.subrange(i + 4, i + 4 + n) =~= e.1) by {
        assert forall|k: int| 0 <= k < n implies b.subrange(i + 4, i + 4 + n)[k] == e.1[k] by {
            assert(b[i + 4 + k] == enc[4 + k]);
            assert(enc[4 + k] == e.1[k]);
        }
    }
    assert(dec_bytes(b, i + 4, n) == Some((e.1, i + 4 + n)));
}

/// The encoding of a list splits at any index into the encodings of the
/// two halves.
pub proof fn lemma_exts_enc_split(s: Seq<(u16, Seq<u8>)>, i: int)
    requires
        0 <= i <= s.len(),
    ensures
        exts_enc(s) == exts_enc(s.take(i)) + exts_enc(s.skip(i)),
    decreases i,
{
    if i == 0 {
        assert(s.take(0) =~= Seq::<(u16, Seq<u8>)>::empty());
        assert(s.skip(0) =~= s);
        assert(exts_enc(s.take(0)) + exts_enc(s) =~= exts_enc(s));
    } else {
        lemma_exts_enc_split(s.skip(1), i - 1);
        assert(s.skip(1).take(i - 1) =~= s.take(i).skip(1));
        assert(s.skip(1).skip(i - 1) =~= s.skip(i));
        assert(s.take(i)[0] == s[0]);
        assert(exts_enc(s.take(i)) == ext_enc(s[0]) + exts_enc(s.take(i).skip(1)));
        assert((ext_enc(s[0]) + exts_enc(s.skip(1).take(i - 1))) + exts_enc(s.skip(i)) =~= ext_enc(
            s[0],
        ) + (exts_enc(s.skip(1).take(i - 1)) + exts_enc(s.skip(i))));
    }
}

/// Round trip for a whole extension block: decoding the block written by
/// the encoder, between its own bounds, yields exactly the encoded list.
pub proof fn lemma_exts_round_trip(s: Seq<(u16, Seq<u8>)>, b: Seq<u8>, i: int)
    requires
        forall|k: int| 0 <= k < s.len() ==> ext_wf(#[trigger] s[k]),
        0 <= i,
        i + exts_enc(s).len() <= b.len(),
        b.subrange(i, i + exts_enc(s).len()) == exts_enc(s),
    ensures
        exts_dec(b, i, i + exts_enc(s).len()) == Some(s),
    decreases s.len(),
{
    let enc = exts_enc(s);
    let end = i + enc.len();
    if s.len() == 0 {
        assert(s =~= Seq::<(u16, Seq<u8>)>::empty());
    } else {
        let e = s[0];
        let rest = s.skip(1);
        let n = e.1.len() as int;
        let l0 = 4 + n;
        assert(enc == ext_enc(e) + exts_enc(rest));
        assert(ext_enc(e).len() == l0);
        assert forall|k: int| 0 <= k < enc.len() implies b[i + k] == enc[k] by {
            assert(b.subrange(i, end)[k] == b[i + k]);
        }
        assert(b.subrange(i, i + l0) =~= ext_enc(e)) by {
            assert forall|k: int| 0 <= k < l0 implies b.subrange(i, i + l0)[k] == ext_enc(e)[k] by {
                assert(b[i + k] == enc[k]);
                assert(enc[k] == ext_enc(e)[k]);
            }
        }
        lemma_ext_round_trip(e, b, i);
        let j = i + l0;
        assert(b.subrange(j, j + exts_enc(rest).len()) =~= exts_enc(rest)) by {
            assert forall|k: int| 0 <= k < exts_enc(rest).len() implies b.subrange(
                j,
                j + exts_enc(rest).len(),
            )[k] == exts_enc(rest)[k] by {
                assert(b[j + k] == enc[l0 + k]);
                assert(enc[l0 + k] == exts_enc(rest)[k]);
            }
        }
        assert(forall|k: int| 0 <= k < rest.len() ==> ext_wf(#[trigger] rest[k])) by {
            assert(forall|k: int| 0 <= k < rest.len() ==> rest[k] == s[k + 1]);
        }
        lemma_exts_round_trip(rest, b, j);
        assert(exts_dec(b, j, end) == Some(rest));
        assert(seq![e] + rest =~= s);
    }
}

/// Decoding a length-prefixed extension block written by the encoder: the
/// 2-byte prefix reads back as the block's size, and the block reads back
/// as the encoded list.
pub proof fn lemma_be16_prefix_round_trip(s: Seq<(u16, Seq<u8>)>)
    requires
        forall|k: int| 0 <= k < s.len() ==> ext_wf(#[trigger] s[k]),
        exts_enc(s).len() <= 0xFFFF,
    ensures
        ({
            let b = be16_bytes(exts_enc(s).len() as int) + exts_enc(s);
            &&& dec_u16(b, 0) == Some(((exts_enc(s).len() as u16), 2int))
            &&& exts_dec(b, 2, b.len() as int) == Some(s)
        }),
{
    let el = exts_enc(s).len() as int;
    let b = be16_bytes(el) + exts_enc(s);
    lemma_be16_round_trip(el);
    assert(b[0] == be16_bytes(el)[0]);
    assert(b[1] == be16_bytes(el)[1]);
    assert(be16_val(b[0], b[1]) == el);
    assert(b.subrange(2, 2 + el) =~= exts_enc(s)) by {
        assert forall|k: int| 0 <= k < el implies b.subrange(2, 2 + el)[k] == exts_enc(s)[k] by {
            assert(b[2 + k] == exts_enc(s)[k]);
        }
    }
    lemma_exts_round_trip(s, b, 2);
}

impl Extension {
    /// Parses one extension entry: tag, declared length, body.
    pub fn parse(buf: &mut ParseBuffer) -> (r: Result<Extension, TlsError>)
        requires
            old(buf).wf(),
        ensures
            final(buf).wf(),
            final(buf).bytes() == old(buf).bytes(),
            match r {
                Ok(e) => {
                    &&& ext_dec(old(buf).bytes(), old(buf).cursor()) == Some(
                        (e.model(), final(buf).cursor()),
                    )
                    &&& e.wf()
                },
                Err(err) => {
                    &&& err == TlsError::InvalidLength
                    &&& ext_dec(old(buf).bytes(), old(buf).cursor()) is None
                },
            },
    {
        let tag = match buf.read_u16() {
            Ok(v) => v,
            Err(e) => {
                return Err(e);
            },
        };
        let len = match buf.read_u16() {
            Ok(v) => v,
            Err(e) => {
                return Err(e);
            },
        };
        let data = match buf.read_slice(len as usize) {
            Ok(v) => v,
            Err(e) => {
                return Err(e);
            },
        };
        Ok(Extension { tag, data })
    }

    /// Parses a block of `block_len` bytes as a sequence of extension
    /// entries; a block the entries do not fill exactly, or that runs past
    /// the bytes present, is a length mismatch.
    #[verifier::loop_isolation(false)]
    pub fn parse_vector(buf: &mut ParseBuffer, block_len: usize) -> (r: Result<
        Vec<Extension>,
        TlsError,
    >)
        requires
            old(buf).wf(),
        ensures
            final(buf).wf(),
            final(buf).bytes() == old(buf).bytes(),
            match r {
                Ok(v) => {
                    &&& old(buf).cursor() + block_len <= old(buf).bytes().len()
                    &&& exts_dec(
                        old(buf).bytes(),
                        old(buf).cursor(),
                        old(buf).cursor() + block_len,
                    ) == Some(exts_model(v@))
                    &&& final(buf).cursor() == old(buf).cursor() + block_len
                    &&& forall|k: int| 0 <= k < v@.len() ==> (#[trigger] v@[k]).wf()
                },
                Err(e) => {
                    &&& e == TlsError::InvalidExtensionsLength
                    &&& {
                        ||| old(buf).cursor() + block_len > old(buf).bytes().len()
                        ||| exts_dec(
                            old(buf).bytes(),
                            old(buf).cursor(),
                            old(buf).cursor() + block_len,
                        ) is None
                    }
                },
            },
    {
        let ghost b = old(buf).bytes();
        let ghost start = old(buf).cursor();
        if buf.remaining() < block_len {
            return Err(TlsError::InvalidExtensionsLength);
        }
        let end = buf.position() + block_len;
        let ghost gend = start + block_len;
        let mut exts: Vec<Extension> = Vec::new();
        loop
            invariant
                buf.wf(),
                buf.bytes() == b,
                start <= buf.cursor() <= gend <= b.len(),
                end == gend,
                exts_dec(b, buf.cursor(), gend) matches Some(rest) ==> exts_dec(b, start, gend)
                    == Some(exts_model(exts@) + rest),
                exts_dec(b, buf.cursor(), gend) is None ==> exts_dec(b, start, gend) is None,
                forall|k: int| 0 <= k < exts@.len() ==> (#[trigger] exts@[k]).wf(),
            decreases gend - buf.cursor(),
        {
            if buf.position() >= end {
                break;
            }
            let ghost cur = buf.cursor();
            let e = match Extension::parse(buf) {
                Ok(e) => e,
                Err(_) => {
                    return Err(TlsError::InvalidExtensionsLength);
                },
            };
            if buf.position() > end {
                return Err(TlsError::InvalidExtensionsLength);
            }
            proof {
                let j = buf.cursor();
                assert(ext_dec(b, cur) == Some((e.model(), j)));
                assert(cur < j);
                if exts_dec(b, j, gend) is Some {
                    let rest = exts_dec(b, j, gend)->Some_0;
                    assert(exts_dec(b, cur, gend) == Some(seq![e.model()] + rest));
                    assert(exts_model(exts@.push(e)) =~= exts_model(exts@) + seq![e.model()]);
                    assert((exts_model(exts@) + seq![e.model()]) + rest =~= exts_model(exts@) + (
                    seq![e.model()] + rest));
                }
            }
            exts.push(e);
        }
        proof {
            assert(exts_dec(b, gend, gend) == Some(Seq::<(u16, Seq<u8>)>::empty()));
            assert(exts_model(exts@) + Seq::<(u16, Seq<u8>)>::empty() =~= exts_model(exts@));
        }
        Ok(exts)
    }

    /// Appends this entry's encoding to the buffer; the caller has already
    /// checked that the whole record fits.
    pub fn encode(&self, buf: &mut RecordBuffer) -> (r: Result<(), TlsError>)
        requires
            self.wf(),
            record_buffer_bytes(*old(buf)).len() + 4 + self.data@.len()
                <= RECORD_BUFFER_CAPACITY as int,
        ensures
            r is Ok,
            record_buffer_bytes(*final(buf)) == record_buffer_bytes(*old(buf)) + ext_enc(
                self.model(),
            ),
    {
        let ghost start = record_buffer_bytes(*buf);
        match buf.push((self.tag / 256) as u8) {
            Ok(()) => (),
            Err(e) => {
                return Err(e);
            },
        }
        match buf.push((self.tag % 256) as u8) {
            Ok(()) => (),
            Err(e) => {
                return Err(e);
            },
        }
        let len = self.data.len() as u16;
        match buf.push((len / 256) as u8) {
            Ok(()) => (),
            Err(e) => {
                return Err(e);
            },
        }
        match buf.push((len % 256) as u8) {
            Ok(()) => (),
            Err(e) => {
                return Err(e);
            },
        }
        match buf.extend_from_slice(self.data.as_slice()) {
            Ok(()) => (),
            Err(e) => {
                return Err(e);
            },
        }
        proof {
            assert(record_buffer_bytes(*buf) =~= start + ext_enc(self.model()));
        }
        Ok(())
    }
}

/// Appends the encoding of every extension in the list, in order; the
/// caller has already checked that the whole record fits.
#[verifier::loop_isolation(false)]
#[verifier::rlimit(30)]
pub fn encode_extensions(exts: &Vec<Extension>, buf: &mut RecordBuffer) -> (r: Result<
    (),
    TlsError,
>)
    requires
        forall|k: int| 0 <= k < exts@.len() ==> (#[trigger] exts@[k]).wf(),
        record_buffer_bytes(*old(buf)).len() + exts_enc(exts_model(exts@)).len()
            <= RECORD_BUFFER_CAPACITY as int,
    ensures
        r is Ok,
        record_buffer_bytes(*final(buf)) == record_buffer_bytes(*old(buf)) + exts_enc(
            exts_model(exts@),
        ),
{
    let ghost s = exts_model(exts@);
    let ghost start = record_buffer_bytes(*buf);
    let mut idx: usize = 0;
    while idx < exts.len()
        invariant
            0 <= idx <= exts@.len(),
            s == exts_model(exts@),
            forall|k: int| 0 <= k < exts@.len() ==> (#[trigger] exts@[k]).wf(),
            start.len() + exts_enc(s).len() <= RECORD_BUFFER_CAPACITY as int,
            record_buffer_bytes(*buf) == start + exts_enc(s.take(idx as int)),
        decreases exts@.len() - idx,
    {
        proof {
            lemma_exts_enc_split(s, idx as int);
            assert(s.skip(idx as int)[0] == s[idx as int]);
            assert(exts_enc(s.skip(idx as int)) == ext_enc(s[idx as int]) + exts_enc(
                s.skip(idx as int).skip(1),
            ));
            assert(s[idx as int] == exts@[idx as int].model());
        }
        let e = &exts[idx];
        match e.encode(buf) {
            Ok(()) => (),
            Err(err) => {
                return Err(err);
            },
        }
        proof {
            lemma_exts_enc_split(s, idx as int + 1);
            assert(s.take(idx as int + 1).take(idx as int) =~= s.take(idx as int));
            lemma_exts_enc_split(s.take(idx as int + 1), idx as int);
            assert(s.take(idx as int + 1).skip(idx as int) =~= seq![s[idx as int]]);
            assert(exts_enc(seq![s[idx as int]]) == ext_enc(s[idx as int]) + exts_enc(
                seq![s[idx as int]].skip(1),
            ));
            assert(seq![s[idx as int]].skip(1) =~= Seq::<(u16, Seq<u8>)>::empty());
            assert((start + exts_enc(s.take(idx as int))) + ext_enc(s[idx as int]) =~= start
                + exts_enc(s.take(idx + 1 as int)));
        }
        idx = idx + 1;
    }
    proof {
        assert(s.take(exts@.len() as int) =~= s);
    }
    Ok(())
}

} // verus!
