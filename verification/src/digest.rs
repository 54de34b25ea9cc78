use vstd::prelude::*;

verus! {

/// An incremental hash accepting repeated byte-slice updates. The record
/// layer folds every handshake message's serialized bytes into one such
/// digest, in strict chronological order; the hash it later produces is a
/// function of exactly that byte sequence.
pub trait HandshakeDigest: Sized {
    /// The ordered sequence of bytes absorbed so far.
    spec fn absorbed(&self) -> Seq<u8>;

    /// Absorbs `data` after everything absorbed before.
    fn update(&mut self, data: &[u8])
        ensures
            final(self).absorbed() == old(self).absorbed() + data@,
    ;
}

#[verifier::external_type_specification]
#[verifier::external_body]
pub struct ExSha256(sha2::Sha256);

/// The ordered sequence of bytes a SHA-256 hasher state has absorbed.
pub uninterp spec fn sha256_absorbed(d: sha2::Sha256) -> Seq<u8>;

/// The SHA-256 digest of a byte sequence: a function of those bytes alone,
/// the same in every process and on every machine.
pub uninterp spec fn sha256_of(data: Seq<u8>) -> Seq<u8>;

/// Relies on sha2::Sha256::new (Digest::new): a hasher that has absorbed
/// nothing.
#[verifier::external_body]
fn sha256_new() -> (r: sha2::Sha256)
    ensures
        sha256_absorbed(r) == Seq::<u8>::empty(),
{
    <sha2::Sha256 as sha2::Digest>::new()
}

/// Relies on sha2::Sha256::update (Digest::update): absorbs the given
/// bytes after those already absorbed.
#[verifier::external_body]
fn sha256_update(d: &mut sha2::Sha256, data: &[u8])
    ensures
        sha256_absorbed(*final(d)) == sha256_absorbed(*old(d)) + data@,
{
    sha2::Digest::update(d, data);
}

/// Relies on sha2::Sha256::finalize (Digest::finalize): the 32-byte
/// digest, a function of exactly the bytes absorbed.
#[verifier::external_body]
fn sha256_finalize(d: sha2::Sha256) -> (r: Vec<u8>)
    ensures
        r@ == sha256_of(sha256_absorbed(d)),
        r@.len() == 32,
{
    sha2::Digest::finalize(d).to_vec()
}

/// Relies on sha2::Sha256::clone: an identical intermediate hasher state.
#[verifier::external_body]
fn sha256_clone(d: &sha2::Sha256) -> (r: sha2::Sha256)
    ensures
        sha256_absorbed(r) == sha256_absorbed(*d),
{
    d.clone()
}

/// The running transcript hash of a handshake session, backed by SHA-256.
/// It is owned by the session for the whole handshake and mutated only at
/// message boundaries.
pub struct Sha256Transcript {
    state: sha2::Sha256,
}

impl Sha256Transcript {
    pub fn new() -> (r: Sha256Transcript)
        ensures
            r.absorbed() == Seq::<u8>::empty(),
    {
        Sha256Transcript { state: sha256_new() }
    }

    /// The hash of everything absorbed so far, leaving the running state
    /// untouched so later messages can still be folded in.
    pub fn current_hash(&self) -> (r: Vec<u8>)
        ensures
            r@ == sha256_of(self.absorbed()),
            r@.len() == 32,
    {
        sha256_finalize(sha256_clone(&self.state))
    }

    /// The hash of everything absorbed, consuming the transcript.
    pub fn finalize(self) -> (r: Vec<u8>)
        ensures
            r@ == sha256_of(self.absorbed()),
            r@.len() == 32,
    {
        sha256_finalize(self.state)
    }
}

impl HandshakeDigest for Sha256Transcript {
    closed spec fn absorbed(&self) -> Seq<u8> {
        sha256_absorbed(self.state)
    }

    fn update(&mut self, data: &[u8]) {
        sha256_update(&mut self.state, data);
    }
}

/// The concatenation of a list of byte chunks, in order.
pub open spec fn concat_chunks(chunks: Seq<Seq<u8>>) -> Seq<u8>
    decreases chunks.len(),
{
    if chunks.len() == 0 {
        Seq::<u8>::empty()
    } else {
        chunks[0] + concat_chunks(chunks.skip(1))
    }
}

/// Digest determinism: two transcripts fed the same ordered message bytes,
/// independently and in any chunking, end in the same final hash, because
/// the digest is a function of exactly the concatenation of the absorbed
/// chunks.
pub proof fn lemma_digest_determinism(chunks1: Seq<Seq<u8>>, chunks2: Seq<Seq<u8>>)
    requires
        concat_chunks(chunks1) == concat_chunks(chunks2),
    ensures
        sha256_of(concat_chunks(chunks1)) == sha256_of(concat_chunks(chunks2)),
{
}

} // verus!
