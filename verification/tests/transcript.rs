use tls_record::buffer::RecordBuffer;
use tls_record::client_hello::Config;
use tls_record::digest::{HandshakeDigest, Sha256Transcript};
use tls_record::record::ClientRecord;

const ABC_DIGEST: [u8; 32] = [
    0xBA, 0x78, 0x16, 0xBF, 0x8F, 0x01, 0xCF, 0xEA, 0x41, 0x41, 0x40, 0xDE, 0x5D, 0xAE, 0x22,
    0x23, 0xB0, 0x03, 0x61, 0xA3, 0x96, 0x17, 0x7A, 0x9C, 0xB4, 0x10, 0xFF, 0x61, 0xF2, 0x00,
    0x15, 0xAD,
];

const EMPTY_DIGEST: [u8; 32] = [
    0xE3, 0xB0, 0xC4, 0x42, 0x98, 0xFC, 0x1C, 0x14, 0x9A, 0xFB, 0xF4, 0xC8, 0x99, 0x6F, 0xB9,
    0x24, 0x27, 0xAE, 0x41, 0xE4, 0x64, 0x9B, 0x93, 0x4C, 0xA4, 0x95, 0x99, 0x1B, 0x78, 0x52,
    0xB8, 0x55,
];

#[test]
fn sha256_known_vectors() {
    let empty = Sha256Transcript::new();
    assert_eq!(empty.finalize(), EMPTY_DIGEST.to_vec());
    let mut abc = Sha256Transcript::new();
    abc.update(b"abc");
    assert_eq!(abc.finalize(), ABC_DIGEST.to_vec());
}

#[test]
fn digest_is_deterministic_across_chunkings() {
    let message: Vec<u8> = (0u8..=200).collect();
    let mut whole = Sha256Transcript::new();
    whole.update(&message);
    let mut pieces = Sha256Transcript::new();
    pieces.update(&message[..50]);
    pieces.update(&message[50..51]);
    pieces.update(&message[51..]);
    assert_eq!(whole.finalize(), pieces.finalize());
}

#[test]
fn digest_order_matters() {
    let mut forward = Sha256Transcript::new();
    forward.update(&[1]);
    forward.update(&[2]);
    let mut reversed = Sha256Transcript::new();
    reversed.update(&[2]);
    reversed.update(&[1]);
    assert_ne!(forward.finalize(), reversed.finalize());
}

#[test]
fn current_hash_leaves_state_running() {
    let mut t = Sha256Transcript::new();
    t.update(b"abc");
    assert_eq!(t.current_hash(), ABC_DIGEST.to_vec());
    // The running state is still usable after the intermediate hash.
    t.update(b"def");
    let mut reference = Sha256Transcript::new();
    reference.update(b"abcdef");
    assert_eq!(t.finalize(), reference.finalize());
}

#[test]
fn encode_folds_exactly_the_handshake_message_into_the_transcript() {
    let config = Config {
        cipher_suites: vec![0x1301],
    };
    let record = ClientRecord::client_hello(&config, vec![0x55; 32]);
    let mut buf = RecordBuffer::new();
    let mut digest = Sha256Transcript::new();
    record.encode(&mut buf, &mut digest).unwrap();
    // The transcript saw the handshake message bytes — everything after
    // the record header — exactly once.
    let mut reference = Sha256Transcript::new();
    reference.update(&buf.as_slice()[5..]);
    assert_eq!(digest.finalize(), reference.finalize());
}
