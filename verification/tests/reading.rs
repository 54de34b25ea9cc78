use tls_record::change_cipher_spec::ChangeCipherSpec;
use tls_record::digest::{HandshakeDigest, Sha256Transcript};
use tls_record::error::TlsError;
use tls_record::handshake::ServerHandshake;
use tls_record::record::ServerRecord;
use tls_record::socket::BufferSocket;

fn read_record(stream: Vec<u8>, chunk: usize) -> (Result<ServerRecord, TlsError>, Vec<u8>) {
    let mut socket = BufferSocket::new(stream, chunk);
    let mut digest = Sha256Transcript::new();
    let r = ServerRecord::read(&mut socket, &mut digest);
    (r, digest.finalize())
}

#[test]
fn read_change_cipher_spec_record() {
    let (r, _) = read_record(vec![20, 3, 3, 0, 1, 1], 64);
    assert_eq!(
        r,
        Ok(ServerRecord::ChangeCipherSpec(ChangeCipherSpec::new(vec![1])))
    );
}

#[test]
fn header_one_byte_at_a_time_reads_the_same_record() {
    let stream = vec![20, 3, 3, 0, 1, 1];
    let (whole, _) = read_record(stream.clone(), 64);
    let (fragmented, _) = read_record(stream, 1);
    assert_eq!(whole, fragmented);
}

#[test]
fn handshake_one_byte_at_a_time_reads_the_same_record() {
    let stream = vec![22, 3, 3, 0, 6, 8, 0, 0, 2, 0, 0];
    let (whole, whole_hash) = read_record(stream.clone(), 64);
    let (fragmented, fragmented_hash) = read_record(stream, 1);
    assert!(whole.is_ok());
    assert_eq!(whole, fragmented);
    assert_eq!(whole_hash, fragmented_hash);
}

#[test]
fn truncated_header_fails_without_digest_mutation() {
    // The socket closes after delivering 3 of the 5 header bytes.
    let empty_hash = Sha256Transcript::new().finalize();
    let (r, hash) = read_record(vec![22, 3, 3], 1);
    assert_eq!(r, Err(TlsError::ConnectionClosed));
    assert_eq!(hash, empty_hash);
}

#[test]
fn truncated_body_fails_without_digest_mutation() {
    let empty_hash = Sha256Transcript::new().finalize();
    let (r, hash) = read_record(vec![22, 3, 3, 0, 10, 8, 0], 2);
    assert_eq!(r, Err(TlsError::ConnectionClosed));
    assert_eq!(hash, empty_hash);
}

#[test]
fn unknown_content_type_tag_is_invalid_record() {
    let (r, _) = read_record(vec![0x00, 3, 3, 0, 0], 64);
    assert_eq!(r, Err(TlsError::InvalidRecord));
}

#[test]
fn alert_record_is_unimplemented() {
    let (r, _) = read_record(vec![21, 3, 3, 0, 2, 2, 40], 64);
    assert_eq!(r, Err(TlsError::Unimplemented));
}

#[test]
fn handshake_record_updates_transcript_with_message_bytes() {
    let body = vec![8, 0, 0, 2, 0, 0];
    let mut stream = vec![22, 3, 3, 0, body.len() as u8];
    stream.extend_from_slice(&body);
    let (r, hash) = read_record(stream, 3);
    match r {
        Ok(ServerRecord::Handshake(ServerHandshake::EncryptedExtensions(ee))) => {
            assert!(ee.extensions.is_empty());
        }
        other => panic!("unexpected read result: {:?}", other),
    }
    let mut expected = Sha256Transcript::new();
    expected.update(&body);
    assert_eq!(hash, expected.finalize());
}

#[test]
fn application_data_record_keeps_header_context() {
    let (r, hash) = read_record(vec![23, 3, 3, 0, 2, 9, 8], 64);
    match r {
        Ok(ServerRecord::ApplicationData(ad)) => {
            assert_eq!(ad.data, vec![9, 8]);
            assert_eq!(ad.header, vec![23, 3, 3, 0, 2]);
        }
        other => panic!("unexpected read result: {:?}", other),
    }
    // Application data never touches the handshake transcript.
    assert_eq!(hash, Sha256Transcript::new().finalize());
}

#[test]
fn header_version_bytes_are_not_validated() {
    // Two streams that differ only in header bytes 1-2 read to the same
    // record.
    let a = vec![22, 3, 3, 0, 6, 8, 0, 0, 2, 0, 0];
    let b = vec![22, 9, 0x7F, 0, 6, 8, 0, 0, 2, 0, 0];
    let (ra, ha) = read_record(a, 64);
    let (rb, hb) = read_record(b, 64);
    assert!(ra.is_ok());
    assert_eq!(ra, rb);
    assert_eq!(ha, hb);
}

#[test]
fn read_server_hello_record() {
    let mut body = vec![0x03, 0x03];
    body.extend_from_slice(&[0xBB; 32]);
    body.push(0x00);
    body.extend_from_slice(&[0x13, 0x01]);
    body.push(0x00);
    body.extend_from_slice(&[0x00, 0x06, 0x00, 0x2B, 0x00, 0x02, 0x03, 0x04]);
    let mut msg = vec![0x02, 0x00, 0x00, body.len() as u8];
    msg.extend_from_slice(&body);
    let mut stream = vec![22, 3, 3, 0, msg.len() as u8];
    stream.extend_from_slice(&msg);
    let (r, _) = read_record(stream, 5);
    match r {
        Ok(ServerRecord::Handshake(ServerHandshake::ServerHello(sh))) => {
            assert_eq!(sh.legacy_version, 0x0303);
            assert_eq!(sh.random, vec![0xBB; 32]);
            assert!(sh.legacy_session_id_echo.is_empty());
            assert_eq!(sh.cipher_suite, 0x1301);
            assert_eq!(sh.legacy_compression_method, 0);
            assert_eq!(sh.extensions.len(), 1);
            assert_eq!(sh.extensions[0].tag, 0x002B);
            assert_eq!(sh.extensions[0].data, vec![0x03, 0x04]);
        }
        other => panic!("unexpected read result: {:?}", other),
    }
}

#[test]
fn read_server_finished_record() {
    let verify: Vec<u8> = (0u8..32).collect();
    let mut msg = vec![20, 0, 0, 32];
    msg.extend_from_slice(&verify);
    let mut stream = vec![22, 3, 3, 0, msg.len() as u8];
    stream.extend_from_slice(&msg);
    let (r, _) = read_record(stream, 7);
    match r {
        Ok(ServerRecord::Handshake(ServerHandshake::Finished(f))) => {
            assert_eq!(f.verify_data, verify);
        }
        other => panic!("unexpected read result: {:?}", other),
    }
}

#[test]
fn leftover_stream_is_preserved_for_the_next_record() {
    let mut socket = BufferSocket::new(vec![20, 3, 3, 0, 1, 1, 20, 3, 3, 0, 1, 1], 4);
    let mut digest = Sha256Transcript::new();
    let first = ServerRecord::read(&mut socket, &mut digest);
    let second = ServerRecord::read(&mut socket, &mut digest);
    assert_eq!(first, second);
    assert!(first.is_ok());
}
