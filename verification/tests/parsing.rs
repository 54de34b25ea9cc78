use tls_record::buffer::RecordBuffer;
use tls_record::digest::Sha256Transcript;
use tls_record::encrypted_extensions::EncryptedExtensions;
use tls_record::error::TlsError;
use tls_record::extensions::Extension;
use tls_record::client_hello::ClientHello;
use tls_record::handshake::{ClientHandshake, HandshakeType, ServerHandshake};
use tls_record::parse_buffer::ParseBuffer;
use tls_record::record::ClientRecord;

#[test]
fn parse_buffer_big_endian_reads() {
    let data = [0x01, 0x02, 0x03, 0x04, 0x05, 0x06, 0x07];
    let mut buf = ParseBuffer::new(&data);
    assert_eq!(buf.read_u8(), Ok(0x01));
    assert_eq!(buf.read_u16(), Ok(0x0203));
    assert_eq!(buf.read_u24(), Ok(0x040506));
    assert_eq!(buf.read_slice(1), Ok(vec![0x07]));
    assert_eq!(buf.remaining(), 0);
}

#[test]
fn parse_buffer_reads_are_all_or_nothing() {
    let data = [0x01];
    let mut buf = ParseBuffer::new(&data);
    assert_eq!(buf.read_u16(), Err(TlsError::InvalidLength));
    // A failed read does not advance the cursor.
    assert_eq!(buf.remaining(), 1);
    assert_eq!(buf.read_u8(), Ok(0x01));
    assert_eq!(buf.read_u8(), Err(TlsError::InvalidLength));
}

#[test]
fn encrypted_extensions_empty_block() {
    // A declared extensions length of zero is an empty sequence, not an
    // error.
    let data = [0x00, 0x00];
    let mut buf = ParseBuffer::new(&data);
    let ee = EncryptedExtensions::parse(&mut buf).unwrap();
    assert!(ee.extensions.is_empty());
    // The buffer is fully consumed.
    assert_eq!(buf.remaining(), 0);
}

#[test]
fn encrypted_extensions_short_length_field_does_not_advance() {
    // Fewer than 2 bytes remain: the length read fails without advancing.
    let data = [0x00];
    let mut buf = ParseBuffer::new(&data);
    assert_eq!(
        EncryptedExtensions::parse(&mut buf),
        Err(TlsError::InvalidExtensionsLength)
    );
    assert_eq!(buf.remaining(), 1);
}

#[test]
fn encrypted_extensions_entries() {
    let data = [0x00, 0x09, 0x00, 0x0A, 0x00, 0x01, 0x7F, 0x00, 0x10, 0x00, 0x00];
    let mut buf = ParseBuffer::new(&data);
    let ee = EncryptedExtensions::parse(&mut buf).unwrap();
    assert_eq!(ee.extensions.len(), 2);
    assert_eq!(ee.extensions[0].tag, 0x000A);
    assert_eq!(ee.extensions[0].data, vec![0x7F]);
    assert_eq!(ee.extensions[1].tag, 0x0010);
    assert!(ee.extensions[1].data.is_empty());
}

#[test]
fn encrypted_extensions_declared_length_mismatch() {
    // Declared block length runs past the bytes actually present.
    let data = [0x00, 0x05, 0x00, 0x00];
    let mut buf = ParseBuffer::new(&data);
    assert_eq!(
        EncryptedExtensions::parse(&mut buf),
        Err(TlsError::InvalidExtensionsLength)
    );
}

#[test]
fn encrypted_extensions_truncated_entry() {
    // The block length is honest, but the last entry declares more data
    // than the block holds.
    let data = [0x00, 0x04, 0x00, 0x0A, 0x00, 0x05];
    let mut buf = ParseBuffer::new(&data);
    assert_eq!(
        EncryptedExtensions::parse(&mut buf),
        Err(TlsError::InvalidExtensionsLength)
    );
}

#[test]
fn encrypted_extensions_over_capacity() {
    // 17 empty entries: syntactically fine, one more than fits.
    let mut data = vec![0x00, 68];
    for _ in 0..17 {
        data.extend_from_slice(&[0x00, 0x01, 0x00, 0x00]);
    }
    let mut buf = ParseBuffer::new(&data);
    assert_eq!(
        EncryptedExtensions::parse(&mut buf),
        Err(TlsError::InsufficientSpace)
    );
}

#[test]
fn extension_encode_parse_round_trip() {
    let ext = Extension {
        tag: 0x000A,
        data: vec![1, 2, 3],
    };
    let mut buf = RecordBuffer::new();
    ext.encode(&mut buf).unwrap();
    assert_eq!(buf.as_slice(), &[0x00, 0x0A, 0x00, 0x03, 1, 2, 3]);
    let bytes = buf.as_slice().to_vec();
    let mut pb = ParseBuffer::new(&bytes);
    let back = Extension::parse(&mut pb).unwrap();
    assert_eq!(back, ext);
}

#[test]
fn finished_encode_parse_round_trip() {
    // The client serializes a Finished record; decoding the record body as
    // a handshake message yields the same verification data.
    let verify: Vec<u8> = (1u8..=32).collect();
    let record = ClientRecord::Handshake(ClientHandshake::Finished(
        tls_record::finished::Finished {
            verify_data: verify.clone(),
        },
    ));
    let mut buf = RecordBuffer::new();
    let mut digest = Sha256Transcript::new();
    record.encode(&mut buf, &mut digest).unwrap();
    let out = buf.as_slice().to_vec();
    let mut reader_digest = Sha256Transcript::new();
    let parsed = ServerHandshake::parse(&out[5..], &mut reader_digest).unwrap();
    match parsed {
        ServerHandshake::Finished(f) => assert_eq!(f.verify_data, verify),
        other => panic!("unexpected message: {:?}", other),
    }
}

#[test]
fn handshake_unknown_type_is_invalid() {
    let data = [9, 0, 0, 1, 0xFF];
    let mut digest = Sha256Transcript::new();
    let r = ServerHandshake::parse(&data, &mut digest);
    assert_eq!(r, Err(TlsError::InvalidHandshake));
    // A failed parse leaves the transcript untouched.
    assert_eq!(digest.finalize(), Sha256Transcript::new().finalize());
}

#[test]
fn handshake_length_mismatch_is_invalid() {
    let data = [8, 0, 0, 9, 0, 0];
    let mut digest = Sha256Transcript::new();
    assert_eq!(
        ServerHandshake::parse(&data, &mut digest),
        Err(TlsError::InvalidHandshake)
    );
}

#[test]
fn certificate_messages_carry_payload_through() {
    let data = [11, 0, 0, 3, 0xA1, 0xA2, 0xA3];
    let mut digest = Sha256Transcript::new();
    match ServerHandshake::parse(&data, &mut digest).unwrap() {
        ServerHandshake::Certificate(c) => assert_eq!(c.payload, vec![0xA1, 0xA2, 0xA3]),
        other => panic!("unexpected message: {:?}", other),
    }
    let data = [15, 0, 0, 2, 0xB1, 0xB2];
    match ServerHandshake::parse(&data, &mut digest).unwrap() {
        ServerHandshake::CertificateVerify(cv) => assert_eq!(cv.payload, vec![0xB1, 0xB2]),
        other => panic!("unexpected message: {:?}", other),
    }
}

#[test]
fn handshake_type_tags() {
    assert_eq!(HandshakeType::ClientHello.tag(), 1);
    assert_eq!(HandshakeType::ServerHello.tag(), 2);
    assert_eq!(HandshakeType::EncryptedExtensions.tag(), 8);
    assert_eq!(HandshakeType::Certificate.tag(), 11);
    assert_eq!(HandshakeType::CertificateVerify.tag(), 15);
    assert_eq!(HandshakeType::Finished.tag(), 20);
}

#[test]
fn client_hello_with_extensions_encodes_block() {
    let hello = ClientHello {
        random: vec![0x11; 32],
        legacy_session_id: vec![0xC0, 0xC1],
        cipher_suites: vec![0x1303],
        extensions: vec![Extension {
            tag: 0x002B,
            data: vec![0x02, 0x03, 0x04],
        }],
    };
    let record = ClientRecord::Handshake(ClientHandshake::ClientHello(hello));
    let mut buf = RecordBuffer::new();
    let mut digest = Sha256Transcript::new();
    record.encode(&mut buf, &mut digest).unwrap();
    let out = buf.as_slice();
    // body: ver(2) random(32) sid(1+2) suites(2+2) comp(2) ext(2 + 7)
    let body_len = 2 + 32 + 3 + 4 + 2 + 9;
    assert_eq!(out.len(), 5 + 4 + body_len);
    assert_eq!(&out[..5], &[0x16, 0x03, 0x01, 0x00, (4 + body_len) as u8]);
    assert_eq!(&out[5..9], &[0x01, 0x00, 0x00, body_len as u8]);
    // The extension block sits at the tail: length 7, then one entry.
    assert_eq!(
        &out[out.len() - 9..],
        &[0x00, 0x07, 0x00, 0x2B, 0x00, 0x03, 0x02, 0x03, 0x04]
    );
}
