use tls_record::application_data::ApplicationData;
use tls_record::buffer::RecordBuffer;
use tls_record::client_hello::Config;
use tls_record::content_types::ContentType;
use tls_record::digest::Sha256Transcript;
use tls_record::error::TlsError;
use tls_record::record::ClientRecord;

fn encode_record(record: &ClientRecord) -> (Result<(), TlsError>, Vec<u8>, Vec<u8>) {
    let mut buf = RecordBuffer::new();
    let mut digest = Sha256Transcript::new();
    let r = record.encode(&mut buf, &mut digest);
    let bytes = buf.as_slice().to_vec();
    let hash = digest.finalize();
    (r, bytes, hash)
}

#[test]
fn client_hello_record_vector() {
    let config = Config {
        cipher_suites: vec![0x1301, 0x1302],
    };
    let random = vec![0xAA; 32];
    let record = ClientRecord::client_hello(&config, random);
    let (r, out, _) = encode_record(&record);
    assert_eq!(r, Ok(()));
    // Record header: Handshake tag, legacy version 3.1, body length.
    assert_eq!(out[0], 0x16);
    assert_eq!(out[1], 0x03);
    assert_eq!(out[2], 0x01);
    let declared = ((out[3] as usize) << 8) | (out[4] as usize);
    assert_eq!(declared, out.len() - 5);
    // The full expected serialization.
    let mut expected = vec![0x16, 0x03, 0x01, 0x00, 0x31];
    expected.extend_from_slice(&[0x01, 0x00, 0x00, 0x2D]);
    expected.extend_from_slice(&[0x03, 0x03]);
    expected.extend_from_slice(&[0xAA; 32]);
    expected.push(0x00);
    expected.extend_from_slice(&[0x00, 0x04, 0x13, 0x01, 0x13, 0x02]);
    expected.extend_from_slice(&[0x01, 0x00]);
    expected.extend_from_slice(&[0x00, 0x00]);
    assert_eq!(out, expected);
}

#[test]
fn application_data_record_vector() {
    let record = ClientRecord::ApplicationData(ApplicationData::new(vec![1, 2, 3]));
    let (r, out, _) = encode_record(&record);
    assert_eq!(r, Ok(()));
    assert_eq!(out, vec![0x17, 0x03, 0x03, 0x00, 0x03, 1, 2, 3]);
}

#[test]
fn record_length_field_counts_exact_body() {
    let payload: Vec<u8> = (0u8..100).collect();
    let record = ClientRecord::ApplicationData(ApplicationData::new(payload.clone()));
    let (r, out, _) = encode_record(&record);
    assert_eq!(r, Ok(()));
    let declared = ((out[3] as usize) << 8) | (out[4] as usize);
    // Reading exactly `declared` bytes after the marker yields the body,
    // no more, no less.
    assert_eq!(&out[5..5 + declared], payload.as_slice());
    assert_eq!(out.len(), 5 + declared);
}

#[test]
fn encode_rejects_oversized_payload() {
    let record = ClientRecord::ApplicationData(ApplicationData::new(vec![0; 300]));
    let mut buf = RecordBuffer::new();
    let mut digest = Sha256Transcript::new();
    let before = Sha256Transcript::new().finalize();
    let r = record.encode(&mut buf, &mut digest);
    assert_eq!(r, Err(TlsError::InsufficientSpace));
    // Buffer and transcript are untouched.
    assert_eq!(buf.len(), 0);
    assert_eq!(digest.finalize(), before);
}

#[test]
fn encode_appends_after_existing_contents() {
    let first = ClientRecord::ApplicationData(ApplicationData::new(vec![7]));
    let second = ClientRecord::ApplicationData(ApplicationData::new(vec![8, 9]));
    let mut buf = RecordBuffer::new();
    let mut digest = Sha256Transcript::new();
    first.encode(&mut buf, &mut digest).unwrap();
    second.encode(&mut buf, &mut digest).unwrap();
    assert_eq!(
        buf.as_slice(),
        &[0x17, 0x03, 0x03, 0x00, 0x01, 7, 0x17, 0x03, 0x03, 0x00, 0x02, 8, 9]
    );
}

#[test]
fn content_type_follows_variant() {
    let config = Config {
        cipher_suites: vec![0x1301],
    };
    let hs = ClientRecord::client_hello(&config, vec![0; 32]);
    assert_eq!(hs.content_type(), ContentType::Handshake);
    let ad = ClientRecord::ApplicationData(ApplicationData::new(vec![]));
    assert_eq!(ad.content_type(), ContentType::ApplicationData);
}

#[test]
fn content_type_tags_and_lookup() {
    assert_eq!(ContentType::Handshake.tag(), 22);
    assert_eq!(ContentType::ApplicationData.tag(), 23);
    assert_eq!(ContentType::of(20), Some(ContentType::ChangeCipherSpec));
    assert_eq!(ContentType::of(21), Some(ContentType::Alert));
    assert_eq!(ContentType::of(22), Some(ContentType::Handshake));
    assert_eq!(ContentType::of(23), Some(ContentType::ApplicationData));
    assert_eq!(ContentType::of(0), None);
    assert_eq!(ContentType::of(42), None);
}
