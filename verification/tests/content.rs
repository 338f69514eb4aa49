use canister_gateway::codec::{
    decode_body_to_sha256, digest_of_compressed, BodyEncoding, MAX_DECODED_LEN,
};
use sha2::Digest;

fn sha(data: &[u8]) -> Vec<u8> {
    let mut h = sha2::Sha256::new();
    h.update(data);
    h.finalize().to_vec()
}

fn gzip(data: &[u8]) -> Vec<u8> {
    let mut enc = flate2::read::GzEncoder::new(data, flate2::Compression::default());
    let mut out = Vec::new();
    std::io::Read::read_to_end(&mut enc, &mut out).unwrap();
    out
}

fn deflate(data: &[u8]) -> Vec<u8> {
    let mut enc = flate2::read::DeflateEncoder::new(data, flate2::Compression::default());
    let mut out = Vec::new();
    std::io::Read::read_to_end(&mut enc, &mut out).unwrap();
    out
}

#[test]
fn identity_body_digest() {
    let body = b"hello canister";
    let d = decode_body_to_sha256(body, BodyEncoding::Identity).unwrap();
    assert_eq!(d, sha(body));
}

#[test]
fn gzip_round_trip() {
    let content = b"certified content, compressed and recovered".repeat(100);
    let compressed = gzip(&content);
    let d = decode_body_to_sha256(&compressed, BodyEncoding::Gzip).unwrap();
    assert_eq!(d, sha(&content));
}

#[test]
fn deflate_round_trip() {
    let content = b"deflated content".repeat(50);
    let compressed = deflate(&content);
    let d = decode_body_to_sha256(&compressed, BodyEncoding::Deflate).unwrap();
    assert_eq!(d, sha(&content));
}

#[test]
fn round_trip_through_library_compressors() {
    let content = b"the library's own encoder feeds its decoder".to_vec();
    for enc in [BodyEncoding::Identity, BodyEncoding::Gzip, BodyEncoding::Deflate] {
        let d = digest_of_compressed(&content, enc).unwrap();
        assert_eq!(d, sha(&content));
    }
}

#[test]
fn digest_is_stable_across_runs() {
    let compressed = gzip(b"same input, same digest");
    let d1 = decode_body_to_sha256(&compressed, BodyEncoding::Gzip).unwrap();
    let d2 = decode_body_to_sha256(&compressed, BodyEncoding::Gzip).unwrap();
    assert_eq!(d1, d2);
}

#[test]
fn malformed_stream_is_a_decode_failure() {
    assert!(decode_body_to_sha256(b"not gzip at all", BodyEncoding::Gzip).is_none());
    let mut truncated = gzip(&b"x".repeat(5000));
    truncated.truncate(truncated.len() / 2);
    assert!(decode_body_to_sha256(&truncated, BodyEncoding::Gzip).is_none());
}

#[test]
fn ceiling_overrun_is_a_decode_failure() {
    // A small compressed body that inflates past the chunk ceiling must be
    // refused, not inflated into memory.
    let bomb_content = vec![0u8; (MAX_DECODED_LEN as usize) + 1];
    let bomb = gzip(&bomb_content);
    assert!(bomb.len() < 1_000_000);
    assert!(decode_body_to_sha256(&bomb, BodyEncoding::Gzip).is_none());
}

#[test]
fn exactly_full_stream_is_accepted() {
    let content = vec![7u8; MAX_DECODED_LEN as usize];
    let compressed = gzip(&content);
    let d = decode_body_to_sha256(&compressed, BodyEncoding::Gzip).unwrap();
    assert_eq!(d, sha(&content));
}

#[test]
fn empty_body_digests() {
    let d = decode_body_to_sha256(b"", BodyEncoding::Identity).unwrap();
    assert_eq!(d, sha(b""));
    let d = decode_body_to_sha256(&gzip(b""), BodyEncoding::Gzip).unwrap();
    assert_eq!(d, sha(b""));
}
