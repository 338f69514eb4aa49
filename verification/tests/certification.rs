use canister_gateway::hash_tree::{parse_certificate_tree, parse_tree, HashTree};
use canister_gateway::identity::Identity;
use canister_gateway::validate::{validate, validate_chunk, HeaderCertData, ValidationError};
use sha2::Digest;

const CANISTER_TEXT: &str = "r5m5i-tiaaa-aaaaj-acgaq-cai";

fn sha(data: &[u8]) -> Vec<u8> {
    let mut h = sha2::Sha256::new();
    h.update(data);
    h.finalize().to_vec()
}

fn canister() -> Identity {
    Identity::from_text(CANISTER_TEXT.as_bytes()).unwrap()
}

// A tiny CBOR encoder for the certificate and hash-tree wire shapes.
fn cbor_header(out: &mut Vec<u8>, major: u8, n: u64) {
    if n < 24 {
        out.push((major << 5) | (n as u8));
    } else if n < 256 {
        out.push((major << 5) | 24);
        out.push(n as u8);
    } else if n < 65536 {
        out.push((major << 5) | 25);
        out.push((n >> 8) as u8);
        out.push(n as u8);
    } else {
        out.push((major << 5) | 26);
        out.push((n >> 24) as u8);
        out.push((n >> 16) as u8);
        out.push((n >> 8) as u8);
        out.push(n as u8);
    }
}

fn cbor_bytes(out: &mut Vec<u8>, data: &[u8]) {
    cbor_header(out, 2, data.len() as u64);
    out.extend_from_slice(data);
}

fn cbor_text(out: &mut Vec<u8>, data: &str) {
    cbor_header(out, 3, data.len() as u64);
    out.extend_from_slice(data.as_bytes());
}

fn encode_tree(out: &mut Vec<u8>, t: &HashTree) {
    match t {
        HashTree::Empty => {
            cbor_header(out, 4, 1);
            cbor_header(out, 0, 0);
        }
        HashTree::Fork(l, r) => {
            cbor_header(out, 4, 3);
            cbor_header(out, 0, 1);
            encode_tree(out, l);
            encode_tree(out, r);
        }
        HashTree::Labeled(label, sub) => {
            cbor_header(out, 4, 3);
            cbor_header(out, 0, 2);
            cbor_bytes(out, label);
            encode_tree(out, sub);
        }
        HashTree::Leaf(v) => {
            cbor_header(out, 4, 2);
            cbor_header(out, 0, 3);
            cbor_bytes(out, v);
        }
        HashTree::Pruned(h) => {
            cbor_header(out, 4, 2);
            cbor_header(out, 0, 4);
            cbor_bytes(out, h);
        }
    }
}

fn tree_bytes(t: &HashTree) -> Vec<u8> {
    let mut out = Vec::new();
    encode_tree(&mut out, t);
    out
}

/// Encode a certificate map carrying the given tree, with the
/// self-describing tag and a placeholder signature, as the wire carries it.
fn certificate_bytes(cert_tree: &HashTree) -> Vec<u8> {
    let mut out = vec![0xd9, 0xd9, 0xf7];
    cbor_header(&mut out, 5, 2);
    cbor_text(&mut out, "tree");
    encode_tree(&mut out, cert_tree);
    cbor_text(&mut out, "signature");
    cbor_bytes(&mut out, &[0u8; 4]);
    out
}

fn labeled(label: &[u8], sub: HashTree) -> HashTree {
    HashTree::Labeled(label.to_vec(), Box::new(sub))
}

/// A matching certificate/tree pair for a body digest under an asset key.
fn certified_pair(key: &[u8], body_sha: &[u8]) -> (Vec<u8>, Vec<u8>) {
    let asset_tree = labeled(b"http_assets", labeled(key, HashTree::Leaf(body_sha.to_vec())));
    let root = asset_tree.digest();
    let cert_tree = labeled(
        b"canister",
        labeled(
            canister().as_bytes().as_slice(),
            labeled(b"certified_data", HashTree::Leaf(root)),
        ),
    );
    (certificate_bytes(&cert_tree), tree_bytes(&asset_tree))
}

fn data_for(cert: Vec<u8>, tree: Vec<u8>, key: &[u8]) -> HeaderCertData {
    HeaderCertData {
        certificate: Some(Ok(cert)),
        tree: Some(Ok(tree)),
        encoding: None,
        key: Some(key.to_vec()),
    }
}

#[test]
fn leaf_digest_matches_specification() {
    // digest(Leaf v) = sha256(byte 16 ++ "ic-hashtree-leaf" ++ v)
    let leaf = HashTree::Leaf(b"hi".to_vec());
    let mut input = vec![16u8];
    input.extend_from_slice(b"ic-hashtree-leaf");
    input.extend_from_slice(b"hi");
    assert_eq!(leaf.digest(), sha(&input));
}

#[test]
fn fork_digest_matches_specification() {
    let l = HashTree::Leaf(b"a".to_vec());
    let r = HashTree::Empty;
    let fork = HashTree::Fork(Box::new(l), Box::new(r));
    let mut empty_input = vec![17u8];
    empty_input.extend_from_slice(b"ic-hashtree-empty");
    let mut leaf_input = vec![16u8];
    leaf_input.extend_from_slice(b"ic-hashtree-leaf");
    leaf_input.extend_from_slice(b"a");
    let mut fork_input = vec![16u8];
    fork_input.extend_from_slice(b"ic-hashtree-fork");
    fork_input.extend_from_slice(&sha(&leaf_input));
    fork_input.extend_from_slice(&sha(&empty_input));
    assert_eq!(fork.digest(), sha(&fork_input));
}

#[test]
fn tree_round_trips_through_cbor() {
    let t = labeled(
        b"http_assets",
        HashTree::Fork(
            Box::new(labeled(b"/x", HashTree::Leaf(b"v".to_vec()))),
            Box::new(HashTree::Pruned(vec![9u8; 32])),
        ),
    );
    let bytes = tree_bytes(&t);
    let (parsed, consumed) = parse_tree(&bytes, 0).expect("well-formed tree");
    assert_eq!(consumed, bytes.len());
    assert_eq!(parsed.digest(), t.digest());
}

#[test]
fn certificate_parse_finds_the_tree() {
    let cert_tree = labeled(b"canister", HashTree::Leaf(b"w".to_vec()));
    let bytes = certificate_bytes(&cert_tree);
    let parsed = parse_certificate_tree(&bytes).expect("well-formed certificate");
    assert_eq!(parsed.digest(), cert_tree.digest());
    assert!(parse_certificate_tree(b"garbage").is_none());
}

#[test]
fn valid_pair_passes_validation() {
    let body = b"certified body";
    let (cert, tree) = certified_pair(b"/x", &sha(body));
    let data = data_for(cert, tree, b"/x");
    assert_eq!(validate(&data, &canister(), b"/-/ignored", true, body), Ok(()));
}

#[test]
fn flipped_body_byte_fails_validation() {
    let body = b"certified body".to_vec();
    let (cert, tree) = certified_pair(b"/x", &sha(&body));
    let data = data_for(cert, tree, b"/x");
    for i in 0..body.len() {
        let mut flipped = body.clone();
        flipped[i] ^= 1;
        assert_eq!(
            validate(&data, &canister(), b"/-/ignored", true, &flipped),
            Err(ValidationError::Mismatch)
        );
    }
}

#[test]
fn lone_certificate_fails_validation() {
    let body = b"body";
    let (cert, tree) = certified_pair(b"/x", &sha(body));
    let only_cert = HeaderCertData {
        certificate: Some(Ok(cert)),
        tree: None,
        encoding: None,
        key: Some(b"/x".to_vec()),
    };
    assert_eq!(
        validate(&only_cert, &canister(), b"/p", true, body),
        Err(ValidationError::Mismatch)
    );
    let only_tree = HeaderCertData {
        certificate: None,
        tree: Some(Ok(tree)),
        encoding: None,
        key: Some(b"/x".to_vec()),
    };
    assert_eq!(
        validate(&only_tree, &canister(), b"/p", true, body),
        Err(ValidationError::Mismatch)
    );
}

#[test]
fn absent_pair_passes_as_legacy() {
    let data = HeaderCertData { certificate: None, tree: None, encoding: None, key: None };
    assert_eq!(validate(&data, &canister(), b"/p", true, b"anything"), Ok(()));
    // Even a body that would fail a certified check.
    assert_eq!(validate(&data, &canister(), b"/p", false, b"other"), Ok(()));
}

#[test]
fn undecodable_body_is_rejected_before_the_pair_is_consulted() {
    let data = HeaderCertData {
        certificate: None,
        tree: None,
        encoding: Some(b"gzip".to_vec()),
        key: None,
    };
    assert_eq!(
        validate(&data, &canister(), b"/p", true, b"not gzip"),
        Err(ValidationError::BodyDecode)
    );
}

#[test]
fn signature_gate_rejects() {
    let body = b"certified body";
    let (cert, tree) = certified_pair(b"/x", &sha(body));
    let data = data_for(cert, tree, b"/x");
    assert_eq!(
        validate(&data, &canister(), b"/p", false, body),
        Err(ValidationError::Mismatch)
    );
}

#[test]
fn malformed_certificate_is_a_parse_error() {
    let body = b"body";
    let (_, tree) = certified_pair(b"/x", &sha(body));
    let data = data_for(b"junk".to_vec(), tree, b"/x");
    assert_eq!(
        validate(&data, &canister(), b"/p", true, body),
        Err(ValidationError::CertificateParse)
    );
}

#[test]
fn missing_key_falls_back_to_index_html() {
    let body = b"the index page";
    let (cert, tree) = certified_pair(b"/index.html", &sha(body));
    let data = data_for(cert, tree, b"/nonexistent");
    assert_eq!(validate(&data, &canister(), b"/p", true, body), Ok(()));
}

#[test]
fn tree_key_is_stripped_from_the_request_path() {
    let body = b"asset under the rewritten path";
    let (cert, tree) = certified_pair(b"/x", &sha(body));
    let data = HeaderCertData {
        certificate: Some(Ok(cert)),
        tree: Some(Ok(tree)),
        encoding: None,
        key: None,
    };
    let path = format!("/-/{}/x", CANISTER_TEXT);
    assert_eq!(validate(&data, &canister(), path.as_bytes(), true, body), Ok(()));
}

#[test]
fn compressed_body_validates_against_decoded_digest() {
    let content = b"compressed certified content".repeat(10);
    let mut enc = flate2::read::GzEncoder::new(content.as_slice(), flate2::Compression::default());
    let mut compressed = Vec::new();
    std::io::Read::read_to_end(&mut enc, &mut compressed).unwrap();
    let (cert, tree) = certified_pair(b"/x", &sha(&content));
    let data = HeaderCertData {
        certificate: Some(Ok(cert)),
        tree: Some(Ok(tree)),
        encoding: Some(b"gzip".to_vec()),
        key: Some(b"/x".to_vec()),
    };
    assert_eq!(validate(&data, &canister(), b"/p", true, &compressed), Ok(()));
}

fn b64(data: &[u8]) -> Vec<u8> {
    base64::Engine::encode(&base64::engine::general_purpose::STANDARD, data).into_bytes()
}

#[test]
fn chunk_with_full_token_is_validated() {
    let body = b"one streamed chunk";
    let (cert, tree) = certified_pair(b"/stream", &sha(body));
    // The token's text fields arrive quoted, as the token records them.
    let mut cert_field = vec![b'"'];
    cert_field.extend_from_slice(&b64(&cert));
    cert_field.push(b'"');
    let mut tree_field = vec![b'"'];
    tree_field.extend_from_slice(&b64(&tree));
    tree_field.push(b'"');
    let fields = vec![
        (1102915300u32, cert_field.clone()),
        (1292081502u32, tree_field.clone()),
        (3577787238u32, b"\"/stream\"".to_vec()),
    ];
    assert_eq!(validate_chunk(&fields, &canister(), b"/p", body), Ok(()));
    assert_eq!(
        validate_chunk(&fields, &canister(), b"/p", b"tampered chunk"),
        Err(ValidationError::Mismatch)
    );
}

#[test]
fn chunk_without_token_fields_passes() {
    let fields = vec![(1102915300u32, b"only-certificate".to_vec())];
    assert_eq!(validate_chunk(&fields, &canister(), b"/p", b"body"), Ok(()));
    let none: Vec<(u32, Vec<u8>)> = vec![];
    assert_eq!(validate_chunk(&none, &canister(), b"/p", b"body"), Ok(()));
}

#[test]
fn chunk_with_undecodable_base64_fails() {
    let fields = vec![
        (1102915300u32, b"!!!not base64!!!".to_vec()),
        (1292081502u32, b"!!!not base64!!!".to_vec()),
        (3577787238u32, b"/stream".to_vec()),
    ];
    assert_eq!(
        validate_chunk(&fields, &canister(), b"/p", b"body"),
        Err(ValidationError::Mismatch)
    );
}
