//! The content validator. A body is accepted when certificate and tree are
//! both present and mutually consistent with the body's digest, or when
//! neither is present (legacy, uncertified canisters); a response carrying
//! exactly one of the two is always rejected. Bodies are decoded under
//! their announced content encoding with the bounded decoder. The
//! certificate-signature outcome enters as a boolean computed by the
//! caller, since checking it needs the remote network's root key; chunk
//! mode does not apply that check.

use vstd::prelude::*;

use crate::bytes_util::{clone_bytes, remove_all, remove_all_bytes, slices_equal};
use crate::codec::{decode_body_to_sha256, decoded_content, BodyEncoding};
use crate::digest::sha256_of;
use crate::hash_tree::{
    parse_certificate_tree, parse_tree, sp_certificate_tree, sp_lookup_path, sp_parse_tree,
    tree_digest, HashTree, TreeV,
};
use crate::identity::{opt_bytes_view, text_of_identity, Identity};

verus! {

/// The candid field hash of a continuation token's certificate field.
pub const TOKEN_CERTIFICATE_FIELD: u32 = 1102915300;

/// The candid field hash of a continuation token's tree field.
pub const TOKEN_TREE_FIELD: u32 = 1292081502;

/// The candid field hash of a continuation token's tree-path field.
pub const TOKEN_TREE_PATH_FIELD: u32 = 3577787238;

/// What the standard-alphabet base64 decoder returns for a byte string, or
/// `None` when the input is not valid base64.
pub uninterp spec fn base64_decode_of(s: Seq<u8>) -> Option<Seq<u8>>;

/// Relies on the `base64` crate's standard-alphabet decode: a function of
/// the input alone.
#[verifier::external_body]
pub(crate) fn b64_decode(s: &[u8]) -> (r: Option<Vec<u8>>)
    ensures
        opt_bytes_view(r) == base64_decode_of(s@),
{
    match base64::Engine::decode(&base64::engine::general_purpose::STANDARD, s) {
        Ok(v) => Some(v),
        Err(_) => None,
    }
}

/// The certification material one response (or one streamed chunk) carries:
/// raw certificate and tree bytes as carried by the response, each `Err`
/// when announced but undecodable, the announced content encoding, and an
/// optional override for the tree key.
pub struct HeaderCertData {
    pub certificate: Option<Result<Vec<u8>, ()>>,
    pub tree: Option<Result<Vec<u8>, ()>>,
    pub encoding: Option<Vec<u8>>,
    pub key: Option<Vec<u8>>,
}

/// Why a response failed validation.
#[derive(Clone, Copy, Debug, PartialEq, Eq, Structural)]
pub enum ValidationError {
    /// The body could not be decoded under its announced encoding.
    BodyDecode,
    /// The body does not pass verification against its certification data.
    Mismatch,
    /// The certificate or tree bytes do not parse.
    CertificateParse,
}

/// Which of the two certification structures failed to parse.
#[derive(Clone, Copy, Debug, PartialEq, Eq, Structural)]
pub enum CertParseError {
    Certificate,
    Tree,
}

/// The user-facing description of a validation failure.
pub open spec fn error_text(e: ValidationError) -> Seq<char> {
    match e {
        ValidationError::BodyDecode => "Body could not be decoded"@,
        ValidationError::Mismatch => "Body does not pass verification"@,
        ValidationError::CertificateParse => "Certificate validation failed"@,
    }
}

impl ValidationError {
    /// The user-facing description of this failure.
    pub fn describe(&self) -> (r: &'static str)
        ensures
            r@ == error_text(*self),
    {
        match self {
            ValidationError::BodyDecode => "Body could not be decoded",
            ValidationError::Mismatch => "Body does not pass verification",
            ValidationError::CertificateParse => "Certificate validation failed",
        }
    }
}

/// The encoding a response announces: the exact names `gzip` and `deflate`
/// are understood, anything else is taken as unencoded.
pub open spec fn encoding_view(enc: Option<Vec<u8>>) -> BodyEncoding {
    match enc {
        Some(e) => if e@ == seq![103u8, 122u8, 105u8, 112u8] {
            BodyEncoding::Gzip
        } else if e@ == seq![100u8, 101u8, 102u8, 108u8, 97u8, 116u8, 101u8] {
            BodyEncoding::Deflate
        } else {
            BodyEncoding::Identity
        },
        None => BodyEncoding::Identity,
    }
}

/// Map an announced content encoding to a decoder choice.
pub fn encoding_of(enc: &Option<Vec<u8>>) -> (r: BodyEncoding)
    ensures
        r == encoding_view(*enc),
{
    match enc {
        Some(e) => {
            let gz: [u8; 4] = [103, 122, 105, 112];
            let df: [u8; 7] = [100, 101, 102, 108, 97, 116, 101];
            if slices_equal(e.as_slice(), gz.as_slice()) {
                proof {
                    assert(gz@ =~= seq![103u8, 122u8, 105u8, 112u8]);
                }
                BodyEncoding::Gzip
            } else if slices_equal(e.as_slice(), df.as_slice()) {
                proof {
                    assert(df@ =~= seq![100u8, 101u8, 102u8, 108u8, 97u8, 116u8, 101u8]);
                }
                BodyEncoding::Deflate
            } else {
                proof {
                    assert(gz@ =~= seq![103u8, 122u8, 105u8, 112u8]);
                    assert(df@ =~= seq![100u8, 101u8, 102u8, 108u8, 97u8, 116u8, 101u8]);
                }
                BodyEncoding::Identity
            }
        },
        None => BodyEncoding::Identity,
    }
}

/// The label path under which a certificate commits to a canister's
/// certified data: `canister / <identity bytes> / certified_data`.
pub open spec fn certified_data_path(canister: Seq<u8>) -> Seq<Seq<u8>> {
    seq![
        seq![99u8, 97u8, 110u8, 105u8, 115u8, 116u8, 101u8, 114u8],
        canister,
        seq![99u8, 101u8, 114u8, 116u8, 105u8, 102u8, 105u8, 101u8, 100u8, 95u8, 100u8, 97u8, 116u8, 97u8],
    ]
}

/// The label path of an asset in a canister's hash tree:
/// `http_assets / <key>`.
pub open spec fn asset_path(key: Seq<u8>) -> Seq<Seq<u8>> {
    seq![seq![104u8, 116u8, 116u8, 112u8, 95u8, 97u8, 115u8, 115u8, 101u8, 116u8, 115u8], key]
}

/// The fallback asset key `/index.html`.
pub open spec fn index_html_key() -> Seq<u8> {
    seq![47u8, 105u8, 110u8, 100u8, 101u8, 120u8, 46u8, 104u8, 116u8, 109u8, 108u8]
}

/// A tree parsed from standalone bytes, which must hold exactly one tree.
pub open spec fn parsed_whole_tree(bytes: Seq<u8>) -> Option<TreeV> {
    match sp_parse_tree(bytes, 0) {
        Some((t, p)) => if p == bytes.len() {
            Some(t)
        } else {
            None
        },
        None => None,
    }
}

/// The certificate's witness for the canister equals the tree's root
/// digest.
pub open spec fn witness_matches(cert_tree: TreeV, tree: TreeV, canister: Seq<u8>) -> bool {
    sp_lookup_path(cert_tree, certified_data_path(canister), 0) == Some(tree_digest(tree))
}

/// The tree records the body digest under the asset key, or under the
/// fallback key `/index.html`.
pub open spec fn body_hash_found(tree: TreeV, key: Seq<u8>, body_sha: Seq<u8>) -> bool {
    match sp_lookup_path(tree, asset_path(key), 0) {
        Some(h) => h == body_sha,
        None => match sp_lookup_path(tree, asset_path(index_html_key()), 0) {
            Some(h) => h == body_sha,
            None => false,
        },
    }
}

/// What validating a certificate/tree pair against a body digest yields:
/// a parse failure of either structure is an error; otherwise the pair
/// passes exactly when the signature gate holds, the certificate's witness
/// for the canister equals the tree's root digest, and the tree records the
/// body digest under the asset key (or the fallback key).
pub open spec fn validate_body_spec(
    cert: Seq<u8>,
    tree: Seq<u8>,
    sig_ok: bool,
    canister: Seq<u8>,
    key: Seq<u8>,
    body_sha: Seq<u8>,
) -> Result<bool, CertParseError> {
    match sp_certificate_tree(cert) {
        None => Err(CertParseError::Certificate),
        Some(cert_tree) => match parsed_whole_tree(tree) {
            None => Err(CertParseError::Tree),
            Some(t) => Ok(
                sig_ok && witness_matches(cert_tree, t, canister) && body_hash_found(
                    t,
                    key,
                    body_sha,
                ),
            ),
        },
    }
}

/// The routing prefix `/-/<identity text>` that is stripped from a request
/// path to obtain the tree key.
pub open spec fn routing_prefix(canister: Seq<u8>) -> Seq<u8> {
    seq![47u8, 45u8, 47u8] + text_of_identity(canister)
}

/// The tree key a response is validated under: the override carried by a
/// streamed chunk's continuation token when present, else the request path
/// with every occurrence of the routing prefix removed.
pub open spec fn effective_tree_key(
    key: Option<Vec<u8>>,
    canister: Seq<u8>,
    request_path: Seq<u8>,
) -> Seq<u8> {
    match key {
        Some(k) => k@,
        None => remove_all(request_path, routing_prefix(canister)),
    }
}

/// What validating one response (or one chunk) yields. The body must decode
/// under its announced encoding; then a certificate/tree pair is checked
/// against the decoded body's digest, a response carrying neither is
/// accepted as legacy, and one carrying exactly one of the two, or an
/// undecodable one, is rejected.
pub open spec fn validate_spec(
    data: HeaderCertData,
    canister: Seq<u8>,
    request_path: Seq<u8>,
    sig_ok: bool,
    body: Seq<u8>,
) -> Result<(), ValidationError> {
    match decoded_content(body, encoding_view(data.encoding)) {
        None => Err(ValidationError::BodyDecode),
        Some(content) => match (data.certificate, data.tree) {
            (Some(Ok(cert)), Some(Ok(tree))) => match validate_body_spec(
                cert@,
                tree@,
                sig_ok,
                canister,
                effective_tree_key(data.key, canister, request_path),
                sha256_of(content),
            ) {
                Ok(true) => Ok(()),
                Ok(false) => Err(ValidationError::Mismatch),
                Err(_) => Err(ValidationError::CertificateParse),
            },
            (None, None) => Ok(()),
            _ => Err(ValidationError::Mismatch),
        },
    }
}

/// Validate a certificate/tree pair against a body digest.
fn validate_body(
    cert: &[u8],
    tree: &[u8],
    sig_ok: bool,
    canister: &Identity,
    tree_key: &Vec<u8>,
    body_sha: &Vec<u8>,
) -> (r: Result<bool, CertParseError>)
    ensures
        r == validate_body_spec(cert@, tree@, sig_ok, canister@, tree_key@, body_sha@),
{
    let cert_tree: HashTree = match parse_certificate_tree(cert) {
        Some(t) => t,
        None => {
            return Err(CertParseError::Certificate);
        },
    };
    let tree_len: usize = tree.len();
    let asset_tree: HashTree = match parse_tree(tree, 0) {
        Some((t, p)) => {
            if p == tree_len {
                t
            } else {
                return Err(CertParseError::Tree);
            }
        },
        None => {
            return Err(CertParseError::Tree);
        },
    };
    // The pure boolean gates, in the order the design states them.
    if !sig_ok {
        return Ok(false);
    }
    let mut witness_path: Vec<Vec<u8>> = Vec::new();
    let canister_label: [u8; 8] = [99, 97, 110, 105, 115, 116, 101, 114];
    let certified_data_label: [u8; 14] = [99, 101, 114, 116, 105, 102, 105, 101, 100, 95, 100, 97,
        116, 97];
    witness_path.push(crate::bytes_util::bytes_subrange(canister_label.as_slice(), 0, 8));
    witness_path.push(clone_bytes(canister.as_bytes()));
    witness_path.push(crate::bytes_util::bytes_subrange(certified_data_label.as_slice(), 0, 14));
    proof {
        assert(witness_path@.map_values(|l: Vec<u8>| l@) =~~= certified_data_path(canister@));
    }
    let witness: &Vec<u8> = match cert_tree.lookup_path(witness_path.as_slice(), 0) {
        Some(w) => w,
        None => {
            return Ok(false);
        },
    };
    let digest = asset_tree.digest();
    if !slices_equal(witness.as_slice(), digest.as_slice()) {
        return Ok(false);
    }
    let http_assets_label: [u8; 11] = [104, 116, 116, 112, 95, 97, 115, 115, 101, 116, 115];
    let mut key_path: Vec<Vec<u8>> = Vec::new();
    key_path.push(crate::bytes_util::bytes_subrange(http_assets_label.as_slice(), 0, 11));
    key_path.push(clone_bytes(tree_key));
    proof {
        assert(key_path@.map_values(|l: Vec<u8>| l@) =~~= asset_path(tree_key@));
    }
    let tree_sha: &Vec<u8> = match asset_tree.lookup_path(key_path.as_slice(), 0) {
        Some(h) => h,
        None => {
            let index_label: [u8; 11] = [47, 105, 110, 100, 101, 120, 46, 104, 116, 109, 108];
            let mut fallback_path: Vec<Vec<u8>> = Vec::new();
            fallback_path.push(crate::bytes_util::bytes_subrange(http_assets_label.as_slice(), 0, 11));
            fallback_path.push(crate::bytes_util::bytes_subrange(index_label.as_slice(), 0, 11));
            proof {
                assert(fallback_path@.map_values(|l: Vec<u8>| l@) =~~= asset_path(index_html_key()));
            }
            match asset_tree.lookup_path(fallback_path.as_slice(), 0) {
                Some(h) => h,
                None => {
                    return Ok(false);
                },
            }
        },
    };
    Ok(slices_equal(body_sha.as_slice(), tree_sha.as_slice()))
}

/// Validate one whole response body against the certification material its
/// headers carried. `sig_ok` is the certificate-signature verdict the
/// caller obtained for these certificate bytes and this canister.
pub fn validate(
    data: &HeaderCertData,
    canister: &Identity,
    request_path: &[u8],
    sig_ok: bool,
    body: &[u8],
) -> (r: Result<(), ValidationError>)
    requires
        canister.wf(),
    ensures
        r == validate_spec(*data, canister@, request_path@, sig_ok, body@),
{
    let enc = encoding_of(&data.encoding);
    let body_sha: Vec<u8> = match decode_body_to_sha256(body, enc) {
        Some(d) => d,
        None => {
            return Err(ValidationError::BodyDecode);
        },
    };
    let tree_key: Vec<u8> = match &data.key {
        Some(k) => clone_bytes(k),
        None => {
            let text = canister.to_text();
            let mut prefix: Vec<u8> = Vec::new();
            prefix.push(47);
            prefix.push(45);
            prefix.push(47);
            prefix.extend_from_slice(text.as_slice());
            proof {
                assert(prefix@ =~= routing_prefix(canister@));
            }
            remove_all_bytes(request_path, prefix.as_slice())
        },
    };
    match (&data.certificate, &data.tree) {
        (Some(Ok(cert)), Some(Ok(tree))) => {
            match validate_body(
                cert.as_slice(),
                tree.as_slice(),
                sig_ok,
                canister,
                &tree_key,
                &body_sha,
            ) {
                Ok(true) => Ok(()),
                Ok(false) => Err(ValidationError::Mismatch),
                Err(_) => Err(ValidationError::CertificateParse),
            }
        },
        (None, None) => Ok(()),
        _ => Err(ValidationError::Mismatch),
    }
}

/// The first value a token's fields carry under an id.
pub open spec fn field_value(fields: Seq<(u32, Vec<u8>)>, id: u32) -> Option<Seq<u8>>
    decreases fields.len(),
{
    if fields.len() == 0 {
        None
    } else if fields[0].0 == id {
        Some(fields[0].1@)
    } else {
        field_value(fields.skip(1), id)
    }
}

/// Find the first field with an id, executable form.
fn find_field<'a>(fields: &'a Vec<(u32, Vec<u8>)>, id: u32) -> (r: Option<&'a Vec<u8>>)
    ensures
        match r {
            Some(v) => field_value(fields@, id) == Some(v@),
            None => field_value(fields@, id) is None,
        },
{
    let n: usize = fields.len();
    proof {
        assert(fields@.skip(0) =~= fields@);
    }
    for i in 0..n
        invariant
            n == fields@.len(),
            field_value(fields@, id) == field_value(fields@.skip(i as int), id),
    {
        proof {
            assert(fields@.skip(i as int)[0] == fields@[i as int]);
            assert(fields@.skip(i as int).skip(1) =~= fields@.skip(i + 1));
        }
        if fields[i].0 == id {
            return Some(&fields[i].1);
        }
    }
    None
}

/// A token field's text with every double-quote removed.
pub open spec fn unquoted(v: Seq<u8>) -> Seq<u8> {
    remove_all(v, seq![34u8])
}

/// What validating one streamed chunk yields: when the continuation token
/// carries all three certification fields, the chunk body is validated
/// against them (the tree key coming from the token, the signature gate
/// omitted in chunk mode); a token missing any of the three leaves the
/// chunk unvalidated and accepted.
pub open spec fn validate_chunk_spec(
    fields: Seq<(u32, Vec<u8>)>,
    canister: Seq<u8>,
    request_path: Seq<u8>,
    body: Seq<u8>,
) -> Result<(), ValidationError> {
    match (
        field_value(fields, TOKEN_CERTIFICATE_FIELD),
        field_value(fields, TOKEN_TREE_FIELD),
        field_value(fields, TOKEN_TREE_PATH_FIELD),
    ) {
        (Some(c), Some(t), Some(k)) => {
            let cert = match base64_decode_of(unquoted(c)) {
                Some(b) => Some(Result::<Seq<u8>, ()>::Ok(b)),
                None => Some(Result::<Seq<u8>, ()>::Err(())),
            };
            let tree = match base64_decode_of(unquoted(t)) {
                Some(b) => Some(Result::<Seq<u8>, ()>::Ok(b)),
                None => Some(Result::<Seq<u8>, ()>::Err(())),
            };
            validate_spec_v(cert, tree, None, Some(unquoted(k)), canister, request_path, true, body)
        },
        _ => Ok(()),
    }
}

/// `validate_spec` stated over views, for contexts that build the
/// certification data at the spec level.
pub open spec fn validate_spec_v(
    certificate: Option<Result<Seq<u8>, ()>>,
    tree: Option<Result<Seq<u8>, ()>>,
    encoding: Option<Seq<u8>>,
    key: Option<Seq<u8>>,
    canister: Seq<u8>,
    request_path: Seq<u8>,
    sig_ok: bool,
    body: Seq<u8>,
) -> Result<(), ValidationError> {
    match decoded_content(body, encoding_view_v(encoding)) {
        None => Err(ValidationError::BodyDecode),
        Some(content) => match (certificate, tree) {
            (Some(Ok(cert)), Some(Ok(t))) => match validate_body_spec(
                cert,
                t,
                sig_ok,
                canister,
                effective_tree_key_v(key, canister, request_path),
                sha256_of(content),
            ) {
                Ok(true) => Ok(()),
                Ok(false) => Err(ValidationError::Mismatch),
                Err(_) => Err(ValidationError::CertificateParse),
            },
            (None, None) => Ok(()),
            _ => Err(ValidationError::Mismatch),
        },
    }
}

/// `encoding_view` over a view.
pub open spec fn encoding_view_v(enc: Option<Seq<u8>>) -> BodyEncoding {
    match enc {
        Some(e) => if e == seq![103u8, 122u8, 105u8, 112u8] {
            BodyEncoding::Gzip
        } else if e == seq![100u8, 101u8, 102u8, 108u8, 97u8, 116u8, 101u8] {
            BodyEncoding::Deflate
        } else {
            BodyEncoding::Identity
        },
        None => BodyEncoding::Identity,
    }
}

/// `effective_tree_key` over a view.
pub open spec fn effective_tree_key_v(
    key: Option<Seq<u8>>,
    canister: Seq<u8>,
    request_path: Seq<u8>,
) -> Seq<u8> {
    match key {
        Some(k) => k,
        None => remove_all(request_path, routing_prefix(canister)),
    }
}

/// Validate one streamed chunk against the certification fields embedded in
/// its continuation token.
pub fn validate_chunk(
    fields: &Vec<(u32, Vec<u8>)>,
    canister: &Identity,
    request_path: &[u8],
    body: &[u8],
) -> (r: Result<(), ValidationError>)
    requires
        canister.wf(),
    ensures
        r == validate_chunk_spec(fields@, canister@, request_path@, body@),
{
    let token_cert = find_field(fields, TOKEN_CERTIFICATE_FIELD);
    let token_tree = find_field(fields, TOKEN_TREE_FIELD);
    let token_path = find_field(fields, TOKEN_TREE_PATH_FIELD);
    match (token_cert, token_tree, token_path) {
        (Some(c), Some(t), Some(k)) => {
            let quote: [u8; 1] = [34];
            let cert_b64 = remove_all_bytes(c.as_slice(), quote.as_slice());
            let tree_b64 = remove_all_bytes(t.as_slice(), quote.as_slice());
            let tree_path = remove_all_bytes(k.as_slice(), quote.as_slice());
            proof {
                assert(quote@ =~= seq![34u8]);
            }
            let cert = match b64_decode(cert_b64.as_slice()) {
                Some(b) => Some(Result::<Vec<u8>, ()>::Ok(b)),
                None => Some(Result::<Vec<u8>, ()>::Err(())),
            };
            let tree = match b64_decode(tree_b64.as_slice()) {
                Some(b) => Some(Result::<Vec<u8>, ()>::Ok(b)),
                None => Some(Result::<Vec<u8>, ()>::Err(())),
            };
            let data = HeaderCertData { certificate: cert, tree: tree, encoding: None, key: Some(
                tree_path,
            ) };
            let r = validate(&data, canister, request_path, true, body);
            proof {
                lemma_validate_spec_v(data, canister@, request_path@, true, body@);
            }
            r
        },
        _ => Ok(()),
    }
}

/// `validate_spec` coincides with its view-level form.
proof fn lemma_validate_spec_v(
    data: HeaderCertData,
    canister: Seq<u8>,
    request_path: Seq<u8>,
    sig_ok: bool,
    body: Seq<u8>,
)
    ensures
        validate_spec(data, canister, request_path, sig_ok, body) == validate_spec_v(
            match data.certificate {
                Some(Ok(c)) => Some(Result::<Seq<u8>, ()>::Ok(c@)),
                Some(Err(e)) => Some(Result::<Seq<u8>, ()>::Err(e)),
                None => None,
            },
            match data.tree {
                Some(Ok(t)) => Some(Result::<Seq<u8>, ()>::Ok(t@)),
                Some(Err(e)) => Some(Result::<Seq<u8>, ()>::Err(e)),
                None => None,
            },
            match data.encoding {
                Some(e) => Some(e@),
                None => None,
            },
            match data.key {
                Some(k) => Some(k@),
                None => None,
            },
            canister,
            request_path,
            sig_ok,
            body,
        ),
{
}

/// Law: a response carrying a valid certificate/tree pair whose recorded
/// digest matches the decoded body's digest passes validation.
pub proof fn lemma_valid_pair_passes(
    data: HeaderCertData,
    canister: Seq<u8>,
    request_path: Seq<u8>,
    body: Seq<u8>,
    cert: Vec<u8>,
    tree: Vec<u8>,
)
    requires
        data.certificate == Some(Result::<Vec<u8>, ()>::Ok(cert)),
        data.tree == Some(Result::<Vec<u8>, ()>::Ok(tree)),
        decoded_content(body, encoding_view(data.encoding)) is Some,
        validate_body_spec(
            cert@,
            tree@,
            true,
            canister,
            effective_tree_key(data.key, canister, request_path),
            sha256_of(decoded_content(body, encoding_view(data.encoding)).unwrap()),
        ) == Result::<bool, CertParseError>::Ok(true),
    ensures
        validate_spec(data, canister, request_path, true, body) == Result::<(
        ), ValidationError>::Ok(()),
{
}

/// Law: a digest mismatch between the tree's record and the decoded body
/// fails validation.
pub proof fn lemma_digest_mismatch_fails(
    data: HeaderCertData,
    canister: Seq<u8>,
    request_path: Seq<u8>,
    sig_ok: bool,
    body: Seq<u8>,
    cert: Vec<u8>,
    tree: Vec<u8>,
)
    requires
        data.certificate == Some(Result::<Vec<u8>, ()>::Ok(cert)),
        data.tree == Some(Result::<Vec<u8>, ()>::Ok(tree)),
        decoded_content(body, encoding_view(data.encoding)) is Some,
        validate_body_spec(
            cert@,
            tree@,
            sig_ok,
            canister,
            effective_tree_key(data.key, canister, request_path),
            sha256_of(decoded_content(body, encoding_view(data.encoding)).unwrap()),
        ) == Result::<bool, CertParseError>::Ok(false),
    ensures
        validate_spec(data, canister, request_path, sig_ok, body) == Result::<(
        ), ValidationError>::Err(ValidationError::Mismatch),
{
}

/// Law: a response carrying exactly one of certificate and tree always
/// fails validation, whatever the body.
pub proof fn lemma_lone_structure_fails(
    data: HeaderCertData,
    canister: Seq<u8>,
    request_path: Seq<u8>,
    sig_ok: bool,
    body: Seq<u8>,
)
    requires
        decoded_content(body, encoding_view(data.encoding)) is Some,
        (data.certificate is Some) != (data.tree is Some) || (data.certificate is Some
            && data.tree is Some && !(data.certificate matches Some(Ok(_)) && data.tree matches Some(
            Ok(_),
        ))),
    ensures
        validate_spec(data, canister, request_path, sig_ok, body) == Result::<(
        ), ValidationError>::Err(ValidationError::Mismatch),
{
}

/// Law: a response carrying neither certificate nor tree passes validation
/// unconditionally, provided its body decodes (legacy acceptance).
pub proof fn lemma_legacy_acceptance(
    data: HeaderCertData,
    canister: Seq<u8>,
    request_path: Seq<u8>,
    sig_ok: bool,
    body: Seq<u8>,
)
    requires
        data.certificate is None,
        data.tree is None,
        decoded_content(body, encoding_view(data.encoding)) is Some,
    ensures
        validate_spec(data, canister, request_path, sig_ok, body) == Result::<(
        ), ValidationError>::Ok(()),
{
}

} // verus!
