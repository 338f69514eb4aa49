//! Extraction of certification material from a response's headers. The
//! composite `ic-certificate` header carries comma-separated
//! `certificate=<base64>` and `tree=<base64>` fields; the first value that
//! decodes wins and duplicates are tolerated. A separate `content-encoding`
//! header announces the body's encoding. Header names match
//! case-insensitively.

use vstd::prelude::*;

use crate::bytes_util::{bytes_subrange, find_byte, find_byte_at, lower, to_lower, slices_equal};
use crate::identity::opt_bytes_view;
use crate::validate::{base64_decode_of, HeaderCertData};

verus! {

/// The space byte, the one padding trimmed around field names and values.
pub const SPACE_BYTE: u8 = 32;

/// The byte `','`, separating fields of the composite header.
pub const COMMA_BYTE: u8 = 44;

/// The byte `'='`, separating a field's name from its value.
pub const EQUALS_BYTE: u8 = 61;

/// `s` with leading spaces removed.
pub open spec fn trim_start(s: Seq<u8>) -> Seq<u8>
    decreases s.len(),
{
    if s.len() > 0 && s[0] == SPACE_BYTE {
        trim_start(s.skip(1))
    } else {
        s
    }
}

/// `s` with trailing spaces removed.
pub open spec fn trim_end(s: Seq<u8>) -> Seq<u8>
    decreases s.len(),
{
    if s.len() > 0 && s[s.len() - 1] == SPACE_BYTE {
        trim_end(s.take(s.len() - 1))
    } else {
        s
    }
}

/// `s` with surrounding spaces removed.
pub open spec fn trimmed(s: Seq<u8>) -> Seq<u8> {
    trim_end(trim_start(s))
}

proof fn lemma_trim_start_at(s: Seq<u8>, a: int)
    requires
        0 <= a <= s.len(),
        forall|j: int| 0 <= j < a ==> s[j] == SPACE_BYTE,
        a < s.len() ==> s[a] != SPACE_BYTE,
    ensures
        trim_start(s) == s.skip(a),
    decreases a,
{
    if a == 0 {
        assert(s.skip(0) =~= s);
    } else {
        assert(s[0] == SPACE_BYTE);
        assert forall|j: int| 0 <= j < a - 1 implies s.skip(1)[j] == SPACE_BYTE by {
            assert(s.skip(1)[j] == s[j + 1]);
        }
        if a - 1 < s.skip(1).len() {
            assert(s.skip(1)[a - 1] == s[a]);
        }
        lemma_trim_start_at(s.skip(1), a - 1);
        assert(s.skip(1).skip(a - 1) =~= s.skip(a));
    }
}

proof fn lemma_trim_end_at(s: Seq<u8>, b: int)
    requires
        0 <= b <= s.len(),
        forall|j: int| b <= j < s.len() ==> s[j] == SPACE_BYTE,
        b > 0 ==> s[b - 1] != SPACE_BYTE,
    ensures
        trim_end(s) == s.take(b),
    decreases s.len(),
{
    if b < s.len() {
        assert(s[s.len() - 1] == SPACE_BYTE);
        let t = s.take(s.len() - 1);
        assert forall|j: int| b <= j < t.len() implies t[j] == SPACE_BYTE by {
            assert(t[j] == s[j]);
        }
        if b > 0 {
            assert(t[b - 1] == s[b - 1]);
        }
        lemma_trim_end_at(t, b);
        assert(t.take(b) =~= s.take(b));
    } else {
        assert(s.take(b) =~= s);
    }
}

/// Trim surrounding spaces, executable form.
pub fn trim_bytes(s: &[u8]) -> (r: Vec<u8>)
    ensures
        r@ == trimmed(s@),
{
    let n: usize = s.len();
    let mut a: usize = 0;
    while a < n && s[a] == SPACE_BYTE
        invariant
            0 <= a <= n && n == s@.len(),
            forall|j: int| 0 <= j < a ==> s@[j] == SPACE_BYTE,
        decreases n - a,
    {
        a = a + 1;
    }
    proof {
        lemma_trim_start_at(s@, a as int);
    }
    if a == n {
        proof {
            assert(s@.skip(n as int) =~= Seq::<u8>::empty());
        }
        let r: Vec<u8> = Vec::new();
        proof {
            assert(r@ =~= trimmed(s@));
        }
        return r;
    }
    let mut b: usize = n;
    while b > a && s[b - 1] == SPACE_BYTE
        invariant
            a <= b <= n && n == s@.len(),
            forall|j: int| b <= j < n ==> s@[j] == SPACE_BYTE,
        decreases b,
    {
        b = b - 1;
    }
    proof {
        assert(s@[a as int] != SPACE_BYTE);
        assert(b > a);
        let t = s@.skip(a as int);
        assert forall|j: int| b - a <= j < t.len() implies t[j] == SPACE_BYTE by {
            assert(t[j] == s@[j + a]);
        }
        assert(t[b - a - 1] == s@[b - 1]);
        lemma_trim_end_at(t, b - a);
        assert(t.take(b - a) =~= s@.subrange(a as int, b as int));
    }
    bytes_subrange(s, a, b)
}

/// One certificate or tree slot as the fold over header fields fills it:
/// the first value that decodes wins; a later field never displaces it, and
/// a field that fails to decode leaves a failure marker only while no valid
/// value has arrived.
pub open spec fn merge_field(
    cur: Option<Result<Seq<u8>, ()>>,
    decoded: Option<Seq<u8>>,
) -> Option<Result<Seq<u8>, ()>> {
    match cur {
        Some(Ok(v)) => Some(Ok(v)),
        _ => match decoded {
            Some(b) => Some(Ok(b)),
            None => Some(Err(())),
        },
    }
}

/// The two slots the composite header fills.
pub struct CertSlots {
    pub cert: Option<Result<Seq<u8>, ()>>,
    pub tree: Option<Result<Seq<u8>, ()>>,
}

/// The field name `certificate`.
pub open spec fn certificate_name() -> Seq<u8> {
    seq![99u8, 101u8, 114u8, 116u8, 105u8, 102u8, 105u8, 99u8, 97u8, 116u8, 101u8]
}

/// Apply one `name=value` field of the composite header to the slots.
pub open spec fn apply_field(acc: CertSlots, field: Seq<u8>) -> CertSlots {
    match find_byte(field, EQUALS_BYTE) {
        Some(e) => {
            let name = trimmed(field.take(e));
            let value = trimmed(field.skip(e + 1));
            if name == certificate_name() {
                CertSlots { cert: merge_field(acc.cert, base64_decode_of(value)), tree: acc.tree }
            } else if name == crate::hash_tree::tree_key() {
                CertSlots { cert: acc.cert, tree: merge_field(acc.tree, base64_decode_of(value)) }
            } else {
                acc
            }
        },
        None => acc,
    }
}

/// Fold a composite header's comma-separated fields into the slots, left to
/// right.
pub open spec fn fold_fields(value: Seq<u8>, acc: CertSlots) -> CertSlots
    decreases value.len(),
{
    match find_byte(value, COMMA_BYTE) {
        Some(c) => {
            if 0 <= c < value.len() {
                fold_fields(value.skip(c + 1), apply_field(acc, value.take(c)))
            } else {
                acc
            }
        },
        None => apply_field(acc, value),
    }
}

/// The header name `ic-certificate`.
pub open spec fn ic_certificate_header() -> Seq<u8> {
    seq![105u8, 99u8, 45u8, 99u8, 101u8, 114u8, 116u8, 105u8, 102u8, 105u8, 99u8, 97u8, 116u8, 101u8]
}

/// The header name `content-encoding`.
pub open spec fn content_encoding_header() -> Seq<u8> {
    seq![99u8, 111u8, 110u8, 116u8, 101u8, 110u8, 116u8, 45u8, 101u8, 110u8, 99u8, 111u8, 100u8, 105u8, 110u8, 103u8]
}

/// Walk the response headers from the `i`-th on: every `ic-certificate`
/// header's fields are folded into the slots, and the first
/// `content-encoding` header (trimmed) is the announced encoding.
pub open spec fn scan_headers(
    headers: Seq<(Vec<u8>, Vec<u8>)>,
    i: int,
    acc: CertSlots,
    enc: Option<Seq<u8>>,
) -> (CertSlots, Option<Seq<u8>>)
    decreases headers.len() - i,
{
    if i < 0 || i >= headers.len() {
        (acc, enc)
    } else {
        let name = lower(headers[i].0@);
        if name == ic_certificate_header() {
            scan_headers(headers, i + 1, fold_fields(headers[i].1@, acc), enc)
        } else if name == content_encoding_header() && enc is None {
            scan_headers(headers, i + 1, acc, Some(trimmed(headers[i].1@)))
        } else {
            scan_headers(headers, i + 1, acc, enc)
        }
    }
}

/// View of one certificate or tree slot.
pub open spec fn slot_view(x: Option<Result<Vec<u8>, ()>>) -> Option<Result<Seq<u8>, ()>> {
    match x {
        Some(Ok(v)) => Some(Ok(v@)),
        Some(Err(e)) => Some(Err(e)),
        None => None,
    }
}

/// Merge a decoded field value into a slot, executable form.
fn merge_slot(cur: &mut Option<Result<Vec<u8>, ()>>, decoded: Option<Vec<u8>>)
    ensures
        slot_view(*final(cur)) == merge_field(slot_view(*old(cur)), opt_bytes_view(decoded)),
{
    let taken = match cur {
        Some(Ok(_)) => true,
        _ => false,
    };
    if !taken {
        match decoded {
            Some(b) => {
                *cur = Some(Ok(b));
            },
            None => {
                *cur = Some(Err(()));
            },
        }
    }
}

/// Extract the certification material from a response's headers. The tree
/// key is never set here: for a whole body it comes from the request path,
/// and only a streamed chunk's continuation token overrides it.
pub fn extract_header_cert_data(headers: &Vec<(Vec<u8>, Vec<u8>)>) -> (r: HeaderCertData)
    ensures
        ({
            let folded = scan_headers(
                headers@,
                0,
                CertSlots { cert: None, tree: None },
                None,
            );
            &&& slot_view(r.certificate) == folded.0.cert
            &&& slot_view(r.tree) == folded.0.tree
            &&& match r.encoding {
                Some(e) => folded.1 == Some(e@),
                None => folded.1 is None,
            }
            &&& r.key is None
        }),
{
    let mut cert: Option<Result<Vec<u8>, ()>> = None;
    let mut tree: Option<Result<Vec<u8>, ()>> = None;
    let mut encoding: Option<Vec<u8>> = None;
    let n: usize = headers.len();
    let ghost acc0 = CertSlots { cert: None, tree: None };
    for i in 0..n
        invariant
            n == headers@.len(),
            scan_headers(headers@, 0, acc0, None) == scan_headers(
                headers@,
                i as int,
                CertSlots { cert: slot_view(cert), tree: slot_view(tree) },
                match encoding {
                    Some(e) => Some(e@),
                    None => None,
                },
            ),
    {
        let name = to_lower(headers[i].0.as_slice());
        let ic_cert: [u8; 14] = [105, 99, 45, 99, 101, 114, 116, 105, 102, 105, 99, 97, 116, 101];
        let cont_enc: [u8; 16] = [99, 111, 110, 116, 101, 110, 116, 45, 101, 110, 99, 111, 100,
            105, 110, 103];
        proof {
            assert(ic_cert@ =~= ic_certificate_header());
            assert(cont_enc@ =~= content_encoding_header());
        }
        if slices_equal(name.as_slice(), ic_cert.as_slice()) {
            fold_header_fields(headers[i].1.as_slice(), &mut cert, &mut tree);
        } else if slices_equal(name.as_slice(), cont_enc.as_slice()) {
            if matches!(encoding, None) {
                encoding = Some(trim_bytes(headers[i].1.as_slice()));
            }
        }
    }
    HeaderCertData { certificate: cert, tree: tree, encoding, key: None }
}

/// Fold one composite header value into the slots, executable form.
#[verifier::loop_isolation(false)]
fn fold_header_fields(
    value: &[u8],
    cert: &mut Option<Result<Vec<u8>, ()>>,
    tree: &mut Option<Result<Vec<u8>, ()>>,
)
    ensures
        ({
            let folded = fold_fields(
                value@,
                CertSlots { cert: slot_view(*old(cert)), tree: slot_view(*old(tree)) },
            );
            slot_view(*final(cert)) == folded.cert && slot_view(*final(tree)) == folded.tree
        }),
{
    let n: usize = value.len();
    let mut pos: usize = 0;
    let ghost acc0 = CertSlots { cert: slot_view(*cert), tree: slot_view(*tree) };
    proof {
        assert(value@.skip(0) =~= value@);
    }
    loop
        invariant
            0 <= pos <= n && n == value@.len(),
            fold_fields(value@, acc0) == fold_fields(
                value@.skip(pos as int),
                CertSlots { cert: slot_view(*cert), tree: slot_view(*tree) },
            ),
        decreases n - pos,
    {
        let tail: &[u8] = &value[pos..n];
        proof {
            assert(tail@ =~= value@.skip(pos as int));
        }
        match find_byte_at(tail, COMMA_BYTE) {
            Some(c) => {
                proof {
                    crate::bytes_util::lemma_find_byte(tail@, COMMA_BYTE);
                }
                let field = bytes_subrange(tail, 0, c);
                proof {
                    assert(field@ =~= tail@.take(c as int));
                }
                apply_field_exec(field.as_slice(), cert, tree);
                proof {
                    assert(tail@.skip(c + 1) =~= value@.skip(pos + c + 1));
                }
                pos = pos + c + 1;
            },
            None => {
                apply_field_exec(tail, cert, tree);
                return ;
            },
        }
    }
}

/// Apply one `name=value` field, executable form.
fn apply_field_exec(
    field: &[u8],
    cert: &mut Option<Result<Vec<u8>, ()>>,
    tree: &mut Option<Result<Vec<u8>, ()>>,
)
    ensures
        ({
            let applied = apply_field(
                CertSlots { cert: slot_view(*old(cert)), tree: slot_view(*old(tree)) },
                field@,
            );
            slot_view(*final(cert)) == applied.cert && slot_view(*final(tree)) == applied.tree
        }),
{
    match find_byte_at(field, EQUALS_BYTE) {
        Some(e) => {
            proof {
                crate::bytes_util::lemma_find_byte(field@, EQUALS_BYTE);
            }
            let n: usize = field.len();
            let name_part = bytes_subrange(field, 0, e);
            let value_part = bytes_subrange(field, e + 1, n);
            proof {
                assert(name_part@ =~= field@.take(e as int));
                assert(value_part@ =~= field@.skip(e + 1));
            }
            let name = trim_bytes(name_part.as_slice());
            let value = trim_bytes(value_part.as_slice());
            let cert_name: [u8; 11] = [99, 101, 114, 116, 105, 102, 105, 99, 97, 116, 101];
            let tree_name: [u8; 4] = [116, 114, 101, 101];
            proof {
                assert(cert_name@ =~= certificate_name());
                assert(tree_name@ =~= crate::hash_tree::tree_key());
            }
            if slices_equal(name.as_slice(), cert_name.as_slice()) {
                let decoded = crate::validate::b64_decode(value.as_slice());
                merge_slot(cert, decoded);
            } else if slices_equal(name.as_slice(), tree_name.as_slice()) {
                let decoded = crate::validate::b64_decode(value.as_slice());
                merge_slot(tree, decoded);
            }
        },
        None => {},
    }
}

} // verus!
