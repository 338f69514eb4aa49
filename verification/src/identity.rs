//! Canister identities: opaque fixed-format binary values with a canonical
//! checksummed text encoding. The binary form is held as plain bytes; the
//! text codec is provided by the `candid` crate behind trusted wrappers.

use vstd::prelude::*;

verus! {

/// Maximum number of significant bytes in a canister identity.
pub const MAX_IDENTITY_LEN: usize = 29;

/// The bytes an identity's canonical text form decodes to, or `None` when
/// the text is not a well-formed identity encoding.
pub uninterp spec fn identity_of_text(s: Seq<u8>) -> Option<Seq<u8>>;

/// The canonical text encoding of an identity's bytes.
pub uninterp spec fn text_of_identity(b: Seq<u8>) -> Seq<u8>;

/// View of an optional byte vector as an optional byte sequence.
pub open spec fn opt_bytes_view(r: Option<Vec<u8>>) -> Option<Seq<u8>> {
    match r {
        Some(v) => Some(v@),
        None => None,
    }
}

/// Relies on `candid::Principal::from_text`: parsing the canonical
/// checksummed text form is a function of the text alone, and any value it
/// accepts holds at most 29 bytes.
#[verifier::external_body]
fn decode_identity_text(s: &[u8]) -> (r: Option<Vec<u8>>)
    ensures
        opt_bytes_view(r) == identity_of_text(s@),
        r is Some ==> r.unwrap()@.len() <= 29,
{
    match core::str::from_utf8(s) {
        Ok(text) => match candid::Principal::from_text(text) {
            Ok(p) => Some(p.as_slice().to_vec()),
            Err(_) => None,
        },
        Err(_) => None,
    }
}

/// Relies on `candid::Principal::to_text` (with `Principal::from_slice` as
/// the converting constructor): the canonical text form is a function of the
/// bytes alone, and `Principal::from_text` accepts it back unchanged.
#[verifier::external_body]
fn encode_identity_text(b: &[u8]) -> (r: Vec<u8>)
    requires
        b@.len() <= 29,
    ensures
        r@ == text_of_identity(b@),
        identity_of_text(r@) == Some(b@),
{
    candid::Principal::from_slice(b).to_text().into_bytes()
}

/// A canister identity. Equality is byte-wise; the value is used both as a
/// routing key and as the target of remote calls.
#[derive(Debug, PartialEq, Eq, Hash)]
pub struct Identity {
    bytes: Vec<u8>,
}

impl Clone for Identity {
    fn clone(&self) -> (r: Self)
        ensures
            r@ == self@,
    {
        let bytes = self.bytes.clone();
        proof {
            assert forall|i: int| 0 <= i < self.bytes@.len() implies bytes@[i]
                == self.bytes@[i] by {}
            assert(bytes@ =~= self.bytes@);
        }
        Identity { bytes }
    }
}

impl View for Identity {
    type V = Seq<u8>;

    closed spec fn view(&self) -> Seq<u8> {
        self.bytes@
    }
}

impl Identity {
    /// Every identity holds at most `MAX_IDENTITY_LEN` significant bytes.
    pub open spec fn wf(&self) -> bool {
        self@.len() <= MAX_IDENTITY_LEN
    }

    /// Build an identity from its binary form; rejects oversized input.
    pub fn from_bytes(bytes: Vec<u8>) -> (r: Option<Identity>)
        ensures
            bytes@.len() <= MAX_IDENTITY_LEN ==> (r is Some && r.unwrap()@ == bytes@
                && r.unwrap().wf()),
            bytes@.len() > MAX_IDENTITY_LEN ==> r is None,
    {
        if bytes.len() <= MAX_IDENTITY_LEN {
            Some(Identity { bytes })
        } else {
            None
        }
    }

    /// Decode an identity from its canonical text form.
    pub fn from_text(text: &[u8]) -> (r: Option<Identity>)
        ensures
            match r {
                Some(id) => identity_of_text(text@) == Some(id@) && id.wf(),
                None => identity_of_text(text@) is None,
            },
    {
        match decode_identity_text(text) {
            Some(bytes) => Some(Identity { bytes }),
            None => None,
        }
    }

    /// The canonical text form of this identity.
    pub fn to_text(&self) -> (r: Vec<u8>)
        requires
            self.wf(),
        ensures
            r@ == text_of_identity(self@),
            identity_of_text(r@) == Some(self@),
    {
        encode_identity_text(self.bytes.as_slice())
    }

    /// The identity's significant bytes.
    pub fn as_bytes(&self) -> (r: &Vec<u8>)
        ensures
            r@ == self@,
    {
        &self.bytes
    }

    /// Byte-wise equality test, usable from verified code.
    pub fn same(&self, other: &Identity) -> (r: bool)
        ensures
            r == (self@ == other@),
    {
        byte_vecs_equal(&self.bytes, &other.bytes)
    }
}

/// Byte-wise equality of two byte vectors.
pub fn byte_vecs_equal(a: &Vec<u8>, b: &Vec<u8>) -> (r: bool)
    ensures
        r == (a@ == b@),
{
    if a.len() != b.len() {
        assert(a@ != b@);
        return false;
    }
    let n: usize = a.len();
    for i in 0..n
        invariant
            n == a@.len() && n == b@.len(),
            forall|j: int| 0 <= j < i ==> a@[j] == b@[j],
    {
        if a[i] != b[i] {
            return false;
        }
    }
    proof {
        assert(a@ =~= b@);
    }
    true
}

} // verus!
