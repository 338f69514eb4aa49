//! Verified core of an HTTP gateway for canisters: resolution of a URL path
//! to a target canister identity through a layered rule/cache/registry
//! fallback, a request-forwarding decision machine, and validation of
//! certified response bodies against certificates and hash trees.

pub mod bytes_util;
pub mod cbor;
pub mod codec;
pub mod digest;
pub mod forward;
pub mod hash_tree;
pub mod headers;
pub mod identity;
pub mod path;
pub mod resolve;
pub mod rules;
pub mod validate;
