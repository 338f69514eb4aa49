//! The URL-path grammar of the gateway. A request path addresses a canister
//! as `/-/<locator>/-/<rest...>`: a leading divider segment (a single dash),
//! then the locator (an identity text or a name), then a second divider,
//! then the remainder that is presented, prefixed with the divider and with
//! the query string appended, to the canister's own HTTP entry point.
//! A path missing either divider, or with nothing after the second one, is
//! unresolved.

use vstd::prelude::*;

use crate::bytes_util::{find_byte, find_byte_at, lemma_find_byte, lemma_find_byte_at_index};

verus! {

/// The byte `'/'`.
pub const SLASH_BYTE: u8 = 47;

/// The byte `'-'`, the divider segment.
pub const DASH_BYTE: u8 = 45;

/// The byte `'?'`, which introduces a query string.
pub const QMARK_BYTE: u8 = 63;

/// `pat` occurs in `s` at offset `i`.
pub open spec fn has_sub_at(s: Seq<u8>, pat: Seq<u8>, i: int) -> bool {
    0 <= i && i + pat.len() <= s.len() && s.subrange(i, i + pat.len()) == pat
}

/// `pat` occurs somewhere in `s`.
pub open spec fn has_sub(s: Seq<u8>, pat: Seq<u8>) -> bool {
    exists|i: int| has_sub_at(s, pat, i)
}

/// The bypass marker `_raw`.
pub open spec fn raw_marker() -> Seq<u8> {
    seq![95u8, 114u8, 97u8, 119u8]
}

/// Does `pat` occur in `s` at offset `i`? Executable form.
fn sub_at(s: &[u8], pat: &[u8], i: usize) -> (r: bool)
    requires
        i + pat@.len() <= s@.len(),
    ensures
        r == has_sub_at(s@, pat@, i as int),
{
    let m: usize = pat.len();
    let n: usize = s.len();
    assert(i + m <= n);
    for j in 0..m
        invariant
            m == pat@.len(),
            n == s@.len(),
            i + m <= n,
            forall|k: int| 0 <= k < j ==> s@[i + k] == pat@[k],
    {
        if s[i + j] != pat[j] {
            assert(s@.subrange(i as int, i + m)[j as int] != pat@[j as int]);
            return false;
        }
    }
    proof {
        assert(s@.subrange(i as int, i + m) =~= pat@);
    }
    true
}

/// Does `pat` occur anywhere in `s`? Executable form.
pub fn contains_bytes(s: &[u8], pat: &[u8]) -> (r: bool)
    ensures
        r == has_sub(s@, pat@),
{
    let n: usize = s.len();
    let m: usize = pat.len();
    if m == 0 {
        assert(has_sub_at(s@, pat@, 0)) by {
            assert(s@.subrange(0, 0) =~= pat@);
        }
        return true;
    }
    if m > n {
        assert(forall|i: int| !has_sub_at(s@, pat@, i));
        return false;
    }
    for i in 0..n
        invariant
            n == s@.len() && m == pat@.len() && 0 < m <= n,
            forall|k: int| 0 <= k < i ==> !has_sub_at(s@, pat@, k),
    {
        if m <= n - i {
            if sub_at(s, pat, i) {
                return true;
            }
        } else {
            assert(!has_sub_at(s@, pat@, i as int));
        }
    }
    assert(forall|k: int| k >= n ==> !has_sub_at(s@, pat@, k));
    false
}

/// Verification is skipped exactly when the query string carries the `_raw`
/// marker anywhere in it: an explicit, caller-visible trust downgrade.
pub fn skip_validation(query: Option<&[u8]>) -> (r: bool)
    ensures
        r == match query {
            Some(q) => has_sub(q@, raw_marker()),
            None => false,
        },
{
    match query {
        Some(q) => {
            let pat: [u8; 4] = [95, 114, 97, 119];
            let r = contains_bytes(q, pat.as_slice());
            proof {
                assert(pat@ =~= raw_marker());
            }
            r
        },
        None => false,
    }
}

/// Index just past the locator: the first `/` at or after index 3, or the
/// end of the path.
pub open spec fn locator_end(path: Seq<u8>) -> int {
    match find_byte(path.skip(3), SLASH_BYTE) {
        Some(i) => 3 + i,
        None => path.len() as int,
    }
}

/// The query string appended to a rewritten path, `?` included.
pub open spec fn query_suffix(query: Option<Seq<u8>>) -> Seq<u8> {
    match query {
        Some(q) => seq![QMARK_BYTE] + q,
        None => Seq::<u8>::empty(),
    }
}

/// What a request path parses to: the locator and the rewritten upstream
/// path, or `None` when the path does not fit the grammar.
pub open spec fn parsed_target(path: Seq<u8>, query: Option<Seq<u8>>) -> Option<(Seq<u8>, Seq<u8>)> {
    if path.len() >= 3 && path[0] == SLASH_BYTE && path[1] == DASH_BYTE && path[2] == SLASH_BYTE {
        let d = locator_end(path);
        if d + 2 < path.len() && path[d + 1] == DASH_BYTE && path[d + 2] == SLASH_BYTE {
            Some(
                (
                    path.subrange(3, d),
                    seq![SLASH_BYTE, DASH_BYTE] + path.skip(d + 2) + query_suffix(query),
                ),
            )
        } else {
            None
        }
    } else {
        None
    }
}

/// Parse a request path into the locator and the rewritten upstream path.
/// The remainder after the second divider and the query string are carried
/// over verbatim.
pub fn parse_target_path(path: &[u8], query: Option<&[u8]>) -> (r: Option<(Vec<u8>, Vec<u8>)>)
    ensures
        match r {
            Some(p) => parsed_target(path@, opt_view(query)) == Some((p.0@, p.1@)),
            None => parsed_target(path@, opt_view(query)) is None,
        },
{
    let n: usize = path.len();
    if n < 3 || path[0] != SLASH_BYTE || path[1] != DASH_BYTE || path[2] != SLASH_BYTE {
        return None;
    }
    let tail: &[u8] = &path[3..n];
    proof {
        assert(tail@ =~= path@.skip(3));
    }
    let d: usize = match find_byte_at(tail, SLASH_BYTE) {
        Some(i) => {
            proof {
                lemma_find_byte(tail@, SLASH_BYTE);
            }
            3 + i
        },
        None => n,
    };
    assert(d == locator_end(path@));
    assert(3 <= d <= n);
    if d >= n - 2 || path[d + 1] != DASH_BYTE || path[d + 2] != SLASH_BYTE {
        return None;
    }
    assert(d + 2 < n);
    let locator = crate::bytes_util::bytes_subrange(path, 3, d);
    let mut rewritten: Vec<u8> = Vec::new();
    rewritten.push(SLASH_BYTE);
    rewritten.push(DASH_BYTE);
    let rest: &[u8] = &path[d + 2..n];
    rewritten.extend_from_slice(rest);
    match query {
        Some(q) => {
            rewritten.push(QMARK_BYTE);
            rewritten.extend_from_slice(q);
            proof {
                assert(rewritten@ =~= seq![SLASH_BYTE, DASH_BYTE] + path@.skip(d + 2)
                    + query_suffix(opt_view(query)));
            }
        },
        None => {
            proof {
                assert(rewritten@ =~= seq![SLASH_BYTE, DASH_BYTE] + path@.skip(d + 2)
                    + query_suffix(opt_view(query)));
            }
        },
    }
    Some((locator, rewritten))
}

/// View of an optional byte slice as an optional byte sequence.
pub open spec fn opt_view(q: Option<&[u8]>) -> Option<Seq<u8>> {
    match q {
        Some(s) => Some(s@),
        None => None,
    }
}

/// Law: a path `/-/<locator>/-<rest>` (the remainder `rest` beginning with
/// `/`) parses to the locator and to the rewritten upstream path
/// `/-<rest><query-suffix>`, the remainder segments and the query string
/// preserved verbatim; a literal identity text and an alias name in locator
/// position parse identically.
pub proof fn lemma_parse_target_round(locator: Seq<u8>, rest: Seq<u8>, query: Option<Seq<u8>>)
    requires
        forall|j: int| 0 <= j < locator.len() ==> locator[j] != SLASH_BYTE,
        rest.len() > 0,
        rest[0] == SLASH_BYTE,
    ensures
        parsed_target(seq![SLASH_BYTE, DASH_BYTE, SLASH_BYTE] + locator + seq![SLASH_BYTE, DASH_BYTE] + rest, query)
            == Some((locator, seq![SLASH_BYTE, DASH_BYTE] + rest + query_suffix(query))),
{
    let path = seq![SLASH_BYTE, DASH_BYTE, SLASH_BYTE] + locator + seq![SLASH_BYTE, DASH_BYTE]
        + rest;
    let k = locator.len() as int;
    assert(path.skip(3)[k] == SLASH_BYTE);
    assert forall|j: int| 0 <= j < k implies path.skip(3)[j] != SLASH_BYTE by {
        assert(path.skip(3)[j] == locator[j]);
    }
    lemma_find_byte_at_index(path.skip(3), SLASH_BYTE, k);
    let d = locator_end(path);
    assert(d == 3 + k);
    assert(path[d + 1] == DASH_BYTE);
    assert(path[d + 2] == rest[0]);
    assert(path.subrange(3, d) =~= locator);
    assert(path.skip(d + 2) =~= rest);
}

/// Law: a path that does not open with the divider segment (`/-/...`) never
/// resolves.
pub proof fn lemma_no_leading_divider(path: Seq<u8>, query: Option<Seq<u8>>)
    requires
        path.len() < 3 || path[0] != SLASH_BYTE || path[1] != DASH_BYTE || path[2] != SLASH_BYTE,
    ensures
        parsed_target(path, query) is None,
{
}

/// Law: a path whose locator is not immediately followed by a divider
/// segment and a non-empty remainder never resolves.
pub proof fn lemma_no_second_divider(path: Seq<u8>, query: Option<Seq<u8>>)
    requires
        locator_end(path) + 2 >= path.len() || path[locator_end(path) + 1] != DASH_BYTE
            || path[locator_end(path) + 2] != SLASH_BYTE,
    ensures
        parsed_target(path, query) is None,
{
}

} // verus!
