//! A verified parser for the small CBOR subset that certificates and hash
//! trees are encoded in: definite-length unsigned integers, byte strings,
//! text strings, arrays, maps, and the self-describing tag. Malformed input
//! is a parse failure, never a panic.

use vstd::prelude::*;

verus! {

/// Major type: unsigned integer.
pub const MAJOR_UINT: u8 = 0;

/// Major type: byte string.
pub const MAJOR_BYTES: u8 = 2;

/// Major type: text string.
pub const MAJOR_TEXT: u8 = 3;

/// Major type: array.
pub const MAJOR_ARRAY: u8 = 4;

/// Major type: map.
pub const MAJOR_MAP: u8 = 5;

/// Major type: tag.
pub const MAJOR_TAG: u8 = 6;

/// A decoded item header: major type, argument value, and the position just
/// past the header.
pub struct HeaderV {
    pub major: int,
    pub value: int,
    pub next: int,
}

/// A header parse result that keeps its cursor inside the input.
pub open spec fn header_ok(s: Seq<u8>, pos: int, h: HeaderV) -> bool {
    pos < h.next <= s.len() && 0 <= h.value && 0 <= h.major < 8
}

/// Parse one item header at `pos`: the major type from the initial byte's
/// high bits, the argument from its low bits or the following 1, 2, 4 or 8
/// bytes, big-endian. Indefinite lengths and reserved encodings fail.
pub open spec fn sp_header(s: Seq<u8>, pos: int) -> Option<HeaderV> {
    if 0 <= pos < s.len() {
        let major = (s[pos] / 32) as int;
        let info = (s[pos] % 32) as int;
        if info < 24 {
            Some(HeaderV { major: major, value: info, next: pos + 1 })
        } else if info == 24 && pos + 1 < s.len() {
            Some(HeaderV { major: major, value: s[pos + 1] as int, next: pos + 2 })
        } else if info == 25 && pos + 2 < s.len() {
            Some(HeaderV { major: major, value: s[pos + 1] * 256 + s[pos + 2], next: pos + 3 })
        } else if info == 26 && pos + 4 < s.len() {
            Some(
                HeaderV {
                    major: major,
                    value: ((s[pos + 1] * 256 + s[pos + 2]) * 256 + s[pos + 3]) * 256 + s[pos + 4],
                    next: pos + 5,
                },
            )
        } else if info == 27 && pos + 8 < s.len() {
            Some(
                HeaderV {
                    major: major,
                    value: ((((((s[pos + 1] * 256 + s[pos + 2]) * 256 + s[pos + 3]) * 256 + s[pos
                        + 4]) * 256 + s[pos + 5]) * 256 + s[pos + 6]) * 256 + s[pos + 7]) * 256
                        + s[pos + 8],
                    next: pos + 9,
                },
            )
        } else {
            None
        }
    } else {
        None
    }
}

/// A parsed header always advances and stays inside the input.
pub proof fn lemma_header_bounds(s: Seq<u8>, pos: int)
    ensures
        match sp_header(s, pos) {
            Some(h) => header_ok(s, pos, h),
            None => true,
        },
{
}

/// Parse a byte string (or, with `major` 3, a text string) at `pos`: its
/// content bytes and the position just past them.
pub open spec fn sp_string(s: Seq<u8>, pos: int, major: int) -> Option<(Seq<u8>, int)> {
    match sp_header(s, pos) {
        Some(h) => {
            if h.major == major && h.next + h.value <= s.len() {
                Some((s.subrange(h.next, h.next + h.value), h.next + h.value))
            } else {
                None
            }
        },
        None => None,
    }
}

/// Skip one item at `pos`, however nested, yielding the position just past
/// it; `None` when the input is malformed or an unsupported encoding.
pub open spec fn sp_skip_item(s: Seq<u8>, pos: int) -> Option<int>
    decreases s.len() - pos, 0int,
{
    match sp_header(s, pos) {
        Some(h) => {
            if header_ok(s, pos, h) {
                if h.major == MAJOR_UINT as int {
                    Some(h.next)
                } else if h.major == MAJOR_BYTES as int || h.major == MAJOR_TEXT as int {
                    if h.next + h.value <= s.len() {
                        Some(h.next + h.value)
                    } else {
                        None
                    }
                } else if h.major == MAJOR_ARRAY as int {
                    sp_skip_items(s, h.next, h.value)
                } else if h.major == MAJOR_MAP as int {
                    sp_skip_items(s, h.next, 2 * h.value)
                } else if h.major == MAJOR_TAG as int {
                    sp_skip_item(s, h.next)
                } else {
                    None
                }
            } else {
                None
            }
        },
        None => None,
    }
}

/// Skip `n` consecutive items starting at `pos`.
pub open spec fn sp_skip_items(s: Seq<u8>, pos: int, n: int) -> Option<int>
    decreases s.len() - pos, n + 1,
{
    if !(0 <= pos <= s.len()) {
        None
    } else if n <= 0 {
        Some(pos)
    } else {
        match sp_skip_item(s, pos) {
            Some(p) => {
                if pos < p <= s.len() {
                    sp_skip_items(s, p, n - 1)
                } else {
                    None
                }
            },
            None => None,
        }
    }
}

/// Skipping advances by at least one byte per item and stays inside the
/// input.
pub proof fn lemma_skip_item_bounds(s: Seq<u8>, pos: int)
    ensures
        match sp_skip_item(s, pos) {
            Some(p) => pos < p <= s.len(),
            None => true,
        },
    decreases s.len() - pos, 0int,
{
    match sp_header(s, pos) {
        Some(h) => {
            if header_ok(s, pos, h) {
                if h.major == MAJOR_ARRAY as int {
                    lemma_skip_items_bounds(s, h.next, h.value);
                } else if h.major == MAJOR_MAP as int {
                    lemma_skip_items_bounds(s, h.next, 2 * h.value);
                } else if h.major == MAJOR_TAG as int {
                    lemma_skip_item_bounds(s, h.next);
                }
            }
        },
        None => {},
    }
}

/// Skipping `n` items never moves backwards and stays inside the input.
pub proof fn lemma_skip_items_bounds(s: Seq<u8>, pos: int, n: int)
    ensures
        match sp_skip_items(s, pos, n) {
            Some(p) => pos <= p <= s.len(),
            None => true,
        },
    decreases s.len() - pos, n + 1,
{
    if 0 <= pos <= s.len() && n > 0 {
        lemma_skip_item_bounds(s, pos);
        match sp_skip_item(s, pos) {
            Some(p) => {
                if pos < p <= s.len() {
                    lemma_skip_items_bounds(s, p, n - 1);
                }
            },
            None => {},
        }
    }
}

/// Parse one item header, executable form.
pub fn parse_header(s: &[u8], pos: usize) -> (r: Option<(u8, u64, usize)>)
    ensures
        match r {
            Some(t) => sp_header(s@, pos as int) == Some(
                HeaderV { major: t.0 as int, value: t.1 as int, next: t.2 as int },
            ) && t.0 < 8 && pos < t.2 <= s@.len(),
            None => sp_header(s@, pos as int) is None,
        },
{
    let n: usize = s.len();
    if pos >= n {
        return None;
    }
    let major: u8 = s[pos] / 32;
    let info: u8 = s[pos] % 32;
    if info < 24 {
        Some((major, info as u64, pos + 1))
    } else if info == 24 && n - pos > 1 {
        Some((major, s[pos + 1] as u64, pos + 2))
    } else if info == 25 && n - pos > 2 {
        let v: u64 = (s[pos + 1] as u64) * 256 + (s[pos + 2] as u64);
        Some((major, v, pos + 3))
    } else if info == 26 && n - pos > 4 {
        let v: u64 = (((s[pos + 1] as u64) * 256 + (s[pos + 2] as u64)) * 256 + (s[pos
            + 3] as u64)) * 256 + (s[pos + 4] as u64);
        Some((major, v, pos + 5))
    } else if info == 27 && n - pos > 8 {
        let hi: u64 = (((s[pos + 1] as u64) * 256 + (s[pos + 2] as u64)) * 256 + (s[pos
            + 3] as u64)) * 256 + (s[pos + 4] as u64);
        let lo: u64 = (((s[pos + 5] as u64) * 256 + (s[pos + 6] as u64)) * 256 + (s[pos
            + 7] as u64)) * 256 + (s[pos + 8] as u64);
        let v: u64 = hi * 4294967296 + lo;
        Some((major, v, pos + 9))
    } else {
        None
    }
}

/// Parse a byte or text string, executable form.
pub fn parse_string(s: &[u8], pos: usize, major: u8) -> (r: Option<(Vec<u8>, usize)>)
    ensures
        match r {
            Some(t) => sp_string(s@, pos as int, major as int) == Some((t.0@, t.1 as int)) && pos
                < t.1 <= s@.len(),
            None => sp_string(s@, pos as int, major as int) is None,
        },
{
    match parse_header(s, pos) {
        Some((m, value, next)) => {
            let n: usize = s.len();
            if m == major && value <= (n - next) as u64 {
                let end: usize = next + (value as usize);
                let content = crate::bytes_util::bytes_subrange(s, next, end);
                Some((content, end))
            } else {
                None
            }
        },
        None => None,
    }
}

/// Skip one item, executable form.
pub fn skip_item(s: &[u8], pos: usize) -> (r: Option<usize>)
    ensures
        match r {
            Some(p) => sp_skip_item(s@, pos as int) == Some(p as int) && pos < p <= s@.len(),
            None => sp_skip_item(s@, pos as int) is None,
        },
    decreases s@.len() - pos, 0int,
{
    match parse_header(s, pos) {
        Some((m, value, next)) => {
            let n: usize = s.len();
            if m == MAJOR_UINT {
                Some(next)
            } else if m == MAJOR_BYTES || m == MAJOR_TEXT {
                if value <= (n - next) as u64 {
                    Some(next + (value as usize))
                } else {
                    None
                }
            } else if m == MAJOR_ARRAY {
                skip_items(s, next, value)
            } else if m == MAJOR_MAP {
                if value <= 9223372036854775807 {
                    skip_items(s, next, 2 * value)
                } else {
                    proof {
                        lemma_skip_items_overrun(s@, next as int, 2 * (value as int));
                    }
                    None
                }
            } else if m == MAJOR_TAG {
                skip_item(s, next)
            } else {
                None
            }
        },
        None => None,
    }
}

/// Skipping more items than there are bytes left must fail.
proof fn lemma_skip_items_overrun(s: Seq<u8>, pos: int, n: int)
    requires
        n > s.len() - pos,
    ensures
        sp_skip_items(s, pos, n) is None,
    decreases s.len() - pos, n + 1,
{
    if 0 <= pos <= s.len() && n > 0 {
        lemma_skip_item_bounds(s, pos);
        match sp_skip_item(s, pos) {
            Some(p) => {
                if pos < p <= s.len() {
                    lemma_skip_items_overrun(s, p, n - 1);
                }
            },
            None => {},
        }
    }
}

/// Skip `n` consecutive items, executable form.
pub fn skip_items(s: &[u8], pos: usize, n: u64) -> (r: Option<usize>)
    requires
        pos <= s@.len(),
    ensures
        match r {
            Some(p) => sp_skip_items(s@, pos as int, n as int) == Some(p as int) && pos <= p
                <= s@.len(),
            None => sp_skip_items(s@, pos as int, n as int) is None,
        },
    decreases s@.len() - pos, n + 1,
{
    if n == 0 {
        return Some(pos);
    }
    match skip_item(s, pos) {
        Some(p) => skip_items(s, p, n - 1),
        None => None,
    }
}

} // verus!
