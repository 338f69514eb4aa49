//! Labeled Merkle hash trees and the certificates that assert their root
//! digests. Both arrive as CBOR: a tree node is an array tagged 0 (empty),
//! 1 (fork), 2 (labeled), 3 (leaf) or 4 (pruned); a certificate is a map
//! holding its tree under the text key `tree`. Parsing, root-digest
//! computation and path lookup are verified; the digest of a byte sequence
//! itself is SHA-256 behind the trusted hasher.

use vstd::prelude::*;

use crate::bytes_util::{clone_bytes, slices_equal};
use crate::cbor::{
    header_ok, parse_header, parse_string, skip_item, sp_header, sp_skip_item, sp_string,
    MAJOR_ARRAY, MAJOR_BYTES, MAJOR_MAP, MAJOR_TAG, MAJOR_TEXT, MAJOR_UINT,
};
use crate::digest::{hasher_fed, sha256_of, Sha256Hasher};

verus! {

/// The self-describing CBOR tag that may precede a certificate.
pub const SELF_DESCRIBED_TAG: u64 = 55799;

/// Mathematical model of a hash tree.
pub enum TreeV {
    Empty,
    Fork(Box<TreeV>, Box<TreeV>),
    Labeled(Seq<u8>, Box<TreeV>),
    Leaf(Seq<u8>),
    Pruned(Seq<u8>),
}

/// A hash tree.
pub enum HashTree {
    Empty,
    Fork(Box<HashTree>, Box<HashTree>),
    Labeled(Vec<u8>, Box<HashTree>),
    Leaf(Vec<u8>),
    Pruned(Vec<u8>),
}

/// Model of a hash tree value.
pub open spec fn tree_view(t: HashTree) -> TreeV
    decreases t,
{
    match t {
        HashTree::Empty => TreeV::Empty,
        HashTree::Fork(l, r) => TreeV::Fork(Box::new(tree_view(*l)), Box::new(tree_view(*r))),
        HashTree::Labeled(lbl, sub) => TreeV::Labeled(lbl@, Box::new(tree_view(*sub))),
        HashTree::Leaf(v) => TreeV::Leaf(v@),
        HashTree::Pruned(h) => TreeV::Pruned(h@),
    }
}

impl View for HashTree {
    type V = TreeV;

    open spec fn view(&self) -> TreeV {
        tree_view(*self)
    }
}

/// Domain separator hashed before an empty node.
pub open spec fn sep_empty() -> Seq<u8> {
    seq![17u8, 105u8, 99u8, 45u8, 104u8, 97u8, 115u8, 104u8, 116u8, 114u8, 101u8, 101u8, 45u8, 101u8, 109u8, 112u8, 116u8, 121u8]
}

/// Domain separator hashed before a fork's child digests.
pub open spec fn sep_fork() -> Seq<u8> {
    seq![16u8, 105u8, 99u8, 45u8, 104u8, 97u8, 115u8, 104u8, 116u8, 114u8, 101u8, 101u8, 45u8, 102u8, 111u8, 114u8, 107u8]
}

/// Domain separator hashed before a labeled node's label and child digest.
pub open spec fn sep_labeled() -> Seq<u8> {
    seq![19u8, 105u8, 99u8, 45u8, 104u8, 97u8, 115u8, 104u8, 116u8, 114u8, 101u8, 101u8, 45u8, 108u8, 97u8, 98u8, 101u8, 108u8, 101u8, 100u8]
}

/// Domain separator hashed before a leaf's content.
pub open spec fn sep_leaf() -> Seq<u8> {
    seq![16u8, 105u8, 99u8, 45u8, 104u8, 97u8, 115u8, 104u8, 116u8, 114u8, 101u8, 101u8, 45u8, 108u8, 101u8, 97u8, 102u8]
}

/// The root digest of a hash tree: each node hashes its domain separator
/// and contents; a pruned node stands for its recorded digest.
pub open spec fn tree_digest(t: TreeV) -> Seq<u8>
    decreases t,
{
    match t {
        TreeV::Empty => sha256_of(sep_empty()),
        TreeV::Fork(l, r) => sha256_of(sep_fork() + tree_digest(*l) + tree_digest(*r)),
        TreeV::Labeled(lbl, sub) => sha256_of(sep_labeled() + lbl + tree_digest(*sub)),
        TreeV::Leaf(v) => sha256_of(sep_leaf() + v),
        TreeV::Pruned(h) => h,
    }
}

/// The subtree under a label, searching forks left to right.
pub open spec fn sp_find_label(t: TreeV, label: Seq<u8>) -> Option<TreeV>
    decreases t,
{
    match t {
        TreeV::Fork(l, r) => match sp_find_label(*l, label) {
            Some(x) => Some(x),
            None => sp_find_label(*r, label),
        },
        TreeV::Labeled(lbl, sub) => if lbl == label {
            Some(*sub)
        } else {
            None
        },
        _ => None,
    }
}

/// The leaf value under a path of labels, from the `i`-th label on.
pub open spec fn sp_lookup_path(t: TreeV, path: Seq<Seq<u8>>, i: int) -> Option<Seq<u8>>
    decreases path.len() - i,
{
    if i < 0 || i >= path.len() {
        match t {
            TreeV::Leaf(v) => Some(v),
            _ => None,
        }
    } else {
        match sp_find_label(t, path[i]) {
            Some(sub) => sp_lookup_path(sub, path, i + 1),
            None => None,
        }
    }
}

impl HashTree {
    /// Compute the root digest of this tree.
    pub fn digest(&self) -> (r: Vec<u8>)
        ensures
            r@ == tree_digest(self@),
        decreases self,
    {
        match self {
            HashTree::Empty => {
                let sep: [u8; 18] = [17, 105, 99, 45, 104, 97, 115, 104, 116, 114, 101, 101, 45,
                    101, 109, 112, 116, 121];
                let mut h = Sha256Hasher::new();
                h.update(sep.as_slice());
                proof {
                    assert(hasher_fed(h) =~= sep_empty());
                }
                h.finalize()
            },
            HashTree::Fork(l, r) => {
                let dl = l.digest();
                let dr = r.digest();
                let sep: [u8; 17] = [16, 105, 99, 45, 104, 97, 115, 104, 116, 114, 101, 101, 45,
                    102, 111, 114, 107];
                let mut h = Sha256Hasher::new();
                h.update(sep.as_slice());
                h.update(dl.as_slice());
                h.update(dr.as_slice());
                proof {
                    assert(hasher_fed(h) =~= sep_fork() + tree_digest(l@) + tree_digest(r@));
                }
                h.finalize()
            },
            HashTree::Labeled(lbl, sub) => {
                let ds = sub.digest();
                let sep: [u8; 20] = [19, 105, 99, 45, 104, 97, 115, 104, 116, 114, 101, 101, 45,
                    108, 97, 98, 101, 108, 101, 100];
                let mut h = Sha256Hasher::new();
                h.update(sep.as_slice());
                h.update(lbl.as_slice());
                h.update(ds.as_slice());
                proof {
                    assert(hasher_fed(h) =~= sep_labeled() + lbl@ + tree_digest(sub@));
                }
                h.finalize()
            },
            HashTree::Leaf(v) => {
                let sep: [u8; 17] = [16, 105, 99, 45, 104, 97, 115, 104, 116, 114, 101, 101, 45,
                    108, 101, 97, 102];
                let mut h = Sha256Hasher::new();
                h.update(sep.as_slice());
                h.update(v.as_slice());
                proof {
                    assert(hasher_fed(h) =~= sep_leaf() + v@);
                }
                h.finalize()
            },
            HashTree::Pruned(d) => clone_bytes(d),
        }
    }

    /// The subtree under a label, searching forks left to right.
    pub fn find_label<'a>(&'a self, label: &[u8]) -> (r: Option<&'a HashTree>)
        ensures
            match r {
                Some(sub) => sp_find_label(self@, label@) == Some(sub@),
                None => sp_find_label(self@, label@) is None,
            },
        decreases self,
    {
        match self {
            HashTree::Fork(l, r) => match l.find_label(label) {
                Some(x) => Some(x),
                None => r.find_label(label),
            },
            HashTree::Labeled(lbl, sub) => {
                if slices_equal(lbl.as_slice(), label) {
                    Some(sub)
                } else {
                    None
                }
            },
            _ => None,
        }
    }

    /// The leaf value under a path of labels, from the `i`-th label on.
    pub fn lookup_path<'a>(&'a self, path: &[Vec<u8>], i: usize) -> (r: Option<&'a Vec<u8>>)
        requires
            i <= path@.len(),
        ensures
            match r {
                Some(v) => sp_lookup_path(self@, path@.map_values(|l: Vec<u8>| l@), i as int)
                    == Some(v@),
                None => sp_lookup_path(self@, path@.map_values(|l: Vec<u8>| l@), i as int) is None,
            },
        decreases path@.len() - i,
    {
        if i == path.len() {
            match self {
                HashTree::Leaf(v) => Some(v),
                _ => None,
            }
        } else {
            match self.find_label(path[i].as_slice()) {
                Some(sub) => sub.lookup_path(path, i + 1),
                None => None,
            }
        }
    }
}

/// Parse one hash-tree node at `pos`: an array `[0]`, `[1, left, right]`,
/// `[2, label, subtree]`, `[3, leaf]` or `[4, digest]`.
pub open spec fn sp_parse_tree(s: Seq<u8>, pos: int) -> Option<(TreeV, int)>
    decreases s.len() - pos,
{
    match sp_header(s, pos) {
        Some(h) => {
            if header_ok(s, pos, h) && h.major == MAJOR_ARRAY as int {
                match sp_header(s, h.next) {
                    Some(t) => {
                        if header_ok(s, h.next, t) && t.major == MAJOR_UINT as int {
                            if t.value == 0 && h.value == 1 {
                                Some((TreeV::Empty, t.next))
                            } else if t.value == 1 && h.value == 3 {
                                match sp_parse_tree(s, t.next) {
                                    Some((l, p1)) => {
                                        if t.next < p1 <= s.len() {
                                            match sp_parse_tree(s, p1) {
                                                Some((r, p2)) => Some(
                                                    (TreeV::Fork(Box::new(l), Box::new(r)), p2),
                                                ),
                                                None => None,
                                            }
                                        } else {
                                            None
                                        }
                                    },
                                    None => None,
                                }
                            } else if t.value == 2 && h.value == 3 {
                                match sp_string(s, t.next, MAJOR_BYTES as int) {
                                    Some((lbl, p1)) => {
                                        if t.next < p1 <= s.len() {
                                            match sp_parse_tree(s, p1) {
                                                Some((sub, p2)) => Some(
                                                    (TreeV::Labeled(lbl, Box::new(sub)), p2),
                                                ),
                                                None => None,
                                            }
                                        } else {
                                            None
                                        }
                                    },
                                    None => None,
                                }
                            } else if t.value == 3 && h.value == 2 {
                                match sp_string(s, t.next, MAJOR_BYTES as int) {
                                    Some((v, p1)) => Some((TreeV::Leaf(v), p1)),
                                    None => None,
                                }
                            } else if t.value == 4 && h.value == 2 {
                                match sp_string(s, t.next, MAJOR_BYTES as int) {
                                    Some((d, p1)) => Some((TreeV::Pruned(d), p1)),
                                    None => None,
                                }
                            } else {
                                None
                            }
                        } else {
                            None
                        }
                    },
                    None => None,
                }
            } else {
                None
            }
        },
        None => None,
    }
}

/// A parsed tree always advances and stays inside the input.
pub proof fn lemma_parse_tree_bounds(s: Seq<u8>, pos: int)
    ensures
        match sp_parse_tree(s, pos) {
            Some(r) => pos < r.1 <= s.len(),
            None => true,
        },
    decreases s.len() - pos,
{
    match sp_header(s, pos) {
        Some(h) => {
            if header_ok(s, pos, h) && h.major == MAJOR_ARRAY as int {
                match sp_header(s, h.next) {
                    Some(t) => {
                        if header_ok(s, h.next, t) && t.major == MAJOR_UINT as int {
                            if t.value == 1 && h.value == 3 {
                                lemma_parse_tree_bounds(s, t.next);
                                match sp_parse_tree(s, t.next) {
                                    Some((_, p1)) => {
                                        if t.next < p1 <= s.len() {
                                            lemma_parse_tree_bounds(s, p1);
                                        }
                                    },
                                    None => {},
                                }
                            } else if t.value == 2 && h.value == 3 {
                                match sp_string(s, t.next, MAJOR_BYTES as int) {
                                    Some((_, p1)) => {
                                        if t.next < p1 <= s.len() {
                                            lemma_parse_tree_bounds(s, p1);
                                        }
                                    },
                                    None => {},
                                }
                            }
                        }
                    },
                    None => {},
                }
            }
        },
        None => {},
    }
}

/// Parse one hash-tree node, executable form.
pub fn parse_tree(s: &[u8], pos: usize) -> (r: Option<(HashTree, usize)>)
    ensures
        match r {
            Some(t) => sp_parse_tree(s@, pos as int) == Some((t.0@, t.1 as int)) && pos < t.1
                <= s@.len(),
            None => sp_parse_tree(s@, pos as int) is None,
        },
    decreases s@.len() - pos,
{
    proof {
        lemma_parse_tree_bounds(s@, pos as int);
    }
    match parse_header(s, pos) {
        Some((major, arity, next)) => {
            if major != MAJOR_ARRAY {
                return None;
            }
            match parse_header(s, next) {
                Some((tmajor, tag, tnext)) => {
                    if tmajor != MAJOR_UINT {
                        return None;
                    }
                    if tag == 0 && arity == 1 {
                        Some((HashTree::Empty, tnext))
                    } else if tag == 1 && arity == 3 {
                        match parse_tree(s, tnext) {
                            Some((l, p1)) => match parse_tree(s, p1) {
                                Some((r, p2)) => Some(
                                    (HashTree::Fork(Box::new(l), Box::new(r)), p2),
                                ),
                                None => None,
                            },
                            None => None,
                        }
                    } else if tag == 2 && arity == 3 {
                        match parse_string(s, tnext, MAJOR_BYTES) {
                            Some((lbl, p1)) => match parse_tree(s, p1) {
                                Some((sub, p2)) => Some(
                                    (HashTree::Labeled(lbl, Box::new(sub)), p2),
                                ),
                                None => None,
                            },
                            None => None,
                        }
                    } else if tag == 3 && arity == 2 {
                        match parse_string(s, tnext, MAJOR_BYTES) {
                            Some((v, p1)) => Some((HashTree::Leaf(v), p1)),
                            None => None,
                        }
                    } else if tag == 4 && arity == 2 {
                        match parse_string(s, tnext, MAJOR_BYTES) {
                            Some((d, p1)) => Some((HashTree::Pruned(d), p1)),
                            None => None,
                        }
                    } else {
                        None
                    }
                },
                None => None,
            }
        },
        None => None,
    }
}

/// The text key under which a certificate holds its tree.
pub open spec fn tree_key() -> Seq<u8> {
    seq![116u8, 114u8, 101u8, 101u8]
}

/// Search a CBOR map's `n` remaining pairs for the key `tree` and parse the
/// hash tree stored under it.
pub open spec fn sp_find_tree_in_map(s: Seq<u8>, pos: int, n: int) -> Option<TreeV>
    decreases s.len() - pos, n + 1,
{
    if !(0 <= pos <= s.len()) || n <= 0 {
        None
    } else {
        match sp_string(s, pos, MAJOR_TEXT as int) {
            Some((key, p1)) => {
                if !(pos < p1 <= s.len()) {
                    None
                } else if key == tree_key() {
                    match sp_parse_tree(s, p1) {
                        Some((t, _)) => Some(t),
                        None => None,
                    }
                } else {
                    match sp_skip_item(s, p1) {
                        Some(p2) => {
                            if p1 < p2 <= s.len() {
                                sp_find_tree_in_map(s, p2, n - 1)
                            } else {
                                None
                            }
                        },
                        None => None,
                    }
                }
            },
            None => None,
        }
    }
}

/// What a certificate's bytes parse to: the hash tree stored under the
/// `tree` key of the (possibly tagged) top-level map.
pub open spec fn sp_certificate_tree(s: Seq<u8>) -> Option<TreeV> {
    let start: int = match sp_header(s, 0) {
        Some(h) => if h.major == MAJOR_TAG as int && h.value == SELF_DESCRIBED_TAG as int {
            h.next
        } else {
            0
        },
        None => 0,
    };
    match sp_header(s, start) {
        Some(h) => {
            if header_ok(s, start, h) && h.major == MAJOR_MAP as int {
                sp_find_tree_in_map(s, h.next, h.value)
            } else {
                None
            }
        },
        None => None,
    }
}

/// Parse a certificate's bytes into the hash tree it carries; fails on
/// malformed input or when no tree is present.
pub fn parse_certificate_tree(s: &[u8]) -> (r: Option<HashTree>)
    ensures
        match r {
            Some(t) => sp_certificate_tree(s@) == Some(t@),
            None => sp_certificate_tree(s@) is None,
        },
{
    let start: usize = match parse_header(s, 0) {
        Some((major, value, next)) => {
            if major == MAJOR_TAG && value == SELF_DESCRIBED_TAG {
                next
            } else {
                0
            }
        },
        None => 0,
    };
    match parse_header(s, start) {
        Some((major, pairs, next)) => {
            if major != MAJOR_MAP {
                return None;
            }
            let mut pos: usize = next;
            let mut remaining: u64 = pairs;
            while remaining > 0
                invariant
                    start < pos <= s@.len(),
                    sp_certificate_tree(s@) == sp_find_tree_in_map(
                        s@,
                        pos as int,
                        remaining as int,
                    ),
                decreases remaining,
            {
                match parse_string(s, pos, MAJOR_TEXT) {
                    Some((key, p1)) => {
                        let is_tree_key = {
                            let pat: [u8; 4] = [116, 114, 101, 101];
                            let eq = slices_equal(key.as_slice(), pat.as_slice());
                            proof {
                                assert(pat@ =~= tree_key());
                            }
                            eq
                        };
                        if is_tree_key {
                            match parse_tree(s, p1) {
                                Some((t, _)) => {
                                    return Some(t);
                                },
                                None => {
                                    return None;
                                },
                            }
                        } else {
                            match skip_item(s, p1) {
                                Some(p2) => {
                                    pos = p2;
                                    remaining = remaining - 1;
                                },
                                None => {
                                    return None;
                                },
                            }
                        }
                    },
                    None => {
                        return None;
                    },
                }
            }
            None
        },
        None => None,
    }
}

} // verus!
