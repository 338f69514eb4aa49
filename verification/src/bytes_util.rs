//! Small verified helpers on byte strings.

use vstd::prelude::*;

verus! {

/// ASCII lower-casing of one byte.
pub open spec fn lower_byte(b: u8) -> u8 {
    if 65 <= b <= 90 {
        (b + 32) as u8
    } else {
        b
    }
}

/// ASCII lower-casing of a byte string.
pub open spec fn lower(s: Seq<u8>) -> Seq<u8> {
    s.map_values(|b: u8| lower_byte(b))
}

/// `s` ends with `suffix`.
pub open spec fn ends_with(s: Seq<u8>, suffix: Seq<u8>) -> bool {
    s.len() >= suffix.len() && s.skip(s.len() - suffix.len()) == suffix
}

/// The first index at which `b` occurs in `s`, if any.
pub open spec fn find_byte(s: Seq<u8>, b: u8) -> Option<int>
    decreases s.len(),
{
    if s.len() == 0 {
        None
    } else if s[0] == b {
        Some(0)
    } else {
        match find_byte(s.skip(1), b) {
            Some(i) => Some(i + 1),
            None => None,
        }
    }
}

/// `find_byte` returns an in-range index of `b`, before which `b` does not occur.
pub proof fn lemma_find_byte(s: Seq<u8>, b: u8)
    ensures
        match find_byte(s, b) {
            Some(i) => 0 <= i < s.len() && s[i] == b && forall|j: int| 0 <= j < i ==> s[j] != b,
            None => forall|j: int| 0 <= j < s.len() ==> s[j] != b,
        },
    decreases s.len(),
{
    if s.len() > 0 && s[0] != b {
        lemma_find_byte(s.skip(1), b);
        match find_byte(s.skip(1), b) {
            Some(i) => {
                assert(s[i + 1] == s.skip(1)[i]);
                assert forall|j: int| 0 <= j < i + 1 implies s[j] != b by {
                    if j >= 1 {
                        assert(s[j] == s.skip(1)[j - 1]);
                    }
                }
            },
            None => {
                assert forall|j: int| 0 <= j < s.len() implies s[j] != b by {
                    if j >= 1 {
                        assert(s[j] == s.skip(1)[j - 1]);
                    }
                }
            },
        }
    }
}

/// Converse of `lemma_find_byte`: an occurrence with nothing before it is
/// what `find_byte` returns.
pub proof fn lemma_find_byte_at_index(s: Seq<u8>, b: u8, i: int)
    requires
        0 <= i < s.len(),
        s[i] == b,
        forall|j: int| 0 <= j < i ==> s[j] != b,
    ensures
        find_byte(s, b) == Some(i),
    decreases i,
{
    if i == 0 {
    } else {
        assert(s.skip(1)[i - 1] == b);
        assert forall|j: int| 0 <= j < i - 1 implies s.skip(1)[j] != b by {
            assert(s.skip(1)[j] == s[j + 1]);
        }
        lemma_find_byte_at_index(s.skip(1), b, i - 1);
    }
}

/// ASCII lower-casing, executable form.
pub fn to_lower(s: &[u8]) -> (r: Vec<u8>)
    ensures
        r@ == lower(s@),
{
    let n: usize = s.len();
    let mut r: Vec<u8> = Vec::new();
    for i in 0..n
        invariant
            n == s@.len(),
            r@ =~= lower(s@.take(i as int)),
    {
        let b = s[i];
        if 65 <= b && b <= 90 {
            r.push(b + 32);
        } else {
            r.push(b);
        }
        proof {
            assert(lower(s@.take(i + 1)) =~= lower(s@.take(i as int)).push(lower_byte(s@[i as int])));
        }
    }
    proof {
        assert(s@.take(n as int) =~= s@);
    }
    r
}

/// Byte-wise equality of two byte slices.
pub fn slices_equal(a: &[u8], b: &[u8]) -> (r: bool)
    ensures
        r == (a@ == b@),
{
    let n: usize = a.len();
    if n != b.len() {
        assert(a@ != b@);
        return false;
    }
    for i in 0..n
        invariant
            n == a@.len() && n == b@.len(),
            forall|j: int| 0 <= j < i ==> a@[j] == b@[j],
    {
        if a[i] != b[i] {
            return false;
        }
    }
    proof {
        assert(a@ =~= b@);
    }
    true
}

/// Copy of a byte vector.
pub fn clone_bytes(v: &Vec<u8>) -> (r: Vec<u8>)
    ensures
        r@ == v@,
{
    let r = bytes_subrange(v.as_slice(), 0, v.len());
    proof {
        assert(r@ =~= v@);
    }
    r
}

/// Copy of `v[start..end]` as a fresh vector.
pub fn bytes_subrange(v: &[u8], start: usize, end: usize) -> (r: Vec<u8>)
    requires
        start <= end <= v@.len(),
    ensures
        r@ == v@.subrange(start as int, end as int),
{
    let mut r: Vec<u8> = Vec::new();
    let mut i: usize = start;
    while i < end
        invariant
            start <= i <= end <= v@.len(),
            r@ =~= v@.subrange(start as int, i as int),
        decreases end - i,
    {
        r.push(v[i]);
        proof {
            assert(v@.subrange(start as int, i + 1) =~= v@.subrange(start as int, i as int).push(
                v@[i as int],
            ));
        }
        i = i + 1;
    }
    r
}

/// `s` with every non-overlapping occurrence of `pat` removed, scanning
/// left to right; an empty pattern removes nothing.
pub open spec fn remove_all(s: Seq<u8>, pat: Seq<u8>) -> Seq<u8>
    decreases s.len(),
{
    if pat.len() == 0 || s.len() < pat.len() {
        s
    } else if s.take(pat.len() as int) == pat {
        remove_all(s.skip(pat.len() as int), pat)
    } else {
        seq![s[0]] + remove_all(s.skip(1), pat)
    }
}

/// Remove every occurrence of `pat` from `s`, executable form.
pub fn remove_all_bytes(s: &[u8], pat: &[u8]) -> (r: Vec<u8>)
    ensures
        r@ == remove_all(s@, pat@),
{
    let n: usize = s.len();
    let m: usize = pat.len();
    if m == 0 {
        let r = bytes_subrange(s, 0, n);
        proof {
            assert(r@ =~= s@);
        }
        return r;
    }
    let mut out: Vec<u8> = Vec::new();
    let mut i: usize = 0;
    proof {
        assert(out@ + remove_all(s@.skip(0), pat@) =~= remove_all(s@, pat@)) by {
            assert(s@.skip(0) =~= s@);
        }
    }
    while i < n
        invariant
            n == s@.len() && m == pat@.len() && m > 0,
            0 <= i <= n,
            out@ + remove_all(s@.skip(i as int), pat@) == remove_all(s@, pat@),
        decreases n - i,
    {
        let tail_len: usize = n - i;
        let matched: bool = if m <= tail_len {
            let mut eq: bool = true;
            let mut j: usize = 0;
            while j < m
                invariant
                    n == s@.len() && m == pat@.len(),
                    i + m <= n,
                    0 <= j <= m,
                    eq == (forall|k: int| 0 <= k < j ==> s@[i + k] == pat@[k]),
                decreases m - j,
            {
                if s[i + j] != pat[j] {
                    eq = false;
                    j = m;
                } else {
                    j = j + 1;
                }
            }
            eq
        } else {
            false
        };
        proof {
            if matched {
                assert(s@.skip(i as int).take(m as int) =~= pat@);
            } else {
                if i + m <= n {
                    assert(!(forall|k: int| 0 <= k < m ==> s@[i + k] == pat@[k]));
                    assert(s@.skip(i as int).take(m as int) != pat@) by {
                        let k = choose|k: int| 0 <= k < m && s@[i + k] != pat@[k];
                        assert(s@.skip(i as int).take(m as int)[k] == s@[i + k]);
                    }
                } else {
                    assert(s@.skip(i as int).len() < m);
                }
            }
        }
        if matched {
            proof {
                assert(s@.skip(i as int).skip(m as int) =~= s@.skip(i + m));
            }
            i = i + m;
        } else {
            out.push(s[i]);
            proof {
                assert(s@.skip(i as int).skip(1) =~= s@.skip(i + 1));
                assert(seq![s@[i as int]] + remove_all(s@.skip(i + 1), pat@) == remove_all(
                    s@.skip(i as int),
                    pat@,
                ));
            }
            i = i + 1;
        }
    }
    proof {
        assert(s@.skip(n as int) =~= Seq::<u8>::empty());
        assert(remove_all(Seq::<u8>::empty(), pat@) =~= Seq::<u8>::empty());
        assert(out@ =~= out@ + Seq::<u8>::empty());
    }
    out
}

/// Executable first-occurrence search.
pub fn find_byte_at(s: &[u8], b: u8) -> (r: Option<usize>)
    ensures
        match r {
            Some(i) => find_byte(s@, b) == Some(i as int),
            None => find_byte(s@, b) is None,
        },
{
    let n: usize = s.len();
    for i in 0..n
        invariant
            n == s@.len(),
            forall|j: int| 0 <= j < i ==> s@[j] != b,
    {
        if s[i] == b {
            proof {
                lemma_find_byte(s@, b);
                match find_byte(s@, b) {
                    Some(k) => {
                        assert(s@[i as int] == b);
                        assert(k <= i);
                        assert(i <= k);
                    },
                    None => {
                        assert(s@[i as int] != b);
                    },
                }
            }
            return Some(i);
        }
    }
    proof {
        lemma_find_byte(s@, b);
    }
    None
}

/// Executable suffix test.
pub fn ends_with_bytes(s: &[u8], suffix: &[u8]) -> (r: bool)
    ensures
        r == ends_with(s@, suffix@),
{
    let n: usize = s.len();
    let m: usize = suffix.len();
    if m > n {
        return false;
    }
    let base: usize = n - m;
    for i in 0..m
        invariant
            n == s@.len() && m == suffix@.len() && base == n - m,
            forall|j: int| 0 <= j < i ==> s@[base + j] == suffix@[j],
    {
        if s[base + i] != suffix[i] {
            assert(s@.skip(n - m)[i as int] != suffix@[i as int]);
            return false;
        }
    }
    proof {
        assert(s@.skip(n - m) =~= suffix@);
    }
    true
}

} // verus!
