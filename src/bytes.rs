//! Byte-level text helpers shared by the log grammar.
use vstd::prelude::*;

verus! {

/// ASCII whitespace as the grammar understands it (space, `\t` .. `\r`).
pub open spec fn is_ws(b: u8) -> bool {
    b == 32 || (9 <= b && b <= 13)
}

/// `n` occurs in `h` at index `i`.
pub open spec fn occurs_at(h: Seq<u8>, n: Seq<u8>, i: int) -> bool {
    0 <= i && i + n.len() <= h.len() && h.subrange(i, i + n.len()) == n
}

/// The first index at or after `i` where `n` occurs in `h`.
pub open spec fn first_at(h: Seq<u8>, n: Seq<u8>, i: int) -> Option<int>
    decreases h.len() + 1 - i,
{
    if i < 0 || i + n.len() > h.len() {
        None
    } else if occurs_at(h, n, i) {
        Some(i)
    } else {
        first_at(h, n, i + 1)
    }
}

/// The first index at or after `i` that holds the byte `b`.
pub open spec fn first_byte(h: Seq<u8>, b: u8, i: int) -> Option<int>
    decreases h.len() - i,
{
    if i < 0 || i >= h.len() {
        None
    } else if h[i] == b {
        Some(i)
    } else {
        first_byte(h, b, i + 1)
    }
}

/// The view of an optional byte vector.
pub open spec fn opt_view(o: Option<Vec<u8>>) -> Option<Seq<u8>> {
    match o {
        Some(v) => Some(v@),
        None => None,
    }
}

/// `n` occurs somewhere in `h`.
pub open spec fn contains_seq(h: Seq<u8>, n: Seq<u8>) -> bool {
    first_at(h, n, 0) is Some
}

/// `s` without its leading whitespace.
pub open spec fn trim_start(s: Seq<u8>) -> Seq<u8>
    decreases s.len(),
{
    if s.len() > 0 && is_ws(s[0]) {
        trim_start(s.drop_first())
    } else {
        s
    }
}

/// `s` without its trailing whitespace.
pub open spec fn trim_end(s: Seq<u8>) -> Seq<u8>
    decreases s.len(),
{
    if s.len() > 0 && is_ws(s.last()) {
        trim_end(s.drop_last())
    } else {
        s
    }
}

/// `s` without whitespace at either end.
pub open spec fn trim(s: Seq<u8>) -> Seq<u8> {
    trim_end(trim_start(s))
}

pub fn is_ws_byte(b: u8) -> (r: bool)
    ensures
        r == is_ws(b),
{
    b == 32 || (9 <= b && b <= 13)
}

/// Whether `n` occurs in `h` at `i`.
pub fn matches_at(h: &[u8], n: &[u8], i: usize) -> (r: bool)
    ensures
        r == occurs_at(h@, n@, i as int),
{
    if i > h.len() || n.len() > h.len() - i {
        return false;
    }
    let mut k: usize = 0;
    while k < n.len()
        invariant
            i + n.len() <= h.len(),
            k <= n.len(),
            forall|j: int| 0 <= j < k ==> h@[i + j] == n@[j],
        decreases n.len() - k,
    {
        if h[i + k] != n[k] {
            assert(h@.subrange(i as int, i + n.len())[k as int] != n@[k as int]);
            return false;
        }
        k = k + 1;
    }
    assert(h@.subrange(i as int, i + n.len()) =~= n@);
    true
}

/// The first occurrence of `n` in `h` at or after `from`.
pub fn find_from(h: &[u8], n: &[u8], from: usize) -> (r: Option<usize>)
    ensures
        r matches Some(k) ==> from <= k && k + n@.len() <= h@.len() && occurs_at(h@, n@, k as int),
        match r {
            Some(k) => first_at(h@, n@, from as int) == Some(k as int),
            None => first_at(h@, n@, from as int) is None,
        },
{
    if n.len() == 0 {
        if from <= h.len() {
            assert(h@.subrange(from as int, from as int) =~= n@);
            return Some(from);
        }
        return None;
    }
    let mut i = from;
    while i < h.len() && n.len() <= h.len() - i
        invariant
            n@.len() > 0,
            from <= i,
            first_at(h@, n@, from as int) == first_at(h@, n@, i as int),
        decreases h.len() + 1 - i,
    {
        if matches_at(h, n, i) {
            return Some(i);
        }
        i = i + 1;
    }
    None
}

/// The first position of byte `b` in `h` at or after `from`.
pub fn find_byte(h: &[u8], b: u8, from: usize) -> (r: Option<usize>)
    ensures
        r matches Some(k) ==> from <= k < h@.len() && h@[k as int] == b,
        match r {
            Some(k) => first_byte(h@, b, from as int) == Some(k as int),
            None => first_byte(h@, b, from as int) is None,
        },
{
    let mut i = from;
    while i < h.len()
        invariant
            from <= i,
            first_byte(h@, b, from as int) == first_byte(h@, b, i as int),
        decreases h.len() - i,
    {
        if h[i] == b {
            return Some(i);
        }
        i = i + 1;
    }
    None
}

/// A copy of `h[a..b]`.
pub fn copy_range(h: &[u8], a: usize, b: usize) -> (r: Vec<u8>)
    requires
        a <= b <= h@.len(),
    ensures
        r@ == h@.subrange(a as int, b as int),
{
    let mut r: Vec<u8> = Vec::new();
    let mut i = a;
    while i < b
        invariant
            a <= i <= b <= h@.len(),
            r@ == h@.subrange(a as int, i as int),
        decreases b - i,
    {
        r.push(h[i]);
        i = i + 1;
        assert(r@ =~= h@.subrange(a as int, i as int));
    }
    r
}

/// A copy of `h[a..b]` without whitespace at either end.
pub fn trimmed_range(h: &[u8], a: usize, b: usize) -> (r: Vec<u8>)
    requires
        a <= b <= h@.len(),
    ensures
        r@ == trim(h@.subrange(a as int, b as int)),
{
    let mut s = a;
    while s < b && is_ws_byte(h[s])
        invariant
            a <= s <= b <= h@.len(),
            trim_start(h@.subrange(a as int, b as int)) == trim_start(h@.subrange(s as int, b as int)),
        decreases b - s,
    {
        assert(h@.subrange(s as int, b as int).drop_first() =~= h@.subrange(s + 1, b as int));
        s = s + 1;
    }
    proof {
        let t = h@.subrange(s as int, b as int);
        if t.len() > 0 {
            assert(t[0] == h@[s as int]);
        }
    }
    let mut e = b;
    while e > s && is_ws_byte(h[e - 1])
        invariant
            a <= s <= e <= b <= h@.len(),
            trim_end(h@.subrange(s as int, b as int)) == trim_end(h@.subrange(s as int, e as int)),
        decreases e - s,
    {
        assert(h@.subrange(s as int, e as int).drop_last() =~= h@.subrange(s as int, e - 1));
        e = e - 1;
    }
    proof {
        let t = h@.subrange(s as int, e as int);
        if t.len() > 0 {
            assert(t.last() == h@[e - 1]);
        }
    }
    copy_range(h, s, e)
}

/// A copy of `v`.
pub fn dup(v: &Vec<u8>) -> (r: Vec<u8>)
    ensures
        r@ == v@,
{
    let r = copy_range(v.as_slice(), 0, v.len());
    assert(v@.subrange(0, v@.len() as int) =~= v@);
    r
}

/// Whether two byte strings are equal.
pub fn same(a: &[u8], b: &[u8]) -> (r: bool)
    ensures
        r == (a@ == b@),
{
    if a.len() != b.len() {
        return false;
    }
    let r = matches_at(a, b, 0);
    assert(a@.subrange(0, b@.len() as int) =~= a@);
    r
}

} // verus!
