//! Zero-padded text fields and relative paths held as components.

use vstd::array::*;
use vstd::prelude::*;

verus! {

/// `n` is where the text of `s` ends: the first NUL, or the end of `s`.
pub open spec fn ends_text(s: Seq<u8>, n: int) -> bool {
    &&& 0 <= n <= s.len()
    &&& forall|k: int| 0 <= k < n ==> s[k] != 0u8
    &&& (n == s.len() || s[n] == 0u8)
}

/// Length of the text held by a zero-padded field.
pub open spec fn text_len(s: Seq<u8>) -> int {
    choose|n: int| ends_text(s, n)
}

/// The text held by a zero-padded field: its bytes before the first NUL.
pub open spec fn text_of(s: Seq<u8>) -> Seq<u8> {
    s.subrange(0, text_len(s))
}

/// `b` holds no NUL byte.
pub open spec fn no_nul(b: Seq<u8>) -> bool {
    forall|k: int| 0 <= k < b.len() ==> b[k] != 0u8
}

/// `b` followed by NUL bytes up to length `n`.
pub open spec fn padded(b: Seq<u8>, n: int) -> Seq<u8> {
    b + Seq::new((n - b.len()) as nat, |i: int| 0u8)
}

/// Where a field's text ends is determined by the field.
pub proof fn lemma_text_len(s: Seq<u8>, n: int)
    requires
        ends_text(s, n),
    ensures
        text_len(s) == n,
        text_of(s) == s.subrange(0, n),
{
    let m = text_len(s);
    assert(ends_text(s, m));
    if m < n {
        assert(s[m] != 0u8);
    } else if n < m {
        assert(s[n] != 0u8);
    }
}

/// A text without NUL, padded, reads back as itself.
pub proof fn lemma_padded_text(b: Seq<u8>, n: int)
    requires
        no_nul(b),
        b.len() < n,
    ensures
        text_of(padded(b, n)) == b,
        padded(b, n).len() == n,
{
    let p = padded(b, n);
    assert(ends_text(p, b.len() as int));
    lemma_text_len(p, b.len() as int);
    assert(p.subrange(0, b.len() as int) =~= b);
}

/// The text held by a zero-padded field.
pub fn field_text(field: &[u8]) -> (r: Vec<u8>)
    ensures
        r@ == text_of(field@),
        no_nul(r@),
{
    let mut r: Vec<u8> = Vec::new();
    let mut i: usize = 0;
    while i < field.len() && field[i] != 0u8
        invariant
            i <= field@.len(),
            r@ == field@.subrange(0, i as int),
            forall|k: int| 0 <= k < i ==> field@[k] != 0u8,
        decreases field@.len() - i,
    {
        r.push(field[i]);
        i = i + 1;
        assert(r@ =~= field@.subrange(0, i as int));
    }
    proof { lemma_text_len(field@, i as int); }
    r
}

/// A field of `N` bytes holding `b` followed by NULs; `None` where `b`
/// does not leave room for a terminating NUL.
pub fn fixed_field<const N: usize>(b: &[u8]) -> (r: Option<[u8; N]>)
    ensures
        r is Some <==> b@.len() < N,
        r matches Some(a) ==> a@ == padded(b@, N as int),
{
    if b.len() >= N {
        return None;
    }
    let mut a: [u8; N] = array_fill_for_copy_types(0u8);
    let mut i: usize = 0;
    while i < b.len()
        invariant
            b@.len() < N,
            i <= b@.len(),
            a@.len() == N,
            forall|k: int| 0 <= k < i ==> a@[k] == b@[k],
            forall|k: int| b@.len() <= k < N ==> a@[k] == 0u8,
        decreases b@.len() - i,
    {
        a[i] = b[i];
        i = i + 1;
    }
    assert(a@ =~= padded(b@, N as int));
    Some(a)
}

/// `a` and `b` hold the same bytes.
pub fn same_bytes(a: &[u8], b: &[u8]) -> (r: bool)
    ensures
        r == (a@ == b@),
{
    if a.len() != b.len() {
        return false;
    }
    let mut i: usize = 0;
    while i < a.len()
        invariant
            a@.len() == b@.len(),
            i <= a@.len(),
            forall|k: int| 0 <= k < i ==> a@[k] == b@[k],
        decreases a@.len() - i,
    {
        if a[i] != b[i] {
            return false;
        }
        i = i + 1;
    }
    assert(a@ =~= b@);
    true
}

/// A relative path as the sequence of its components.
pub open spec fn path_view(p: &Vec<Vec<u8>>) -> Seq<Seq<u8>> {
    p@.map_values(|v: Vec<u8>| v@)
}

/// `a` and `b` are the same relative path.
pub fn same_path(a: &Vec<Vec<u8>>, b: &Vec<Vec<u8>>) -> (r: bool)
    ensures
        r == (path_view(a) == path_view(b)),
{
    if a.len() != b.len() {
        assert(path_view(a).len() != path_view(b).len());
        return false;
    }
    let mut i: usize = 0;
    while i < a.len()
        invariant
            a@.len() == b@.len(),
            i <= a@.len(),
            forall|k: int| 0 <= k < i ==> a@[k]@ == b@[k]@,
        decreases a@.len() - i,
    {
        if !same_bytes(a[i].as_slice(), b[i].as_slice()) {
            assert(path_view(a)[i as int] != path_view(b)[i as int]);
            return false;
        }
        i = i + 1;
    }
    assert(path_view(a) =~= path_view(b));
    true
}

/// A copy of a relative path.
pub fn copy_path(p: &Vec<Vec<u8>>) -> (r: Vec<Vec<u8>>)
    ensures
        path_view(&r) == path_view(p),
{
    let mut r: Vec<Vec<u8>> = Vec::new();
    let mut i: usize = 0;
    while i < p.len()
        invariant
            i <= p@.len(),
            r@.len() == i,
            forall|k: int| 0 <= k < i ==> r@[k]@ == p@[k]@,
        decreases p@.len() - i,
    {
        r.push(p[i].clone());
        i = i + 1;
    }
    assert(path_view(&r) =~= path_view(p));
    r
}

/// The path `a` followed by the path `b`.
pub fn join_paths(a: &Vec<Vec<u8>>, b: &Vec<Vec<u8>>) -> (r: Vec<Vec<u8>>)
    ensures
        path_view(&r) == path_view(a) + path_view(b),
{
    let mut r = copy_path(a);
    assert(r@.len() == path_view(&r).len());
    assert forall|k: int| 0 <= k < a@.len() implies r@[k]@ == a@[k]@ by {
        assert(r@[k]@ == path_view(&r)[k]);
        assert(a@[k]@ == path_view(a)[k]);
    }
    let mut i: usize = 0;
    while i < b.len()
        invariant
            i <= b@.len(),
            r@.len() == a@.len() + i,
            forall|k: int| 0 <= k < a@.len() ==> r@[k]@ == a@[k]@,
            forall|k: int| 0 <= k < i ==> r@[a@.len() + k]@ == b@[k]@,
        decreases b@.len() - i,
    {
        r.push(b[i].clone());
        i = i + 1;
    }
    assert(path_view(&r) =~= path_view(a) + path_view(b));
    r
}

} // verus!
