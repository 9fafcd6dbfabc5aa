//! Byte-string helpers: the path and scanning conventions all work on raw
//! bytes, so the executable helpers here are proved against small spec
//! functions over `Seq<u8>`.
use vstd::prelude::*;

verus! {

/// Decimal digit bytes `'0'..='9'`.
pub open spec fn is_digit(b: u8) -> bool {
    48 <= b <= 57
}

/// `s` with every decimal digit byte removed, order kept.
pub open spec fn strip_digits(s: Seq<u8>) -> Seq<u8>
    decreases s.len(),
{
    if s.len() == 0 {
        Seq::empty()
    } else if is_digit(s.last()) {
        strip_digits(s.drop_last())
    } else {
        strip_digits(s.drop_last()).push(s.last())
    }
}

/// Index of the last occurrence of `b` in `s`, or -1 if absent.
pub open spec fn last_index_of(s: Seq<u8>, b: u8) -> int
    decreases s.len(),
{
    if s.len() == 0 {
        -1
    } else if s.last() == b {
        s.len() - 1
    } else {
        last_index_of(s.drop_last(), b)
    }
}

/// Index of the first occurrence of `b` in `s` at or after `i`, or -1.
pub open spec fn first_index_from(s: Seq<u8>, b: u8, i: int) -> int
    decreases s.len() - i,
{
    if i < 0 || i >= s.len() {
        -1
    } else if s[i] == b {
        i
    } else {
        first_index_from(s, b, i + 1)
    }
}

/// Index of the first occurrence of `b` in `s`, or -1.
pub open spec fn first_index_of(s: Seq<u8>, b: u8) -> int {
    first_index_from(s, b, 0)
}

/// `p` occurs in `s` starting at index `i`.
pub open spec fn matches_at(s: Seq<u8>, p: Seq<u8>, i: int) -> bool {
    0 <= i && i + p.len() <= s.len() && s.subrange(i, i + p.len() as int) == p
}

/// `p` occurs somewhere in `s`.
pub open spec fn contains_seq(s: Seq<u8>, p: Seq<u8>) -> bool {
    exists|i: int| matches_at(s, p, i)
}

/// `s` ends with `p`.
pub open spec fn ends_with_seq(s: Seq<u8>, p: Seq<u8>) -> bool {
    s.len() >= p.len() && s.subrange(s.len() - p.len(), s.len() as int) == p
}

/// `s` starts with `p`.
pub open spec fn starts_with_seq(s: Seq<u8>, p: Seq<u8>) -> bool {
    s.len() >= p.len() && s.subrange(0, p.len() as int) == p
}

pub proof fn lemma_last_index_of(s: Seq<u8>, b: u8)
    ensures
        last_index_of(s, b) >= -1,
        last_index_of(s, b) >= 0 ==> last_index_of(s, b) < s.len() && s[last_index_of(s, b)] == b,
        forall|j: int| last_index_of(s, b) < j < s.len() ==> s[j] != b,
    decreases s.len(),
{
    if s.len() > 0 && s.last() != b {
        lemma_last_index_of(s.drop_last(), b);
        assert forall|j: int| last_index_of(s, b) < j < s.len() implies s[j] != b by {
            if j < s.len() - 1 {
                assert(s[j] == s.drop_last()[j]);
            }
        }
    }
}

pub proof fn lemma_first_index_from(s: Seq<u8>, b: u8, i: int)
    requires
        0 <= i <= s.len(),
    ensures
        first_index_from(s, b, i) == -1 || i <= first_index_from(s, b, i) < s.len(),
        first_index_from(s, b, i) >= 0 ==> s[first_index_from(s, b, i)] == b,
    decreases s.len() - i,
{
    if i < s.len() && s[i] != b {
        lemma_first_index_from(s, b, i + 1);
    }
}

pub proof fn lemma_first_index_of(s: Seq<u8>, b: u8)
    ensures
        first_index_of(s, b) == -1 || 0 <= first_index_of(s, b) < s.len(),
        first_index_of(s, b) >= 0 ==> s[first_index_of(s, b)] == b,
{
    lemma_first_index_from(s, b, 0);
}

/// A copy of `s[i..j]`.
pub fn sub_vec(s: &Vec<u8>, i: usize, j: usize) -> (r: Vec<u8>)
    requires
        i <= j <= s.len(),
    ensures
        r@ == s@.subrange(i as int, j as int),
{
    let mut r: Vec<u8> = Vec::new();
    let mut k: usize = i;
    while k < j
        invariant
            i <= k <= j <= s.len(),
            r@ == s@.subrange(i as int, k as int),
        decreases j - k,
    {
        r.push(s[k]);
        assert(s@.subrange(i as int, k + 1 as int) == s@.subrange(i as int, k as int).push(
            s@[k as int],
        ));
        k = k + 1;
    }
    r
}

/// A copy of `s`.
pub fn copy_vec(s: &Vec<u8>) -> (r: Vec<u8>)
    ensures
        r@ == s@,
{
    let r = sub_vec(s, 0, s.len());
    assert(r@ == s@.subrange(0, s.len() as int));
    assert(s@.subrange(0, s.len() as int) == s@);
    r
}

/// `a` followed by `b`.
pub fn cat(a: &Vec<u8>, b: &Vec<u8>) -> (r: Vec<u8>)
    ensures
        r@ == a@ + b@,
{
    let mut r = copy_vec(a);
    let mut k: usize = 0;
    while k < b.len()
        invariant
            k <= b.len(),
            r@ == a@ + b@.subrange(0, k as int),
        decreases b.len() - k,
    {
        r.push(b[k]);
        assert(a@ + b@.subrange(0, k + 1 as int) == (a@ + b@.subrange(0, k as int)).push(
            b@[k as int],
        ));
        k = k + 1;
    }
    assert(b@.subrange(0, b.len() as int) == b@);
    r
}

/// Byte-wise equality of two vectors.
pub fn eq_bytes(a: &Vec<u8>, b: &Vec<u8>) -> (r: bool)
    ensures
        r == (a@ == b@),
{
    if a.len() != b.len() {
        return false;
    }
    let mut k: usize = 0;
    while k < a.len()
        invariant
            k <= a.len(),
            a.len() == b.len(),
            forall|j: int| 0 <= j < k ==> a@[j] == b@[j],
        decreases a.len() - k,
    {
        if a[k] != b[k] {
            return false;
        }
        k = k + 1;
    }
    proof {
        assert(a@ =~= b@);
    }
    true
}

/// `s` with digits removed, executable form.
pub fn strip_digits_vec(s: &Vec<u8>) -> (r: Vec<u8>)
    ensures
        r@ == strip_digits(s@),
{
    let mut r: Vec<u8> = Vec::new();
    let mut k: usize = 0;
    while k < s.len()
        invariant
            k <= s.len(),
            r@ == strip_digits(s@.subrange(0, k as int)),
        decreases s.len() - k,
    {
        let b = s[k];
        proof {
            assert(s@.subrange(0, k + 1 as int).drop_last() == s@.subrange(0, k as int));
            assert(s@.subrange(0, k + 1 as int).last() == s@[k as int]);
        }
        if !(48 <= b && b <= 57) {
            r.push(b);
        }
        k = k + 1;
    }
    assert(s@.subrange(0, s.len() as int) == s@);
    r
}

/// Last occurrence of `b` in `s`, as an index.
pub fn rfind_byte(s: &Vec<u8>, b: u8) -> (r: Option<usize>)
    ensures
        r matches Some(i) ==> i == last_index_of(s@, b),
        r is None ==> last_index_of(s@, b) == -1,
{
    let mut found: Option<usize> = None;
    let mut k: usize = 0;
    while k < s.len()
        invariant
            k <= s.len(),
            found matches Some(i) ==> i == last_index_of(s@.subrange(0, k as int), b),
            found is None ==> last_index_of(s@.subrange(0, k as int), b) == -1,
        decreases s.len() - k,
    {
        proof {
            assert(s@.subrange(0, k + 1 as int).drop_last() == s@.subrange(0, k as int));
            assert(s@.subrange(0, k + 1 as int).last() == s@[k as int]);
        }
        if s[k] == b {
            found = Some(k);
        }
        k = k + 1;
    }
    assert(s@.subrange(0, s.len() as int) == s@);
    found
}

/// First occurrence of `b` in `s`, as an index.
pub fn find_byte(s: &Vec<u8>, b: u8) -> (r: Option<usize>)
    ensures
        r matches Some(i) ==> i == first_index_of(s@, b),
        r is None ==> first_index_of(s@, b) == -1,
{
    let mut k: usize = 0;
    while k < s.len()
        invariant
            k <= s.len(),
            first_index_of(s@, b) == first_index_from(s@, b, k as int),
        decreases s.len() - k,
    {
        if s[k] == b {
            return Some(k);
        }
        k = k + 1;
    }
    None
}

/// `p` occurs in `s` at `i`, executable form.
pub fn check_match_at(s: &Vec<u8>, p: &Vec<u8>, i: usize) -> (r: bool)
    requires
        i + p.len() <= s.len(),
    ensures
        r == matches_at(s@, p@, i as int),
{
    let mut k: usize = 0;
    while k < p.len()
        invariant
            k <= p.len(),
            i + p.len() <= s.len(),
            forall|j: int| 0 <= j < k ==> s@[i + j] == p@[j],
        decreases p.len() - k,
    {
        if s[i + k] != p[k] {
            proof {
                assert(s@.subrange(i as int, i + p@.len()) != p@) by {
                    assert(s@.subrange(i as int, i + p@.len())[k as int] != p@[k as int]);
                }
            }
            return false;
        }
        k = k + 1;
    }
    proof {
        assert(s@.subrange(i as int, i + p@.len()) =~= p@);
    }
    true
}

/// Whether `p` occurs anywhere in `s`.
pub fn contains_bytes(s: &Vec<u8>, p: &Vec<u8>) -> (r: bool)
    ensures
        r == contains_seq(s@, p@),
{
    if p.len() > s.len() {
        proof {
            assert(forall|i: int| !matches_at(s@, p@, i));
        }
        return false;
    }
    if p.len() == 0 {
        proof {
            assert(s@.subrange(0, 0) =~= p@);
            assert(matches_at(s@, p@, 0));
        }
        return true;
    }
    let mut k: usize = 0;
    while k <= s.len() - p.len()
        invariant
            0 < p.len() <= s.len(),
            k <= s.len() - p.len() + 1,
            forall|i: int| 0 <= i < k ==> !matches_at(s@, p@, i),
        decreases s.len() - k,
    {
        if check_match_at(s, p, k) {
            return true;
        }
        k = k + 1;
    }
    proof {
        assert(forall|i: int| i > s@.len() - p@.len() ==> !matches_at(s@, p@, i));
    }
    false
}

/// Whether `s` ends with `p`.
pub fn ends_with_bytes(s: &Vec<u8>, p: &Vec<u8>) -> (r: bool)
    ensures
        r == ends_with_seq(s@, p@),
{
    if p.len() > s.len() {
        return false;
    }
    let tail = sub_vec(s, s.len() - p.len(), s.len());
    eq_bytes(&tail, p)
}

/// Whether `s` starts with `p`.
pub fn starts_with_bytes(s: &Vec<u8>, p: &Vec<u8>) -> (r: bool)
    ensures
        r == starts_with_seq(s@, p@),
{
    if p.len() > s.len() {
        return false;
    }
    let head = sub_vec(s, 0, p.len());
    eq_bytes(&head, p)
}

} // verus!
