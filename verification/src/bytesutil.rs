//! Byte-sequence utilities shared by the codecs and validators: substring
//! search, prefix tests, trimming and decimal rendering, each with an exact
//! contract over the sequence view.

use vstd::prelude::*;

verus! {

/// The needle `n` occurs in `h` starting at position `i`.
pub open spec fn is_match_at(h: Seq<u8>, n: Seq<u8>, i: int) -> bool {
    0 <= i && i + n.len() <= h.len() && h.subrange(i, i + n.len() as int) == n
}

/// The needle `n` occurs somewhere in `h`.
pub open spec fn contains_seq(h: Seq<u8>, n: Seq<u8>) -> bool {
    exists|i: int| is_match_at(h, n, i)
}

/// `h` begins with `n`.
pub open spec fn starts_with_seq(h: Seq<u8>, n: Seq<u8>) -> bool {
    n.len() <= h.len() && h.subrange(0, n.len() as int) == n
}

/// Exact equality test of two byte slices.
pub fn bytes_eq(a: &[u8], b: &[u8]) -> (r: bool)
    ensures
        r == (a@ == b@),
{
    if a.len() != b.len() {
        return false;
    }
    let mut i: usize = 0;
    while i < a.len()
        invariant
            0 <= i <= a.len(),
            a@.len() == b@.len(),
            forall|j: int| 0 <= j < i ==> a@[j] == b@[j],
        decreases a.len() - i,
    {
        if a[i] != b[i] {
            return false;
        }
        i += 1;
    }
    proof {
        assert(a@ =~= b@);
    }
    true
}

/// Whether `n` occurs in `h` at position `i`.
pub(crate) fn match_at(h: &[u8], n: &[u8], i: usize) -> (r: bool)
    requires
        i + n@.len() <= h@.len(),
    ensures
        r == is_match_at(h@, n@, i as int),
{
    let h_len = h.len();
    let mut j: usize = 0;
    while j < n.len()
        invariant
            0 <= j <= n.len(),
            i + n@.len() <= h@.len(),
            h_len == h@.len(),
            forall|k: int| 0 <= k < j ==> h@[i + k] == n@[k],
        decreases n.len() - j,
    {
        if h[i + j] != n[j] {
            proof {
                assert(h@.subrange(i as int, i + n@.len())[j as int] == h@[i + j]);
            }
            return false;
        }
        j += 1;
    }
    proof {
        assert(h@.subrange(i as int, i + n@.len()) =~= n@);
    }
    true
}

/// Substring search: whether `n` occurs anywhere in `h`.
pub fn contains_bytes(h: &[u8], n: &[u8]) -> (r: bool)
    ensures
        r == contains_seq(h@, n@),
{
    let h_len = h.len();
    let n_len = n.len();
    if n_len > h_len {
        return false;
    }
    if n_len == 0 {
        proof {
            assert(is_match_at(h@, n@, 0)) by {
                assert(h@.subrange(0, 0) =~= n@);
            }
        }
        return true;
    }
    let last = h_len - n_len;
    let mut i: usize = 0;
    while i <= last
        invariant
            0 <= i <= last + 1,
            last == h@.len() - n@.len(),
            h_len == h@.len(),
            n_len == n@.len(),
            0 < n@.len() <= h@.len(),
            forall|k: int| 0 <= k < i ==> !is_match_at(h@, n@, k),
        decreases last + 1 - i,
    {
        if match_at(h, n, i) {
            return true;
        }
        i += 1;
    }
    proof {
        assert(forall|k: int| is_match_at(h@, n@, k) ==> 0 <= k <= last);
    }
    false
}

/// Prefix test on byte slices.
pub fn starts_with_bytes(h: &[u8], n: &[u8]) -> (r: bool)
    ensures
        r == starts_with_seq(h@, n@),
{
    if n.len() > h.len() {
        return false;
    }
    match_at(h, n, 0)
}

/// The length of `s` once trailing bytes equal to `b` are removed.
pub open spec fn trimmed_end_len(s: Seq<u8>, b: u8) -> int
    decreases s.len(),
{
    if s.len() > 0 && s[s.len() - 1] == b {
        trimmed_end_len(s.drop_last(), b)
    } else {
        s.len() as int
    }
}

pub proof fn lemma_trimmed_end_len_bounds(s: Seq<u8>, b: u8)
    ensures
        0 <= trimmed_end_len(s, b) <= s.len(),
    decreases s.len(),
{
    if s.len() > 0 && s[s.len() - 1] == b {
        lemma_trimmed_end_len_bounds(s.drop_last(), b);
    }
}

/// Everything at or beyond the trimmed length is the trimmed byte.
pub proof fn lemma_trimmed_end_suffix(s: Seq<u8>, b: u8)
    ensures
        forall|i: int| trimmed_end_len(s, b) <= i < s.len() ==> s[i] == b,
    decreases s.len(),
{
    lemma_trimmed_end_len_bounds(s, b);
    if s.len() > 0 && s[s.len() - 1] == b {
        lemma_trimmed_end_suffix(s.drop_last(), b);
        lemma_trimmed_end_len_bounds(s.drop_last(), b);
        assert(s.drop_last() =~= s.subrange(0, s.len() - 1));
        assert forall|i: int| trimmed_end_len(s, b) <= i < s.len() implies s[i] == b by {
            if i < s.len() - 1 {
                assert(s.subrange(0, s.len() - 1)[i] == s[i]);
            }
        }
    }
}

/// `s` with trailing bytes equal to `b` removed.
pub open spec fn trim_end_seq(s: Seq<u8>, b: u8) -> Seq<u8> {
    s.subrange(0, trimmed_end_len(s, b))
}

/// Length of the slice after trimming trailing `b` bytes; the prefix of that
/// length is the trimmed slice.
pub fn trim_end_len(s: &[u8], b: u8) -> (r: usize)
    ensures
        r == trimmed_end_len(s@, b),
{
    let mut end: usize = s.len();
    proof {
        assert(s@.subrange(0, end as int) =~= s@);
    }
    while end > 0 && s[end - 1] == b
        invariant
            0 <= end <= s@.len(),
            trimmed_end_len(s@, b) == trimmed_end_len(s@.subrange(0, end as int), b),
        decreases end,
    {
        proof {
            assert(s@.subrange(0, end as int).drop_last() =~= s@.subrange(0, end - 1));
        }
        end -= 1;
    }
    proof {
        if end > 0 {
            assert(s@.subrange(0, end as int)[end - 1] == s@[end - 1]);
        }
    }
    end
}


/// Index of the first occurrence of `b` in `s`, or -1 when absent.
pub open spec fn first_occ(s: Seq<u8>, b: u8) -> int
    decreases s.len(),
{
    if s.len() == 0 {
        -1
    } else if s[0] == b {
        0
    } else {
        let r = first_occ(s.skip(1), b);
        if r < 0 {
            -1
        } else {
            r + 1
        }
    }
}

pub proof fn lemma_first_occ(s: Seq<u8>, b: u8)
    ensures
        first_occ(s, b) == -1 ==> forall|i: int| 0 <= i < s.len() ==> s[i] != b,
        first_occ(s, b) >= 0 ==> first_occ(s, b) < s.len() && s[first_occ(s, b)] == b && forall|
            i: int,
        | 0 <= i < first_occ(s, b) ==> s[i] != b,
    decreases s.len(),
{
    if s.len() > 0 && s[0] != b {
        lemma_first_occ(s.skip(1), b);
        let r = first_occ(s.skip(1), b);
        if r >= 0 {
            assert(s[r + 1] == s.skip(1)[r]);
            assert forall|i: int| 0 <= i < r + 1 implies s[i] != b by {
                if i >= 1 {
                    assert(s.skip(1)[i - 1] != b);
                }
            }
        } else {
            assert forall|i: int| 0 <= i < s.len() implies s[i] != b by {
                if i >= 1 {
                    assert(s.skip(1)[i - 1] != b);
                }
            }
        }
    }
}

/// First index of `b` in `s`, if any.
pub fn find_byte(s: &[u8], b: u8) -> (r: Option<usize>)
    ensures
        r matches Some(i) ==> i == first_occ(s@, b),
        r is None ==> first_occ(s@, b) == -1,
{
    let n = s.len();
    let mut i: usize = 0;
    proof {
        assert(s@.skip(0) =~= s@);
    }
    while i < n
        invariant
            0 <= i <= n,
            n == s@.len(),
            forall|k: int| 0 <= k < i ==> s@[k] != b,
            first_occ(s@, b) == if first_occ(s@.skip(i as int), b) < 0 {
                -1int
            } else {
                i + first_occ(s@.skip(i as int), b)
            },
        decreases n - i,
    {
        if s[i] == b {
            return Some(i);
        }
        proof {
            assert(s@.skip(i as int).skip(1) =~= s@.skip(i + 1));
        }
        i += 1;
    }
    None
}

/// All bytes are decimal digits and there is at least one.
pub open spec fn all_digits(s: Seq<u8>) -> bool {
    s.len() >= 1 && forall|i: int| 0 <= i < s.len() ==> 48 <= #[trigger] s[i] <= 57
}

/// The value of a decimal digit string.
pub open spec fn digits_val(s: Seq<u8>) -> int
    decreases s.len(),
{
    if s.len() == 0 {
        0
    } else {
        digits_val(s.drop_last()) * 10 + (s.last() - 48)
    }
}

proof fn lemma_digits_val_monotone(s: Seq<u8>, k: int)
    requires
        0 <= k <= s.len(),
        all_digits(s),
    ensures
        digits_val(s.subrange(0, k)) <= digits_val(s),
        digits_val(s) >= 0,
    decreases s.len() - k,
{
    if k == s.len() {
        assert(s.subrange(0, k) =~= s);
        lemma_digits_val_nonneg(s);
    } else {
        lemma_digits_val_monotone(s, k + 1);
        let t = s.subrange(0, k + 1);
        assert(t.drop_last() =~= s.subrange(0, k));
        lemma_digits_val_nonneg(s.subrange(0, k));
    }
}

proof fn lemma_digits_val_nonneg(s: Seq<u8>)
    requires
        forall|i: int| 0 <= i < s.len() ==> 48 <= #[trigger] s[i] <= 57,
    ensures
        digits_val(s) >= 0,
    decreases s.len(),
{
    if s.len() > 0 {
        assert(s.drop_last() =~= s.subrange(0, s.len() - 1));
        lemma_digits_val_nonneg(s.drop_last());
    }
}

/// Parses a decimal digit string into a value at most `cap`; `None` when a
/// byte is not a digit, the string is empty, or the value exceeds `cap`.
pub fn parse_decimal_capped(s: &[u8], cap: u64) -> (r: Option<u64>)
    requires
        cap <= 0xffff_ffff,
    ensures
        r matches Some(v) ==> all_digits(s@) && v == digits_val(s@) && v <= cap,
        r is None ==> !(all_digits(s@) && digits_val(s@) <= cap),
{
    let n = s.len();
    if n == 0 {
        return None;
    }
    let mut acc: u64 = 0;
    let mut i: usize = 0;
    proof {
        assert(s@.subrange(0, 0) =~= Seq::<u8>::empty());
    }
    while i < n
        invariant
            0 <= i <= n,
            n == s@.len(),
            acc == digits_val(s@.subrange(0, i as int)),
            acc <= cap,
            cap <= 0xffff_ffff,
            forall|k: int| 0 <= k < i ==> 48 <= #[trigger] s@[k] <= 57,
        decreases n - i,
    {
        let b = s[i];
        if b < 48 || b > 57 {
            return None;
        }
        let next = acc * 10 + ((b - 48) as u64);
        proof {
            assert(s@.subrange(0, i + 1).drop_last() =~= s@.subrange(0, i as int));
        }
        if next > cap {
            proof {
                if all_digits(s@) {
                    lemma_digits_val_monotone(s@, i + 1);
                }
            }
            return None;
        }
        acc = next;
        i += 1;
    }
    proof {
        assert(s@.subrange(0, n as int) =~= s@);
    }
    Some(acc)
}


/// Index of the first occurrence of the needle `n` in `h`, or -1.
pub open spec fn first_match(h: Seq<u8>, n: Seq<u8>) -> int
    decreases h.len(),
{
    if h.len() < n.len() {
        -1
    } else if h.subrange(0, n.len() as int) == n {
        0
    } else if h.len() == 0 {
        -1
    } else {
        let r = first_match(h.skip(1), n);
        if r < 0 {
            -1
        } else {
            r + 1
        }
    }
}

pub proof fn lemma_first_match(h: Seq<u8>, n: Seq<u8>)
    ensures
        first_match(h, n) == -1 ==> !contains_seq(h, n),
        first_match(h, n) >= 0 ==> is_match_at(h, n, first_match(h, n)) && forall|i: int|
            0 <= i < first_match(h, n) ==> !is_match_at(h, n, i),
    decreases h.len(),
{
    let fm = first_match(h, n);
    if h.len() < n.len() {
        assert forall|i: int| !is_match_at(h, n, i) by {}
    } else if h.subrange(0, n.len() as int) == n {
    } else if h.len() == 0 {
        assert(h.subrange(0, 0) =~= h);
    } else {
        lemma_first_match(h.skip(1), n);
        let r = first_match(h.skip(1), n);
        assert forall|i: int| 1 <= i && i + n.len() <= h.len() implies (is_match_at(h, n, i)
            <==> is_match_at(h.skip(1), n, i - 1)) by {
            assert(h.skip(1).subrange(i - 1, i - 1 + n.len() as int) =~= h.subrange(
                i,
                i + n.len() as int,
            ));
        }
        if r < 0 {
            assert forall|i: int| !is_match_at(h, n, i) by {
                if 1 <= i && i + n.len() <= h.len() {
                    assert(!is_match_at(h.skip(1), n, i - 1));
                }
            }
        } else {
            assert(is_match_at(h.skip(1), n, r));
            assert(is_match_at(h, n, r + 1));
            assert forall|i: int| 0 <= i < fm implies !is_match_at(h, n, i) by {
                if i >= 1 {
                    assert(!is_match_at(h.skip(1), n, i - 1));
                }
            }
        }
    }
}

/// First index where the needle occurs, if anywhere.
pub fn find_seq(h: &[u8], n: &[u8]) -> (r: Option<usize>)
    requires
        n@.len() >= 1,
    ensures
        r matches Some(i) ==> i == first_match(h@, n@),
        r is None ==> first_match(h@, n@) == -1,
{
    proof {
        lemma_first_match(h@, n@);
    }
    let h_len = h.len();
    let n_len = n.len();
    if n_len > h_len {
        return None;
    }
    let last = h_len - n_len;
    let mut i: usize = 0;
    while i <= last
        invariant
            0 <= i <= last + 1,
            last == h@.len() - n@.len(),
            h_len == h@.len(),
            n_len == n@.len(),
            0 < n@.len() <= h@.len(),
            forall|k: int| 0 <= k < i ==> !is_match_at(h@, n@, k),
        decreases last + 1 - i,
    {
        if match_at(h, n, i) {
            proof {
                lemma_first_match(h@, n@);
                if first_match(h@, n@) != i {
                    if first_match(h@, n@) < 0 {
                        assert(contains_seq(h@, n@));
                    } else if first_match(h@, n@) < i {
                        assert(is_match_at(h@, n@, first_match(h@, n@)));
                        assert(!is_match_at(h@, n@, first_match(h@, n@)));
                    } else {
                        assert(0 <= i < first_match(h@, n@));
                        assert(!is_match_at(h@, n@, i as int));
                    }
                }
            }
            return Some(i);
        }
        i += 1;
    }
    proof {
        if first_match(h@, n@) >= 0 {
            assert(is_match_at(h@, n@, first_match(h@, n@)));
        }
    }
    None
}

/// The prefix of `h` before the first occurrence of `n`, or all of `h`.
pub open spec fn take_before(h: Seq<u8>, n: Seq<u8>) -> Seq<u8> {
    let fm = first_match(h, n);
    if fm < 0 {
        h
    } else {
        h.subrange(0, fm)
    }
}

/// What follows the first occurrence of `n` in `h`; empty when `n` is
/// absent.
pub open spec fn after_match(h: Seq<u8>, n: Seq<u8>) -> Seq<u8> {
    let fm = first_match(h, n);
    if fm < 0 {
        Seq::empty()
    } else {
        h.skip(fm + n.len() as int)
    }
}

} // verus!
