//! Byte-string helpers for the line-oriented wire format.
//!
//! The decoder and encoder work on raw bytes, so that any byte sequence an
//! author may put into a path or a variable passes through unchanged.

use vstd::prelude::*;

verus! {

/// Whether the pattern `pat` occurs in `s` at position `i`.
pub open spec fn is_match_at(s: Seq<u8>, pat: Seq<u8>, i: int) -> bool {
    0 <= i && i + pat.len() <= s.len() && s.subrange(i, i + pat.len()) == pat
}

/// The first position where `pat` occurs in `s`, or `-1` when it never does.
pub open spec fn first_match(s: Seq<u8>, pat: Seq<u8>) -> int
    decreases s.len(),
{
    if is_match_at(s, pat, 0) {
        0
    } else if s.len() == 0 {
        -1
    } else {
        let r = first_match(s.drop_first(), pat);
        if r < 0 {
            -1
        } else {
            r + 1
        }
    }
}

/// `first_match` finds a match and nothing earlier.
pub proof fn lemma_first_match(s: Seq<u8>, pat: Seq<u8>)
    ensures
        first_match(s, pat) >= 0 ==> is_match_at(s, pat, first_match(s, pat)),
        forall|j: int| 0 <= j < first_match(s, pat) ==> !is_match_at(s, pat, j),
        first_match(s, pat) == -1 ==> forall|j: int| !is_match_at(s, pat, j),
    decreases s.len(),
{
    if is_match_at(s, pat, 0) {
    } else if s.len() == 0 {
        assert forall|j: int| !is_match_at(s, pat, j) by {
            if 0 <= j && j + pat.len() <= s.len() {
                assert(j == 0 && pat.len() == 0);
            }
        }
    } else {
        lemma_first_match(s.drop_first(), pat);
        let d = s.drop_first();
        assert forall|j: int| 1 <= j && is_match_at(s, pat, j) implies is_match_at(
            d,
            pat,
            j - 1,
        ) by {
            assert(d.subrange(j - 1, j - 1 + pat.len() as int) =~= s.subrange(
                j,
                j + pat.len() as int,
            ));
        }
        assert forall|j: int| 0 <= j && is_match_at(d, pat, j) implies is_match_at(
            s,
            pat,
            j + 1,
        ) by {
            assert(s.subrange(j + 1, j + 1 + pat.len() as int) =~= d.subrange(
                j,
                j + pat.len() as int,
            ));
        }
        let r = first_match(d, pat);
        if r < 0 {
            assert forall|j: int| !is_match_at(s, pat, j) by {
                if is_match_at(s, pat, j) {
                    if j == 0 {
                    } else {
                        assert(is_match_at(d, pat, j - 1));
                    }
                }
            }
        }
    }
}

/// Whether two byte strings hold the same bytes.
pub fn bytes_eq(a: &[u8], b: &[u8]) -> (r: bool)
    ensures
        r <==> a@ == b@,
{
    if a.len() != b.len() {
        proof {
            assert(a@ != b@);
        }
        return false;
    }
    let n = a.len();
    let mut i: usize = 0;
    while i < n
        invariant
            0 <= i <= n,
            n == a@.len(),
            n == b@.len(),
            forall|k: int| 0 <= k < i ==> a@[k] == b@[k],
        decreases n - i,
    {
        if a[i] != b[i] {
            return false;
        }
        i = i + 1;
    }
    proof {
        assert(a@ =~= b@);
    }
    true
}

/// Whether `s` starts with `pat`.
pub fn starts_with(s: &[u8], pat: &[u8]) -> (r: bool)
    ensures
        r <==> is_match_at(s@, pat@, 0),
{
    if s.len() < pat.len() {
        return false;
    }
    let n = pat.len();
    let mut i: usize = 0;
    while i < n
        invariant
            0 <= i <= n,
            n == pat@.len(),
            n <= s@.len(),
            forall|k: int| 0 <= k < i ==> s@[k] == pat@[k],
        decreases n - i,
    {
        if s[i] != pat[i] {
            proof {
                assert(s@.subrange(0, n as int)[i as int] == s@[i as int]);
            }
            return false;
        }
        i = i + 1;
    }
    proof {
        assert(s@.subrange(0, n as int) =~= pat@);
    }
    true
}

/// Find the first occurrence of `pat` in `s`.
pub fn find_first(s: &[u8], pat: &[u8]) -> (r: Option<usize>)
    ensures
        match r {
            Some(i) => i as int == first_match(s@, pat@) && is_match_at(s@, pat@, i as int),
            None => first_match(s@, pat@) == -1,
        },
{
    proof {
        lemma_first_match(s@, pat@);
    }
    if pat.len() > s.len() {
        proof {
            if first_match(s@, pat@) >= 0 {
                assert(is_match_at(s@, pat@, first_match(s@, pat@)));
            }
        }
        return None;
    }
    let last_start: usize = s.len() - pat.len();
    let mut i: usize = 0;
    loop
        invariant
            0 <= i <= last_start + 1,
            last_start == s@.len() - pat@.len(),
            pat@.len() <= s@.len(),
            s@.len() <= usize::MAX,
            forall|j: int| 0 <= j < i ==> !is_match_at(s@, pat@, j),
        decreases last_start + 1 - i,
    {
        if i > last_start {
            proof {
                lemma_first_match(s@, pat@);
                if first_match(s@, pat@) >= 0 {
                    assert(is_match_at(s@, pat@, first_match(s@, pat@)));
                }
                if first_match(s@, pat@) == -1 {
                } else {
                    assert(first_match(s@, pat@) > last_start);
                    assert(first_match(s@, pat@) + pat@.len() > s@.len());
                }
            }
            return None;
        }
        let mut k: usize = 0;
        let mut all: bool = true;
        while k < pat.len()
            invariant
                0 <= k <= pat@.len(),
                i + pat@.len() <= s@.len(),
                i <= s@.len(),
                s@.len() <= usize::MAX,
                all <==> (forall|m: int| 0 <= m < k ==> s@[i + m] == pat@[m]),
            decreases pat@.len() - k,
        {
            proof {
                assert(i + k < s@.len());
            }
            if s[i + k] != pat[k] {
                all = false;
                proof {
                    assert(s@[i + k] != pat@[k as int]);
                }
                k = pat.len();
            } else {
                proof {
                    assert(s@[i + k] == pat@[k as int]);
                }
                k = k + 1;
            }
        }
        if all {
            proof {
                assert(s@.subrange(i as int, i + pat@.len()) =~= pat@);
                assert(is_match_at(s@, pat@, i as int));
                lemma_first_match(s@, pat@);
                let fm = first_match(s@, pat@);
                if fm == -1 {
                    assert(!is_match_at(s@, pat@, i as int));
                } else if fm > i as int {
                    assert(!is_match_at(s@, pat@, i as int));
                } else if fm < i as int {
                    assert(!is_match_at(s@, pat@, fm));
                }
            }
            return Some(i);
        }
        proof {
            if is_match_at(s@, pat@, i as int) {
                assert(forall|m: int|
                    0 <= m < pat@.len() ==> #[trigger] s@.subrange(i as int, i + pat@.len())[m]
                        == s@[i + m]);
            }
            // a mismatch was found, so the pattern is not empty
            if pat@.len() == 0 {
                assert(all);
            }
            assert(i < last_start + 1);
        }
        i = i + 1;
    }
}

/// Copy the bytes of `s` from `a` (inclusive) to `b` (exclusive).
pub fn subrange_vec(s: &[u8], a: usize, b: usize) -> (r: Vec<u8>)
    requires
        0 <= a <= b <= s@.len(),
    ensures
        r@ == s@.subrange(a as int, b as int),
{
    let mut out: Vec<u8> = Vec::new();
    let mut i: usize = a;
    while i < b
        invariant
            a <= i <= b,
            b <= s@.len(),
            out@ =~= s@.subrange(a as int, i as int),
        decreases b - i,
    {
        out.push(s[i]);
        proof {
            assert(out@ =~= s@.subrange(a as int, (i + 1) as int));
        }
        i = i + 1;
    }
    out
}

/// The pieces of `s` cut at every occurrence of `sep`; cutting an empty
/// string yields one empty piece.
pub open spec fn split_at_byte(s: Seq<u8>, sep: u8) -> Seq<Seq<u8>>
    decreases s.len(),
{
    let i = first_match(s, seq![sep]);
    if i < 0 || i >= s.len() {
        seq![s]
    } else {
        seq![s.take(i)] + split_at_byte(s.skip(i + 1), sep)
    }
}

/// A one-byte pattern occurs exactly at the positions holding that byte.
proof fn lemma_singleton_match(s: Seq<u8>, sep: u8, i: int)
    requires
        0 <= i < s.len(),
    ensures
        is_match_at(s, seq![sep], i) <==> s[i] == sep,
{
    if s[i] == sep {
        assert(s.subrange(i, i + 1) =~= seq![sep]);
    }
    if is_match_at(s, seq![sep], i) {
        assert(s.subrange(i, i + 1)[0] == s[i]);
    }
}

/// If the byte first occurs at `k` in `s`, the split's head ends there.
proof fn lemma_split_step(s: Seq<u8>, sep: u8, k: int)
    requires
        0 <= k < s.len(),
        s[k] == sep,
        forall|m: int| 0 <= m < k ==> s[m] != sep,
    ensures
        split_at_byte(s, sep) == seq![s.take(k)] + split_at_byte(s.skip(k + 1), sep),
{
    lemma_first_match(s, seq![sep]);
    let fm = first_match(s, seq![sep]);
    lemma_singleton_match(s, sep, k);
    assert(is_match_at(s, seq![sep], k));
    if fm == -1 {
        assert(!is_match_at(s, seq![sep], k));
    }
    if fm < k {
        lemma_singleton_match(s, sep, fm);
    }
    if fm > k {
        assert(!is_match_at(s, seq![sep], k));
    }
    assert(fm == k);
}

/// If the byte never occurs in `s`, the split is `s` alone.
proof fn lemma_split_whole(s: Seq<u8>, sep: u8)
    requires
        forall|m: int| 0 <= m < s.len() ==> s[m] != sep,
    ensures
        split_at_byte(s, sep) == seq![s],
{
    lemma_first_match(s, seq![sep]);
    let fm = first_match(s, seq![sep]);
    if fm >= 0 {
        assert(is_match_at(s, seq![sep], fm));
        assert(fm + 1 <= s.len());
        lemma_singleton_match(s, sep, fm);
    }
}

/// Cut `s` at every occurrence of `sep`.
pub fn split_bytes(s: &[u8], sep: u8) -> (r: Vec<Vec<u8>>)
    ensures
        r@.len() == split_at_byte(s@, sep).len(),
        forall|i: int| 0 <= i < r@.len() ==> r@[i]@ == split_at_byte(s@, sep)[i],
        r@.len() >= 1,
{
    let ghost total = split_at_byte(s@, sep);
    let len = s.len();
    let mut out: Vec<Vec<u8>> = Vec::new();
    let mut start: usize = 0;
    let mut i: usize = 0;
    proof {
        assert(s@.skip(0) =~= s@);
    }
    while i < len
        invariant
            0 <= start <= i <= len,
            len == s@.len(),
            total == split_at_byte(s@, sep),
            forall|m: int| start <= m < i ==> s@[m] != sep,
            out@.len() + split_at_byte(s@.skip(start as int), sep).len() == total.len(),
            forall|m: int| 0 <= m < out@.len() ==> #[trigger] out@[m]@ == total[m],
            forall|m: int|
                0 <= m < split_at_byte(s@.skip(start as int), sep).len() ==> #[trigger] split_at_byte(
                    s@.skip(start as int),
                    sep,
                )[m] == total[out@.len() + m],
        decreases len - i,
    {
        if s[i] == sep {
            let piece = subrange_vec(s, start, i);
            proof {
                let suf = s@.skip(start as int);
                let oldlen = out@.len();
                assert(suf[(i - start) as int] == s@[i as int]);
                assert(forall|m: int|
                    0 <= m < i - start ==> #[trigger] suf[m] == s@[start + m] && s@[start + m]
                        != sep);
                lemma_split_step(suf, sep, (i - start) as int);
                assert(suf.take((i - start) as int) =~= s@.subrange(start as int, i as int));
                assert(suf.skip((i - start) as int + 1) =~= s@.skip((i + 1) as int));
                let parts = split_at_byte(suf, sep);
                let rest = split_at_byte(s@.skip((i + 1) as int), sep);
                assert(parts == seq![suf.take((i - start) as int)] + rest);
                assert(parts[0] == piece@);
                assert(parts.len() == 1 + rest.len());
                assert(forall|m: int| 0 <= m < rest.len() ==> #[trigger] rest[m] == parts[m + 1]);
                assert(parts[0] == total[oldlen as int]);
            }
            out.push(piece);
            start = i + 1;
        }
        i = i + 1;
    }
    let piece = subrange_vec(s, start, len);
    proof {
        let suf = s@.skip(start as int);
        assert(forall|m: int|
            0 <= m < suf.len() ==> #[trigger] suf[m] == s@[start + m] && s@[start + m] != sep);
        lemma_split_whole(suf, sep);
        assert(suf =~= s@.subrange(start as int, len as int));
        assert(split_at_byte(suf, sep)[0] == suf);
        assert(suf == total[out@.len() as int]);
    }
    out.push(piece);
    out
}

} // verus!
