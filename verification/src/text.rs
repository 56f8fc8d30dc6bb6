//! Character classes and text scanning: the structural delimiters of the
//! encoding, whitespace trimming, and first-occurrence searches, each with a
//! spec-level definition and a verified executable counterpart.

use vstd::prelude::*;

verus! {

/// The four structural delimiters of the one-line encoding.
pub open spec fn is_delim(c: char) -> bool {
    c == ',' || c == '<' || c == '>' || c == ';'
}

/// The whitespace characters removed by trimming (the Unicode `White_Space`
/// set, as used by `str::trim`).
pub open spec fn is_space(c: char) -> bool {
    ||| c == ' '
    ||| c == '\t'
    ||| c == '\n'
    ||| c == '\u{000B}'
    ||| c == '\u{000C}'
    ||| c == '\r'
    ||| c == '\u{0085}'
    ||| c == '\u{00A0}'
    ||| c == '\u{1680}'
    ||| ('\u{2000}' <= c && c <= '\u{200A}')
    ||| c == '\u{2028}'
    ||| c == '\u{2029}'
    ||| c == '\u{202F}'
    ||| c == '\u{205F}'
    ||| c == '\u{3000}'
}

pub fn is_space_char(c: char) -> (b: bool)
    ensures
        b == is_space(c),
{
    c == ' ' || c == '\t' || c == '\n' || c == '\u{000B}' || c == '\u{000C}' || c == '\r'
        || c == '\u{0085}' || c == '\u{00A0}' || c == '\u{1680}' || ('\u{2000}' <= c && c
        <= '\u{200A}') || c == '\u{2028}' || c == '\u{2029}' || c == '\u{202F}' || c == '\u{205F}'
        || c == '\u{3000}'
}

/// True when no character of `s` is a structural delimiter.
pub open spec fn no_delims(s: Seq<char>) -> bool {
    forall|i: int| 0 <= i < s.len() ==> !is_delim(#[trigger] s[i])
}

/// `i` is the least index below `n` satisfying `q`.
pub open spec fn least_idx_at(n: int, q: spec_fn(int) -> bool, i: int) -> bool {
    0 <= i < n && q(i) && (forall|j: int| 0 <= j < i ==> !#[trigger] q(j))
}

/// Some index below `n` satisfies `q`.
pub open spec fn has_idx(n: int, q: spec_fn(int) -> bool) -> bool {
    exists|i: int| least_idx_at(n, q, i)
}

/// The least index below `n` satisfying `q` (meaningful only under `has_idx`).
pub open spec fn least_idx(n: int, q: spec_fn(int) -> bool) -> int {
    choose|i: int| least_idx_at(n, q, i)
}

/// A witness below `n` guarantees that a least witness exists.
pub proof fn lemma_least_idx_exists(n: int, q: spec_fn(int) -> bool, w: int)
    requires
        0 <= w < n,
        q(w),
    ensures
        has_idx(n, q),
        least_idx_at(n, q, least_idx(n, q)),
        0 <= least_idx(n, q) <= w,
    decreases w,
{
    if forall|j: int| 0 <= j < w ==> !#[trigger] q(j) {
        assert(least_idx_at(n, q, w));
    } else {
        let w2 = choose|j: int| 0 <= j < w && #[trigger] q(j);
        lemma_least_idx_exists(n, q, w2);
    }
    let l = least_idx(n, q);
    assert(least_idx_at(n, q, l));
    if l > w {
        assert(!q(w));
    }
}

/// The least index is unique.
pub proof fn lemma_least_idx_unique(n: int, q: spec_fn(int) -> bool, i: int)
    requires
        least_idx_at(n, q, i),
    ensures
        has_idx(n, q),
        least_idx(n, q) == i,
{
    let l = least_idx(n, q);
    assert(least_idx_at(n, q, l));
    if l < i {
        assert(!q(l));
    }
    if i < l {
        assert(!q(i));
    }
}

/// Every character of `s` is whitespace.
pub open spec fn all_spaces(s: Seq<char>) -> bool {
    forall|i: int| 0 <= i < s.len() ==> is_space(#[trigger] s[i])
}

/// Index of the first non-whitespace character of `s`.
pub open spec fn trim_lo(s: Seq<char>) -> int {
    least_idx(s.len() as int, |i: int| !is_space(s[i]))
}

/// Index of the last non-whitespace character of `s`.
pub open spec fn trim_hi(s: Seq<char>) -> int {
    s.len() - 1 - least_idx(s.len() as int, |i: int| !is_space(s[s.len() - 1 - i]))
}

/// `s` with surrounding whitespace removed.
pub open spec fn trimmed(s: Seq<char>) -> Seq<char> {
    if all_spaces(s) {
        Seq::empty()
    } else {
        s.subrange(trim_lo(s), trim_hi(s) + 1)
    }
}

/// Positions of the trimming bounds: outside them only whitespace, at them
/// non-whitespace.
pub proof fn lemma_trim_bounds(s: Seq<char>)
    requires
        !all_spaces(s),
    ensures
        0 <= trim_lo(s) <= trim_hi(s) < s.len(),
        !is_space(s[trim_lo(s)]),
        !is_space(s[trim_hi(s)]),
        forall|j: int| 0 <= j < trim_lo(s) ==> is_space(#[trigger] s[j]),
        forall|j: int| trim_hi(s) < j < s.len() ==> is_space(#[trigger] s[j]),
{
    let n = s.len() as int;
    let w = choose|i: int| 0 <= i < n && !is_space(#[trigger] s[i]);
    assert(!is_space(s[w]));
    let ql = |i: int| !is_space(s[i]);
    let qh = |i: int| !is_space(s[n - 1 - i]);
    lemma_least_idx_exists(n, ql, w);
    lemma_least_idx_exists(n, qh, n - 1 - w);
    let lo = least_idx(n, ql);
    let hr = least_idx(n, qh);
    assert(least_idx_at(n, ql, lo));
    assert(least_idx_at(n, qh, hr));
    assert(ql(lo));
    assert(qh(hr));
    assert(trim_lo(s) == lo);
    assert(trim_hi(s) == n - 1 - hr);
    if lo > n - 1 - hr {
        assert(!ql(n - 1 - hr));
    }
    assert forall|j: int| 0 <= j < lo implies is_space(#[trigger] s[j]) by {
        assert(!ql(j));
    }
    assert forall|j: int| n - 1 - hr < j < n implies is_space(#[trigger] s[j]) by {
        assert(!qh(n - 1 - j));
    }
}

/// A string is its own trim exactly when it is empty or starts and ends with
/// non-whitespace.
pub proof fn lemma_trim_stable_iff(s: Seq<char>)
    ensures
        (trimmed(s) == s) <==> (s.len() == 0 || (!is_space(s[0]) && !is_space(s[s.len() - 1]))),
{
    if s.len() == 0 {
        assert(all_spaces(s));
        assert(trimmed(s) =~= s);
    } else if all_spaces(s) {
        assert(is_space(s[0]));
        assert(trimmed(s).len() == 0);
    } else {
        lemma_trim_bounds(s);
        if !is_space(s[0]) && !is_space(s[s.len() - 1]) {
            let ql = |i: int| !is_space(s[i]);
            let n = s.len() as int;
            let qh = |i: int| !is_space(s[n - 1 - i]);
            lemma_least_idx_unique(n, ql, 0);
            lemma_least_idx_unique(n, qh, 0);
            assert(trimmed(s) =~= s);
        } else {
            assert(trimmed(s).len() < s.len());
        }
    }
}

/// The marker `m` occurs in `s` at position `i`.
pub open spec fn occurs_at(s: Seq<char>, m: Seq<char>, i: int) -> bool {
    0 <= i && i + m.len() <= s.len() && s.subrange(i, i + m.len()) == m
}

/// The marker `m` occurs somewhere in `s`.
pub open spec fn has_sub(s: Seq<char>, m: Seq<char>) -> bool {
    has_idx(s.len() as int + 1, |i: int| occurs_at(s, m, i))
}

/// Position of the first occurrence of `m` in `s`.
pub open spec fn first_sub(s: Seq<char>, m: Seq<char>) -> int {
    least_idx(s.len() as int + 1, |i: int| occurs_at(s, m, i))
}

/// Extract the characters `from..to` of `s`, with surrounding whitespace
/// removed, as an owned string.
pub fn trimmed_substring(s: &str, from: usize, to: usize) -> (r: String)
    requires
        from <= to <= s@.len(),
    ensures
        r@ == trimmed(s@.subrange(from as int, to as int)),
{
    let ghost seg = s@.subrange(from as int, to as int);
    let mut a: usize = from;
    let mut b: usize = to;
    while a < b && is_space_char(s.get_char(a))
        invariant
            from <= a <= b <= to <= s@.len(),
            b == to,
            forall|j: int| from <= j < a ==> is_space(#[trigger] s@[j]),
        decreases b - a,
    {
        a = a + 1;
    }
    while b > a && is_space_char(s.get_char(b - 1))
        invariant
            from <= a <= b <= to <= s@.len(),
            forall|j: int| from <= j < a ==> is_space(#[trigger] s@[j]),
            forall|j: int| b <= j < to ==> is_space(#[trigger] s@[j]),
            a < b ==> !is_space(s@[a as int]),
        decreases b,
    {
        b = b - 1;
    }
    let r = s.substring_char(a, b).to_owned();
    proof {
        if a == b {
            assert(all_spaces(seg)) by {
                assert forall|i: int| 0 <= i < seg.len() implies is_space(#[trigger] seg[i]) by {
                    assert(seg[i] == s@[from + i]);
                }
            }
            assert(r@ =~= trimmed(seg));
        } else {
            assert(!is_space(s@[a as int]));
            assert(!is_space(s@[b - 1]));
            assert(!all_spaces(seg)) by {
                assert(seg[a - from] == s@[a as int]);
            }
            lemma_trim_bounds(seg);
            let lo = trim_lo(seg);
            let hi = trim_hi(seg);
            assert forall|j: int| 0 <= j < a - from implies is_space(#[trigger] seg[j]) by {
                assert(seg[j] == s@[from + j]);
            }
            assert forall|j: int| b - from <= j < seg.len() implies is_space(#[trigger] seg[j]) by {
                assert(seg[j] == s@[from + j]);
            }
            assert(seg[a - from] == s@[a as int]);
            assert(seg[b - from - 1] == s@[b - 1]);
            // the computed bounds coincide with the spec-level trim bounds
            assert(lo == a - from) by {
                if lo < a - from {
                    assert(is_space(seg[lo]));
                }
                if lo > a - from {
                    assert(is_space(seg[a - from]));
                }
            }
            assert(hi == b - from - 1) by {
                if hi > b - from - 1 {
                    assert(is_space(seg[hi]));
                }
                if hi < b - from - 1 {
                    assert(is_space(seg[b - from - 1]));
                }
            }
            assert(r@ =~= trimmed(seg));
        }
    }
    r
}

/// Find the position of the first occurrence of the marker `m` in `s`, if
/// any.
pub fn find_sub(s: &str, m: &str) -> (r: Option<usize>)
    requires
        m@.len() >= 1,
    ensures
        match r {
            Some(i) => least_idx_at(s@.len() as int + 1, |k: int| occurs_at(s@, m@, k), i as int)
                && has_sub(s@, m@) && first_sub(s@, m@) == i,
            None => !has_sub(s@, m@),
        },
{
    let n = s.unicode_len();
    let ml = m.unicode_len();
    if ml > n {
        proof {
            assert forall|k: int| 0 <= k < s@.len() + 1 implies !occurs_at(s@, m@, k) by {}
            if has_sub(s@, m@) {
                let l = least_idx(s@.len() as int + 1, |k: int| occurs_at(s@, m@, k));
                assert(least_idx_at(s@.len() as int + 1, |k: int| occurs_at(s@, m@, k), l));
            }
        }
        return None;
    }
    let mut i: usize = 0;
    while i <= n - ml
        invariant
            m@.len() >= 1,
            ml == m@.len(),
            n == s@.len(),
            ml <= n,
            0 <= i <= n - ml + 1,
            forall|k: int| 0 <= k < i ==> !#[trigger] occurs_at(s@, m@, k),
        decreases n - ml + 1 - i,
    {
        let mut j: usize = 0;
        let mut ok: bool = true;
        while j < ml
            invariant
                ml == m@.len(),
                n == s@.len(),
                i + ml <= n,
                0 <= j <= ml,
                ok <==> (forall|t: int| 0 <= t < j ==> s@[i + t] == #[trigger] m@[t]),
            decreases ml - j,
        {
            if s.get_char(i + j) != m.get_char(j) {
                ok = false;
                proof {
                    assert(s@[i + j] != m@[j as int]);
                }
                j = ml;
            } else {
                proof {
                    assert(s@[i + j as int] == m@[j as int]);
                }
                j = j + 1;
            }
        }
        if ok {
            proof {
                assert(s@.subrange(i as int, i + m@.len()) =~= m@);
                assert(occurs_at(s@, m@, i as int));
                assert(least_idx_at(s@.len() as int + 1, |k: int| occurs_at(s@, m@, k), i as int));
                lemma_least_idx_unique(s@.len() as int + 1, |k: int| occurs_at(s@, m@, k), i as int);
            }
            return Some(i);
        }
        proof {
            let jj = choose|t: int| 0 <= t < m@.len() && s@[i + t] != #[trigger] m@[t];
            assert(!occurs_at(s@, m@, i as int)) by {
                if occurs_at(s@, m@, i as int) {
                    assert(s@.subrange(i as int, i + m@.len())[jj] == m@[jj]);
                }
            }
        }
        i = i + 1;
    }
    proof {
        assert forall|k: int| 0 <= k < s@.len() + 1 implies !occurs_at(s@, m@, k) by {}
        if has_sub(s@, m@) {
            let l = least_idx(s@.len() as int + 1, |k: int| occurs_at(s@, m@, k));
            assert(least_idx_at(s@.len() as int + 1, |k: int| occurs_at(s@, m@, k), l));
        }
    }
    None
}


/// Trimming yields the empty string exactly for all-whitespace input.
pub proof fn lemma_trimmed_empty_iff(s: Seq<char>)
    ensures
        (trimmed(s).len() == 0) <==> all_spaces(s),
{
    if !all_spaces(s) {
        lemma_trim_bounds(s);
    }
}

/// Check that the characters `from..to` of `s` are all whitespace.
pub fn all_spaces_range(s: &str, from: usize, to: usize) -> (b: bool)
    requires
        from <= to <= s@.len(),
    ensures
        b == all_spaces(s@.subrange(from as int, to as int)),
{
    let ghost sub = s@.subrange(from as int, to as int);
    let mut i: usize = from;
    while i < to
        invariant
            from <= i <= to <= s@.len(),
            forall|j: int| from <= j < i ==> is_space(#[trigger] s@[j]),
        decreases to - i,
    {
        if !is_space_char(s.get_char(i)) {
            proof {
                let sub2 = s@.subrange(from as int, to as int);
                assert(sub2[i - from] == s@[i as int]);
                assert(!is_space(sub2[i - from]));
            }
            return false;
        }
        i = i + 1;
    }
    proof {
        assert forall|j: int| 0 <= j < sub.len() implies is_space(#[trigger] sub[j]) by {
            assert(sub[j] == s@[from + j]);
        }
    }
    true
}


/// Prepending a space does not change the trimmed value.
pub proof fn lemma_trim_space_head(s: Seq<char>)
    ensures
        trimmed(seq![' '] + s) == trimmed(s),
{
    let t = seq![' '] + s;
    assert(t.len() == s.len() + 1);
    assert(t[0] == ' ');
    assert forall|j: int| 0 <= j < s.len() implies t[j + 1] == s[j] by {}
    if all_spaces(s) {
        assert(all_spaces(t)) by {
            assert forall|i: int| 0 <= i < t.len() implies is_space(#[trigger] t[i]) by {
                if i > 0 {
                    assert(t[i] == s[i - 1]);
                }
            }
        }
        assert(trimmed(t) =~= trimmed(s));
    } else {
        let n = s.len() as int;
        let w = choose|i: int| 0 <= i < n && !is_space(#[trigger] s[i]);
        assert(t[w + 1] == s[w]);
        assert(!all_spaces(t));
        lemma_trim_bounds(s);
        lemma_trim_bounds(t);
        let lo = trim_lo(s);
        let hi = trim_hi(s);
        assert(t[lo + 1] == s[lo]);
        assert(t[hi + 1] == s[hi]);
        assert(trim_lo(t) == lo + 1) by {
            if trim_lo(t) < lo + 1 {
                if trim_lo(t) > 0 {
                    assert(is_space(s[trim_lo(t) - 1]));
                    assert(t[trim_lo(t)] == s[trim_lo(t) - 1]);
                }
            }
            if trim_lo(t) > lo + 1 {
                assert(is_space(t[lo + 1]));
            }
        }
        assert(trim_hi(t) == hi + 1) by {
            if trim_hi(t) < hi + 1 {
                assert(is_space(t[hi + 1]));
            }
            if trim_hi(t) > hi + 1 {
                assert(is_space(s[trim_hi(t) - 1]));
                assert(t[trim_hi(t)] == s[trim_hi(t) - 1]);
            }
        }
        assert(trimmed(t) =~= trimmed(s)) by {
            assert forall|j: int| 0 <= j < hi + 1 - lo implies trimmed(t)[j] == trimmed(s)[j] by {
                assert(trimmed(t)[j] == t[lo + 1 + j]);
                assert(trimmed(s)[j] == s[lo + j]);
                assert(t[lo + 1 + j] == s[lo + j]);
            }
        }
    }
}

} // verus!
