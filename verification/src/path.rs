//! Path normalization.
//!
//! Every path handed to an open request is normalized by stripping leading
//! and trailing path separators (`/`). The normalized path is then treated
//! as an opaque key; a path whose normalized form is empty is rejected by
//! the open logic.

use vstd::prelude::*;

verus! {

/// The path separator character.
pub open spec fn is_separator(c: char) -> bool {
    c == '/'
}

/// `s` with every leading separator removed.
pub open spec fn trim_leading(s: Seq<char>) -> Seq<char>
    decreases s.len(),
{
    if s.len() > 0 && is_separator(s[0]) {
        trim_leading(s.subrange(1, s.len() as int))
    } else {
        s
    }
}

/// `s` with every trailing separator removed.
pub open spec fn trim_trailing(s: Seq<char>) -> Seq<char>
    decreases s.len(),
{
    if s.len() > 0 && is_separator(s[s.len() - 1]) {
        trim_trailing(s.subrange(0, s.len() - 1))
    } else {
        s
    }
}

/// The normalized form of a path: leading and trailing separators stripped.
pub open spec fn normalize(s: Seq<char>) -> Seq<char> {
    trim_trailing(trim_leading(s))
}

/// If the first `k` characters of `s` are separators and the character at
/// `k` (when present) is not, then trimming the leading separators keeps
/// exactly the suffix from `k` on.
proof fn lemma_trim_leading_is_suffix(s: Seq<char>, k: int)
    requires
        0 <= k <= s.len(),
        forall|j: int| 0 <= j < k ==> is_separator(s[j]),
        k == s.len() || !is_separator(s[k]),
    ensures
        trim_leading(s) == s.subrange(k, s.len() as int),
    decreases k,
{
    if k == 0 {
        assert(s.subrange(0, s.len() as int) =~= s);
    } else {
        let t = s.subrange(1, s.len() as int);
        assert(forall|j: int| 0 <= j < k - 1 ==> is_separator(t[j]));
        lemma_trim_leading_is_suffix(t, k - 1);
        assert(t.subrange(k - 1, t.len() as int) =~= s.subrange(k, s.len() as int));
    }
}

/// If every character of `s` from `k` on is a separator and the character
/// just before `k` (when present) is not, then trimming the trailing
/// separators keeps exactly the prefix up to `k`.
proof fn lemma_trim_trailing_is_prefix(s: Seq<char>, k: int)
    requires
        0 <= k <= s.len(),
        forall|j: int| k <= j < s.len() ==> is_separator(s[j]),
        k == 0 || !is_separator(s[k - 1]),
    ensures
        trim_trailing(s) == s.subrange(0, k),
    decreases s.len() - k,
{
    if k == s.len() {
        if s.len() > 0 && is_separator(s[s.len() - 1]) {
            let t = s.subrange(0, s.len() - 1);
            lemma_trim_trailing_is_prefix(t, k - 1);
        } else {
            assert(s.subrange(0, s.len() as int) =~= s);
        }
    } else {
        let t = s.subrange(0, s.len() - 1);
        assert(forall|j: int| k <= j < t.len() ==> is_separator(t[j]));
        lemma_trim_trailing_is_prefix(t, k);
        assert(t.subrange(0, k) =~= s.subrange(0, k));
    }
}

/// If the characters of `s` before `start` and from `end` on are all
/// separators, and the characters at the two boundaries are not, then the
/// normalized form of `s` is exactly `s[start..end]`.
proof fn lemma_normalize_is_subrange(s: Seq<char>, start: int, end: int)
    requires
        0 <= start <= end <= s.len(),
        forall|j: int| 0 <= j < start ==> is_separator(s[j]),
        forall|j: int| end <= j < s.len() ==> is_separator(s[j]),
        start == end || (!is_separator(s[start]) && !is_separator(s[end - 1])),
    ensures
        normalize(s) == s.subrange(start, end),
{
    if start == end {
        // Everything is a separator; both trims reach the empty sequence.
        lemma_trim_leading_is_suffix(s, s.len() as int);
        let t = s.subrange(s.len() as int, s.len() as int);
        assert(t =~= Seq::<char>::empty());
        lemma_trim_trailing_is_prefix(t, 0);
        assert(s.subrange(start, end) =~= Seq::<char>::empty());
    } else {
        lemma_trim_leading_is_suffix(s, start);
        let t = s.subrange(start, s.len() as int);
        assert(forall|j: int| end - start <= j < t.len() ==> is_separator(t[j]));
        lemma_trim_trailing_is_prefix(t, end - start);
        assert(t.subrange(0, end - start) =~= s.subrange(start, end));
    }
}

/// Strips leading and trailing separators from `path`.
pub fn trim_separators(path: &str) -> (r: &str)
    ensures
        r@ == normalize(path@),
{
    let len = path.unicode_len();
    let mut start: usize = 0;
    while start < len && path.get_char(start) == '/'
        invariant
            len == path@.len(),
            0 <= start <= len,
            forall|j: int| 0 <= j < start ==> is_separator(path@[j]),
        decreases len - start,
    {
        start = start + 1;
    }
    let mut end: usize = len;
    while end > start && path.get_char(end - 1) == '/'
        invariant
            len == path@.len(),
            start <= end <= len,
            start == len || !is_separator(path@[start as int]),
            forall|j: int| end <= j < len ==> is_separator(path@[j]),
        decreases end,
    {
        end = end - 1;
    }
    proof {
        lemma_normalize_is_subrange(path@, start as int, end as int);
    }
    path.substring_char(start, end)
}

/// Normalizes a non-empty path by stripping leading and trailing
/// separators. The caller must not pass an empty path.
pub fn fix_path(path: &str) -> (r: &str)
    requires
        path@.len() > 0,
    ensures
        r@ == normalize(path@),
{
    trim_separators(path)
}

} // verus!
