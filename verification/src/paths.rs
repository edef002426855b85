//! URL paths as byte strings, and the normalized join rule used when a
//! module's prefix is laid under its parent's.
//!
//! A declared path is acceptable when it is non-empty and holds no two
//! adjacent slashes. Joining strips trailing slashes from the left part
//! and leading slashes from the right part and puts exactly one slash
//! between them, so the result never holds a double slash and does not
//! depend on how either side spelled the boundary.

use vstd::prelude::*;

verus! {

/// The byte `b'/'`.
pub const SLASH: u8 = 47;

/// No two adjacent slash bytes anywhere in `s`.
pub open spec fn clean(s: Seq<u8>) -> bool {
    forall|i: int| 0 <= i && i + 1 < s.len() ==> (#[trigger] s[i] != SLASH || s[i + 1] != SLASH)
}

/// A declared path is acceptable: non-empty and free of double slashes.
pub open spec fn path_ok(s: Seq<u8>) -> bool {
    s.len() > 0 && clean(s)
}

/// `s` without its trailing slashes.
pub open spec fn strip_trailing(s: Seq<u8>) -> Seq<u8>
    decreases s.len(),
{
    if s.len() > 0 && s[s.len() - 1] == SLASH {
        strip_trailing(s.drop_last())
    } else {
        s
    }
}

/// `s` without its leading slashes.
pub open spec fn strip_leading(s: Seq<u8>) -> Seq<u8>
    decreases s.len(),
{
    if s.len() > 0 && s[0] == SLASH {
        strip_leading(s.drop_first())
    } else {
        s
    }
}

/// The normalized join: `prefix` with trailing slashes dropped, one
/// slash, then `path` with leading slashes dropped.
pub open spec fn join_spec(prefix: Seq<u8>, path: Seq<u8>) -> Seq<u8> {
    strip_trailing(prefix) + seq![SLASH] + strip_leading(path)
}

/// `strip_trailing` keeps an initial segment of `s`, and what it keeps
/// does not end in a slash.
pub proof fn lemma_strip_trailing_shape(s: Seq<u8>)
    ensures
        strip_trailing(s).len() <= s.len(),
        strip_trailing(s) == s.take(strip_trailing(s).len() as int),
        strip_trailing(s).len() > 0 ==> strip_trailing(s).last() != SLASH,
    decreases s.len(),
{
    if s.len() > 0 && s[s.len() - 1] == SLASH {
        lemma_strip_trailing_shape(s.drop_last());
        let k = strip_trailing(s).len() as int;
        assert(s.drop_last().take(k) =~= s.take(k));
    } else {
        assert(s =~= s.take(s.len() as int));
    }
}

/// `strip_leading` keeps a final segment of `s`, and what it keeps does
/// not begin with a slash.
pub proof fn lemma_strip_leading_shape(s: Seq<u8>)
    ensures
        strip_leading(s).len() <= s.len(),
        strip_leading(s) == s.subrange(s.len() - strip_leading(s).len(), s.len() as int),
        strip_leading(s).len() > 0 ==> strip_leading(s)[0] != SLASH,
    decreases s.len(),
{
    if s.len() > 0 && s[0] == SLASH {
        lemma_strip_leading_shape(s.drop_first());
        let k = strip_leading(s).len() as int;
        assert(s.drop_first().subrange(s.len() - 1 - k, s.len() - 1) =~= s.subrange(
            s.len() - k,
            s.len() as int,
        ));
    } else {
        assert(s =~= s.subrange(0, s.len() as int));
    }
}

/// Freedom from double slashes carries over to any contiguous part.
pub proof fn lemma_clean_subrange(s: Seq<u8>, i: int, j: int)
    requires
        clean(s),
        0 <= i <= j <= s.len(),
    ensures
        clean(s.subrange(i, j)),
{
    assert forall|k: int| 0 <= k && k + 1 < j - i implies (#[trigger] s.subrange(i, j)[k] != SLASH
        || s.subrange(i, j)[k + 1] != SLASH) by {
        assert(s.subrange(i, j)[k] == s[i + k]);
        assert(s.subrange(i, j)[k + 1] == s[i + k + 1]);
    }
}

/// The join of two paths free of double slashes is itself free of them:
/// a route declared at `path` inside a scope at `prefix` lands at a path
/// with no `//`, however either side spelled the boundary slash.
pub proof fn lemma_join_clean(prefix: Seq<u8>, path: Seq<u8>)
    requires
        clean(prefix),
        clean(path),
    ensures
        clean(join_spec(prefix, path)),
        join_spec(prefix, path).len() > 0,
{
    let a = strip_trailing(prefix);
    let b = strip_leading(path);
    let c = join_spec(prefix, path);
    lemma_strip_trailing_shape(prefix);
    lemma_strip_leading_shape(path);
    lemma_clean_subrange(prefix, 0, a.len() as int);
    assert(prefix.take(a.len() as int) =~= prefix.subrange(0, a.len() as int));
    lemma_clean_subrange(path, path.len() - b.len(), path.len() as int);
    assert forall|i: int| 0 <= i && i + 1 < c.len() implies (#[trigger] c[i] != SLASH || c[i + 1]
        != SLASH) by {
        if i + 1 < a.len() {
            assert(c[i] == a[i] && c[i + 1] == a[i + 1]);
        } else if i + 1 == a.len() as int {
            assert(c[i] == a[i]);
        } else if i == a.len() as int {
            assert(c[i + 1] == b[0]);
        } else {
            assert(c[i] == b[i - a.len() - 1] && c[i + 1] == b[i - a.len()]);
        }
    }
}

/// The join does not care about a trailing slash on the prefix nor about
/// an extra leading slash on the path.
pub proof fn lemma_join_slash_insensitive(prefix: Seq<u8>, path: Seq<u8>)
    ensures
        join_spec(prefix.push(SLASH), path) == join_spec(prefix, path),
        join_spec(prefix, seq![SLASH] + path) == join_spec(prefix, path),
{
    assert(prefix.push(SLASH).drop_last() =~= prefix);
    assert((seq![SLASH] + path).drop_first() =~= path);
}

/// Decides `path_ok` for a declared path.
pub fn path_is_valid(p: &Vec<u8>) -> (r: bool)
    ensures
        r == path_ok(p@),
{
    if p.len() == 0 {
        return false;
    }
    let mut i: usize = 0;
    while i + 1 < p.len()
        invariant
            i < p.len(),
            forall|k: int| 0 <= k && k + 1 < i + 1 ==> (#[trigger] p@[k] != SLASH || p@[k + 1]
                != SLASH),
        decreases p.len() - i,
    {
        if p[i] == SLASH && p[i + 1] == SLASH {
            return false;
        }
        i = i + 1;
    }
    true
}

/// Helper for `join_paths`: `strip_trailing` keeps exactly the first
/// `end` bytes once everything from `end` on is a slash and the byte
/// just before `end`, if any, is not.
proof fn lemma_strip_trailing_at(s: Seq<u8>, end: int)
    requires
        0 <= end <= s.len(),
        forall|k: int| end <= k < s.len() ==> #[trigger] s[k] == SLASH,
        end > 0 ==> s[end - 1] != SLASH,
    ensures
        strip_trailing(s) == s.take(end),
    decreases s.len(),
{
    if s.len() > end {
        lemma_strip_trailing_at(s.drop_last(), end);
        assert(s.drop_last().take(end) =~= s.take(end));
    } else {
        if s.len() > 0 {
            assert(s[s.len() - 1] != SLASH);
        }
        assert(s =~= s.take(end));
    }
}

/// Helper for `join_paths`: `strip_leading` keeps exactly the bytes from
/// `start` on once everything before `start` is a slash and the byte at
/// `start`, if any, is not.
proof fn lemma_strip_leading_at(s: Seq<u8>, start: int)
    requires
        0 <= start <= s.len(),
        forall|k: int| 0 <= k < start ==> #[trigger] s[k] == SLASH,
        start < s.len() ==> s[start] != SLASH,
    ensures
        strip_leading(s) == s.subrange(start, s.len() as int),
    decreases start,
{
    if start > 0 {
        lemma_strip_leading_at(s.drop_first(), start - 1);
        assert(s.drop_first().subrange(start - 1, s.len() - 1) =~= s.subrange(
            start,
            s.len() as int,
        ));
    } else {
        assert(s =~= s.subrange(0, s.len() as int));
    }
}

/// Joins a scope prefix and a declared path under the normalized rule.
pub fn join_paths(prefix: &Vec<u8>, path: &Vec<u8>) -> (r: Vec<u8>)
    ensures
        r@ == join_spec(prefix@, path@),
{
    let mut end: usize = prefix.len();
    while end > 0 && prefix[end - 1] == SLASH
        invariant
            end <= prefix.len(),
            forall|k: int| end <= k < prefix.len() ==> #[trigger] prefix@[k] == SLASH,
        decreases end,
    {
        end = end - 1;
    }
    let mut start: usize = 0;
    while start < path.len() && path[start] == SLASH
        invariant
            start <= path.len(),
            forall|k: int| 0 <= k < start ==> #[trigger] path@[k] == SLASH,
        decreases path.len() - start,
    {
        start = start + 1;
    }
    proof {
        lemma_strip_trailing_at(prefix@, end as int);
        lemma_strip_leading_at(path@, start as int);
    }
    let mut r: Vec<u8> = Vec::new();
    let mut i: usize = 0;
    while i < end
        invariant
            i <= end <= prefix.len(),
            r@ == prefix@.take(i as int),
        decreases end - i,
    {
        r.push(prefix[i]);
        assert(r@ =~= prefix@.take(i + 1));
        i = i + 1;
    }
    r.push(SLASH);
    let mut j: usize = start;
    while j < path.len()
        invariant
            start <= j <= path.len(),
            r@ == prefix@.take(end as int) + seq![SLASH] + path@.subrange(start as int, j as int),
        decreases path.len() - j,
    {
        r.push(path[j]);
        assert(r@ =~= prefix@.take(end as int) + seq![SLASH] + path@.subrange(
            start as int,
            j + 1,
        ));
        j = j + 1;
    }
    r
}

} // verus!
