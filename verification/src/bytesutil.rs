//! Byte-string utilities shared by the whole crate: equality, lexicographic
//! comparison, substring search, and splitting/joining on a separator byte.
//!
//! All text handled by the library (descriptors, version strings, script
//! sources) is treated as raw bytes, so these helpers carry the exact
//! sequence-level specifications that the other modules' contracts build on.

use vstd::prelude::*;

verus! {

/// True when `needle` occurs in `hay` starting at position `at`.
pub open spec fn match_at(hay: Seq<u8>, needle: Seq<u8>, at: int) -> bool {
    0 <= at && at + needle.len() <= hay.len() && hay.subrange(at, at + needle.len()) == needle
}

/// Three-way lexicographic comparison of byte strings: negative when `a`
/// orders before `b`, zero exactly on equal strings, positive otherwise.
pub open spec fn lex_cmp(a: Seq<u8>, b: Seq<u8>) -> int
    decreases a.len(),
{
    if a.len() == 0 && b.len() == 0 {
        0
    } else if a.len() == 0 {
        -1
    } else if b.len() == 0 {
        1
    } else if a[0] < b[0] {
        -1
    } else if a[0] > b[0] {
        1
    } else {
        lex_cmp(a.skip(1), b.skip(1))
    }
}

/// `lex_cmp` is zero exactly on equal strings.
pub proof fn lemma_lex_cmp_eq(a: Seq<u8>, b: Seq<u8>)
    ensures
        lex_cmp(a, b) == 0 <==> a == b,
    decreases a.len(),
{
    if a.len() == 0 && b.len() == 0 {
        assert(a =~= b);
    } else if a.len() == 0 || b.len() == 0 {
    } else if a[0] == b[0] {
        lemma_lex_cmp_eq(a.skip(1), b.skip(1));
        if lex_cmp(a, b) == 0 {
            assert(a =~= seq![a[0]] + a.skip(1));
            assert(b =~= seq![b[0]] + b.skip(1));
        }
        if a == b {
            assert(a.skip(1) =~= b.skip(1));
        }
    } else {
        if a == b {
            assert(a[0] == b[0]);
        }
    }
}

/// Comparing in the other direction flips the sign.
pub proof fn lemma_lex_cmp_antisym(a: Seq<u8>, b: Seq<u8>)
    ensures
        lex_cmp(a, b) == -lex_cmp(b, a),
    decreases a.len(),
{
    if a.len() > 0 && b.len() > 0 && a[0] == b[0] {
        lemma_lex_cmp_antisym(a.skip(1), b.skip(1));
    }
}

/// Lexicographic order is transitive, and strictness carries through.
pub proof fn lemma_lex_cmp_trans(a: Seq<u8>, b: Seq<u8>, c: Seq<u8>)
    requires
        lex_cmp(a, b) <= 0,
        lex_cmp(b, c) <= 0,
    ensures
        lex_cmp(a, c) <= 0,
        lex_cmp(a, b) < 0 || lex_cmp(b, c) < 0 ==> lex_cmp(a, c) < 0,
    decreases a.len() + b.len() + c.len(),
{
    if a.len() == 0 {
        if c.len() == 0 {
            if b.len() > 0 {
                assert(lex_cmp(b, c) == 1);
            }
        }
    } else {
        // a nonempty; lex_cmp(a, b) <= 0 forces b nonempty, then c nonempty.
        assert(b.len() > 0);
        assert(c.len() > 0);
        if a[0] == b[0] && b[0] == c[0] {
            lemma_lex_cmp_trans(a.skip(1), b.skip(1), c.skip(1));
        }
    }
}

/// If the first `i` bytes agree, comparison is decided by the tails.
pub proof fn lemma_lex_cmp_skip(a: Seq<u8>, b: Seq<u8>, i: int)
    requires
        0 <= i <= a.len(),
        i <= b.len(),
        forall|j: int| 0 <= j < i ==> a[j] == b[j],
    ensures
        lex_cmp(a, b) == lex_cmp(a.skip(i), b.skip(i)),
    decreases i,
{
    if i > 0 {
        assert(a.len() > 0 && b.len() > 0);
        assert(a[0] == b[0]);
        assert forall|j: int| 0 <= j < i - 1 implies a.skip(1)[j] == b.skip(1)[j] by {
            assert(a[j + 1] == b[j + 1]);
        }
        lemma_lex_cmp_skip(a.skip(1), b.skip(1), i - 1);
        assert(a.skip(1).skip(i - 1) =~= a.skip(i));
        assert(b.skip(1).skip(i - 1) =~= b.skip(i));
    } else {
        assert(a.skip(0) =~= a);
        assert(b.skip(0) =~= b);
    }
}

/// Equality test on byte slices.
pub fn bytes_eq(a: &[u8], b: &[u8]) -> (r: bool)
    ensures
        r == (a@ == b@),
{
    if a.len() != b.len() {
        proof {
            if a@ == b@ {
                assert(a@.len() == b@.len());
            }
        }
        return false;
    }
    let n: usize = a.len();
    let mut i: usize = 0;
    while i < n
        invariant
            n == a@.len() == b@.len(),
            0 <= i <= n,
            forall|j: int| 0 <= j < i ==> a@[j] == b@[j],
        decreases n - i,
    {
        if a[i] != b[i] {
            return false;
        }
        i = i + 1;
    }
    proof {
        assert(a@ =~= b@);
    }
    true
}

/// Three-way lexicographic comparison; returns -1, 0 or 1 matching `lex_cmp`.
pub fn lex_cmp_bytes(a: &[u8], b: &[u8]) -> (r: i8)
    ensures
        r as int == lex_cmp(a@, b@),
        -1 <= r as int <= 1,
{
    let an: usize = a.len();
    let bn: usize = b.len();
    let mut i: usize = 0;
    loop
        invariant
            an == a@.len(),
            bn == b@.len(),
            0 <= i <= an,
            i <= bn,
            forall|j: int| 0 <= j < i ==> a@[j] == b@[j],
        decreases an - i,
    {
        proof {
            lemma_lex_cmp_skip(a@, b@, i as int);
        }
        if i == an && i == bn {
            return 0;
        }
        if i == an {
            return -1;
        }
        if i == bn {
            return 1;
        }
        if a[i] < b[i] {
            return -1;
        }
        if a[i] > b[i] {
            return 1;
        }
        i = i + 1;
    }
}

/// First position at which `needle` occurs in `hay`, if any.
pub fn find_sub(hay: &[u8], needle: &[u8]) -> (r: Option<usize>)
    ensures
        match r {
            Some(i) => match_at(hay@, needle@, i as int) && forall|j: int|
                0 <= j < i ==> !match_at(hay@, needle@, j),
            None => forall|j: int| !match_at(hay@, needle@, j),
        },
{
    let hn: usize = hay.len();
    let nn: usize = needle.len();
    if nn > hn {
        return None;
    }
    let mut i: usize = 0;
    while i <= hn - nn
        invariant
            hn == hay@.len(),
            nn == needle@.len(),
            nn <= hn,
            0 <= i <= hn - nn + 1,
            forall|j: int| 0 <= j < i ==> !match_at(hay@, needle@, j),
        decreases hn - nn - i + 1,
    {
        let mut k: usize = 0;
        while k < nn && hay[i + k] == needle[k]
            invariant
                hn == hay@.len(),
                nn == needle@.len(),
                0 <= i <= hn - nn,
                0 <= k <= nn,
                forall|j: int| 0 <= j < k ==> hay@[i + j] == needle@[j],
            decreases nn - k,
        {
            k = k + 1;
        }
        if k == nn {
            proof {
                assert(hay@.subrange(i as int, i + nn) =~= needle@);
            }
            return Some(i);
        }
        proof {
            assert(hay@.subrange(i as int, i + nn) != needle@) by {
                assert(hay@.subrange(i as int, i + nn)[k as int] != needle@[k as int]);
            }
            assert(!match_at(hay@, needle@, i as int));
        }
        i = i + 1;
    }
    proof {
        assert forall|j: int| !match_at(hay@, needle@, j) by {
            if match_at(hay@, needle@, j) {
                assert(0 <= j <= hn - nn);
            }
        }
    }
    None
}

/// Whether `needle` occurs anywhere in `hay`.
pub open spec fn has_match(hay: Seq<u8>, needle: Seq<u8>) -> bool {
    exists|j: int| match_at(hay, needle, j)
}

/// The first position at which `needle` occurs in `hay` (meaningful only
/// when it occurs at all).
pub open spec fn first_match(hay: Seq<u8>, needle: Seq<u8>) -> int {
    choose|j: int| match_at(hay, needle, j) && forall|k: int| 0 <= k < j ==> !match_at(hay, needle, k)
}

/// A match before which there is none is the first match.
pub proof fn lemma_first_match_is(hay: Seq<u8>, needle: Seq<u8>, i: int)
    requires
        match_at(hay, needle, i),
        forall|k: int| 0 <= k < i ==> !match_at(hay, needle, k),
    ensures
        has_match(hay, needle),
        first_match(hay, needle) == i,
{
    assert(has_match(hay, needle));
    let m = first_match(hay, needle);
    assert(match_at(hay, needle, m) && forall|k: int| 0 <= k < m ==> !match_at(hay, needle, k)) by {
        assert(match_at(hay, needle, i) && forall|k: int| 0 <= k < i ==> !match_at(
            hay,
            needle,
            k,
        ));
    }
    if m < i {
        assert(!match_at(hay, needle, m));
    }
    if i < m {
        assert(!match_at(hay, needle, i));
    }
}

/// Splitting a byte string on a separator byte: the sequence of chunks
/// between occurrences of `sep`.  The empty string is one empty chunk; each
/// separator ends the current chunk and opens a new one, so a string holding
/// `n` separators splits into `n + 1` chunks.
pub open spec fn spec_split(s: Seq<u8>, sep: u8) -> Seq<Seq<u8>>
    decreases s.len(),
{
    if s.len() == 0 {
        seq![Seq::empty()]
    } else if s.last() == sep {
        spec_split(s.drop_last(), sep).push(Seq::empty())
    } else {
        let r = spec_split(s.drop_last(), sep);
        r.update(r.len() - 1 as int, r.last().push(s.last()))
    }
}

/// A split is never empty: there is always at least the current chunk.
pub proof fn lemma_split_len(s: Seq<u8>, sep: u8)
    ensures
        spec_split(s, sep).len() >= 1,
    decreases s.len(),
{
    if s.len() > 0 {
        lemma_split_len(s.drop_last(), sep);
    }
}

/// Joining chunks with a separator byte; inverse of `spec_split`.
pub open spec fn spec_join(parts: Seq<Seq<u8>>, sep: u8) -> Seq<u8>
    decreases parts.len(),
{
    if parts.len() == 0 {
        Seq::empty()
    } else if parts.len() == 1 {
        parts[0]
    } else {
        parts[0] + seq![sep] + spec_join(parts.skip(1), sep)
    }
}

/// Splits `s` on the separator byte `sep`.
pub fn split_byte(s: &[u8], sep: u8) -> (r: Vec<Vec<u8>>)
    ensures
        r.deep_view() == spec_split(s@, sep),
{
    let n: usize = s.len();
    let mut parts: Vec<Vec<u8>> = Vec::new();
    let mut cur: Vec<u8> = Vec::new();
    let mut i: usize = 0;
    while i < n
        invariant
            n == s@.len(),
            0 <= i <= n,
            spec_split(s@.take(i as int), sep) == parts.deep_view().push(cur@),
        decreases n - i,
    {
        let ghost before = spec_split(s@.take(i as int), sep);
        proof {
            assert(s@.take(i + 1).drop_last() =~= s@.take(i as int));
            assert(s@.take(i + 1).last() == s@[i as int]);
            lemma_split_len(s@.take(i as int), sep);
        }
        let c: u8 = s[i];
        if c == sep {
            let ghost old_parts = parts.deep_view();
            parts.push(cur);
            proof {
                assert(parts.deep_view() =~~= old_parts.push(cur@));
            }
            cur = Vec::new();
            proof {
                assert(spec_split(s@.take(i + 1), sep) =~~= parts.deep_view().push(cur@));
            }
        } else {
            cur.push(c);
            proof {
                assert(before.update(before.len() - 1 as int, before.last().push(s@[i as int]))
                    =~~= parts.deep_view().push(cur@));
            }
        }
        i = i + 1;
    }
    proof {
        assert(s@.take(n as int) =~= s@);
        lemma_split_len(s@, sep);
    }
    let ghost old_parts = parts.deep_view();
    parts.push(cur);
    proof {
        assert(parts.deep_view() =~~= old_parts.push(cur@));
    }
    parts
}

/// Appends all of `src` to `dst`.
pub fn extend_bytes(dst: &mut Vec<u8>, src: &[u8])
    ensures
        final(dst)@ == old(dst)@ + src@,
{
    let n: usize = src.len();
    let mut i: usize = 0;
    while i < n
        invariant
            n == src@.len(),
            0 <= i <= n,
            dst@ == old(dst)@ + src@.take(i as int),
        decreases n - i,
    {
        dst.push(src[i]);
        proof {
            assert(old(dst)@ + src@.take(i + 1) =~= (old(dst)@ + src@.take(i as int)).push(
                src@[i as int],
            ));
        }
        i = i + 1;
    }
    proof {
        assert(src@.take(n as int) =~= src@);
    }
}

} // verus!
