//! Semantic-version precedence.
//!
//! A version's precedence key is its numeric triple plus its pre-release
//! string.  Keys are ordered by major, then minor, then patch, then
//! pre-release rules: a release outranks any pre-release of the same triple;
//! pre-releases compare by their dot-separated identifiers, left to right,
//! where numeric identifiers compare by value and order below alphanumeric
//! ones, alphanumeric identifiers compare bytewise, and a list that is a
//! strict prefix of another orders below it.
//!
//! Two keys may compare equal without being identical (numeric identifiers
//! with leading zeros), so the comparison is a total preorder; the lemmas
//! here establish the flip and transitivity laws the resolver's maximum
//! search rests on.

use vstd::prelude::*;

use crate::bytesutil::{
    lemma_lex_cmp_antisym, lemma_lex_cmp_eq, lemma_lex_cmp_trans, lex_cmp,
    lex_cmp_bytes, spec_split, split_byte,
};

verus! {

/// The precedence key of a version: what ordering and equality of versions
/// are judged by.  Build metadata takes no part in precedence, so it has no
/// field here.
pub ghost struct SemKey {
    pub major: int,
    pub minor: int,
    pub patch: int,
    pub pre: Seq<u8>,
}

/// ASCII digit.
pub open spec fn is_digit(b: u8) -> bool {
    48 <= b <= 57
}

/// A numeric identifier: nonempty, digits only.
pub open spec fn is_num_ident(s: Seq<u8>) -> bool {
    s.len() > 0 && forall|i: int| 0 <= i < s.len() ==> is_digit(s[i])
}

/// Digits with leading zeros removed; the value of a numeric identifier is
/// judged on this.
pub open spec fn strip_zeros(s: Seq<u8>) -> Seq<u8>
    decreases s.len(),
{
    if s.len() > 0 && s[0] == 48 {
        strip_zeros(s.skip(1))
    } else {
        s
    }
}

/// Numeric comparison of two digit strings: after dropping leading zeros, a
/// shorter string is the smaller number, and equal lengths compare bytewise.
pub open spec fn num_cmp(a: Seq<u8>, b: Seq<u8>) -> int {
    let a2 = strip_zeros(a);
    let b2 = strip_zeros(b);
    if a2.len() < b2.len() {
        -1
    } else if a2.len() > b2.len() {
        1
    } else {
        lex_cmp(a2, b2)
    }
}

/// One pre-release identifier against another: numeric identifiers compare
/// by value and order below alphanumeric ones; otherwise bytewise.
pub open spec fn ident_cmp(a: Seq<u8>, b: Seq<u8>) -> int {
    if is_num_ident(a) && is_num_ident(b) {
        num_cmp(a, b)
    } else if is_num_ident(a) {
        -1
    } else if is_num_ident(b) {
        1
    } else {
        lex_cmp(a, b)
    }
}

/// Identifier lists, left to right; a strict prefix orders below.
pub open spec fn idents_cmp(a: Seq<Seq<u8>>, b: Seq<Seq<u8>>) -> int
    decreases a.len(),
{
    if a.len() == 0 && b.len() == 0 {
        0
    } else if a.len() == 0 {
        -1
    } else if b.len() == 0 {
        1
    } else if ident_cmp(a[0], b[0]) != 0 {
        ident_cmp(a[0], b[0])
    } else {
        idents_cmp(a.skip(1), b.skip(1))
    }
}

/// Pre-release strings: an empty pre-release (a release) outranks any
/// pre-release; two pre-releases compare by their identifier lists.
pub open spec fn pre_cmp(a: Seq<u8>, b: Seq<u8>) -> int {
    if a.len() == 0 && b.len() == 0 {
        0
    } else if a.len() == 0 {
        1
    } else if b.len() == 0 {
        -1
    } else {
        idents_cmp(spec_split(a, 46), spec_split(b, 46))
    }
}

/// Full precedence comparison of two version keys.
pub open spec fn key_cmp(a: SemKey, b: SemKey) -> int {
    if a.major != b.major {
        if a.major < b.major {
            -1
        } else {
            1
        }
    } else if a.minor != b.minor {
        if a.minor < b.minor {
            -1
        } else {
            1
        }
    } else if a.patch != b.patch {
        if a.patch < b.patch {
            -1
        } else {
            1
        }
    } else {
        pre_cmp(a.pre, b.pre)
    }
}

// ---------------------------------------------------------------------------
// Order laws: each level of the comparison flips sign under exchange of its
// arguments and composes transitively, with strictness carried through.
// ---------------------------------------------------------------------------

proof fn lemma_num_cmp_antisym(a: Seq<u8>, b: Seq<u8>)
    ensures
        num_cmp(a, b) == -num_cmp(b, a),
{
    lemma_lex_cmp_antisym(strip_zeros(a), strip_zeros(b));
    lemma_lex_cmp_eq(strip_zeros(a), strip_zeros(b));
}

proof fn lemma_num_cmp_trans(a: Seq<u8>, b: Seq<u8>, c: Seq<u8>)
    requires
        num_cmp(a, b) <= 0,
        num_cmp(b, c) <= 0,
    ensures
        num_cmp(a, c) <= 0,
        num_cmp(a, b) < 0 || num_cmp(b, c) < 0 ==> num_cmp(a, c) < 0,
{
    let a2 = strip_zeros(a);
    let b2 = strip_zeros(b);
    let c2 = strip_zeros(c);
    if a2.len() == b2.len() && b2.len() == c2.len() {
        lemma_lex_cmp_trans(a2, b2, c2);
    }
}

proof fn lemma_ident_cmp_antisym(a: Seq<u8>, b: Seq<u8>)
    ensures
        ident_cmp(a, b) == -ident_cmp(b, a),
{
    if is_num_ident(a) && is_num_ident(b) {
        lemma_num_cmp_antisym(a, b);
    } else if !is_num_ident(a) && !is_num_ident(b) {
        lemma_lex_cmp_antisym(a, b);
    }
}

proof fn lemma_ident_cmp_trans(a: Seq<u8>, b: Seq<u8>, c: Seq<u8>)
    requires
        ident_cmp(a, b) <= 0,
        ident_cmp(b, c) <= 0,
    ensures
        ident_cmp(a, c) <= 0,
        ident_cmp(a, b) < 0 || ident_cmp(b, c) < 0 ==> ident_cmp(a, c) < 0,
{
    if is_num_ident(a) && is_num_ident(b) && is_num_ident(c) {
        lemma_num_cmp_trans(a, b, c);
    } else if !is_num_ident(a) && !is_num_ident(b) && !is_num_ident(c) {
        lemma_lex_cmp_trans(a, b, c);
    }
}

proof fn lemma_idents_cmp_antisym(a: Seq<Seq<u8>>, b: Seq<Seq<u8>>)
    ensures
        idents_cmp(a, b) == -idents_cmp(b, a),
    decreases a.len(),
{
    if a.len() > 0 && b.len() > 0 {
        lemma_ident_cmp_antisym(a[0], b[0]);
        lemma_idents_cmp_antisym(a.skip(1), b.skip(1));
    }
}

proof fn lemma_idents_cmp_trans(a: Seq<Seq<u8>>, b: Seq<Seq<u8>>, c: Seq<Seq<u8>>)
    requires
        idents_cmp(a, b) <= 0,
        idents_cmp(b, c) <= 0,
    ensures
        idents_cmp(a, c) <= 0,
        idents_cmp(a, b) < 0 || idents_cmp(b, c) < 0 ==> idents_cmp(a, c) < 0,
    decreases a.len() + b.len() + c.len(),
{
    if a.len() == 0 {
        if c.len() == 0 && b.len() > 0 {
            assert(idents_cmp(b, c) == 1);
        }
    } else {
        assert(b.len() > 0);
        assert(c.len() > 0);
        let x = ident_cmp(a[0], b[0]);
        let y = ident_cmp(b[0], c[0]);
        assert(x <= 0);
        assert(y <= 0);
        lemma_ident_cmp_trans(a[0], b[0], c[0]);
        if x == 0 && y == 0 {
            // The heads tie both ways, so the head comparison of a and c is
            // zero as well and the lists are decided by their tails.
            lemma_ident_cmp_antisym(a[0], b[0]);
            lemma_ident_cmp_antisym(b[0], c[0]);
            lemma_ident_cmp_trans(c[0], b[0], a[0]);
            lemma_ident_cmp_antisym(a[0], c[0]);
            assert(ident_cmp(a[0], c[0]) == 0);
            lemma_idents_cmp_trans(a.skip(1), b.skip(1), c.skip(1));
        }
    }
}

proof fn lemma_pre_cmp_antisym(a: Seq<u8>, b: Seq<u8>)
    ensures
        pre_cmp(a, b) == -pre_cmp(b, a),
{
    if a.len() > 0 && b.len() > 0 {
        lemma_idents_cmp_antisym(spec_split(a, 46), spec_split(b, 46));
    }
}

proof fn lemma_pre_cmp_trans(a: Seq<u8>, b: Seq<u8>, c: Seq<u8>)
    requires
        pre_cmp(a, b) <= 0,
        pre_cmp(b, c) <= 0,
    ensures
        pre_cmp(a, c) <= 0,
        pre_cmp(a, b) < 0 || pre_cmp(b, c) < 0 ==> pre_cmp(a, c) < 0,
{
    if a.len() > 0 && b.len() > 0 && c.len() > 0 {
        lemma_idents_cmp_trans(spec_split(a, 46), spec_split(b, 46), spec_split(c, 46));
    }
}

/// Exchanging the arguments of the key comparison flips its sign.
pub proof fn lemma_key_cmp_antisym(a: SemKey, b: SemKey)
    ensures
        key_cmp(a, b) == -key_cmp(b, a),
{
    lemma_pre_cmp_antisym(a.pre, b.pre);
}

/// The key comparison composes transitively, carrying strictness through.
pub proof fn lemma_key_cmp_trans(a: SemKey, b: SemKey, c: SemKey)
    requires
        key_cmp(a, b) <= 0,
        key_cmp(b, c) <= 0,
    ensures
        key_cmp(a, c) <= 0,
        key_cmp(a, b) < 0 || key_cmp(b, c) < 0 ==> key_cmp(a, c) < 0,
{
    if a.major == b.major && b.major == c.major && a.minor == b.minor && b.minor == c.minor
        && a.patch == b.patch && b.patch == c.patch {
        lemma_pre_cmp_trans(a.pre, b.pre, c.pre);
    }
}

// ---------------------------------------------------------------------------
// Executable comparison.
// ---------------------------------------------------------------------------

/// Whether `s` is a numeric identifier.
fn is_num_ident_exec(s: &[u8]) -> (r: bool)
    ensures
        r == is_num_ident(s@),
{
    let n: usize = s.len();
    if n == 0 {
        return false;
    }
    let mut i: usize = 0;
    while i < n
        invariant
            n == s@.len(),
            0 <= i <= n,
            forall|j: int| 0 <= j < i ==> is_digit(s@[j]),
        decreases n - i,
    {
        let b: u8 = s[i];
        if b < 48 || b > 57 {
            return false;
        }
        i = i + 1;
    }
    true
}

/// Dropping `k` leading zeros at a time equals `strip_zeros` once the first
/// non-zero byte (or the end) is reached.
proof fn lemma_strip_zeros_skip(s: Seq<u8>, k: int)
    requires
        0 <= k <= s.len(),
        forall|j: int| 0 <= j < k ==> s[j] == 48,
        k < s.len() ==> s[k] != 48,
    ensures
        strip_zeros(s) == s.skip(k),
    decreases k,
{
    if k == 0 {
        assert(s.skip(0) =~= s);
    } else {
        assert(s[0] == 48);
        assert forall|j: int| 0 <= j < k - 1 implies s.skip(1)[j] == 48 by {
            assert(s[j + 1] == 48);
        }
        lemma_strip_zeros_skip(s.skip(1), k - 1);
        assert(s.skip(1).skip(k - 1) =~= s.skip(k));
    }
}

/// Numeric comparison of two digit strings.
fn num_cmp_exec(a: &[u8], b: &[u8]) -> (r: i8)
    ensures
        r as int == num_cmp(a@, b@),
{
    let an: usize = a.len();
    let bn: usize = b.len();
    let mut ka: usize = 0;
    while ka < an && a[ka] == 48
        invariant
            an == a@.len(),
            0 <= ka <= an,
            forall|j: int| 0 <= j < ka ==> a@[j] == 48,
        decreases an - ka,
    {
        ka = ka + 1;
    }
    let mut kb: usize = 0;
    while kb < bn && b[kb] == 48
        invariant
            bn == b@.len(),
            0 <= kb <= bn,
            forall|j: int| 0 <= j < kb ==> b@[j] == 48,
        decreases bn - kb,
    {
        kb = kb + 1;
    }
    proof {
        lemma_strip_zeros_skip(a@, ka as int);
        lemma_strip_zeros_skip(b@, kb as int);
    }
    let a2: &[u8] = vstd::slice::slice_subrange(a, ka, an);
    let b2: &[u8] = vstd::slice::slice_subrange(b, kb, bn);
    proof {
        assert(a2@ =~= a@.skip(ka as int));
        assert(b2@ =~= b@.skip(kb as int));
    }
    if a2.len() < b2.len() {
        return -1;
    }
    if a2.len() > b2.len() {
        return 1;
    }
    lex_cmp_bytes(a2, b2)
}

/// One pre-release identifier against another.
fn ident_cmp_exec(a: &[u8], b: &[u8]) -> (r: i8)
    ensures
        r as int == ident_cmp(a@, b@),
{
    let na: bool = is_num_ident_exec(a);
    let nb: bool = is_num_ident_exec(b);
    if na && nb {
        num_cmp_exec(a, b)
    } else if na {
        -1
    } else if nb {
        1
    } else {
        lex_cmp_bytes(a, b)
    }
}

/// With the first `i` identifier pairs tied, the list comparison is decided
/// by the remaining ones.
proof fn lemma_idents_cmp_skip(a: Seq<Seq<u8>>, b: Seq<Seq<u8>>, i: int)
    requires
        0 <= i <= a.len(),
        i <= b.len(),
        forall|j: int| 0 <= j < i ==> ident_cmp(a[j], b[j]) == 0,
    ensures
        idents_cmp(a, b) == idents_cmp(a.skip(i), b.skip(i)),
    decreases i,
{
    if i > 0 {
        assert(a.len() > 0 && b.len() > 0);
        assert(ident_cmp(a[0], b[0]) == 0);
        assert forall|j: int| 0 <= j < i - 1 implies ident_cmp(a.skip(1)[j], b.skip(1)[j]) == 0 by {
            assert(ident_cmp(a[j + 1], b[j + 1]) == 0);
        }
        lemma_idents_cmp_skip(a.skip(1), b.skip(1), i - 1);
        assert(a.skip(1).skip(i - 1) =~= a.skip(i));
        assert(b.skip(1).skip(i - 1) =~= b.skip(i));
    } else {
        assert(a.skip(0) =~= a);
        assert(b.skip(0) =~= b);
    }
}

/// Identifier lists, element by element.
fn idents_cmp_exec(a: &Vec<Vec<u8>>, b: &Vec<Vec<u8>>) -> (r: i8)
    ensures
        r as int == idents_cmp(a.deep_view(), b.deep_view()),
{
    let an: usize = a.len();
    let bn: usize = b.len();
    let ghost av = a.deep_view();
    let ghost bv = b.deep_view();
    proof {
        assert(av.len() == an && bv.len() == bn);
    }
    let mut i: usize = 0;
    loop
        invariant
            av == a.deep_view(),
            bv == b.deep_view(),
            an == av.len(),
            bn == bv.len(),
            an == a@.len(),
            bn == b@.len(),
            0 <= i <= an,
            i <= bn,
            forall|j: int| 0 <= j < i ==> ident_cmp(av[j], bv[j]) == 0,
        decreases an - i,
    {
        proof {
            lemma_idents_cmp_skip(av, bv, i as int);
        }
        if i == an && i == bn {
            return 0;
        }
        if i == an {
            return -1;
        }
        if i == bn {
            return 1;
        }
        proof {
            assert(av[i as int] == a@[i as int]@);
            assert(bv[i as int] == b@[i as int]@);
            assert(av.skip(i as int)[0] == av[i as int]);
            assert(bv.skip(i as int)[0] == bv[i as int]);
        }
        let c: i8 = ident_cmp_exec(a[i].as_slice(), b[i].as_slice());
        if c != 0 {
            return c;
        }
        i = i + 1;
    }
}

/// Pre-release strings; `46` is the identifier separator `.`.
pub fn pre_cmp_exec(a: &[u8], b: &[u8]) -> (r: i8)
    ensures
        r as int == pre_cmp(a@, b@),
{
    if a.len() == 0 && b.len() == 0 {
        return 0;
    }
    if a.len() == 0 {
        return 1;
    }
    if b.len() == 0 {
        return -1;
    }
    let pa: Vec<Vec<u8>> = split_byte(a, 46);
    let pb: Vec<Vec<u8>> = split_byte(b, 46);
    idents_cmp_exec(&pa, &pb)
}

} // verus!
