//! The source merger: combines a collection of script files into one script
//! under a target namespace.
//!
//! The merge works line by line, with no full parser.  A line declares a
//! namespace when, after leading whitespace, it reads `namespace` followed by
//! whitespace and an identifier; a line is an import directive when it reads
//! `using` followed by whitespace and a (possibly dotted) name.  The merge
//! concatenates the inputs, collects the declared namespace names, collects
//! the import names and deduplicates them into lexicographic order, drops
//! imports of namespaces the inputs themselves declare, keeps as the body
//! only tab-indented lines that are not import directives, and wraps the
//! result in the target namespace behind a header comment.  The whole
//! transformation is specified as a function of the inputs, so its output is
//! deterministic.

use vstd::prelude::*;

use crate::bytesutil::{
    bytes_eq, extend_bytes, lemma_lex_cmp_antisym, lemma_lex_cmp_eq, lemma_lex_cmp_trans, lex_cmp,
    lex_cmp_bytes, spec_join, spec_split, split_byte,
};

verus! {

// ---------------------------------------------------------------------------
// Line classification.
// ---------------------------------------------------------------------------

/// Blank byte: space or tab.
pub open spec fn is_ws(b: u8) -> bool {
    b == 32 || b == 9
}

/// A byte that may stand in a name: letters, digits, `_`, and — for import
/// names, which may be dotted paths — `.`.
pub open spec fn is_name_byte(b: u8, dots: bool) -> bool {
    (65 <= b <= 90) || (97 <= b <= 122) || (48 <= b <= 57) || b == 95 || (dots && b == 46)
}

/// The suffix of `s` after its leading whitespace.
pub open spec fn skip_ws(s: Seq<u8>) -> Seq<u8>
    decreases s.len(),
{
    if s.len() > 0 && is_ws(s[0]) {
        skip_ws(s.skip(1))
    } else {
        s
    }
}

/// The longest name prefix of `s`.
pub open spec fn take_name(s: Seq<u8>, dots: bool) -> Seq<u8>
    decreases s.len(),
{
    if s.len() > 0 && is_name_byte(s[0], dots) {
        seq![s[0]] + take_name(s.skip(1), dots)
    } else {
        Seq::empty()
    }
}

/// The name a line declares after the given keyword, if the line reads
/// (after leading whitespace) the keyword, whitespace, then a nonempty name.
pub open spec fn decl_after_keyword(line: Seq<u8>, kw: Seq<u8>, dots: bool) -> Option<Seq<u8>> {
    let t = skip_ws(line);
    if t.len() >= kw.len() && t.take(kw.len() as int) == kw {
        let rest = t.skip(kw.len() as int);
        if rest.len() > 0 && is_ws(rest[0]) {
            let name = take_name(skip_ws(rest), dots);
            if name.len() > 0 {
                Some(name)
            } else {
                None
            }
        } else {
            None
        }
    } else {
        None
    }
}

/// The bytes of the keyword `namespace`.
pub open spec fn kw_namespace() -> Seq<u8> {
    seq![110u8, 97u8, 109u8, 101u8, 115u8, 112u8, 97u8, 99u8, 101u8]
}

/// The bytes of the keyword `using`.
pub open spec fn kw_using() -> Seq<u8> {
    seq![117u8, 115u8, 105u8, 110u8, 103u8]
}

/// The namespace name a line declares, if it is a namespace declaration.
pub open spec fn namespace_decl_name(line: Seq<u8>) -> Option<Seq<u8>> {
    decl_after_keyword(line, kw_namespace(), false)
}

/// The name a line imports, if it is an import directive.
pub open spec fn import_name(line: Seq<u8>) -> Option<Seq<u8>> {
    decl_after_keyword(line, kw_using(), true)
}

proof fn lemma_skip_ws_at(s: Seq<u8>, k: int)
    requires
        0 <= k <= s.len(),
        forall|j: int| 0 <= j < k ==> is_ws(s[j]),
        k < s.len() ==> !is_ws(s[k]),
    ensures
        skip_ws(s) == s.skip(k),
    decreases k,
{
    if k == 0 {
        assert(s.skip(0) =~= s);
    } else {
        assert(is_ws(s[0]));
        assert forall|j: int| 0 <= j < k - 1 implies is_ws(s.skip(1)[j]) by {
            assert(is_ws(s[j + 1]));
        }
        lemma_skip_ws_at(s.skip(1), k - 1);
        assert(s.skip(1).skip(k - 1) =~= s.skip(k));
    }
}

proof fn lemma_take_name_at(s: Seq<u8>, dots: bool, k: int)
    requires
        0 <= k <= s.len(),
        forall|j: int| 0 <= j < k ==> is_name_byte(s[j], dots),
        k < s.len() ==> !is_name_byte(s[k], dots),
    ensures
        take_name(s, dots) == s.take(k),
    decreases k,
{
    if k == 0 {
        assert(take_name(s, dots) =~= s.take(0));
    } else {
        assert(is_name_byte(s[0], dots));
        assert forall|j: int| 0 <= j < k - 1 implies is_name_byte(s.skip(1)[j], dots) by {
            assert(is_name_byte(s[j + 1], dots));
        }
        lemma_take_name_at(s.skip(1), dots, k - 1);
        assert(seq![s[0]] + s.skip(1).take(k - 1) =~= s.take(k));
    }
}

/// Whether a byte may stand in a name.
fn is_name_byte_exec(b: u8, dots: bool) -> (r: bool)
    ensures
        r == is_name_byte(b, dots),
{
    (65 <= b && b <= 90) || (97 <= b && b <= 122) || (48 <= b && b <= 57) || b == 95 || (dots
        && b == 46)
}

/// The name a line declares after `kw`, per `decl_after_keyword`.
fn keyword_name(line: &[u8], kw: &[u8], dots: bool) -> (r: Option<Vec<u8>>)
    ensures
        r.deep_view() == decl_after_keyword(line@, kw@, dots),
{
    let n: usize = line.len();
    let mut k: usize = 0;
    while k < n && (line[k] == 32 || line[k] == 9)
        invariant
            n == line@.len(),
            0 <= k <= n,
            forall|j: int| 0 <= j < k ==> is_ws(line@[j]),
        decreases n - k,
    {
        k = k + 1;
    }
    proof {
        lemma_skip_ws_at(line@, k as int);
    }
    let t: &[u8] = vstd::slice::slice_subrange(line, k, n);
    proof {
        assert(t@ =~= skip_ws(line@));
    }
    if t.len() < kw.len() {
        return None;
    }
    let head: &[u8] = vstd::slice::slice_subrange(t, 0, kw.len());
    if !bytes_eq(head, kw) {
        return None;
    }
    let rest: &[u8] = vstd::slice::slice_subrange(t, kw.len(), t.len());
    proof {
        assert(rest@ =~= t@.skip(kw@.len() as int));
    }
    if rest.len() == 0 {
        return None;
    }
    let b0: u8 = rest[0];
    if !(b0 == 32 || b0 == 9) {
        return None;
    }
    let rn: usize = rest.len();
    let mut k2: usize = 0;
    while k2 < rn && (rest[k2] == 32 || rest[k2] == 9)
        invariant
            rn == rest@.len(),
            0 <= k2 <= rn,
            forall|j: int| 0 <= j < k2 ==> is_ws(rest@[j]),
        decreases rn - k2,
    {
        k2 = k2 + 1;
    }
    proof {
        lemma_skip_ws_at(rest@, k2 as int);
    }
    let r2: &[u8] = vstd::slice::slice_subrange(rest, k2, rn);
    proof {
        assert(r2@ =~= skip_ws(rest@));
    }
    let m: usize = r2.len();
    let mut e: usize = 0;
    while e < m && is_name_byte_exec(r2[e], dots)
        invariant
            m == r2@.len(),
            0 <= e <= m,
            forall|j: int| 0 <= j < e ==> is_name_byte(r2@[j], dots),
        decreases m - e,
    {
        e = e + 1;
    }
    proof {
        lemma_take_name_at(r2@, dots, e as int);
    }
    if e == 0 {
        return None;
    }
    let name: &[u8] = vstd::slice::slice_subrange(r2, 0, e);
    proof {
        assert(name@ =~= take_name(r2@, dots));
    }
    Some(vstd::slice::slice_to_vec(name))
}

/// Builds the keyword `namespace` at run time.
fn kw_namespace_vec() -> (r: Vec<u8>)
    ensures
        r@ == kw_namespace(),
{
    let mut v: Vec<u8> = Vec::new();
    v.push(110);
    v.push(97);
    v.push(109);
    v.push(101);
    v.push(115);
    v.push(112);
    v.push(97);
    v.push(99);
    v.push(101);
    proof {
        assert(v@ =~= kw_namespace());
    }
    v
}

/// Builds the keyword `using` at run time.
fn kw_using_vec() -> (r: Vec<u8>)
    ensures
        r@ == kw_using(),
{
    let mut v: Vec<u8> = Vec::new();
    v.push(117);
    v.push(115);
    v.push(105);
    v.push(110);
    v.push(103);
    proof {
        assert(v@ =~= kw_using());
    }
    v
}

/// The namespace name a line declares, if any.
pub fn line_namespace_name(line: &[u8]) -> (r: Option<Vec<u8>>)
    ensures
        r.deep_view() == namespace_decl_name(line@),
{
    let kw: Vec<u8> = kw_namespace_vec();
    keyword_name(line, kw.as_slice(), false)
}

/// The name a line imports, if any.
pub fn line_import_name(line: &[u8]) -> (r: Option<Vec<u8>>)
    ensures
        r.deep_view() == import_name(line@),
{
    let kw: Vec<u8> = kw_using_vec();
    keyword_name(line, kw.as_slice(), true)
}

// ---------------------------------------------------------------------------
// Sorted deduplication.
// ---------------------------------------------------------------------------

/// Every element orders strictly below every later one.
pub open spec fn strictly_sorted(s: Seq<Seq<u8>>) -> bool {
    forall|i: int, j: int| 0 <= i < j < s.len() ==> lex_cmp(s[i], s[j]) < 0
}

/// Inserts `x` into the sorted sequence `s`, keeping order and dropping a
/// duplicate.
pub open spec fn sorted_insert(x: Seq<u8>, s: Seq<Seq<u8>>) -> Seq<Seq<u8>>
    decreases s.len(),
{
    if s.len() == 0 {
        seq![x]
    } else if lex_cmp(x, s[0]) < 0 {
        seq![x] + s
    } else if lex_cmp(x, s[0]) == 0 {
        s
    } else {
        seq![s[0]] + sorted_insert(x, s.skip(1))
    }
}

/// The sorted deduplication of a sequence: its elements, each once, in
/// lexicographic order.
pub open spec fn sort_dedup(xs: Seq<Seq<u8>>) -> Seq<Seq<u8>>
    decreases xs.len(),
{
    if xs.len() == 0 {
        Seq::empty()
    } else {
        sorted_insert(xs.last(), sort_dedup(xs.drop_last()))
    }
}

/// Insertion keeps the sequence sorted and adds exactly `x` to its elements.
pub proof fn lemma_sorted_insert_props(x: Seq<u8>, s: Seq<Seq<u8>>)
    requires
        strictly_sorted(s),
    ensures
        strictly_sorted(sorted_insert(x, s)),
        forall|y: Seq<u8>|
            #![trigger sorted_insert(x, s).contains(y)]
            #![trigger s.contains(y)]
            sorted_insert(x, s).contains(y) <==> (y == x || s.contains(y)),
    decreases s.len(),
{
    let r = sorted_insert(x, s);
    if s.len() == 0 {
        assert forall|y: Seq<u8>| r.contains(y) <==> (y == x || s.contains(y)) by {
            assert(r[0] == x);
        }
    } else if lex_cmp(x, s[0]) < 0 {
        assert forall|i: int, j: int| 0 <= i < j < r.len() implies lex_cmp(r[i], r[j]) < 0 by {
            if i == 0 {
                assert(r[j] == s[j - 1]);
                if j > 1 {
                    lemma_lex_cmp_trans(x, s[0], s[j - 1]);
                }
            } else {
                assert(r[i] == s[i - 1] && r[j] == s[j - 1]);
            }
        }
        assert forall|y: Seq<u8>| r.contains(y) <==> (y == x || s.contains(y)) by {
            if r.contains(y) {
                let i = choose|i: int| 0 <= i < r.len() && r[i] == y;
                if i > 0 {
                    assert(s[i - 1] == y);
                }
            }
            if y == x {
                assert(r[0] == y);
            }
            if s.contains(y) {
                let i = choose|i: int| 0 <= i < s.len() && s[i] == y;
                assert(r[i + 1] == y);
            }
        }
    } else if lex_cmp(x, s[0]) == 0 {
        lemma_lex_cmp_eq(x, s[0]);
        assert forall|y: Seq<u8>| r.contains(y) <==> (y == x || s.contains(y)) by {
            if y == x {
                assert(s[0] == y);
            }
        }
    } else {
        let tail = s.skip(1);
        assert forall|i: int, j: int| 0 <= i < j < tail.len() implies lex_cmp(
            tail[i],
            tail[j],
        ) < 0 by {
            assert(tail[i] == s[i + 1] && tail[j] == s[j + 1]);
        }
        lemma_sorted_insert_props(x, tail);
        let rt = sorted_insert(x, tail);
        lemma_lex_cmp_antisym(x, s[0]);
        assert forall|i: int, j: int| 0 <= i < j < r.len() implies lex_cmp(r[i], r[j]) < 0 by {
            if i == 0 {
                assert(r[j] == rt[j - 1]);
                assert(rt.contains(rt[j - 1]));
                if rt[j - 1] == x {
                    assert(lex_cmp(s[0], x) < 0);
                } else {
                    assert(tail.contains(rt[j - 1]));
                    let k = choose|k: int| 0 <= k < tail.len() && tail[k] == rt[j - 1];
                    assert(tail[k] == s[k + 1]);
                    assert(lex_cmp(s[0], s[k + 1]) < 0);
                }
            } else {
                assert(r[i] == rt[i - 1] && r[j] == rt[j - 1]);
            }
        }
        assert forall|y: Seq<u8>| r.contains(y) <==> (y == x || s.contains(y)) by {
            if r.contains(y) {
                let i = choose|i: int| 0 <= i < r.len() && r[i] == y;
                if i == 0 {
                    assert(s[0] == y);
                } else {
                    assert(rt[i - 1] == y);
                    assert(rt.contains(y));
                    if y != x {
                        let k = choose|k: int| 0 <= k < tail.len() && tail[k] == y;
                        assert(s[k + 1] == y);
                    }
                }
            }
            if y == x {
                assert(rt.contains(y));
                let k = choose|k: int| 0 <= k < rt.len() && rt[k] == y;
                assert(r[k + 1] == y);
            }
            if s.contains(y) {
                let i = choose|i: int| 0 <= i < s.len() && s[i] == y;
                if i == 0 {
                    assert(r[0] == y);
                } else {
                    assert(tail[i - 1] == y);
                    assert(tail.contains(y));
                    assert(rt.contains(y));
                    let k = choose|k: int| 0 <= k < rt.len() && rt[k] == y;
                    assert(r[k + 1] == y);
                }
            }
        }
    }
}

/// The sorted deduplication is sorted and holds exactly the input's elements.
pub proof fn lemma_sort_dedup_props(xs: Seq<Seq<u8>>)
    ensures
        strictly_sorted(sort_dedup(xs)),
        forall|y: Seq<u8>|
            #![trigger sort_dedup(xs).contains(y)]
            #![trigger xs.contains(y)]
            sort_dedup(xs).contains(y) <==> xs.contains(y),
    decreases xs.len(),
{
    if xs.len() > 0 {
        lemma_sort_dedup_props(xs.drop_last());
        lemma_sorted_insert_props(xs.last(), sort_dedup(xs.drop_last()));
        assert forall|y: Seq<u8>| sort_dedup(xs).contains(y) <==> xs.contains(y) by {
            if y == xs.last() {
                assert(xs[xs.len() - 1] == y);
            }
            if xs.drop_last().contains(y) {
                let i = choose|i: int| 0 <= i < xs.drop_last().len() && xs.drop_last()[i] == y;
                assert(xs[i] == y);
            }
            if xs.contains(y) && y != xs.last() {
                let i = choose|i: int| 0 <= i < xs.len() && xs[i] == y;
                assert(xs.drop_last()[i] == y);
            }
        }
    }
}

/// Where the scan of the exec insertion stops, the spec insertion inserts.
proof fn lemma_sorted_insert_at(x: Seq<u8>, s: Seq<Seq<u8>>, p: int)
    requires
        strictly_sorted(s),
        0 <= p <= s.len(),
        forall|j: int| 0 <= j < p ==> lex_cmp(s[j], x) < 0,
        p < s.len() ==> lex_cmp(s[p], x) >= 0,
    ensures
        p < s.len() && lex_cmp(s[p], x) == 0 ==> sorted_insert(x, s) == s,
        !(p < s.len() && lex_cmp(s[p], x) == 0) ==> sorted_insert(x, s) == s.insert(p, x),
    decreases p,
{
    if p == 0 {
        if s.len() == 0 {
            assert(sorted_insert(x, s) =~= s.insert(0, x));
        } else {
            lemma_lex_cmp_antisym(x, s[0]);
            if lex_cmp(s[0], x) == 0 {
            } else {
                assert(lex_cmp(x, s[0]) < 0);
                assert(seq![x] + s =~= s.insert(0, x));
            }
        }
    } else {
        lemma_lex_cmp_antisym(x, s[0]);
        assert(lex_cmp(x, s[0]) > 0);
        let tail = s.skip(1);
        assert forall|i: int, j: int| 0 <= i < j < tail.len() implies lex_cmp(
            tail[i],
            tail[j],
        ) < 0 by {
            assert(tail[i] == s[i + 1] && tail[j] == s[j + 1]);
        }
        assert forall|j: int| 0 <= j < p - 1 implies lex_cmp(tail[j], x) < 0 by {
            assert(tail[j] == s[j + 1]);
        }
        assert(p - 1 < tail.len() ==> tail[p - 1] == s[p]);
        lemma_sorted_insert_at(x, tail, p - 1);
        if p < s.len() && lex_cmp(s[p], x) == 0 {
            assert(seq![s[0]] + tail =~= s);
        } else {
            assert(seq![s[0]] + tail.insert(p - 1, x) =~= s.insert(p, x));
        }
    }
}

/// Deduplicates byte strings into lexicographic order: the result is
/// strictly sorted and holds exactly the input's distinct elements.
pub fn deduplicate(items: Vec<Vec<u8>>) -> (r: Vec<Vec<u8>>)
    ensures
        r.deep_view() == sort_dedup(items.deep_view()),
{
    let ghost idv = items.deep_view();
    let n: usize = items.len();
    let mut out: Vec<Vec<u8>> = Vec::new();
    let mut i: usize = 0;
    proof {
        assert(out.deep_view() =~= sort_dedup(idv.take(0)));
    }
    while i < n
        invariant
            idv == items.deep_view(),
            n == idv.len(),
            n == items@.len(),
            0 <= i <= n,
            out.deep_view() == sort_dedup(idv.take(i as int)),
        decreases n - i,
    {
        let ghost odv = out.deep_view();
        proof {
            lemma_sort_dedup_props(idv.take(i as int));
            assert(idv[i as int] == items@[i as int]@);
        }
        let x: &Vec<u8> = &items[i];
        let m: usize = out.len();
        let mut p: usize = 0;
        while p < m && lex_cmp_bytes(out[p].as_slice(), x.as_slice()) < 0
            invariant
                odv == out.deep_view(),
                m == odv.len(),
                m == out@.len(),
                0 <= p <= m,
                x@ == idv[i as int],
                i < n,
                n == items@.len(),
                forall|j: int| 0 <= j < p ==> lex_cmp(odv[j], x@) < 0,
            decreases m - p,
        {
            proof {
                assert(odv[p as int] == out@[p as int]@);
            }
            p = p + 1;
        }
        let mut duplicate: bool = false;
        if p < m {
            proof {
                assert(odv[p as int] == out@[p as int]@);
            }
            let c: i8 = lex_cmp_bytes(out[p].as_slice(), x.as_slice());
            duplicate = c == 0;
            proof {
                assert(lex_cmp(odv[p as int], x@) >= 0);
            }
        }
        proof {
            lemma_sorted_insert_at(x@, odv, p as int);
            assert(idv.take(i + 1).drop_last() =~= idv.take(i as int));
            assert(idv.take(i + 1).last() == idv[i as int]);
        }
        if !duplicate {
            let xo: Vec<u8> = x.clone();
            proof {
                assert(xo@ =~= x@);
            }
            out.insert(p, xo);
            proof {
                assert(out.deep_view() =~~= odv.insert(p as int, x@));
            }
        }
        i = i + 1;
    }
    proof {
        assert(idv.take(n as int) =~= idv);
    }
    out
}

// ---------------------------------------------------------------------------
// The merge pipeline.
// ---------------------------------------------------------------------------

/// One input file of a merge: a name and its text content.
pub struct ScriptFile {
    pub name: Vec<u8>,
    pub content: Vec<u8>,
}

/// The mathematical value of a script file.
pub ghost struct ScriptFileView {
    pub name: Seq<u8>,
    pub content: Seq<u8>,
}

impl View for ScriptFile {
    type V = ScriptFileView;

    open spec fn view(&self) -> ScriptFileView {
        ScriptFileView { name: self.name@, content: self.content@ }
    }
}

impl DeepView for ScriptFile {
    type V = ScriptFileView;

    open spec fn deep_view(&self) -> ScriptFileView {
        self@
    }
}

/// The concatenation of the files' contents, each preceded by a newline.
pub open spec fn concat_contents(files: Seq<ScriptFileView>) -> Seq<u8>
    decreases files.len(),
{
    if files.len() == 0 {
        Seq::empty()
    } else {
        concat_contents(files.drop_last()) + seq![10u8] + files.last().content
    }
}

/// The lines a merge of these files operates on.
pub open spec fn merge_lines(files: Seq<ScriptFileView>) -> Seq<Seq<u8>> {
    spec_split(concat_contents(files), 10)
}

/// The namespace names declared by these lines, in order of declaration.
pub open spec fn declared_list(ls: Seq<Seq<u8>>) -> Seq<Seq<u8>>
    decreases ls.len(),
{
    if ls.len() == 0 {
        Seq::empty()
    } else {
        declared_list(ls.drop_last()) + match namespace_decl_name(ls.last()) {
            Some(n) => seq![n],
            None => Seq::empty(),
        }
    }
}

/// The names imported by these lines, in order, duplicates kept.
pub open spec fn import_list(ls: Seq<Seq<u8>>) -> Seq<Seq<u8>>
    decreases ls.len(),
{
    if ls.len() == 0 {
        Seq::empty()
    } else {
        import_list(ls.drop_last()) + match import_name(ls.last()) {
            Some(n) => seq![n],
            None => Seq::empty(),
        }
    }
}

/// The names of `names` that are not locally declared namespaces.
pub open spec fn filter_not_declared(names: Seq<Seq<u8>>, declared: Set<Seq<u8>>) -> Seq<Seq<u8>>
    decreases names.len(),
{
    if names.len() == 0 {
        Seq::empty()
    } else {
        filter_not_declared(names.drop_last(), declared) + if declared.contains(names.last()) {
            Seq::empty()
        } else {
            seq![names.last()]
        }
    }
}

/// Whether a line belongs to the merged body: tab-indented and not an import
/// directive.
pub open spec fn is_body_line(l: Seq<u8>) -> bool {
    l.len() > 0 && l[0] == 9 && import_name(l) is None
}

/// The body lines of the merge, in input order.
pub open spec fn body_list(ls: Seq<Seq<u8>>) -> Seq<Seq<u8>>
    decreases ls.len(),
{
    if ls.len() == 0 {
        Seq::empty()
    } else {
        body_list(ls.drop_last()) + if is_body_line(ls.last()) {
            seq![ls.last()]
        } else {
            Seq::empty()
        }
    }
}

/// The import section of a merge of these files: the imported names,
/// deduplicated into lexicographic order, without the locally declared
/// namespaces.
pub open spec fn merged_imports(files: Seq<ScriptFileView>) -> Seq<Seq<u8>> {
    filter_not_declared(
        sort_dedup(import_list(merge_lines(files))),
        declared_list(merge_lines(files)).to_set(),
    )
}

/// One emitted import directive: `using <name>;` and a newline.
pub open spec fn using_line(n: Seq<u8>) -> Seq<u8> {
    kw_using() + seq![32u8] + n + seq![59u8, 10u8]
}

/// The emitted import section.
pub open spec fn imports_block(names: Seq<Seq<u8>>) -> Seq<u8>
    decreases names.len(),
{
    if names.len() == 0 {
        Seq::empty()
    } else {
        imports_block(names.drop_last()) + using_line(names.last())
    }
}

/// The full merged script: a `// <header>` comment line, the import section,
/// and the body joined by newlines inside `namespace <ns> { ... }`.
pub open spec fn merged(header: Seq<u8>, ns: Seq<u8>, files: Seq<ScriptFileView>) -> Seq<u8> {
    seq![47u8, 47u8, 32u8] + header + seq![10u8] + imports_block(merged_imports(files))
        + kw_namespace() + seq![32u8] + ns + seq![10u8, 123u8, 10u8] + spec_join(
        body_list(merge_lines(files)),
        10,
    ) + seq![10u8, 125u8]
}

/// Merges the given script files into one script under `target_namespace`,
/// headed by the comment line `// <header_comment>`.  The output is the
/// exact byte string `merged` describes, a function of the arguments alone.
pub fn compile_to_single_script(
    header_comment: &[u8],
    target_namespace: &[u8],
    dependency_scripts: &Vec<ScriptFile>,
) -> (r: Vec<u8>)
    ensures
        r@ == merged(header_comment@, target_namespace@, dependency_scripts.deep_view()),
{
    let ghost fdv = dependency_scripts.deep_view();
    let nf: usize = dependency_scripts.len();

    // Concatenate all contents, each preceded by a newline.
    let mut mega: Vec<u8> = Vec::new();
    let mut i: usize = 0;
    proof {
        assert(mega@ =~= concat_contents(fdv.take(0)));
    }
    while i < nf
        invariant
            fdv == dependency_scripts.deep_view(),
            nf == fdv.len(),
            nf == dependency_scripts@.len(),
            0 <= i <= nf,
            mega@ == concat_contents(fdv.take(i as int)),
        decreases nf - i,
    {
        mega.push(10);
        extend_bytes(&mut mega, dependency_scripts[i].content.as_slice());
        proof {
            assert(fdv.take(i + 1).drop_last() =~= fdv.take(i as int));
            assert(fdv[i as int] == dependency_scripts@[i as int]@);
            assert(mega@ =~= concat_contents(fdv.take(i + 1)));
        }
        i = i + 1;
    }
    proof {
        assert(fdv.take(nf as int) =~= fdv);
    }

    let ls: Vec<Vec<u8>> = split_byte(mega.as_slice(), 10);
    let ghost lsv = merge_lines(fdv);
    proof {
        assert(ls.deep_view() == lsv);
    }
    let nl: usize = ls.len();
    proof {
        assert(nl == lsv.len());
    }

    // Collect declared namespace names and imported names.
    let mut declared: Vec<Vec<u8>> = Vec::new();
    let mut imports: Vec<Vec<u8>> = Vec::new();
    let mut j: usize = 0;
    proof {
        assert(declared.deep_view() =~= declared_list(lsv.take(0)));
        assert(imports.deep_view() =~= import_list(lsv.take(0)));
    }
    while j < nl
        invariant
            lsv == ls.deep_view(),
            nl == lsv.len(),
            nl == ls@.len(),
            0 <= j <= nl,
            declared.deep_view() == declared_list(lsv.take(j as int)),
            imports.deep_view() == import_list(lsv.take(j as int)),
        decreases nl - j,
    {
        proof {
            assert(lsv[j as int] == ls@[j as int]@);
            assert(lsv.take(j + 1).drop_last() =~= lsv.take(j as int));
        }
        let ghost ddv = declared.deep_view();
        let ghost impv = imports.deep_view();
        let dn: Option<Vec<u8>> = line_namespace_name(ls[j].as_slice());
        match dn {
            Some(n) => {
                declared.push(n);
                proof {
                    assert(declared.deep_view() =~~= declared_list(lsv.take(j + 1)));
                }
            },
            None => {},
        }
        let un: Option<Vec<u8>> = line_import_name(ls[j].as_slice());
        match un {
            Some(n) => {
                imports.push(n);
                proof {
                    assert(imports.deep_view() =~~= import_list(lsv.take(j + 1)));
                }
            },
            None => {},
        }
        proof {
            assert(declared.deep_view() =~~= declared_list(lsv.take(j + 1)));
            assert(imports.deep_view() =~~= import_list(lsv.take(j + 1)));
        }
        j = j + 1;
    }
    proof {
        assert(lsv.take(nl as int) =~= lsv);
    }

    // Deduplicate imports into sorted order, then drop self-imports.
    let sorted: Vec<Vec<u8>> = deduplicate(imports);
    let ghost dset = declared_list(lsv).to_set();
    let mut kept: Vec<Vec<u8>> = Vec::new();
    let sn: usize = sorted.len();
    let ghost sdv = sorted.deep_view();
    let mut k: usize = 0;
    proof {
        assert(sn == sdv.len());
        assert(kept.deep_view() =~= filter_not_declared(sdv.take(0), dset));
    }
    while k < sn
        invariant
            sdv == sorted.deep_view(),
            sn == sdv.len(),
            sn == sorted@.len(),
            0 <= k <= sn,
            dset == declared_list(lsv).to_set(),
            declared.deep_view() == declared_list(lsv),
            kept.deep_view() == filter_not_declared(sdv.take(k as int), dset),
        decreases sn - k,
    {
        proof {
            assert(sdv[k as int] == sorted@[k as int]@);
            assert(sdv.take(k + 1).drop_last() =~= sdv.take(k as int));
        }
        let ghost kdv = kept.deep_view();
        let x: &Vec<u8> = &sorted[k];
        let mut found: bool = false;
        let dn: usize = declared.len();
        let mut d: usize = 0;
        while d < dn && !found
            invariant
                dn == declared@.len(),
                dn == declared.deep_view().len(),
                0 <= d <= dn,
                x@ == sdv[k as int],
                found ==> declared.deep_view().contains(x@),
                !found ==> forall|q: int| 0 <= q < d ==> declared.deep_view()[q] != x@,
            decreases dn - d,
        {
            proof {
                assert(declared.deep_view()[d as int] == declared@[d as int]@);
            }
            if bytes_eq(declared[d].as_slice(), x.as_slice()) {
                found = true;
            }
            d = d + 1;
        }
        proof {
            if !found {
                assert forall|q: int|
                    0 <= q < declared.deep_view().len() implies declared.deep_view()[q] != x@ by {}
                assert(!declared.deep_view().contains(x@));
            }
            assert(found == dset.contains(sdv[k as int]));
        }
        if !found {
            let xo: Vec<u8> = x.clone();
            proof {
                assert(xo@ =~= x@);
            }
            kept.push(xo);
            proof {
                assert(kept.deep_view() =~~= filter_not_declared(sdv.take(k + 1), dset));
            }
        } else {
            proof {
                assert(kept.deep_view() =~~= filter_not_declared(sdv.take(k + 1), dset));
            }
        }
        k = k + 1;
    }
    proof {
        assert(sdv.take(sn as int) =~= sdv);
    }

    // Collect the body lines.
    let mut body: Vec<Vec<u8>> = Vec::new();
    let mut b: usize = 0;
    proof {
        assert(body.deep_view() =~= body_list(lsv.take(0)));
    }
    while b < nl
        invariant
            lsv == ls.deep_view(),
            nl == lsv.len(),
            nl == ls@.len(),
            0 <= b <= nl,
            body.deep_view() == body_list(lsv.take(b as int)),
        decreases nl - b,
    {
        proof {
            assert(lsv[b as int] == ls@[b as int]@);
            assert(lsv.take(b + 1).drop_last() =~= lsv.take(b as int));
        }
        let ghost bdv = body.deep_view();
        let line: &Vec<u8> = &ls[b];
        let mut keep: bool = false;
        if line.len() > 0 {
            let first: u8 = line[0];
            if first == 9 {
                let imp: Option<Vec<u8>> = line_import_name(line.as_slice());
                keep = imp.is_none();
            }
        }
        proof {
            assert(keep == is_body_line(lsv[b as int]));
        }
        if keep {
            let lo: Vec<u8> = line.clone();
            proof {
                assert(lo@ =~= line@);
            }
            body.push(lo);
        }
        proof {
            assert(body.deep_view() =~~= body_list(lsv.take(b + 1)));
        }
        b = b + 1;
    }
    proof {
        assert(lsv.take(nl as int) =~= lsv);
    }

    // Assemble the output.
    let mut out: Vec<u8> = Vec::new();
    out.push(47);
    out.push(47);
    out.push(32);
    extend_bytes(&mut out, header_comment);
    out.push(10);
    let ghost head = seq![47u8, 47u8, 32u8] + header_comment@ + seq![10u8];
    proof {
        assert(out@ =~= head);
    }

    // Import section.
    let kn: usize = kept.len();
    let ghost keptv = kept.deep_view();
    let kw_u: Vec<u8> = kw_using_vec();
    let mut u: usize = 0;
    proof {
        assert(kn == keptv.len());
        assert(out@ =~= head + imports_block(keptv.take(0)));
    }
    while u < kn
        invariant
            keptv == kept.deep_view(),
            kn == keptv.len(),
            kn == kept@.len(),
            kw_u@ == kw_using(),
            head == seq![47u8, 47u8, 32u8] + header_comment@ + seq![10u8],
            0 <= u <= kn,
            out@ == head + imports_block(keptv.take(u as int)),
        decreases kn - u,
    {
        proof {
            assert(keptv[u as int] == kept@[u as int]@);
            assert(keptv.take(u + 1).drop_last() =~= keptv.take(u as int));
        }
        extend_bytes(&mut out, kw_u.as_slice());
        out.push(32);
        extend_bytes(&mut out, kept[u].as_slice());
        out.push(59);
        out.push(10);
        proof {
            assert(out@ =~= head + imports_block(keptv.take(u + 1)));
        }
        u = u + 1;
    }
    proof {
        assert(keptv.take(kn as int) =~= keptv);
    }

    // Namespace wrapper and body.
    let kw_n: Vec<u8> = kw_namespace_vec();
    extend_bytes(&mut out, kw_n.as_slice());
    out.push(32);
    extend_bytes(&mut out, target_namespace);
    out.push(10);
    out.push(123);
    out.push(10);
    let ghost before_body = out@;
    let bn: usize = body.len();
    let ghost bodyv = body.deep_view();
    let mut w: usize = 0;
    proof {
        assert(bn == bodyv.len());
        assert(out@ =~= before_body + spec_join(bodyv.take(0), 10));
    }
    while w < bn
        invariant
            bodyv == body.deep_view(),
            bn == bodyv.len(),
            bn == body@.len(),
            0 <= w <= bn,
            out@ == before_body + spec_join(bodyv.take(w as int), 10),
        decreases bn - w,
    {
        proof {
            assert(bodyv[w as int] == body@[w as int]@);
            assert(bodyv.take(w + 1).drop_last() =~= bodyv.take(w as int));
            assert(bodyv.take(w + 1) =~= bodyv.take(w as int).push(bodyv[w as int]));
        }
        if w > 0 {
            out.push(10);
        }
        extend_bytes(&mut out, body[w].as_slice());
        proof {
            lemma_join_push(bodyv.take(w as int), bodyv[w as int], 10);
            assert(out@ =~= before_body + spec_join(bodyv.take(w + 1), 10));
        }
        w = w + 1;
    }
    proof {
        assert(bodyv.take(bn as int) =~= bodyv);
    }
    out.push(10);
    out.push(125);
    proof {
        assert(out@ =~= merged(header_comment@, target_namespace@, fdv));
    }
    out
}

/// Joining after appending one more part: the joined string grows by a
/// separator (except for the first part) and the part.
proof fn lemma_join_push(parts: Seq<Seq<u8>>, x: Seq<u8>, sep: u8)
    ensures
        spec_join(parts.push(x), sep) == if parts.len() == 0 {
            x
        } else {
            spec_join(parts, sep) + seq![sep] + x
        },
    decreases parts.len(),
{
    let p = parts.push(x);
    if parts.len() == 0 {
        assert(p.len() == 1);
        assert(p[0] == x);
    } else {
        assert(p[0] == parts[0]);
        assert(p.skip(1) =~= parts.skip(1).push(x));
        lemma_join_push(parts.skip(1), x, sep);
        if parts.len() == 1 {
            assert(parts.skip(1).len() == 0);
            assert(spec_join(p, sep) == parts[0] + seq![sep] + x);
            assert(spec_join(parts, sep) == parts[0]);
        } else {
            assert(spec_join(p, sep) == parts[0] + seq![sep] + (spec_join(parts.skip(1), sep)
                + seq![sep] + x));
            assert(spec_join(parts, sep) + seq![sep] + x =~= parts[0] + seq![sep] + (spec_join(
                parts.skip(1),
                sep,
            ) + seq![sep] + x));
        }
    }
}

/// Extracts the tab-indented lines of a text, joined by newlines: the body
/// heuristic applied on its own, as the standalone build path uses it.
pub fn extract_indented_lines(input: &[u8]) -> (r: Vec<u8>)
    ensures
        r@ == spec_join(indented_list(spec_split(input@, 10)), 10),
{
    let ls: Vec<Vec<u8>> = split_byte(input, 10);
    let ghost lsv = spec_split(input@, 10);
    let nl: usize = ls.len();
    let mut keptl: Vec<Vec<u8>> = Vec::new();
    let mut i: usize = 0;
    proof {
        assert(nl == lsv.len());
        assert(keptl.deep_view() =~= indented_list(lsv.take(0)));
    }
    while i < nl
        invariant
            lsv == ls.deep_view(),
            nl == lsv.len(),
            nl == ls@.len(),
            0 <= i <= nl,
            keptl.deep_view() == indented_list(lsv.take(i as int)),
        decreases nl - i,
    {
        proof {
            assert(lsv[i as int] == ls@[i as int]@);
            assert(lsv.take(i + 1).drop_last() =~= lsv.take(i as int));
        }
        let line: &Vec<u8> = &ls[i];
        if line.len() > 0 && line[0] == 9 {
            let lo: Vec<u8> = line.clone();
            proof {
                assert(lo@ =~= line@);
            }
            keptl.push(lo);
        }
        proof {
            assert(keptl.deep_view() =~~= indented_list(lsv.take(i + 1)));
        }
        i = i + 1;
    }
    proof {
        assert(lsv.take(nl as int) =~= lsv);
    }
    let ghost kv = keptl.deep_view();
    let kn: usize = keptl.len();
    let mut out: Vec<u8> = Vec::new();
    let mut w: usize = 0;
    proof {
        assert(kn == kv.len());
        assert(out@ =~= spec_join(kv.take(0), 10));
    }
    while w < kn
        invariant
            kv == keptl.deep_view(),
            kn == kv.len(),
            kn == keptl@.len(),
            0 <= w <= kn,
            out@ == spec_join(kv.take(w as int), 10),
        decreases kn - w,
    {
        proof {
            assert(kv[w as int] == keptl@[w as int]@);
            assert(kv.take(w + 1) =~= kv.take(w as int).push(kv[w as int]));
        }
        if w > 0 {
            out.push(10);
        }
        extend_bytes(&mut out, keptl[w].as_slice());
        proof {
            lemma_join_push(kv.take(w as int), kv[w as int], 10);
            assert(out@ =~= spec_join(kv.take(w + 1), 10));
        }
        w = w + 1;
    }
    proof {
        assert(kv.take(kn as int) =~= kv);
    }
    out
}

/// The tab-indented lines among `ls`.
pub open spec fn indented_list(ls: Seq<Seq<u8>>) -> Seq<Seq<u8>>
    decreases ls.len(),
{
    if ls.len() == 0 {
        Seq::empty()
    } else {
        indented_list(ls.drop_last()) + if ls.last().len() > 0 && ls.last()[0] == 9 {
            seq![ls.last()]
        } else {
            Seq::empty()
        }
    }
}

// ---------------------------------------------------------------------------
// Laws of the merge.
// ---------------------------------------------------------------------------

/// Filtering keeps order and only drops elements, so a strictly sorted input
/// stays strictly sorted; and nothing in the declared set survives.
proof fn lemma_filter_not_declared_props(names: Seq<Seq<u8>>, declared: Set<Seq<u8>>)
    requires
        strictly_sorted(names),
    ensures
        strictly_sorted(filter_not_declared(names, declared)),
        forall|y: Seq<u8>| #![trigger filter_not_declared(names, declared).contains(y)]
            filter_not_declared(names, declared).contains(y) ==> names.contains(y)
                && !declared.contains(y),
    decreases names.len(),
{
    if names.len() > 0 {
        let fr = filter_not_declared(names, declared);
        let front = names.drop_last();
        assert forall|i: int, j: int| 0 <= i < j < front.len() implies lex_cmp(
            front[i],
            front[j],
        ) < 0 by {
            assert(front[i] == names[i] && front[j] == names[j]);
        }
        lemma_filter_not_declared_props(front, declared);
        let ff = filter_not_declared(front, declared);
        if !declared.contains(names.last()) {
            assert forall|i: int, j: int| 0 <= i < j < fr.len() implies lex_cmp(
                fr[i],
                fr[j],
            ) < 0 by {
                if j == fr.len() - 1 {
                    assert(fr[j] == names.last());
                    assert(fr[i] == ff[i]);
                    assert(ff.contains(ff[i]));
                    assert(front.contains(ff[i]));
                    let k = choose|k: int| 0 <= k < front.len() && front[k] == ff[i];
                    assert(names[k] == ff[i]);
                    assert(lex_cmp(names[k], names[names.len() - 1]) < 0);
                } else {
                    assert(fr[i] == ff[i] && fr[j] == ff[j]);
                }
            }
            assert forall|y: Seq<u8>|
                fr.contains(y) implies names.contains(y) && !declared.contains(y) by {
                let k = choose|k: int| 0 <= k < fr.len() && fr[k] == y;
                if k == fr.len() - 1 {
                    assert(y == names.last());
                    assert(names[names.len() - 1] == y);
                } else {
                    assert(ff[k] == y);
                    assert(ff.contains(y));
                    let q = choose|q: int| 0 <= q < front.len() && front[q] == y;
                    assert(names[q] == y);
                }
            }
        } else {
            assert(fr =~= ff);
            assert forall|y: Seq<u8>|
                fr.contains(y) implies names.contains(y) && !declared.contains(y) by {
                assert(ff.contains(y));
                let q = choose|q: int| 0 <= q < front.len() && front[q] == y;
                assert(names[q] == y);
            }
        }
    }
}

/// The import section of any merge holds no name twice: the deduplicated
/// list is strictly sorted and filtering keeps it so.  In particular,
/// merging a merge's own output never reintroduces a duplicate import line.
pub proof fn lemma_merged_imports_unique(files: Seq<ScriptFileView>)
    ensures
        forall|i: int, j: int|
            0 <= i < j < merged_imports(files).len() ==> merged_imports(files)[i]
                != merged_imports(files)[j],
{
    let ls = merge_lines(files);
    lemma_sort_dedup_props(import_list(ls));
    lemma_filter_not_declared_props(sort_dedup(import_list(ls)), declared_list(ls).to_set());
    let m = merged_imports(files);
    assert forall|i: int, j: int| 0 <= i < j < m.len() implies m[i] != m[j] by {
        assert(lex_cmp(m[i], m[j]) < 0);
        lemma_lex_cmp_eq(m[i], m[j]);
    }
}

/// No merge imports a namespace its own inputs declare: every declared name
/// is absent from the import section.
pub proof fn lemma_merged_imports_filter_self(files: Seq<ScriptFileView>)
    ensures
        forall|n: Seq<u8>|
            declared_list(merge_lines(files)).contains(n) ==> !merged_imports(files).contains(n),
{
    let ls = merge_lines(files);
    lemma_sort_dedup_props(import_list(ls));
    lemma_filter_not_declared_props(sort_dedup(import_list(ls)), declared_list(ls).to_set());
    assert forall|n: Seq<u8>|
        declared_list(ls).contains(n) implies !merged_imports(files).contains(n) by {
        assert(declared_list(ls).to_set().contains(n));
    }
}

/// The merge is deterministic: two results of merging the same files under
/// the same namespace and header are byte-identical.
pub proof fn lemma_merge_deterministic(
    header: Seq<u8>,
    ns: Seq<u8>,
    files: Seq<ScriptFileView>,
    r1: Seq<u8>,
    r2: Seq<u8>,
)
    requires
        r1 == merged(header, ns, files),
        r2 == merged(header, ns, files),
    ensures
        r1 == r2,
{
}

} // verus!
