//! Range-precise substitution of replacement bytes into document content.
//!
//! A [`Span`] is one resolved substitution: a half-open byte range of the
//! original content together with the bytes that replace it. Splicing walks
//! the spans in ascending range order, copying the untouched gaps verbatim.

use vstd::prelude::*;

verus! {

use vstd::multiset::Multiset;

/// One resolved substitution: replace `content[start..end]` by `bytes`.
pub struct Span {
    pub start: usize,
    pub end: usize,
    pub bytes: Vec<u8>,
}

/// The range is non-empty and lies inside content of length `n`.
pub open spec fn span_fits(sp: Span, n: int) -> bool {
    sp.start < sp.end <= n
}

/// The two ranges do not overlap.
pub open spec fn disjoint(a: Span, b: Span) -> bool {
    a.end <= b.start || b.end <= a.start
}

pub open spec fn pairwise_disjoint(s: Seq<Span>) -> bool {
    forall|i: int, j: int| 0 <= i < j < s.len() ==> disjoint(#[trigger] s[i], #[trigger] s[j])
}

/// Every span fits the content and no two spans overlap.
pub open spec fn spans_valid(n: int, s: Seq<Span>) -> bool {
    &&& forall|i: int| 0 <= i < s.len() ==> span_fits(#[trigger] s[i], n)
    &&& pairwise_disjoint(s)
}

pub open spec fn sorted_by_start(s: Seq<Span>) -> bool {
    forall|i: int, j: int| 0 <= i <= j < s.len() ==> (#[trigger] s[i]).start <= (#[trigger] s[j]).start
}

/// Spans in ascending order, each beginning at or after `cursor`, all inside
/// content of length `n`.
pub open spec fn wf_chain(n: int, s: Seq<Span>, cursor: int) -> bool
    decreases s.len(),
{
    if s.len() == 0 {
        0 <= cursor <= n
    } else {
        &&& 0 <= cursor <= s[0].start
        &&& s[0].start <= s[0].end <= n
        &&& wf_chain(n, s.drop_first(), s[0].end as int)
    }
}

/// The spliced output from `cursor` on: gaps copied verbatim, spans replaced.
pub open spec fn splice_from(content: Seq<u8>, s: Seq<Span>, cursor: int) -> Seq<u8>
    decreases s.len(),
{
    if s.len() == 0 {
        content.subrange(cursor, content.len() as int)
    } else {
        content.subrange(cursor, s[0].start as int) + s[0].bytes@ + splice_from(
            content,
            s.drop_first(),
            s[0].end as int,
        )
    }
}

/// Splice with no spans returns the content unchanged.
pub proof fn lemma_splice_empty(content: Seq<u8>)
    ensures
        splice_from(content, Seq::<Span>::empty(), 0) == content,
{
    assert(splice_from(content, Seq::<Span>::empty(), 0) =~= content);
}

/// Sorted, mutually disjoint, fitting spans form a well-formed chain from
/// any cursor at or before the first start.
pub proof fn lemma_valid_sorted_chain(n: int, s: Seq<Span>, cursor: int)
    requires
        spans_valid(n, s),
        sorted_by_start(s),
        0 <= cursor <= n,
        s.len() > 0 ==> cursor <= s[0].start,
    ensures
        wf_chain(n, s, cursor),
    decreases s.len(),
{
    if s.len() > 0 {
        let rest = s.drop_first();
        assert(forall|i: int| 0 <= i < rest.len() ==> rest[i] == s[i + 1]);
        if rest.len() > 0 {
            // the first two spans are ordered and disjoint, so end0 <= start1
            assert(disjoint(s[0], s[1]));
            assert(s[0].start <= s[1].start);
            assert(span_fits(s[1], n));
            assert(s[0].end <= s[1].start);
        }
        lemma_valid_sorted_chain(n, rest, s[0].end as int);
    }
}

/// Splice the sorted spans into the content.
pub fn splice(content: &Vec<u8>, spans: &Vec<Span>) -> (r: Vec<u8>)
    requires
        wf_chain(content@.len() as int, spans@, 0),
    ensures
        r@ == splice_from(content@, spans@, 0),
{
    let mut out: Vec<u8> = Vec::new();
    let mut cursor: usize = 0;
    let mut idx: usize = 0;
    proof {
        assert(spans@.skip(0) =~= spans@);
    }
    while idx < spans.len()
        invariant
            idx <= spans@.len(),
            cursor <= content@.len(),
            wf_chain(content@.len() as int, spans@.skip(idx as int), cursor as int),
            splice_from(content@, spans@, 0) == out@ + splice_from(
                content@,
                spans@.skip(idx as int),
                cursor as int,
            ),
        decreases spans@.len() - idx,
    {
        let ghost rest = spans@.skip(idx as int);
        proof {
            assert(rest.len() > 0);
            assert(rest[0] == spans@[idx as int]);
            assert(rest.drop_first() =~= spans@.skip(idx + 1));
        }
        let sp_start = spans[idx].start;
        let sp_end = spans[idx].end;
        crate::bytes_util::append_subrange(&mut out, content, cursor, sp_start);
        crate::bytes_util::append_vec(&mut out, &spans[idx].bytes);
        proof {
            assert(splice_from(content@, rest, cursor as int) == content@.subrange(
                cursor as int,
                rest[0].start as int,
            ) + rest[0].bytes@ + splice_from(content@, rest.drop_first(), rest[0].end as int));
        }
        cursor = sp_end;
        idx = idx + 1;
    }
    proof {
        assert(spans@.skip(spans@.len() as int) =~= Seq::<Span>::empty());
        assert(splice_from(content@, spans@.skip(spans@.len() as int), cursor as int)
            == content@.subrange(cursor as int, content@.len() as int));
    }
    crate::bytes_util::append_subrange(&mut out, content, cursor, content.len());
    out
}

/// Sort spans by range start, keeping exactly the same collection of spans.
pub fn sort_spans(spans: Vec<Span>) -> (r: Vec<Span>)
    ensures
        r@.to_multiset() == spans@.to_multiset(),
        sorted_by_start(r@),
{
    broadcast use vstd::seq_lib::group_to_multiset_ensures;
    broadcast use vstd::seq_lib::to_multiset_insert;
    broadcast use vstd::seq_lib::to_multiset_remove;
    broadcast use vstd::multiset::group_multiset_axioms;

    let mut src = spans;
    let mut out: Vec<Span> = Vec::new();
    proof {
        assert(out@.to_multiset().add(src@.to_multiset()) =~= spans@.to_multiset());
    }
    while src.len() > 0
        invariant
            sorted_by_start(out@),
            out@.to_multiset().add(src@.to_multiset()) == spans@.to_multiset(),
        decreases src@.len(),
    {
        let ghost src0 = src@;
        let e = src.remove(0);
        let mut p: usize = 0;
        while p < out.len() && out[p].start <= e.start
            invariant
                p <= out@.len(),
                forall|j: int| 0 <= j < p ==> (#[trigger] out@[j]).start <= e.start,
            decreases out@.len() - p,
        {
            p = p + 1;
        }
        let ghost out0 = out@;
        out.insert(p, e);
        proof {
            assert forall|i: int, j: int| 0 <= i <= j < out@.len() implies (#[trigger] out@[i]).start
                <= (#[trigger] out@[j]).start by {
                assert(out@ == out0.insert(p as int, e));
                if i < p && j < p {
                    assert(out@[i] == out0[i] && out@[j] == out0[j]);
                } else if i < p && j == p {
                    assert(out@[i] == out0[i] && out@[j] == e);
                } else if i < p && j > p {
                    assert(out@[i] == out0[i] && out@[j] == out0[j - 1]);
                } else if i == p && j > p {
                    assert(out@[j] == out0[j - 1]);
                    assert(p < out0.len() + 1);
                    assert(!(p < out0.len()) || out0[p as int].start > e.start);
                    assert(out0[p as int].start <= out0[j - 1].start);
                } else if i == p && j == p {
                } else {
                    assert(out@[i] == out0[i - 1] && out@[j] == out0[j - 1]);
                }
            }
            assert(src0[0] == e);
            assert(src0.contains(e));
            vstd::seq_lib::to_multiset_contains(src0, e);
            vstd::seq_lib::to_multiset_remove(src0, 0);
            vstd::seq_lib::to_multiset_insert(out0, p as int, e);
            assert(src@ == src0.remove(0));
            assert(src@.to_multiset() == src0.to_multiset().remove(e));
            assert(out@ == out0.insert(p as int, e));
            assert(out@.to_multiset() == out0.to_multiset().insert(e));
            assert(out@.to_multiset().add(src@.to_multiset()) =~= out0.to_multiset().add(
                src0.to_multiset()));
        }
    }
    proof {
        assert(src@.to_multiset() =~= Multiset::<Span>::empty());
        assert(out@.to_multiset().add(src@.to_multiset()) =~= out@.to_multiset());
    }
    out
}

/// Check a span collection against [`spans_valid`], so an unverified
/// caller can refuse bad input before splicing.
pub fn check_spans(n: usize, spans: &Vec<Span>) -> (r: bool)
    ensures
        r == spans_valid(n as int, spans@),
{
    let mut i: usize = 0;
    while i < spans.len()
        invariant
            i <= spans@.len(),
            forall|a: int| 0 <= a < i ==> span_fits(#[trigger] spans@[a], n as int),
        decreases spans@.len() - i,
    {
        if !(spans[i].start < spans[i].end && spans[i].end <= n) {
            return false;
        }
        i = i + 1;
    }
    let mut a: usize = 0;
    while a < spans.len()
        invariant
            a <= spans@.len(),
            forall|x: int| 0 <= x < spans@.len() ==> span_fits(#[trigger] spans@[x], n as int),
            forall|x: int, y: int| 0 <= x < y < spans@.len() && x < a ==> disjoint(
                #[trigger] spans@[x],
                #[trigger] spans@[y],
            ),
        decreases spans@.len() - a,
    {
        let mut b: usize = a + 1;
        while b < spans.len()
            invariant
                a < b <= spans@.len(),
                a < spans@.len(),
                forall|x: int, y: int| 0 <= x < y < spans@.len() && x < a ==> disjoint(
                    #[trigger] spans@[x],
                    #[trigger] spans@[y],
                ),
                forall|y: int| a < y < b ==> disjoint(spans@[a as int], #[trigger] spans@[y]),
            decreases spans@.len() - b,
        {
            if !(spans[a].end <= spans[b].start || spans[b].end <= spans[a].start) {
                return false;
            }
            b = b + 1;
        }
        a = a + 1;
    }
    true
}

/// A value appearing at two distinct indices is counted at least twice.
proof fn lemma_count_two(s: Seq<Span>, i: int, j: int)
    requires
        0 <= i < j < s.len(),
        s[i] == s[j],
    ensures
        s.to_multiset().count(s[i]) >= 2,
{
    broadcast use vstd::multiset::group_multiset_axioms;

    vstd::seq_lib::to_multiset_remove(s, i);
    assert(s.remove(i)[j - 1] == s[j]);
    assert(s.remove(i).contains(s[i]));
    vstd::seq_lib::to_multiset_contains(s.remove(i), s[i]);
}

/// Validity of a span collection is preserved under reordering.
pub proof fn lemma_valid_permutation(n: int, x: Seq<Span>, y: Seq<Span>)
    requires
        spans_valid(n, x),
        y.to_multiset() == x.to_multiset(),
    ensures
        spans_valid(n, y),
{
    broadcast use vstd::multiset::group_multiset_axioms;

    assert forall|i: int| 0 <= i < y.len() implies span_fits(#[trigger] y[i], n) by {
        vstd::seq_lib::to_multiset_contains(y, y[i]);
        vstd::seq_lib::to_multiset_contains(x, y[i]);
        assert(y.contains(y[i]));
        let a = choose|a: int| 0 <= a < x.len() && x[a] == y[i];
        assert(span_fits(x[a], n));
    }
    assert forall|i: int, j: int| 0 <= i < j < y.len() implies disjoint(
        #[trigger] y[i],
        #[trigger] y[j],
    ) by {
        vstd::seq_lib::to_multiset_contains(y, y[i]);
        vstd::seq_lib::to_multiset_contains(x, y[i]);
        assert(y.contains(y[i]));
        let a = choose|a: int| 0 <= a < x.len() && x[a] == y[i];
        if y[i] == y[j] {
            lemma_count_two(y, i, j);
            vstd::seq_lib::to_multiset_remove(x, a);
            vstd::seq_lib::to_multiset_contains(x.remove(a), y[i]);
            assert(x.remove(a).to_multiset().count(y[i]) >= 1);
            assert(x.remove(a).contains(y[i]));
            let b0 = choose|b0: int| 0 <= b0 < x.remove(a).len() && x.remove(a)[b0] == y[i];
            let b = if b0 < a {
                b0
            } else {
                b0 + 1
            };
            assert(x[b] == y[i] && b != a);
            if a < b {
                assert(disjoint(x[a], x[b]));
            } else {
                assert(disjoint(x[b], x[a]));
            }
            assert(span_fits(x[a], n));
            assert(false);
        } else {
            vstd::seq_lib::to_multiset_contains(y, y[j]);
            vstd::seq_lib::to_multiset_contains(x, y[j]);
            assert(y.contains(y[j]));
            let b = choose|b: int| 0 <= b < x.len() && x[b] == y[j];
            assert(a != b);
            if a < b {
                assert(disjoint(x[a], x[b]));
            } else {
                assert(disjoint(x[b], x[a]));
            }
        }
    }
}

/// Two ascending arrangements of the same valid span collection are equal.
pub proof fn lemma_sorted_valid_unique(n: int, x: Seq<Span>, y: Seq<Span>)
    requires
        spans_valid(n, x),
        sorted_by_start(x),
        spans_valid(n, y),
        sorted_by_start(y),
        x.to_multiset() == y.to_multiset(),
    ensures
        x == y,
    decreases x.len(),
{
    broadcast use vstd::multiset::group_multiset_axioms;

    vstd::seq_lib::to_multiset_len(x);
    vstd::seq_lib::to_multiset_len(y);
    if x.len() == 0 {
        assert(x =~= y);
    } else {
        vstd::seq_lib::to_multiset_contains(x, y[0]);
        vstd::seq_lib::to_multiset_contains(y, y[0]);
        assert(y.contains(y[0]));
        let a = choose|a: int| 0 <= a < x.len() && x[a] == y[0];
        vstd::seq_lib::to_multiset_contains(x, x[0]);
        vstd::seq_lib::to_multiset_contains(y, x[0]);
        assert(x.contains(x[0]));
        let b = choose|b: int| 0 <= b < y.len() && y[b] == x[0];
        assert(x[0].start <= x[a].start);
        assert(y[0].start <= y[b].start);
        assert(x[0].start == y[0].start);
        if a > 0 {
            assert(disjoint(x[0], x[a]));
            assert(span_fits(x[0], n) && span_fits(x[a], n));
            assert(x[0].end <= x[a].start);
            assert(false);
        }
        assert(x[0] == y[0]);
        vstd::seq_lib::to_multiset_remove(x, 0);
        vstd::seq_lib::to_multiset_remove(y, 0);
        let xr = x.remove(0);
        let yr = y.remove(0);
        assert(forall|i: int| 0 <= i < xr.len() ==> #[trigger] xr[i] == x[i + 1]);
        assert(forall|i: int| 0 <= i < yr.len() ==> #[trigger] yr[i] == y[i + 1]);
        assert(spans_valid(n, xr));
        assert(sorted_by_start(xr));
        assert(spans_valid(n, yr));
        assert(sorted_by_start(yr));
        lemma_sorted_valid_unique(n, xr, yr);
        assert forall|i: int| 0 <= i < x.len() implies x[i] == y[i] by {
            if i > 0 {
                assert(xr[i - 1] == x[i]);
                assert(yr[i - 1] == y[i]);
                assert(xr[i - 1] == yr[i - 1]);
            }
        }
        assert(x =~= y);
    }
}

/// The ascending arrangement of a collection of spans.
pub open spec fn sorted_arrangement(s: Seq<Span>) -> Seq<Span> {
    choose|t: Seq<Span>| t.to_multiset() == s.to_multiset() && sorted_by_start(t)
}

/// Law: the spliced output depends only on which spans were resolved, never
/// on the order in which the fan-out workers delivered them. Any two
/// delivery orders of the same span collection, once arranged ascending,
/// splice to identical bytes.
pub proof fn lemma_splice_order_independent(
    content: Seq<u8>,
    raw1: Seq<Span>,
    raw2: Seq<Span>,
    s1: Seq<Span>,
    s2: Seq<Span>,
)
    requires
        spans_valid(content.len() as int, raw1),
        raw1.to_multiset() == raw2.to_multiset(),
        s1.to_multiset() == raw1.to_multiset(),
        sorted_by_start(s1),
        s2.to_multiset() == raw2.to_multiset(),
        sorted_by_start(s2),
    ensures
        splice_from(content, s1, 0) == splice_from(content, s2, 0),
{
    lemma_valid_permutation(content.len() as int, raw1, s1);
    lemma_valid_permutation(content.len() as int, raw1, s2);
    lemma_sorted_valid_unique(content.len() as int, s1, s2);
}

proof fn lemma_gap_verbatim(content: Seq<u8>, spans: Seq<Span>, cursor: int, rs: int, re: int)
    requires
        wf_chain(content.len() as int, spans, cursor),
        cursor <= rs <= re <= content.len(),
        forall|k: int| 0 <= k < spans.len() ==> ((#[trigger] spans[k]).end <= rs || re
            <= spans[k].start),
    ensures
        exists|a: Seq<u8>, b: Seq<u8>|
            splice_from(content, spans, cursor) == a + content.subrange(rs, re) + b,
    decreases spans.len(),
{
    let n = content.len() as int;
    let mid = content.subrange(rs, re);
    if spans.len() == 0 {
        let a = content.subrange(cursor, rs);
        let b = content.subrange(re, n);
        assert(splice_from(content, spans, cursor) =~= a + mid + b);
    } else {
        let s0 = spans[0];
        let rest = spans.drop_first();
        let head = content.subrange(cursor, s0.start as int) + s0.bytes@;
        let tail = splice_from(content, rest, s0.end as int);
        assert(splice_from(content, spans, cursor) == head + tail);
        if re <= s0.start {
            let a = content.subrange(cursor, rs);
            let b = content.subrange(re, s0.start as int) + s0.bytes@ + tail;
            assert(content.subrange(cursor, s0.start as int) =~= content.subrange(cursor, rs) + mid
                + content.subrange(re, s0.start as int));
            assert(head + tail =~= a + mid + b);
            assert(splice_from(content, spans, cursor) == a + mid + b);
        } else {
            assert(s0.end <= rs);
            assert(forall|k: int| 0 <= k < rest.len() ==> rest[k] == spans[k + 1]);
            lemma_gap_verbatim(content, rest, s0.end as int, rs, re);
            let (a1, b1) = choose|a1: Seq<u8>, b1: Seq<u8>| tail == a1 + mid + b1;
            assert(head + tail =~= (head + a1) + mid + b1);
            assert(splice_from(content, spans, cursor) == (head + a1) + mid + b1);
        }
    }
}

/// Law: a reference that was not resolved keeps its original bytes. A
/// byte range disjoint from every resolved span — as an unresolved
/// match's range is, the match ranges being mutually disjoint — appears
/// verbatim, in order, in the spliced output.
pub proof fn lemma_unresolved_range_verbatim(
    content: Seq<u8>,
    spans: Seq<Span>,
    rs: int,
    re: int,
)
    requires
        spans_valid(content.len() as int, spans),
        sorted_by_start(spans),
        0 <= rs <= re <= content.len(),
        forall|k: int| 0 <= k < spans.len() ==> ((#[trigger] spans[k]).end <= rs || re
            <= spans[k].start),
    ensures
        exists|a: Seq<u8>, b: Seq<u8>|
            splice_from(content, spans, 0) == a + content.subrange(rs, re) + b,
{
    lemma_valid_sorted_chain(content.len() as int, spans, 0);
    lemma_gap_verbatim(content, spans, 0, rs, re);
}

/// Sort the resolved spans and splice them into the content.
pub fn splice_resolved(content: &Vec<u8>, spans: Vec<Span>) -> (r: Vec<u8>)
    requires
        spans_valid(content@.len() as int, spans@),
    ensures
        r@ == splice_from(content@, sorted_arrangement(spans@), 0),
{
    let ghost raw = spans@;
    let sorted = sort_spans(spans);
    proof {
        assert(sorted@.to_multiset() == raw.to_multiset() && sorted_by_start(sorted@));
        let t = sorted_arrangement(raw);
        assert(t.to_multiset() == raw.to_multiset() && sorted_by_start(t));
        lemma_valid_permutation(content@.len() as int, raw, t);
        lemma_valid_permutation(content@.len() as int, raw, sorted@);
        lemma_sorted_valid_unique(content@.len() as int, t, sorted@);
        lemma_valid_sorted_chain(content@.len() as int, sorted@, 0);
    }
    splice(content, &sorted)
}

} // verus!
