//! Scanning document bytes for embedded image references.
//!
//! The document is treated as opaque markup text. An image reference is an
//! `img` tag whose attribute list, read up to the first `>`, carries a
//! `src` attribute in double quotes. Matches are reported left to right
//! with exact byte ranges into the original content. References whose
//! locator is an inline `data:` payload, or whose tag bytes are not valid
//! text, are dropped by the fetchable filter.

use vstd::prelude::*;

verus! {

use crate::bytes_util::{
    matches_at, spec_find_byte, spec_starts_with, lemma_find_byte_props, find_byte, is_match_at,
    starts_with, copy_range,
};

/// The tag opener `<img`.
pub open spec fn img_open() -> Seq<u8> {
    seq!['<' as u8, 'i' as u8, 'm' as u8, 'g' as u8]
}

/// The locator attribute lead-in ` src="`.
pub open spec fn src_pat() -> Seq<u8> {
    seq![' ' as u8, 's' as u8, 'r' as u8, 'c' as u8, '=' as u8, '"' as u8]
}

/// The inline-payload prefix `data:`.
pub open spec fn data_prefix() -> Seq<u8> {
    seq!['d' as u8, 'a' as u8, 't' as u8, 'a' as u8, ':' as u8]
}

fn img_open_vec() -> (r: Vec<u8>)
    ensures
        r@ == img_open(),
{
    let mut v: Vec<u8> = Vec::new();
    v.push('<' as u8);
    v.push('i' as u8);
    v.push('m' as u8);
    v.push('g' as u8);
    proof {
        assert(v@ =~= img_open());
    }
    v
}

fn src_pat_vec() -> (r: Vec<u8>)
    ensures
        r@ == src_pat(),
{
    let mut v: Vec<u8> = Vec::new();
    v.push(' ' as u8);
    v.push('s' as u8);
    v.push('r' as u8);
    v.push('c' as u8);
    v.push('=' as u8);
    v.push('"' as u8);
    proof {
        assert(v@ =~= src_pat());
    }
    v
}

fn data_prefix_vec() -> (r: Vec<u8>)
    ensures
        r@ == data_prefix(),
{
    let mut v: Vec<u8> = Vec::new();
    v.push('d' as u8);
    v.push('a' as u8);
    v.push('t' as u8);
    v.push('a' as u8);
    v.push(':' as u8);
    proof {
        assert(v@ =~= data_prefix());
    }
    v
}

/// Positions of one match: the whole tag `[start, end)` and the locator
/// bytes `[url_start, url_end)` inside it.
pub ghost struct MatchPos {
    pub start: int,
    pub end: int,
    pub url_start: int,
    pub url_end: int,
}

/// Whether a locator attribute whose ` src="` lead-in stands at `p`
/// completes a match for a tag opened at `i`: the attribute text between
/// the opener and `p` is empty, or begins with a space and is at least two
/// bytes — the shapes an attribute list takes — and holds no `>`; the
/// quoted locator is non-empty (it may itself contain `>`); and a `>`
/// follows the closing quote.
pub open spec fn src_ok_at(s: Seq<u8>, i: int, p: int) -> bool {
    &&& matches_at(s, p, src_pat())
    &&& (p == i + 4 || (i + 4 < s.len() && s[i + 4] == ' ' as u8 && p >= i + 6))
    &&& (forall|k: int| i + 4 <= k < p ==> s[k] != '>' as u8)
    &&& match spec_find_byte(s, p + 6, '"' as u8) {
        None => false,
        Some(q) => q > p + 6 && spec_find_byte(s, q + 1, '>' as u8) is Some,
    }
}

/// The attribute position the matcher settles on: the rightmost workable
/// `src` lead-in at or below `p`, as the pattern's greedy attribute list
/// selects it.
pub open spec fn best_src(s: Seq<u8>, i: int, p: int) -> Option<int>
    decreases p - i,
{
    if p < i + 4 {
        None
    } else if src_ok_at(s, i, p) {
        Some(p)
    } else {
        best_src(s, i, p - 1)
    }
}

pub proof fn lemma_best_src_props(s: Seq<u8>, i: int, p: int)
    requires
        0 <= i,
    ensures
        best_src(s, i, p) matches Some(b) ==> i + 4 <= b <= p && src_ok_at(s, i, b),
        best_src(s, i, p) is None ==> forall|b: int| i + 4 <= b <= p ==> !src_ok_at(s, i, b),
    decreases p - i,
{
    if p >= i + 4 && !src_ok_at(s, i, p) {
        lemma_best_src_props(s, i, p - 1);
    }
}

/// The match beginning exactly at `i`, if any: `<img`, then the rightmost
/// workable locator attribute, its non-empty quoted locator, and the first
/// `>` after the closing quote ends the match.
pub open spec fn match_at_pos(s: Seq<u8>, i: int) -> Option<MatchPos> {
    if !matches_at(s, i, img_open()) {
        None
    } else {
        match best_src(s, i, s.len() - 6) {
            None => None,
            Some(p) => {
                let q = spec_find_byte(s, p + 6, '"' as u8).unwrap();
                let e = spec_find_byte(s, q + 1, '>' as u8).unwrap();
                Some(MatchPos { start: i, end: e + 1, url_start: p + 6, url_end: q })
            },
        }
    }
}

pub proof fn lemma_match_pos_props(s: Seq<u8>, i: int)
    requires
        0 <= i,
    ensures
        match_at_pos(s, i) matches Some(m) ==> {
            &&& m.start == i
            &&& i < m.end <= s.len()
            &&& m.start < m.url_start
            &&& m.url_start < m.url_end
            &&& m.url_end < m.end
        },
{
    if match_at_pos(s, i) is Some {
        lemma_best_src_props(s, i, s.len() - 6);
        let p = best_src(s, i, s.len() - 6).unwrap();
        lemma_find_byte_props(s, p + 6, '"' as u8);
        let q = spec_find_byte(s, p + 6, '"' as u8).unwrap();
        lemma_find_byte_props(s, q + 1, '>' as u8);
    }
}

/// All matches from `pos` on, leftmost first; scanning resumes right after
/// each match, and one position past each failed start.
pub open spec fn scan_from(s: Seq<u8>, pos: int) -> Seq<MatchPos>
    decreases s.len() - pos,
    via scan_from_decreases
{
    if pos < 0 || pos >= s.len() {
        Seq::empty()
    } else {
        match match_at_pos(s, pos) {
            Some(m) => seq![m] + scan_from(s, m.end),
            None => scan_from(s, pos + 1),
        }
    }
}

#[via_fn]
proof fn scan_from_decreases(s: Seq<u8>, pos: int) {
    if 0 <= pos < s.len() {
        lemma_match_pos_props(s, pos);
    }
}

/// The matches lie inside the content in ascending, non-overlapping order,
/// each with a non-empty locator strictly inside its tag.
pub proof fn lemma_scan_ordered(s: Seq<u8>, pos: int)
    requires
        0 <= pos,
    ensures
        forall|k: int| 0 <= k < scan_from(s, pos).len() ==> {
            let m = #[trigger] scan_from(s, pos)[k];
            &&& pos <= m.start < m.end <= s.len()
            &&& m.start < m.url_start < m.url_end < m.end
        },
        forall|i: int, j: int| 0 <= i < j < scan_from(s, pos).len() ==> (#[trigger] scan_from(
            s,
            pos,
        )[i]).end <= (#[trigger] scan_from(s, pos)[j]).start,
    decreases s.len() - pos,
{
    if 0 <= pos < s.len() {
        lemma_match_pos_props(s, pos);
        match match_at_pos(s, pos) {
            Some(m) => {
                lemma_scan_ordered(s, m.end);
                let ms = scan_from(s, pos);
                let tail = scan_from(s, m.end);
                assert(ms == seq![m] + tail);
                assert(forall|k: int| 0 <= k < tail.len() ==> ms[k + 1] == #[trigger] tail[k]);
                assert(ms[0] == m);
            },
            None => {
                lemma_scan_ordered(s, pos + 1);
                assert(scan_from(s, pos) == scan_from(s, pos + 1));
            },
        }
    }
}

/// One match with its positions as machine integers.
pub struct RawMatch {
    pub start: usize,
    pub end: usize,
    pub url_start: usize,
    pub url_end: usize,
}

impl View for RawMatch {
    type V = MatchPos;

    open spec fn view(&self) -> MatchPos {
        MatchPos {
            start: self.start as int,
            end: self.end as int,
            url_start: self.url_start as int,
            url_end: self.url_end as int,
        }
    }
}

/// Check [`src_ok_at`] for a candidate attribute position.
fn check_src_ok(content: &Vec<u8>, i: usize, p: usize, src_v: &Vec<u8>) -> (r: bool)
    requires
        i + 4 <= p <= content@.len(),
        src_v@ == src_pat(),
    ensures
        r == src_ok_at(content@, i as int, p as int),
{
    let n = content.len();
    if !is_match_at(content, p, src_v) {
        return false;
    }
    proof {
        assert(p + 6 <= n);
    }
    if p != i + 4 {
        if content[i + 4] != ' ' as u8 || p < i + 6 {
            return false;
        }
    }
    proof {
        lemma_find_byte_props(content@, i + 4, '>' as u8);
    }
    match find_byte(content, i + 4, '>' as u8) {
        Some(g) => {
            if g < p {
                return false;
            }
        },
        None => {},
    }
    proof {
        lemma_find_byte_props(content@, p + 6, '"' as u8);
    }
    match find_byte(content, p + 6, '"' as u8) {
        None => false,
        Some(q) => {
            if q <= p + 6 {
                return false;
            }
            match find_byte(content, q + 1, '>' as u8) {
                Some(_) => true,
                None => false,
            }
        },
    }
}

/// Find the match beginning exactly at `i`, if any, by trying attribute
/// positions from the rightmost down.
fn find_match_at(content: &Vec<u8>, i: usize, open_pat: &Vec<u8>, src_v: &Vec<u8>) -> (r: Option<
    RawMatch,
>)
    requires
        i <= content@.len(),
        open_pat@ == img_open(),
        src_v@ == src_pat(),
    ensures
        r matches Some(m) ==> match_at_pos(content@, i as int) == Some(m@),
        r is None ==> match_at_pos(content@, i as int) is None,
{
    let n = content.len();
    if !is_match_at(content, i, open_pat) {
        return None;
    }
    if n - i < 10 {
        proof {
            assert(best_src(content@, i as int, content@.len() - 6) is None);
        }
        return None;
    }
    let mut p: usize = n - 6;
    loop
        invariant
            i + 4 <= p <= n - 6,
            n == content@.len(),
            i + 10 <= n,
            matches_at(content@, i as int, img_open()),
            src_v@ == src_pat(),
            best_src(content@, i as int, content@.len() - 6) == best_src(
                content@,
                i as int,
                p as int,
            ),
        decreases p,
    {
        if check_src_ok(content, i, p, src_v) {
            proof {
                assert(best_src(content@, i as int, p as int) == Some(p as int));
                lemma_find_byte_props(content@, p + 6, '"' as u8);
            }
            let q = match find_byte(content, p + 6, '"' as u8) {
                Some(q) => q,
                None => {
                    proof {
                        assert(false);
                    }
                    return None;
                },
            };
            proof {
                lemma_find_byte_props(content@, q + 1, '>' as u8);
            }
            let e = match find_byte(content, q + 1, '>' as u8) {
                Some(e) => e,
                None => {
                    proof {
                        assert(false);
                    }
                    return None;
                },
            };
            return Some(RawMatch { start: i, end: e + 1, url_start: p + 6, url_end: q });
        }
        proof {
            assert(best_src(content@, i as int, p as int) == best_src(content@, i as int, p - 1));
        }
        if p == i + 4 {
            return None;
        }
        p = p - 1;
    }
}

/// Scan the whole content for image references, leftmost first.
pub fn scan_content(content: &Vec<u8>) -> (r: Vec<RawMatch>)
    ensures
        r@.map_values(|m: RawMatch| m@) == scan_from(content@, 0),
{
    let open_pat = img_open_vec();
    let src_v = src_pat_vec();
    let mut out: Vec<RawMatch> = Vec::new();
    let mut pos: usize = 0;
    proof {
        assert(out@.map_values(|m: RawMatch| m@) + scan_from(content@, 0) =~= scan_from(
            content@,
            0,
        ));
    }
    while pos < content.len()
        invariant
            pos <= content@.len(),
            open_pat@ == img_open(),
            src_v@ == src_pat(),
            scan_from(content@, 0) == out@.map_values(|m: RawMatch| m@) + scan_from(
                content@,
                pos as int,
            ),
        decreases content@.len() - pos,
    {
        let ghost out0 = out@;
        match find_match_at(content, pos, &open_pat, &src_v) {
            Some(m) => {
                proof {
                    lemma_match_pos_props(content@, pos as int);
                }
                let next = m.end;
                out.push(m);
                proof {
                    assert(out@.map_values(|m2: RawMatch| m2@) =~= out0.map_values(
                        |m2: RawMatch| m2@,
                    ).push(m@));
                    assert(scan_from(content@, pos as int) == seq![m@] + scan_from(
                        content@,
                        m@.end,
                    ));
                    assert(out0.map_values(|m2: RawMatch| m2@) + (seq![m@] + scan_from(
                        content@,
                        m@.end,
                    )) =~= out0.map_values(|m2: RawMatch| m2@).push(m@) + scan_from(
                        content@,
                        m@.end,
                    ));
                }
                pos = next;
            },
            None => {
                proof {
                    assert(scan_from(content@, pos as int) == scan_from(content@, pos + 1));
                }
                pos = pos + 1;
            },
        }
    }
    proof {
        assert(scan_from(content@, pos as int) =~= Seq::<MatchPos>::empty());
        assert(out@.map_values(|m: RawMatch| m@) + Seq::<MatchPos>::empty() =~= out@.map_values(
            |m: RawMatch| m@,
        ));
    }
    out
}

/// One extracted reference: the tag's byte range in the original content,
/// the locator's byte range inside it, and copies of both byte runs.
pub struct Reference {
    pub start: usize,
    pub end: usize,
    pub url_start: usize,
    pub url_end: usize,
    pub tag: Vec<u8>,
    pub url: Vec<u8>,
}

impl View for Reference {
    type V = MatchPos;

    open spec fn view(&self) -> MatchPos {
        MatchPos {
            start: self.start as int,
            end: self.end as int,
            url_start: self.url_start as int,
            url_end: self.url_end as int,
        }
    }
}

/// The whole tag's bytes.
pub open spec fn tag_of(s: Seq<u8>, m: MatchPos) -> Seq<u8> {
    s.subrange(m.start, m.end)
}

/// The locator's bytes.
pub open spec fn url_of(s: Seq<u8>, m: MatchPos) -> Seq<u8> {
    s.subrange(m.url_start, m.url_end)
}

/// A match worth fetching: its tag decodes as text and its locator is not
/// an inline `data:` payload.
pub open spec fn fetchable(s: Seq<u8>, m: MatchPos) -> bool {
    vstd::utf8::valid_utf8(tag_of(s, m)) && !spec_starts_with(url_of(s, m), data_prefix())
}

/// The fetchable matches among `ms`, in order.
pub open spec fn filter_fetchable(s: Seq<u8>, ms: Seq<MatchPos>) -> Seq<MatchPos>
    decreases ms.len(),
{
    if ms.len() == 0 {
        Seq::empty()
    } else if fetchable(s, ms[0]) {
        seq![ms[0]] + filter_fetchable(s, ms.drop_first())
    } else {
        filter_fetchable(s, ms.drop_first())
    }
}

/// The references a document's content asks to have resolved: its scan
/// matches, kept when fetchable, in left-to-right order.
pub open spec fn spec_references(s: Seq<u8>) -> Seq<MatchPos> {
    filter_fetchable(s, scan_from(s, 0))
}

/// Filtering keeps only fetchable matches, every one a match of the input,
/// without disturbing their order.
pub proof fn lemma_filter_fetchable_props(s: Seq<u8>, ms: Seq<MatchPos>)
    ensures
        forall|k: int| 0 <= k < filter_fetchable(s, ms).len() ==> ms.contains(
            #[trigger] filter_fetchable(s, ms)[k],
        ) && fetchable(s, filter_fetchable(s, ms)[k]),
        (forall|i: int, j: int| 0 <= i < j < ms.len() ==> (#[trigger] ms[i]).end
            <= (#[trigger] ms[j]).start) ==> (forall|i: int, j: int|
            0 <= i < j < filter_fetchable(s, ms).len() ==> (#[trigger] filter_fetchable(s, ms)[i]).end
                <= (#[trigger] filter_fetchable(s, ms)[j]).start),
    decreases ms.len(),
{
    if ms.len() > 0 {
        let tail = ms.drop_first();
        lemma_filter_fetchable_props(s, tail);
        let ft = filter_fetchable(s, tail);
        assert(forall|k: int| 0 <= k < tail.len() ==> #[trigger] tail[k] == ms[k + 1]);
        assert forall|k: int| 0 <= k < ft.len() implies ms.contains(#[trigger] ft[k]) by {
            assert(tail.contains(ft[k]));
            let j = choose|j: int| 0 <= j < tail.len() && tail[j] == ft[k];
            assert(ms[j + 1] == ft[k]);
        }
        if fetchable(s, ms[0]) {
            let f = filter_fetchable(s, ms);
            assert(f == seq![ms[0]] + ft);
            assert(forall|k: int| 0 <= k < ft.len() ==> f[k + 1] == #[trigger] ft[k]);
            assert(f[0] == ms[0]);
            if forall|i: int, j: int| 0 <= i < j < ms.len() ==> (#[trigger] ms[i]).end
                <= (#[trigger] ms[j]).start {
                assert forall|i: int, j: int| 0 <= i < j < f.len() implies (#[trigger] f[i]).end
                    <= (#[trigger] f[j]).start by {
                    if i == 0 {
                        assert(tail.contains(f[j]));
                        let t = choose|t: int| 0 <= t < tail.len() && tail[t] == f[j];
                        assert(ms[t + 1] == f[j]);
                        assert(ms[0].end <= ms[t + 1].start);
                    } else {
                        assert(f[i] == ft[i - 1] && f[j] == ft[j - 1]);
                    }
                }
            }
        }
    }
}

/// Relies on std::str::from_utf8, which accepts exactly the valid UTF-8
/// byte sequences.
#[verifier::external_body]
fn utf8_check(bytes: &Vec<u8>) -> (r: bool)
    ensures
        r == vstd::utf8::valid_utf8(bytes@),
{
    std::str::from_utf8(bytes.as_slice()).is_ok()
}

/// Extract the document's fetchable image references, in scan order, each
/// with its byte ranges and copies of its tag and locator bytes.
pub fn extract_references(content: &Vec<u8>) -> (r: Vec<Reference>)
    ensures
        r@.map_values(|rf: Reference| rf@) == spec_references(content@),
        forall|k: int| 0 <= k < r@.len() ==> (#[trigger] r@[k]).tag@ == tag_of(content@, r@[k]@)
            && r@[k].url@ == url_of(content@, r@[k]@),
{
    let data_pat = data_prefix_vec();
    let matches = scan_content(content);
    let ghost scan = scan_from(content@, 0);
    proof {
        lemma_scan_ordered(content@, 0);
    }
    let mut out: Vec<Reference> = Vec::new();
    let mut k: usize = 0;
    proof {
        assert(scan.skip(0) =~= scan);
        assert(out@.map_values(|rf: Reference| rf@) + filter_fetchable(content@, scan) =~= filter_fetchable(
            content@,
            scan,
        ));
    }
    while k < matches.len()
        invariant
            k <= matches@.len(),
            data_pat@ == data_prefix(),
            matches@.map_values(|m: RawMatch| m@) == scan,
            scan == scan_from(content@, 0),
            forall|t: int| 0 <= t < scan.len() ==> {
                let m = #[trigger] scan[t];
                &&& 0 <= m.start < m.end <= content@.len()
                &&& m.start < m.url_start < m.url_end < m.end
            },
            spec_references(content@) == out@.map_values(|rf: Reference| rf@) + filter_fetchable(
                content@,
                scan.skip(k as int),
            ),
            forall|t: int| 0 <= t < out@.len() ==> (#[trigger] out@[t]).tag@ == tag_of(
                content@,
                out@[t]@,
            ) && out@[t].url@ == url_of(content@, out@[t]@),
        decreases matches@.len() - k,
    {
        let ghost out0 = out@;
        let ghost mm = scan[k as int];
        proof {
            assert(matches@[k as int]@ == scan[k as int]);
            assert(scan.skip(k as int)[0] == scan[k as int]);
            assert(scan.skip(k as int).drop_first() =~= scan.skip(k + 1));
        }
        let m_start = matches[k].start;
        let m_end = matches[k].end;
        let m_us = matches[k].url_start;
        let m_ue = matches[k].url_end;
        let tag = copy_range(content, m_start, m_end);
        let url = copy_range(content, m_us, m_ue);
        let keep = utf8_check(&tag) && !starts_with(&url, &data_pat);
        proof {
            assert(tag@ == tag_of(content@, mm));
            assert(url@ == url_of(content@, mm));
            assert(keep == fetchable(content@, mm));
        }
        if keep {
            out.push(
                Reference {
                    start: m_start,
                    end: m_end,
                    url_start: m_us,
                    url_end: m_ue,
                    tag,
                    url,
                },
            );
            proof {
                assert(out@.map_values(|rf: Reference| rf@) =~= out0.map_values(
                    |rf: Reference| rf@,
                ).push(mm));
                assert(filter_fetchable(content@, scan.skip(k as int)) == seq![mm]
                    + filter_fetchable(content@, scan.skip(k + 1)));
                assert(out0.map_values(|rf: Reference| rf@) + (seq![mm] + filter_fetchable(
                    content@,
                    scan.skip(k + 1),
                )) =~= out0.map_values(|rf: Reference| rf@).push(mm) + filter_fetchable(
                    content@,
                    scan.skip(k + 1),
                ));
            }
        } else {
            proof {
                assert(filter_fetchable(content@, scan.skip(k as int)) == filter_fetchable(
                    content@,
                    scan.skip(k + 1),
                ));
            }
        }
        k = k + 1;
    }
    proof {
        assert(scan.skip(scan.len() as int) =~= Seq::<MatchPos>::empty());
        assert(out@.map_values(|rf: Reference| rf@) + Seq::<MatchPos>::empty() =~= out@.map_values(
            |rf: Reference| rf@,
        ));
    }
    out
}

/// The extracted references, as ranges, are ascending, non-overlapping and
/// inside the content: exactly what splicing needs.
pub proof fn lemma_references_valid(s: Seq<u8>)
    ensures
        forall|k: int| 0 <= k < spec_references(s).len() ==> {
            let m = #[trigger] spec_references(s)[k];
            &&& 0 <= m.start < m.end <= s.len()
            &&& m.start < m.url_start < m.url_end < m.end
        },
        forall|i: int, j: int| 0 <= i < j < spec_references(s).len() ==> (#[trigger] spec_references(
            s,
        )[i]).end <= (#[trigger] spec_references(s)[j]).start,
{
    lemma_scan_ordered(s, 0);
    lemma_filter_fetchable_props(s, scan_from(s, 0));
    assert forall|k: int| 0 <= k < spec_references(s).len() implies {
        let m = #[trigger] spec_references(s)[k];
        &&& 0 <= m.start < m.end <= s.len()
        &&& m.start < m.url_start < m.url_end < m.end
    } by {
        assert(scan_from(s, 0).contains(spec_references(s)[k]));
        let t = choose|t: int|
            0 <= t < scan_from(s, 0).len() && scan_from(s, 0)[t] == spec_references(s)[k];
        assert(scan_from(s, 0)[t] == spec_references(s)[k]);
    }
}

} // verus!
