//! Per-document export decisions and output assembly.
//!
//! A document moves from a plan (skip if already registered, else
//! download) through retrying download, reference extraction, resource
//! resolution and splicing, to an exclusive-create write of its output
//! file. The decisions live here as verified functions on plain values;
//! the I/O around them is the caller's.

use vstd::prelude::*;

verus! {

use crate::bytes_util::{ascii_seq, ascii_bytes, append_vec, copy_range};
use crate::registry::Registry;
use crate::splice::{Span, spans_valid, splice_from, sorted_arrangement, splice_resolved};
use crate::extract::Reference;
use crate::replace::{spec_replace_all, replace_all};

/// The locator under which a document is registered.
pub open spec fn spec_doc_url(id: Seq<u8>) -> Seq<u8> {
    ascii_seq("https://paper.dropbox.com/doc/"@) + id
}

pub fn doc_url(id: &Vec<u8>) -> (r: Vec<u8>)
    ensures
        r@ == spec_doc_url(id@),
{
    proof {
        reveal_strlit("https://paper.dropbox.com/doc/");
    }
    let mut out = ascii_bytes("https://paper.dropbox.com/doc/");
    append_vec(&mut out, id);
    out
}

/// The pipeline's plan for one listed document.
#[derive(Clone, Copy, Debug, PartialEq, Eq, Structural)]
pub enum DocPlan {
    /// The locator is already registered from a prior run: skip it
    /// entirely — no download, no resource fetches.
    SkipAlreadyExported,
    /// Not registered: download it.
    Download,
}

pub open spec fn spec_plan(reg: Registry, loc: Seq<u8>) -> DocPlan {
    if reg.spec_contains(loc) {
        DocPlan::SkipAlreadyExported
    } else {
        DocPlan::Download
    }
}

/// Decide what to do with one listed document, from the registry loaded
/// at start.
pub fn plan_document(reg: &Registry, loc: &Vec<u8>) -> (r: DocPlan)
    ensures
        r == spec_plan(*reg, loc@),
{
    if reg.contains(loc) {
        DocPlan::SkipAlreadyExported
    } else {
        DocPlan::Download
    }
}

/// Law: a document already present in the registry at start is planned as
/// skipped, so no fetch of it — nor of its resources — is ever issued.
pub proof fn lemma_registered_doc_not_fetched(reg: Registry, loc: Seq<u8>)
    requires
        reg.spec_contains(loc),
    ensures
        spec_plan(reg, loc) == DocPlan::SkipAlreadyExported,
{
}

/// A byte a title keeps in the output filename.
pub open spec fn keep_byte(b: u8) -> bool {
    b < 128
}

/// Filesystem-unsafe bytes become underscores.
pub open spec fn map_byte(b: u8) -> u8 {
    if b == '/' as u8 || b == '\\' as u8 || b == ':' as u8 {
        '_' as u8
    } else {
        b
    }
}

/// Title bytes kept and mapped, in order: the non-text bytes dropped, the
/// path separators and drive markers replaced.
pub open spec fn spec_sanitize(t: Seq<u8>) -> Seq<u8>
    decreases t.len(),
{
    if t.len() == 0 {
        Seq::empty()
    } else if keep_byte(t[0]) {
        seq![map_byte(t[0])] + spec_sanitize(t.drop_first())
    } else {
        spec_sanitize(t.drop_first())
    }
}

pub open spec fn space_byte(b: u8) -> bool {
    b == 32 || b == 9 || b == 10 || b == 11 || b == 12 || b == 13
}

pub open spec fn spec_trim_start(s: Seq<u8>) -> Seq<u8>
    decreases s.len(),
{
    if s.len() > 0 && space_byte(s[0]) {
        spec_trim_start(s.drop_first())
    } else {
        s
    }
}

pub open spec fn spec_trim_end(s: Seq<u8>) -> Seq<u8>
    decreases s.len(),
{
    if s.len() > 0 && space_byte(s[s.len() - 1]) {
        spec_trim_end(s.drop_last())
    } else {
        s
    }
}

/// Leading and trailing whitespace removed.
pub open spec fn spec_trim(s: Seq<u8>) -> Seq<u8> {
    spec_trim_end(spec_trim_start(s))
}

fn sanitize(t: &Vec<u8>) -> (r: Vec<u8>)
    ensures
        r@ == spec_sanitize(t@),
{
    let mut out: Vec<u8> = Vec::new();
    let mut i: usize = 0;
    proof {
        assert(t@.skip(0) =~= t@);
    }
    while i < t.len()
        invariant
            i <= t@.len(),
            spec_sanitize(t@) == out@ + spec_sanitize(t@.skip(i as int)),
        decreases t@.len() - i,
    {
        let ghost rest = t@.skip(i as int);
        proof {
            assert(rest[0] == t@[i as int]);
            assert(rest.drop_first() =~= t@.skip(i + 1));
        }
        let b = t[i];
        if b < 128 {
            let kept: u8 = if b == '/' as u8 || b == '\\' as u8 || b == ':' as u8 {
                '_' as u8
            } else {
                b
            };
            let ghost out0 = out@;
            out.push(kept);
            proof {
                assert(spec_sanitize(rest) == seq![map_byte(t@[i as int])] + spec_sanitize(
                    t@.skip(i + 1)));
                assert(out0 + (seq![map_byte(t@[i as int])] + spec_sanitize(t@.skip(i + 1)))
                    =~= out0.push(map_byte(t@[i as int])) + spec_sanitize(t@.skip(i + 1)));
            }
        } else {
            proof {
                assert(spec_sanitize(rest) == spec_sanitize(t@.skip(i + 1)));
            }
        }
        i = i + 1;
    }
    proof {
        assert(t@.skip(t@.len() as int) =~= Seq::<u8>::empty());
        assert(out@ + Seq::<u8>::empty() =~= out@);
    }
    out
}

fn trim(s: &Vec<u8>) -> (r: Vec<u8>)
    ensures
        r@ == spec_trim(s@),
{
    let mut a: usize = 0;
    proof {
        assert(s@.skip(0) =~= s@);
    }
    while a < s.len() && (s[a] == 32 || s[a] == 9 || s[a] == 10 || s[a] == 11 || s[a] == 12 || s[a]
        == 13)
        invariant
            a <= s@.len(),
            spec_trim_start(s@) == spec_trim_start(s@.skip(a as int)),
        decreases s@.len() - a,
    {
        proof {
            assert(s@.skip(a as int)[0] == s@[a as int]);
            assert(s@.skip(a as int).drop_first() =~= s@.skip(a + 1));
        }
        a = a + 1;
    }
    let ghost x = s@.skip(a as int);
    proof {
        if a < s@.len() {
            assert(x[0] == s@[a as int]);
        }
        assert(spec_trim_start(s@) == x);
    }
    let mut b: usize = s.len();
    proof {
        assert(x.take(x.len() as int) =~= x);
    }
    while b > a && (s[b - 1] == 32 || s[b - 1] == 9 || s[b - 1] == 10 || s[b - 1] == 11 || s[b - 1]
        == 12 || s[b - 1] == 13)
        invariant
            a <= b <= s@.len(),
            x == s@.skip(a as int),
            spec_trim_end(x) == spec_trim_end(x.take(b - a)),
        decreases b,
    {
        proof {
            let k = b - a;
            assert(x.take(k)[k - 1] == s@[b - 1]);
            assert(x.take(k).drop_last() =~= x.take(k - 1));
        }
        b = b - 1;
    }
    proof {
        let k = b - a;
        if b > a {
            assert(x.take(k)[k - 1] == s@[b - 1]);
        }
        assert(spec_trim_end(x.take(k)) == x.take(k));
        assert(x.take(k) =~= s@.subrange(a as int, b as int));
    }
    copy_range(s, a, b)
}

/// The fallback basename for a title with nothing printable.
pub open spec fn unprintable_name() -> Seq<u8> {
    ascii_seq("(unprintable)"@)
}

/// The output basename of a document: the sanitized, trimmed title, or
/// the fallback when nothing survives.
pub open spec fn spec_doc_basename(title: Seq<u8>) -> Seq<u8> {
    if spec_trim(spec_sanitize(title)).len() == 0 {
        unprintable_name()
    } else {
        spec_trim(spec_sanitize(title))
    }
}

/// A document's output filename: basename, then the identifier in
/// parentheses, then the markup extension. The identifier keeps names of
/// like-titled documents distinct.
pub open spec fn spec_doc_filename(title: Seq<u8>, id: Seq<u8>) -> Seq<u8> {
    spec_doc_basename(title) + seq![' ' as u8, '(' as u8] + id + ascii_seq(").html"@)
}

pub fn doc_filename(title: &Vec<u8>, id: &Vec<u8>) -> (r: Vec<u8>)
    ensures
        r@ == spec_doc_filename(title@, id@),
{
    let sanitized = sanitize(title);
    let trimmed = trim(&sanitized);
    let mut out: Vec<u8>;
    if trimmed.len() == 0 {
        proof {
            reveal_strlit("(unprintable)");
        }
        out = ascii_bytes("(unprintable)");
    } else {
        out = trimmed;
    }
    out.push(' ' as u8);
    out.push('(' as u8);
    append_vec(&mut out, id);
    proof {
        reveal_strlit(").html");
    }
    let suffix = ascii_bytes(").html");
    append_vec(&mut out, &suffix);
    proof {
        assert(out@ =~= spec_doc_filename(title@, id@));
    }
    out
}

/// The on-disk output path of a document.
pub open spec fn spec_doc_output_path(title: Seq<u8>, id: Seq<u8>) -> Seq<u8> {
    ascii_seq("docs/"@) + spec_doc_filename(title, id)
}

pub fn doc_output_path(title: &Vec<u8>, id: &Vec<u8>) -> (r: Vec<u8>)
    ensures
        r@ == spec_doc_output_path(title@, id@),
{
    proof {
        reveal_strlit("docs/");
    }
    let mut out = ascii_bytes("docs/");
    let name = doc_filename(title, id);
    append_vec(&mut out, &name);
    out
}

/// How the exclusive create of the output file ended.
#[derive(Clone, Copy, Debug, PartialEq, Eq, Structural)]
pub enum WriteOutcome {
    Created,
    AlreadyExists,
    OtherFailure,
}

/// What the pipeline does with the outcome.
#[derive(Clone, Copy, Debug, PartialEq, Eq, Structural)]
pub enum WriteStep {
    /// We own the file: write the assembled document into it.
    WriteBody,
    /// A prior run wrote this document: skip it, never overwrite.
    SkipAlreadyOnDisk,
    /// Some other filesystem failure: abandon this document only.
    FailDocument,
}

pub open spec fn spec_on_output_create(o: WriteOutcome) -> WriteStep {
    match o {
        WriteOutcome::Created => WriteStep::WriteBody,
        WriteOutcome::AlreadyExists => WriteStep::SkipAlreadyOnDisk,
        WriteOutcome::OtherFailure => WriteStep::FailDocument,
    }
}

pub fn on_output_create(o: WriteOutcome) -> (r: WriteStep)
    ensures
        r == spec_on_output_create(o),
{
    match o {
        WriteOutcome::Created => WriteStep::WriteBody,
        WriteOutcome::AlreadyExists => WriteStep::SkipAlreadyOnDisk,
        WriteOutcome::OtherFailure => WriteStep::FailDocument,
    }
}

/// The replacement span for a resolved reference: the tag's range, with
/// the remote locator rewritten to the local cache path everywhere it
/// occurs in the tag.
pub fn resolution_span(rf: &Reference, local: &Vec<u8>) -> (r: Span)
    ensures
        r.start == rf.start,
        r.end == rf.end,
        r.bytes@ == spec_replace_all(rf.tag@, rf.url@, local@),
{
    Span { start: rf.start, end: rf.end, bytes: replace_all(&rf.tag, &rf.url, local) }
}

/// The fixed bytes that precede the spliced content.
pub open spec fn spec_header(title: Seq<u8>, owner: Seq<u8>, url: Seq<u8>, date: Seq<u8>) -> Seq<
    u8,
> {
    ascii_seq("<!DOCTYPE html><html><head><title>"@) + title + ascii_seq(
        "</title></head><body><p>downloaded on "@,
    ) + date + ascii_seq(" from <a href=\""@) + url + ascii_seq("\">"@) + url + ascii_seq(
        "</a><br>\n            owned by "@,
    ) + owner + ascii_seq("</p>\n"@)
}

/// The fixed bytes that follow the spliced content.
pub open spec fn spec_footer() -> Seq<u8> {
    ascii_seq("</body></html>\n"@)
}

fn build_header(title: &Vec<u8>, owner: &Vec<u8>, url: &Vec<u8>, date: &Vec<u8>) -> (r: Vec<u8>)
    ensures
        r@ == spec_header(title@, owner@, url@, date@),
{
    proof {
        reveal_strlit("<!DOCTYPE html><html><head><title>");
        reveal_strlit("</title></head><body><p>downloaded on ");
        reveal_strlit(" from <a href=\"");
        reveal_strlit("\">");
        reveal_strlit("</a><br>\n            owned by ");
        reveal_strlit("</p>\n");
    }
    let mut out = ascii_bytes("<!DOCTYPE html><html><head><title>");
    append_vec(&mut out, title);
    let part = ascii_bytes("</title></head><body><p>downloaded on ");
    append_vec(&mut out, &part);
    append_vec(&mut out, date);
    let part = ascii_bytes(" from <a href=\"");
    append_vec(&mut out, &part);
    append_vec(&mut out, url);
    let part = ascii_bytes("\">");
    append_vec(&mut out, &part);
    append_vec(&mut out, url);
    let part = ascii_bytes("</a><br>\n            owned by ");
    append_vec(&mut out, &part);
    append_vec(&mut out, owner);
    let part = ascii_bytes("</p>\n");
    append_vec(&mut out, &part);
    proof {
        assert(out@ =~= spec_header(title@, owner@, url@, date@));
    }
    out
}

fn footer_bytes() -> (r: Vec<u8>)
    ensures
        r@ == spec_footer(),
{
    proof {
        reveal_strlit("</body></html>\n");
    }
    ascii_bytes("</body></html>\n")
}

/// Assemble the output document: fixed header, then the content with its
/// resolved references spliced in ascending range order, then the fixed
/// footer.
pub fn assemble_document(
    title: &Vec<u8>,
    owner: &Vec<u8>,
    url: &Vec<u8>,
    date: &Vec<u8>,
    content: &Vec<u8>,
    spans: Vec<Span>,
) -> (r: Vec<u8>)
    requires
        spans_valid(content@.len() as int, spans@),
    ensures
        r@ == spec_header(title@, owner@, url@, date@) + splice_from(
            content@,
            sorted_arrangement(spans@),
            0,
        ) + spec_footer(),
{
    let mut out = build_header(title, owner, url, date);
    let body = splice_resolved(content, spans);
    append_vec(&mut out, &body);
    let foot = footer_bytes();
    append_vec(&mut out, &foot);
    proof {
        assert(out@ =~= spec_header(title@, owner@, url@, date@) + splice_from(
            content@,
            sorted_arrangement(spans@),
            0,
        ) + spec_footer());
    }
    out
}

/// Relies on chrono::Local::now and chrono's RFC 2822 formatting for the
/// human-readable download timestamp; nothing is assumed of the result.
#[verifier::external_body]
fn current_date_rfc2822() -> (r: Vec<u8>) {
    chrono::Local::now().to_rfc2822().into_bytes()
}

/// Assemble the output stamped with the present moment: the result is the
/// assembled document for some date line, whatever the clock returned.
pub fn assemble_document_now(
    title: &Vec<u8>,
    owner: &Vec<u8>,
    url: &Vec<u8>,
    content: &Vec<u8>,
    spans: Vec<Span>,
) -> (r: Vec<u8>)
    requires
        spans_valid(content@.len() as int, spans@),
    ensures
        exists|date: Seq<u8>|
            r@ == spec_header(title@, owner@, url@, date) + splice_from(
                content@,
                sorted_arrangement(spans@),
                0,
            ) + spec_footer(),
{
    let date = current_date_rfc2822();
    let r = assemble_document(title, owner, url, &date, content, spans);
    proof {
        assert(r@ == spec_header(title@, owner@, url@, date@) + splice_from(
            content@,
            sorted_arrangement(spans@),
            0,
        ) + spec_footer());
    }
    r
}

/// Where one document stands in its export.
#[derive(Clone, Copy, Debug, PartialEq, Eq, Structural)]
pub enum DocState {
    /// Listed, not yet looked at.
    Pending,
    /// A download attempt is in flight.
    Downloading,
    /// A transient failure was recorded; waiting out the backoff.
    Retrying,
    /// The content and metadata arrived.
    Downloaded,
    /// Scanning the content for references.
    Extracting,
    /// Waiting on the resource fan-out.
    ResolvingResources,
    /// Reassembling the byte stream.
    Splicing,
    /// Writing the output file.
    Writing,
    /// Written and registered.
    Done,
    /// The registry already had this locator: nothing was fetched.
    SkippedAlreadyExported,
    /// The output file already existed: nothing was overwritten.
    SkippedAlreadyOnDisk,
    /// Abandoned; sibling documents are unaffected.
    Failed,
}

/// What happened to the document since its last state.
#[derive(Clone, Copy, Debug, PartialEq, Eq, Structural)]
pub enum DocEvent {
    /// The registry was consulted.
    Planned(DocPlan),
    /// A download attempt ended and the fetcher decided.
    Fetched(crate::retry::RetryDecision),
    /// The backoff elapsed; `exhausted` tells whether the attempt ceiling
    /// was reached.
    BackoffOver { exhausted: bool },
    /// The content arrived; `export` tells whether content is exported or
    /// only metadata.
    ModeChosen { export: bool },
    /// Reference extraction finished.
    ReferencesExtracted,
    /// The fan-out delivered all its results.
    ResourcesResolved,
    /// The output bytes are assembled.
    ContentSpliced,
    /// The exclusive create of the output file was decided.
    OutputCreate(WriteStep),
    /// The body write ended.
    BodyWritten { ok: bool },
}

/// The transitions the export pipeline may take. Early exits go to the
/// two skip states and to `Failed`; every completed document passes
/// through `Writing`.
pub open spec fn doc_step_allowed(s1: DocState, s2: DocState) -> bool {
    ||| (s1 is Pending && (s2 is Downloading || s2 is SkippedAlreadyExported))
    ||| (s1 is Downloading && (s2 is Retrying || s2 is Downloaded || s2 is Failed))
    ||| (s1 is Retrying && (s2 is Downloading || s2 is Failed))
    ||| (s1 is Downloaded && (s2 is Extracting || s2 is Writing))
    ||| (s1 is Extracting && s2 is ResolvingResources)
    ||| (s1 is ResolvingResources && s2 is Splicing)
    ||| (s1 is Splicing && s2 is Writing)
    ||| (s1 is Writing && (s2 is Done || s2 is SkippedAlreadyOnDisk || s2 is Failed))
}

/// The state after an event. An event that does not belong to the current
/// state leaves it unchanged.
pub open spec fn spec_doc_advance(s: DocState, ev: DocEvent) -> DocState {
    match (s, ev) {
        (DocState::Pending, DocEvent::Planned(p)) => match p {
            DocPlan::SkipAlreadyExported => DocState::SkippedAlreadyExported,
            DocPlan::Download => DocState::Downloading,
        },
        (DocState::Downloading, DocEvent::Fetched(d)) => match d {
            crate::retry::RetryDecision::Finish => DocState::Downloaded,
            crate::retry::RetryDecision::Abandon => DocState::Failed,
            crate::retry::RetryDecision::RetryAfterBackoff => DocState::Retrying,
        },
        (DocState::Retrying, DocEvent::BackoffOver { exhausted }) => if exhausted {
            DocState::Failed
        } else {
            DocState::Downloading
        },
        (DocState::Downloaded, DocEvent::ModeChosen { export }) => if export {
            DocState::Extracting
        } else {
            DocState::Writing
        },
        (DocState::Extracting, DocEvent::ReferencesExtracted) => DocState::ResolvingResources,
        (DocState::ResolvingResources, DocEvent::ResourcesResolved) => DocState::Splicing,
        (DocState::Splicing, DocEvent::ContentSpliced) => DocState::Writing,
        (DocState::Writing, DocEvent::OutputCreate(w)) => match w {
            WriteStep::WriteBody => DocState::Writing,
            WriteStep::SkipAlreadyOnDisk => DocState::SkippedAlreadyOnDisk,
            WriteStep::FailDocument => DocState::Failed,
        },
        (DocState::Writing, DocEvent::BodyWritten { ok }) => if ok {
            DocState::Done
        } else {
            DocState::Failed
        },
        _ => s,
    }
}

/// Advance a document's state by one event.
pub fn doc_advance(s: DocState, ev: DocEvent) -> (r: DocState)
    ensures
        r == spec_doc_advance(s, ev),
{
    match (s, ev) {
        (DocState::Pending, DocEvent::Planned(p)) => match p {
            DocPlan::SkipAlreadyExported => DocState::SkippedAlreadyExported,
            DocPlan::Download => DocState::Downloading,
        },
        (DocState::Downloading, DocEvent::Fetched(d)) => match d {
            crate::retry::RetryDecision::Finish => DocState::Downloaded,
            crate::retry::RetryDecision::Abandon => DocState::Failed,
            crate::retry::RetryDecision::RetryAfterBackoff => DocState::Retrying,
        },
        (DocState::Retrying, DocEvent::BackoffOver { exhausted }) => if exhausted {
            DocState::Failed
        } else {
            DocState::Downloading
        },
        (DocState::Downloaded, DocEvent::ModeChosen { export }) => if export {
            DocState::Extracting
        } else {
            DocState::Writing
        },
        (DocState::Extracting, DocEvent::ReferencesExtracted) => DocState::ResolvingResources,
        (DocState::ResolvingResources, DocEvent::ResourcesResolved) => DocState::Splicing,
        (DocState::Splicing, DocEvent::ContentSpliced) => DocState::Writing,
        (DocState::Writing, DocEvent::OutputCreate(w)) => match w {
            WriteStep::WriteBody => DocState::Writing,
            WriteStep::SkipAlreadyOnDisk => DocState::SkippedAlreadyOnDisk,
            WriteStep::FailDocument => DocState::Failed,
        },
        (DocState::Writing, DocEvent::BodyWritten { ok }) => if ok {
            DocState::Done
        } else {
            DocState::Failed
        },
        (s2, _) => s2,
    }
}

/// Every advance either stays put or takes an allowed transition, and a
/// document reaches `Done` only out of `Writing`, after a successful
/// body write — so only a written document is ever registered.
pub proof fn lemma_doc_steps_sound(s: DocState, ev: DocEvent)
    ensures
        spec_doc_advance(s, ev) == s || doc_step_allowed(s, spec_doc_advance(s, ev)),
        spec_doc_advance(s, ev) is Done && !(s is Done) ==> s is Writing && ev
            == (DocEvent::BodyWritten { ok: true }),
{
}

/// Law: a document with no embedded references round-trips. With no spans
/// to splice, the output is exactly the fixed header, the original
/// content unchanged, and the fixed footer.
pub proof fn lemma_no_references_round_trip(
    title: Seq<u8>,
    owner: Seq<u8>,
    url: Seq<u8>,
    date: Seq<u8>,
    content: Seq<u8>,
)
    ensures
        spec_header(title, owner, url, date) + splice_from(
            content,
            sorted_arrangement(Seq::<Span>::empty()),
            0,
        ) + spec_footer() == spec_header(title, owner, url, date) + content + spec_footer(),
{
    let e = Seq::<Span>::empty();
    assert(e.to_multiset() == e.to_multiset() && crate::splice::sorted_by_start(e));
    let t = sorted_arrangement(e);
    assert(t.to_multiset() == e.to_multiset() && crate::splice::sorted_by_start(t));
    vstd::seq_lib::to_multiset_len(t);
    vstd::seq_lib::to_multiset_len(e);
    assert(t.len() == 0);
    assert(t =~= e);
    crate::splice::lemma_splice_empty(content);
}

} // verus!
