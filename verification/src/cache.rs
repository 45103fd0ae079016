//! Decisions of the resource cache resolver.
//!
//! A resource locator maps to a stable cache filename (see
//! [`crate::naming`]). The resolver asks the filesystem for an exclusive
//! create of that file: creation succeeding means this caller owns the
//! download; creation failing because the file exists means the resource
//! is already cached — by this run or an earlier one — and is reused with
//! no network I/O. The filesystem's exclusive create is the sole
//! concurrency control, so racing workers and separate runs never download
//! the same locator twice or corrupt a cache entry.

use vstd::prelude::*;

verus! {

use crate::bytes_util::spec_starts_with;

/// How the exclusive create of a cache file ended, as the caller saw it.
#[derive(Clone, Copy, Debug, PartialEq, Eq, Structural)]
pub enum CreateOutcome {
    /// The file did not exist and is now created, empty, owned by us.
    Created,
    /// The file already exists: the resource is cached.
    AlreadyExists,
    /// The derived name exceeds the filesystem's limit.
    NameTooLong,
    /// Any other filesystem failure.
    OtherFailure,
}

/// What the resolver does after the exclusive create.
#[derive(Clone, Copy, Debug, PartialEq, Eq, Structural)]
pub enum CacheStep {
    /// We own the entry: fetch the resource and stream it into the file.
    Fetch,
    /// Cache hit: return the existing path, perform no network I/O.
    ReuseExisting,
    /// Retry the create once with the hash-only fallback name.
    RetryHashOnly,
    /// Give up on this resource only.
    Fail,
}

/// The step decided for a create outcome; `fallback` tells whether the
/// hash-only name is already in use, in which case nothing is left to try.
pub open spec fn spec_on_create(fallback: bool, o: CreateOutcome) -> CacheStep {
    match o {
        CreateOutcome::Created => CacheStep::Fetch,
        CreateOutcome::AlreadyExists => CacheStep::ReuseExisting,
        CreateOutcome::NameTooLong => if fallback {
            CacheStep::Fail
        } else {
            CacheStep::RetryHashOnly
        },
        CreateOutcome::OtherFailure => CacheStep::Fail,
    }
}

pub fn on_create_outcome(fallback: bool, o: CreateOutcome) -> (r: CacheStep)
    ensures
        r == spec_on_create(fallback, o),
{
    match o {
        CreateOutcome::Created => CacheStep::Fetch,
        CreateOutcome::AlreadyExists => CacheStep::ReuseExisting,
        CreateOutcome::NameTooLong => if fallback {
            CacheStep::Fail
        } else {
            CacheStep::RetryHashOnly
        },
        CreateOutcome::OtherFailure => CacheStep::Fail,
    }
}

/// The content category prefix a resource response must declare.
pub open spec fn image_prefix() -> Seq<u8> {
    seq!['i' as u8, 'm' as u8, 'a' as u8, 'g' as u8, 'e' as u8, '/' as u8]
}

/// Whether a response's declared content type is an image.
pub fn image_content_type(ct: &Vec<u8>) -> (r: bool)
    ensures
        r == spec_starts_with(ct@, image_prefix()),
{
    let mut pat: Vec<u8> = Vec::new();
    pat.push('i' as u8);
    pat.push('m' as u8);
    pat.push('a' as u8);
    pat.push('g' as u8);
    pat.push('e' as u8);
    pat.push('/' as u8);
    proof {
        assert(pat@ =~= image_prefix());
    }
    crate::bytes_util::starts_with(ct, &pat)
}

/// How a resolution that owned the file ends.
#[derive(Clone, Copy, Debug, PartialEq, Eq, Structural)]
pub enum ResolveEnd {
    /// The body streamed to disk in full: the entry is kept and the
    /// resource resolves to it.
    Cached,
    /// The fetch or the streaming failed: the partial file is deleted
    /// before the error is surfaced, so no truncated or non-image entry
    /// ever remains on disk.
    AbandonRemoved,
}

/// The end of a resolution that owned the file: `ct` is the response's
/// declared content type (`None` when the fetch itself failed), and
/// `stream_ok` whether the body streamed to disk in full.
pub open spec fn spec_resolve_end(ct: Option<Seq<u8>>, stream_ok: bool) -> ResolveEnd {
    match ct {
        None => ResolveEnd::AbandonRemoved,
        Some(c) => if !spec_starts_with(c, image_prefix()) {
            ResolveEnd::AbandonRemoved
        } else if !stream_ok {
            ResolveEnd::AbandonRemoved
        } else {
            ResolveEnd::Cached
        },
    }
}

pub fn resolve_end(ct: &Option<Vec<u8>>, stream_ok: bool) -> (r: ResolveEnd)
    ensures
        r == spec_resolve_end(
            match *ct {
                Some(ref c) => Some(c@),
                None => None,
            },
            stream_ok,
        ),
{
    match ct {
        None => ResolveEnd::AbandonRemoved,
        Some(c) => {
            if !image_content_type(c) {
                ResolveEnd::AbandonRemoved
            } else if !stream_ok {
                ResolveEnd::AbandonRemoved
            } else {
                ResolveEnd::Cached
            }
        },
    }
}

/// Law: a response whose declared content type is not an image is never
/// kept in the cache — the resolution ends with the partial file removed,
/// whatever happened to the stream — and the resource stays unresolved.
pub proof fn lemma_non_image_never_cached(c: Seq<u8>, stream_ok: bool)
    requires
        !spec_starts_with(c, image_prefix()),
    ensures
        spec_resolve_end(Some(c), stream_ok) == ResolveEnd::AbandonRemoved,
{
}

/// Law: a locator already cached — because an earlier resolution, in this
/// run or a prior one, created its file — is reused: the exclusive create
/// reports the file exists, and the resolver's step returns the existing
/// path without fetching. Since the filename is a function of the locator
/// alone (see [`crate::naming::spec_cache_filename`]), that path is
/// byte-identical to the one the first resolution returned.
pub proof fn lemma_repeat_resolution_no_fetch(fallback: bool)
    ensures
        spec_on_create(fallback, CreateOutcome::AlreadyExists) == CacheStep::ReuseExisting,
        spec_on_create(fallback, CreateOutcome::AlreadyExists) != CacheStep::Fetch,
{
}

} // verus!
