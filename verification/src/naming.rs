//! Stable, content-addressed names for cached resources, and the
//! deterministic output names for exported documents.

use vstd::prelude::*;

verus! {

use crate::bytes_util::{ascii_seq, ascii_bytes, append_vec, copy_range};

/// The SHA-256 digest of the input bytes.
pub uninterp spec fn spec_sha256(data: Seq<u8>) -> Seq<u8>;

/// Relies on ring::digest::digest with the SHA-256 algorithm: the digest
/// is a function of the input bytes alone and is 32 bytes long.
#[verifier::external_body]
fn sha256_digest(data: &Vec<u8>) -> (r: Vec<u8>)
    requires
        data@.len() < 0x2000000000000000,
    ensures
        r@ == spec_sha256(data@),
        r@.len() == 32,
{
    ring::digest::digest(&ring::digest::SHA256, data.as_slice()).as_ref().to_vec()
}

/// The URL-safe, unpadded base64 encoding of the input bytes.
pub uninterp spec fn spec_base64url(data: Seq<u8>) -> Seq<u8>;

/// A byte of the URL-safe base64 alphabet: letters, digits, `-` and `_` —
/// never `/`, `+`, `=` or `.`, which is what makes a hash safe inside a
/// filename.
pub open spec fn b64url_byte(b: u8) -> bool {
    ||| 'A' as u8 <= b <= 'Z' as u8
    ||| 'a' as u8 <= b <= 'z' as u8
    ||| '0' as u8 <= b <= '9' as u8
    ||| b == '-' as u8
    ||| b == '_' as u8
}

/// Relies on base64::encode_config with the URL_SAFE_NO_PAD alphabet: the
/// encoding is a function of the input bytes alone, unpadded, four
/// characters for every three bytes, every one drawn from the URL-safe
/// table.
#[verifier::external_body]
fn base64url_encode(data: &Vec<u8>) -> (r: Vec<u8>)
    requires
        data@.len() <= 0x10000000,
    ensures
        r@ == spec_base64url(data@),
        r@.len() == (data@.len() * 4 + 2) / 3,
        forall|i: int| 0 <= i < r@.len() ==> b64url_byte(#[trigger] r@[i]),
{
    base64::encode_config(data.as_slice(), base64::URL_SAFE_NO_PAD).into_bytes()
}

/// The hash half of a cache filename: base64url of the SHA-256 of the
/// locator bytes.
pub open spec fn spec_locator_hash(u: Seq<u8>) -> Seq<u8> {
    spec_base64url(spec_sha256(u))
}

/// Hash a locator string to the stable 43-character name component that
/// makes cache filenames collision-resistant and repeatable across runs.
/// Every byte of it is filename-safe.
pub fn locator_hash(url: &Vec<u8>) -> (r: Vec<u8>)
    requires
        url@.len() < 0x2000000000000000,
    ensures
        r@ == spec_locator_hash(url@),
        r@.len() == 43,
        forall|i: int| 0 <= i < r@.len() ==> b64url_byte(#[trigger] r@[i]),
{
    let digest = sha256_digest(url);
    base64url_encode(&digest)
}

/// The final path segment of a parsed resource locator, if it has one.
pub uninterp spec fn spec_last_segment(u: Seq<u8>) -> Option<Seq<u8>>;

/// Relies on url::Url::parse and url::Url::path_segments: for bytes that
/// decode as text and parse as a URL with a path, the final `/`-separated
/// path segment is a function of the locator bytes alone. None when the
/// bytes are not text, do not parse, or the URL cannot have a path.
#[verifier::external_body]
fn last_path_segment(url: &Vec<u8>) -> (r: Option<Vec<u8>>)
    ensures
        r matches Some(v) ==> spec_last_segment(url@) == Some(v@),
        r is None ==> spec_last_segment(url@) is None,
{
    let s = match std::str::from_utf8(url.as_slice()) {
        Ok(s) => s,
        Err(_) => return None,
    };
    let parsed = match url::Url::parse(s) {
        Ok(u) => u,
        Err(_) => return None,
    };
    match parsed.path_segments() {
        Some(segments) => segments.last().map(|seg| seg.as_bytes().to_vec()),
        None => None,
    }
}

/// Index of the last occurrence of `b` in `s`, if any.
pub open spec fn spec_rfind_byte(s: Seq<u8>, b: u8) -> Option<int>
    decreases s.len(),
{
    if s.len() == 0 {
        None
    } else if s[s.len() - 1] == b {
        Some(s.len() - 1)
    } else {
        spec_rfind_byte(s.drop_last(), b)
    }
}

pub proof fn lemma_rfind_props(s: Seq<u8>, b: u8)
    ensures
        spec_rfind_byte(s, b) matches Some(i) ==> 0 <= i < s.len() && s[i] == b,
    decreases s.len(),
{
    if s.len() > 0 && s[s.len() - 1] != b {
        lemma_rfind_props(s.drop_last(), b);
    }
}

pub fn rfind_byte(s: &Vec<u8>, b: u8) -> (r: Option<usize>)
    ensures
        r matches Some(i) ==> spec_rfind_byte(s@, b) == Some(i as int),
        r is None ==> spec_rfind_byte(s@, b) is None,
{
    let mut i: usize = s.len();
    proof {
        assert(s@.take(s@.len() as int) =~= s@);
    }
    loop
        invariant
            i <= s@.len(),
            spec_rfind_byte(s@, b) == spec_rfind_byte(s@.take(i as int), b),
        decreases i,
    {
        if i == 0 {
            proof {
                assert(s@.take(0) =~= Seq::<u8>::empty());
            }
            return None;
        }
        if s[i - 1] == b {
            proof {
                assert(s@.take(i as int)[i - 1] == s@[i - 1]);
            }
            return Some(i - 1);
        }
        proof {
            assert(s@.take(i as int).drop_last() =~= s@.take(i - 1));
            assert(s@.take(i as int)[i - 1] == s@[i - 1]);
        }
        i = i - 1;
    }
}

/// The separator between a filename's readable half and its hash half.
pub open spec fn name_sep() -> Seq<u8> {
    seq!['_' as u8, '_' as u8]
}

/// A cache filename built from the locator's final path segment and the
/// locator hash: `base__hash.ext` when the segment has an extension,
/// `segment__hash` otherwise.
pub open spec fn spec_image_name(seg: Seq<u8>, h: Seq<u8>) -> Seq<u8> {
    match spec_rfind_byte(seg, '.' as u8) {
        Some(d) => seg.subrange(0, d) + name_sep() + h + seq!['.' as u8] + seg.subrange(
            d + 1,
            seg.len() as int,
        ),
        None => seg + name_sep() + h,
    }
}

fn image_name(seg: &Vec<u8>, h: &Vec<u8>) -> (r: Vec<u8>)
    ensures
        r@ == spec_image_name(seg@, h@),
{
    let mut sep: Vec<u8> = Vec::new();
    sep.push('_' as u8);
    sep.push('_' as u8);
    proof {
        assert(sep@ =~= name_sep());
    }
    let mut out: Vec<u8> = Vec::new();
    proof {
        lemma_rfind_props(seg@, '.' as u8);
    }
    match rfind_byte(seg, '.' as u8) {
        Some(d) => {
            let n = seg.len();
            proof {
                assert(d < n);
            }
            let base = copy_range(seg, 0, d);
            append_vec(&mut out, &base);
            append_vec(&mut out, &sep);
            append_vec(&mut out, h);
            out.push('.' as u8);
            let ext = copy_range(seg, d + 1, n);
            append_vec(&mut out, &ext);
            proof {
                assert(out@ =~= spec_image_name(seg@, h@));
            }
        },
        None => {
            append_vec(&mut out, seg);
            append_vec(&mut out, &sep);
            append_vec(&mut out, h);
            proof {
                assert(out@ =~= spec_image_name(seg@, h@));
            }
        },
    }
    out
}

/// The cache filename for a locator, if the locator yields a path segment.
pub open spec fn spec_cache_filename(u: Seq<u8>) -> Option<Seq<u8>> {
    match spec_last_segment(u) {
        None => None,
        Some(seg) => Some(spec_image_name(seg, spec_locator_hash(u))),
    }
}

/// Derive the cache filename for a resource locator. Identical locators
/// always yield the identical name, which is what lets a second resolution
/// — in this run or a later one — reuse the file the first one created.
pub fn cache_filename(url: &Vec<u8>) -> (r: Option<Vec<u8>>)
    requires
        url@.len() < 0x2000000000000000,
    ensures
        r matches Some(v) ==> spec_cache_filename(url@) == Some(v@),
        r is None ==> spec_cache_filename(url@) is None,
{
    match last_path_segment(url) {
        None => None,
        Some(seg) => {
            let h = locator_hash(url);
            Some(image_name(&seg, &h))
        },
    }
}

/// The cache-relative path `images/<name>` that replaces a locator in the
/// document output.
pub open spec fn spec_rel_path(name: Seq<u8>) -> Seq<u8> {
    ascii_seq("images/"@) + name
}

/// The on-disk path `docs/images/<name>` of a cache entry.
pub open spec fn spec_disk_path(name: Seq<u8>) -> Seq<u8> {
    ascii_seq("docs/images/"@) + name
}

pub fn rel_path(name: &Vec<u8>) -> (r: Vec<u8>)
    ensures
        r@ == spec_rel_path(name@),
{
    proof {
        reveal_strlit("images/");
    }
    let mut out = ascii_bytes("images/");
    append_vec(&mut out, name);
    out
}

pub fn disk_path(name: &Vec<u8>) -> (r: Vec<u8>)
    ensures
        r@ == spec_disk_path(name@),
{
    proof {
        reveal_strlit("docs/images/");
    }
    let mut out = ascii_bytes("docs/images/");
    append_vec(&mut out, name);
    out
}

} // verus!
