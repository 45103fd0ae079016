//! Byte-sequence primitives: searching, matching, appending, ordering.

use vstd::prelude::*;

verus! {

/// The bytes of an ASCII character sequence, one byte per character.
pub open spec fn ascii_seq(cs: Seq<char>) -> Seq<u8> {
    Seq::new(cs.len(), |i: int| cs[i] as u8)
}

/// The bytes of an ASCII string, as a vector.
pub fn ascii_bytes(s: &str) -> (r: Vec<u8>)
    requires
        s.is_ascii(),
    ensures
        r@ == ascii_seq(s@),
{
    broadcast use vstd::string::is_ascii_spec_bytes;

    let v = s.as_bytes_vec();
    proof {
        assert(v@ =~= ascii_seq(s@));
    }
    v
}

/// Index of the first occurrence of byte `b` at or after `from`, if any.
pub open spec fn spec_find_byte(s: Seq<u8>, from: int, b: u8) -> Option<int>
    decreases s.len() - from,
{
    if from < 0 || from >= s.len() {
        None
    } else if s[from] == b {
        Some(from)
    } else {
        spec_find_byte(s, from + 1, b)
    }
}

pub proof fn lemma_find_byte_props(s: Seq<u8>, from: int, b: u8)
    requires
        0 <= from <= s.len(),
    ensures
        match spec_find_byte(s, from, b) {
            Some(i) => from <= i < s.len() && s[i] == b && (forall|j: int|
                from <= j < i ==> s[j] != b),
            None => forall|j: int| from <= j < s.len() ==> s[j] != b,
        },
    decreases s.len() - from,
{
    if from < s.len() && s[from] != b {
        lemma_find_byte_props(s, from + 1, b);
    }
}

pub fn find_byte(s: &Vec<u8>, from: usize, b: u8) -> (r: Option<usize>)
    requires
        from <= s@.len(),
    ensures
        r matches Some(i) ==> spec_find_byte(s@, from as int, b) == Some(i as int),
        r is None ==> spec_find_byte(s@, from as int, b) is None,
{
    let mut i: usize = from;
    loop
        invariant
            from <= i <= s@.len(),
            spec_find_byte(s@, from as int, b) == spec_find_byte(s@, i as int, b),
        decreases s@.len() - i,
    {
        if i == s.len() {
            return None;
        }
        if s[i] == b {
            return Some(i);
        }
        i = i + 1;
    }
}

/// True when `pat` occurs in `s` starting exactly at index `i`.
pub open spec fn matches_at(s: Seq<u8>, i: int, pat: Seq<u8>) -> bool {
    &&& 0 <= i
    &&& i + pat.len() <= s.len()
    &&& forall|k: int| 0 <= k < pat.len() ==> s[i + k] == pat[k]
}

pub fn is_match_at(s: &Vec<u8>, i: usize, pat: &Vec<u8>) -> (r: bool)
    requires
        i <= s@.len(),
    ensures
        r == matches_at(s@, i as int, pat@),
{
    let n = s.len();
    if pat.len() > n - i {
        return false;
    }
    let mut k: usize = 0;
    while k < pat.len()
        invariant
            k <= pat@.len(),
            i + pat@.len() <= n,
            n == s@.len(),
            forall|t: int| 0 <= t < k ==> s@[i + t] == pat@[t],
        decreases pat@.len() - k,
    {
        if s[i + k] != pat[k] {
            return false;
        }
        k = k + 1;
    }
    true
}

/// Index of the first occurrence of `pat` at or after `from`, if any.
pub open spec fn spec_find_sub(s: Seq<u8>, from: int, pat: Seq<u8>) -> Option<int>
    decreases s.len() - from,
{
    if from < 0 || from + pat.len() > s.len() {
        None
    } else if matches_at(s, from, pat) {
        Some(from)
    } else {
        spec_find_sub(s, from + 1, pat)
    }
}

pub proof fn lemma_find_sub_props(s: Seq<u8>, from: int, pat: Seq<u8>)
    requires
        0 <= from,
    ensures
        match spec_find_sub(s, from, pat) {
            Some(i) => from <= i && matches_at(s, i, pat) && (forall|j: int|
                from <= j < i ==> !matches_at(s, j, pat)),
            None => forall|j: int| from <= j ==> !matches_at(s, j, pat),
        },
    decreases s.len() - from,
{
    if from + pat.len() > s.len() {
    } else if !matches_at(s, from, pat) {
        lemma_find_sub_props(s, from + 1, pat);
    }
}

pub fn find_sub(s: &Vec<u8>, from: usize, pat: &Vec<u8>) -> (r: Option<usize>)
    requires
        from <= s@.len(),
    ensures
        r matches Some(i) ==> spec_find_sub(s@, from as int, pat@) == Some(i as int),
        r is None ==> spec_find_sub(s@, from as int, pat@) is None,
{
    let mut i: usize = from;
    loop
        invariant
            from <= i <= s@.len(),
            spec_find_sub(s@, from as int, pat@) == spec_find_sub(s@, i as int, pat@),
        decreases s@.len() - i,
    {
        if pat.len() > s.len() - i {
            return None;
        }
        if is_match_at(s, i, pat) {
            return Some(i);
        }
        i = i + 1;
    }
}

/// True when `s` begins with `pat`.
pub open spec fn spec_starts_with(s: Seq<u8>, pat: Seq<u8>) -> bool {
    matches_at(s, 0, pat)
}

pub fn starts_with(s: &Vec<u8>, pat: &Vec<u8>) -> (r: bool)
    ensures
        r == spec_starts_with(s@, pat@),
{
    is_match_at(s, 0, pat)
}

/// Append all of `src` to `dst`.
pub fn append_vec(dst: &mut Vec<u8>, src: &Vec<u8>)
    ensures
        final(dst)@ == old(dst)@ + src@,
{
    dst.extend_from_slice(src.as_slice());
}

/// Append the bytes `src[a..b]` to `dst`.
pub fn append_subrange(dst: &mut Vec<u8>, src: &Vec<u8>, a: usize, b: usize)
    requires
        a <= b <= src@.len(),
    ensures
        final(dst)@ == old(dst)@ + src@.subrange(a as int, b as int),
{
    let mut j: usize = a;
    while j < b
        invariant
            a <= j <= b <= src@.len(),
            dst@ == old(dst)@ + src@.subrange(a as int, j as int),
        decreases b - j,
    {
        dst.push(src[j]);
        proof {
            assert(src@.subrange(a as int, j + 1 as int) =~= src@.subrange(a as int, j as int).push(
                src@[j as int]));
        }
        j = j + 1;
    }
}

/// Byte-for-byte equality of two vectors.
pub fn bytes_eq(a: &Vec<u8>, b: &Vec<u8>) -> (r: bool)
    ensures
        r == (a@ == b@),
{
    if a.len() != b.len() {
        return false;
    }
    let mut i: usize = 0;
    while i < a.len()
        invariant
            i <= a@.len(),
            a@.len() == b@.len(),
            forall|j: int| 0 <= j < i ==> a@[j] == b@[j],
        decreases a@.len() - i,
    {
        if a[i] != b[i] {
            return false;
        }
        i = i + 1;
    }
    proof {
        assert(a@ =~= b@);
    }
    true
}

/// A copy of the bytes `src[a..b]`.
pub fn copy_range(src: &Vec<u8>, a: usize, b: usize) -> (r: Vec<u8>)
    requires
        a <= b <= src@.len(),
    ensures
        r@ == src@.subrange(a as int, b as int),
{
    let mut v: Vec<u8> = Vec::new();
    append_subrange(&mut v, src, a, b);
    proof {
        assert(v@ =~= src@.subrange(a as int, b as int));
    }
    v
}

/// Lexicographic byte order, as `str` and `[u8]` comparison orders it.
pub open spec fn lex_le(a: Seq<u8>, b: Seq<u8>) -> bool
    decreases a.len(),
{
    if a.len() == 0 {
        true
    } else if b.len() == 0 {
        false
    } else if a[0] < b[0] {
        true
    } else if a[0] > b[0] {
        false
    } else {
        lex_le(a.drop_first(), b.drop_first())
    }
}

pub proof fn lemma_lex_total(a: Seq<u8>, b: Seq<u8>)
    ensures
        lex_le(a, b) || lex_le(b, a),
    decreases a.len(),
{
    if a.len() > 0 && b.len() > 0 && a[0] == b[0] {
        lemma_lex_total(a.drop_first(), b.drop_first());
    }
}

pub proof fn lemma_lex_trans(a: Seq<u8>, b: Seq<u8>, c: Seq<u8>)
    requires
        lex_le(a, b),
        lex_le(b, c),
    ensures
        lex_le(a, c),
    decreases a.len(),
{
    if a.len() > 0 && b.len() > 0 && c.len() > 0 && a[0] == b[0] && b[0] == c[0] {
        lemma_lex_trans(a.drop_first(), b.drop_first(), c.drop_first());
    }
}

pub fn bytes_le(a: &Vec<u8>, b: &Vec<u8>) -> (r: bool)
    ensures
        r == lex_le(a@, b@),
{
    let mut i: usize = 0;
    proof {
        assert(a@.skip(0) =~= a@);
        assert(b@.skip(0) =~= b@);
    }
    loop
        invariant
            i <= a@.len(),
            i <= b@.len(),
            forall|j: int| 0 <= j < i ==> a@[j] == b@[j],
            lex_le(a@, b@) == lex_le(a@.skip(i as int), b@.skip(i as int)),
        decreases a@.len() - i,
    {
        if i == a.len() {
            return true;
        }
        if i == b.len() {
            return false;
        }
        if a[i] < b[i] {
            return true;
        }
        if a[i] > b[i] {
            return false;
        }
        proof {
            assert(a@.skip(i as int).drop_first() =~= a@.skip(i + 1));
            assert(b@.skip(i as int).drop_first() =~= b@.skip(i + 1));
        }
        i = i + 1;
    }
}

} // verus!
