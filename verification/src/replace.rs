//! Replacing every occurrence of one byte run by another, left to right.

use vstd::prelude::*;

verus! {

use crate::bytes_util::{
    spec_find_sub, lemma_find_sub_props, find_sub, append_subrange, append_vec, copy_range,
};

/// The tail of the replacement output from `pos` on: occurrences of `from`
/// are found leftmost-first and non-overlapping, each replaced by `to`.
pub open spec fn replace_from(s: Seq<u8>, from: Seq<u8>, to: Seq<u8>, pos: int) -> Seq<u8>
    decreases s.len() - pos,
    via replace_from_decreases
{
    if pos < 0 || pos > s.len() || from.len() == 0 {
        Seq::empty()
    } else {
        match spec_find_sub(s, pos, from) {
            None => s.subrange(pos, s.len() as int),
            Some(p) => s.subrange(pos, p) + to + replace_from(s, from, to, p + from.len()),
        }
    }
}

#[via_fn]
proof fn replace_from_decreases(s: Seq<u8>, from: Seq<u8>, to: Seq<u8>, pos: int) {
    if 0 <= pos <= s.len() && from.len() > 0 {
        lemma_find_sub_props(s, pos, from);
    }
}

/// `s` with every occurrence of `from` replaced by `to`; an empty pattern
/// replaces nothing.
pub open spec fn spec_replace_all(s: Seq<u8>, from: Seq<u8>, to: Seq<u8>) -> Seq<u8> {
    if from.len() == 0 {
        s
    } else {
        replace_from(s, from, to, 0)
    }
}

/// Replace every occurrence of `from` in `s` by `to`. This is how a
/// resolved reference's replacement bytes are built: the tag with its
/// remote locator rewritten to the local cache path.
pub fn replace_all(s: &Vec<u8>, from: &Vec<u8>, to: &Vec<u8>) -> (r: Vec<u8>)
    ensures
        r@ == spec_replace_all(s@, from@, to@),
{
    if from.len() == 0 {
        let r = copy_range(s, 0, s.len());
        proof {
            assert(r@ =~= s@);
        }
        return r;
    }
    let mut out: Vec<u8> = Vec::new();
    let mut pos: usize = 0;
    proof {
        assert(spec_replace_all(s@, from@, to@) =~= out@ + replace_from(s@, from@, to@, 0));
    }
    loop
        invariant
            pos <= s@.len(),
            from@.len() > 0,
            spec_replace_all(s@, from@, to@) == out@ + replace_from(s@, from@, to@, pos as int),
        decreases s@.len() - pos,
    {
        match find_sub(s, pos, from) {
            None => {
                append_subrange(&mut out, s, pos, s.len());
                return out;
            },
            Some(p) => {
                let n = s.len();
                proof {
                    lemma_find_sub_props(s@, pos as int, from@);
                    assert(p + from@.len() <= n);
                }
                append_subrange(&mut out, s, pos, p);
                append_vec(&mut out, to);
                pos = p + from.len();
            },
        }
    }
}

} // verus!
