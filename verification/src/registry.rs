//! The run-level document registry.
//!
//! A persisted record set keyed by document locator. It is loaded at
//! startup, consulted once per document to decide whether the document was
//! already exported in a prior run, updated once per completed document,
//! and written out at shutdown sorted by display name.

use vstd::prelude::*;

verus! {

use crate::bytes_util::{bytes_eq, bytes_le, lex_le, lemma_lex_total, lemma_lex_trans};

/// One exported document: its locator (the unique key), display name,
/// owner, and the output path it was written to.
pub struct DocRecord {
    pub locator: Vec<u8>,
    pub name: Vec<u8>,
    pub owner: Vec<u8>,
    pub path: Vec<u8>,
}

/// The registry: at most one record per locator.
pub struct Registry {
    records: Vec<DocRecord>,
}

/// Records in ascending display-name order.
pub open spec fn sorted_by_name(s: Seq<DocRecord>) -> bool {
    forall|i: int, j: int| 0 <= i <= j < s.len() ==> lex_le(
        (#[trigger] s[i]).name@,
        (#[trigger] s[j]).name@,
    )
}

impl Registry {
    /// The records it holds, in insertion order.
    pub closed spec fn recs(self) -> Seq<DocRecord> {
        self.records@
    }

    /// Locators are unique.
    pub open spec fn wf(self) -> bool {
        forall|i: int, j: int| 0 <= i < j < self.recs().len() ==> (#[trigger] self.recs()[i]).locator@
            != (#[trigger] self.recs()[j]).locator@
    }

    /// Whether some record carries this locator.
    pub open spec fn spec_contains(self, loc: Seq<u8>) -> bool {
        exists|i: int| 0 <= i < self.recs().len() && (#[trigger] self.recs()[i]).locator@ == loc
    }

    /// The record carrying this locator.
    pub open spec fn spec_at(self, loc: Seq<u8>) -> DocRecord {
        self.recs()[choose|i: int|
            0 <= i < self.recs().len() && (#[trigger] self.recs()[i]).locator@ == loc]
    }

    /// With unique locators, the record at a known index is the record
    /// looked up by its locator.
    pub proof fn lemma_at_index(self, i: int)
        requires
            self.wf(),
            0 <= i < self.recs().len(),
        ensures
            self.spec_contains(self.recs()[i].locator@),
            self.spec_at(self.recs()[i].locator@) == self.recs()[i],
    {
        let loc = self.recs()[i].locator@;
        assert(self.spec_contains(loc));
        let j = choose|j: int| 0 <= j < self.recs().len() && (#[trigger] self.recs()[j]).locator@
            == loc;
        if i != j {
            if i < j {
                assert(self.recs()[i].locator@ != self.recs()[j].locator@);
            } else {
                assert(self.recs()[j].locator@ != self.recs()[i].locator@);
            }
        }
    }

    /// An empty registry.
    pub fn new() -> (r: Registry)
        ensures
            r.wf(),
            r.recs().len() == 0,
            forall|l: Seq<u8>| !(#[trigger] r.spec_contains(l)),
    {
        Registry { records: Vec::new() }
    }

    pub fn len(&self) -> (r: usize)
        ensures
            r == self.recs().len(),
    {
        self.records.len()
    }

    fn find(&self, loc: &Vec<u8>) -> (r: Option<usize>)
        ensures
            r matches Some(i) ==> i < self.recs().len() && self.recs()[i as int].locator@ == loc@,
            r is None ==> !self.spec_contains(loc@),
    {
        let mut i: usize = 0;
        while i < self.records.len()
            invariant
                i <= self.recs().len(),
                forall|j: int| 0 <= j < i ==> (#[trigger] self.recs()[j]).locator@ != loc@,
            decreases self.recs().len() - i,
        {
            if bytes_eq(&self.records[i].locator, loc) {
                return Some(i);
            }
            i = i + 1;
        }
        None
    }

    /// Whether the locator was already exported.
    pub fn contains(&self, loc: &Vec<u8>) -> (r: bool)
        ensures
            r == self.spec_contains(loc@),
    {
        match self.find(loc) {
            Some(i) => {
                proof {
                    assert(self.spec_contains(loc@));
                }
                true
            },
            None => false,
        }
    }

    /// Record a completed export. A record with the same locator is
    /// replaced; records for other locators are untouched.
    pub fn insert(&mut self, rec: DocRecord)
        requires
            old(self).wf(),
        ensures
            final(self).wf(),
            final(self).spec_contains(rec.locator@),
            final(self).spec_at(rec.locator@) == rec,
            forall|l: Seq<u8>| l != rec.locator@ ==> (#[trigger] final(self).spec_contains(l)
                <==> old(self).spec_contains(l)),
            forall|l: Seq<u8>|
                l != rec.locator@ && old(self).spec_contains(l) ==> #[trigger] final(self).spec_at(l) == old(self).spec_at(l),
            final(self).recs().len() == old(self).recs().len() + (if old(self).spec_contains(
                rec.locator@,
            ) {
                0int
            } else {
                1int
            }),
    {
        let ghost old_recs = self.records@;
        proof {
            assert(old(self).recs() == old_recs);
        }
        let found = self.find(&rec.locator);
        match found {
            Some(i) => {
                self.records.remove(i);
            },
            None => {},
        }
        let ghost mid = self.records@;
        let ghost removed: int = if found is Some {
            found.unwrap() as int
        } else {
            -1
        };
        proof {
            // where each surviving record came from
            assert(forall|t: int| 0 <= t < removed ==> #[trigger] mid[t] == old_recs[t]);
            assert(forall|t: int|
                removed <= t < mid.len() && removed >= 0 ==> #[trigger] mid[t] == old_recs[t + 1]);
            assert(removed < 0 ==> mid == old_recs);
            // after removal no record carries the new locator
            assert forall|t: int| 0 <= t < mid.len() implies (#[trigger] mid[t]).locator@
                != rec.locator@ by {
                if removed >= 0 {
                    if t < removed {
                        assert(old(self).recs()[t].locator@ != old(self).recs()[removed].locator@);
                    } else {
                        assert(old(self).recs()[removed].locator@ != old(self).recs()[t
                            + 1].locator@);
                    }
                } else {
                    if mid[t].locator@ == rec.locator@ {
                        assert(old(self).recs()[t].locator@ == rec.locator@);
                        assert(old(self).spec_contains(rec.locator@));
                        assert(false);
                    }
                }
            }
        }
        self.records.push(rec);
        proof {
            let new_recs = self.records@;
            assert(self.recs() == new_recs);
            assert(new_recs == mid.push(rec));
            assert(forall|t: int| 0 <= t < mid.len() ==> #[trigger] new_recs[t] == mid[t]);
            assert(new_recs[mid.len() as int] == rec);
            // well-formedness of the result
            assert forall|i: int, j: int| 0 <= i < j < self.recs().len() implies (#[trigger] self.recs()[i]).locator@
                != (#[trigger] self.recs()[j]).locator@ by {
                if j < mid.len() {
                    if removed >= 0 {
                        let oi = if i < removed {
                            i
                        } else {
                            i + 1
                        };
                        let oj = if j < removed {
                            j
                        } else {
                            j + 1
                        };
                        assert(self.recs()[i] == old(self).recs()[oi]);
                        assert(self.recs()[j] == old(self).recs()[oj]);
                        assert(old(self).recs()[oi].locator@ != old(self).recs()[oj].locator@);
                    } else {
                        assert(self.recs()[i] == old(self).recs()[i]);
                        assert(self.recs()[j] == old(self).recs()[j]);
                        assert(old(self).recs()[i].locator@ != old(self).recs()[j].locator@);
                    }
                } else {
                    assert(self.recs()[j] == rec);
                    assert(mid[i].locator@ != rec.locator@);
                }
            }
            // lookup of the new locator
            assert(self.recs()[self.recs().len() - 1] == rec);
            assert(self.spec_contains(rec.locator@));
            let c = choose|c: int|
                0 <= c < self.recs().len() && (#[trigger] self.recs()[c]).locator@ == rec.locator@;
            if c != self.recs().len() - 1 {
                assert(self.recs()[c].locator@ != self.recs()[self.recs().len() - 1].locator@);
            }
            assert(self.spec_at(rec.locator@) == rec);
            // other locators preserved
            assert forall|l: Seq<u8>| l != rec.locator@ implies (#[trigger] self.spec_contains(l)
                <==> old(self).spec_contains(l)) by {
                if self.spec_contains(l) {
                    let t = choose|t: int|
                        0 <= t < self.recs().len() && (#[trigger] self.recs()[t]).locator@ == l;
                    assert(t < mid.len());
                    let ot = if removed >= 0 && t >= removed {
                        t + 1
                    } else {
                        t
                    };
                    assert(old(self).recs()[ot].locator@ == l);
                    assert(old(self).spec_contains(l));
                }
                if old(self).spec_contains(l) {
                    let t = choose|t: int|
                        0 <= t < old(self).recs().len() && (#[trigger] old(self).recs()[t]).locator@
                            == l;
                    let nt = if removed >= 0 && t > removed {
                        t - 1
                    } else {
                        t
                    };
                    assert(t != removed);
                    assert(self.recs()[nt].locator@ == l);
                    assert(self.spec_contains(l));
                }
            }
            assert forall|l: Seq<u8>|
                l != rec.locator@ && old(self).spec_contains(l) implies #[trigger] self.spec_at(l)
                == old(self).spec_at(l) by {
                let t = choose|t: int|
                    0 <= t < old(self).recs().len() && (#[trigger] old(self).recs()[t]).locator@
                        == l;
                let nt = if removed >= 0 && t > removed {
                    t - 1
                } else {
                    t
                };
                assert(t != removed);
                assert(self.recs()[nt].locator@ == l);
                assert(self.recs()[nt] == old(self).recs()[t]);
                let c1 = choose|c: int|
                    0 <= c < self.recs().len() && (#[trigger] self.recs()[c]).locator@ == l;
                let c0 = choose|c: int|
                    0 <= c < old(self).recs().len() && (#[trigger] old(self).recs()[c]).locator@
                        == l;
                // uniqueness pins both choices
                assert(self.recs()[c1] == self.recs()[nt]) by {
                    if c1 != nt {
                        if c1 < nt {
                            assert(self.recs()[c1].locator@ != self.recs()[nt].locator@);
                        } else {
                            assert(self.recs()[nt].locator@ != self.recs()[c1].locator@);
                        }
                    }
                }
                assert(old(self).recs()[c0] == old(self).recs()[t]) by {
                    if c0 != t {
                        if c0 < t {
                            assert(old(self).recs()[c0].locator@ != old(self).recs()[t].locator@);
                        } else {
                            assert(old(self).recs()[t].locator@ != old(self).recs()[c0].locator@);
                        }
                    }
                }
            }
        }
    }

    /// The records sorted by display name, for deterministic persistence.
    pub fn into_sorted(self) -> (r: Vec<DocRecord>)
        ensures
            r@.to_multiset() == self.recs().to_multiset(),
            sorted_by_name(r@),
    {
        broadcast use vstd::seq_lib::group_to_multiset_ensures;
        broadcast use vstd::multiset::group_multiset_axioms;

        let ghost orig = self.records@;
        let mut src = self.records;
        let mut out: Vec<DocRecord> = Vec::new();
        proof {
            assert(out@.to_multiset().add(src@.to_multiset()) =~= orig.to_multiset());
        }
        while src.len() > 0
            invariant
                sorted_by_name(out@),
                out@.to_multiset().add(src@.to_multiset()) == orig.to_multiset(),
            decreases src@.len(),
        {
            let ghost src0 = src@;
            let e = src.remove(0);
            let mut p: usize = 0;
            while p < out.len() && bytes_le(&out[p].name, &e.name)
                invariant
                    p <= out@.len(),
                    forall|j: int| 0 <= j < p ==> lex_le((#[trigger] out@[j]).name@, e.name@),
                decreases out@.len() - p,
            {
                p = p + 1;
            }
            let ghost out0 = out@;
            out.insert(p, e);
            proof {
                broadcast use vstd::multiset::group_multiset_axioms;

                assert forall|i: int, j: int| 0 <= i <= j < out@.len() implies lex_le(
                    (#[trigger] out@[i]).name@,
                    (#[trigger] out@[j]).name@,
                ) by {
                    assert(out@ == out0.insert(p as int, e));
                    if p < out0.len() {
                        lemma_lex_total(out0[p as int].name@, e.name@);
                    }
                    if i < p && j < p {
                        assert(out@[i] == out0[i] && out@[j] == out0[j]);
                    } else if i < p && j == p {
                        assert(out@[i] == out0[i] && out@[j] == e);
                    } else if i < p && j > p {
                        assert(out@[i] == out0[i] && out@[j] == out0[j - 1]);
                    } else if i == p && j == p {
                        lemma_lex_total(e.name@, e.name@);
                    } else if i == p && j > p {
                        assert(out@[j] == out0[j - 1]);
                        assert(lex_le(e.name@, out0[p as int].name@));
                        assert(lex_le(out0[p as int].name@, out0[j - 1].name@));
                        lemma_lex_trans(e.name@, out0[p as int].name@, out0[j - 1].name@);
                    } else {
                        assert(out@[i] == out0[i - 1] && out@[j] == out0[j - 1]);
                    }
                }
                assert(src0[0] == e);
                assert(src0.contains(e));
                vstd::seq_lib::to_multiset_contains(src0, e);
                vstd::seq_lib::to_multiset_remove(src0, 0);
                vstd::seq_lib::to_multiset_insert(out0, p as int, e);
                assert(src@ == src0.remove(0));
                assert(src@.to_multiset() == src0.to_multiset().remove(e));
                assert(out@ == out0.insert(p as int, e));
                assert(out@.to_multiset() == out0.to_multiset().insert(e));
                assert(out@.to_multiset().add(src@.to_multiset()) =~= out0.to_multiset().add(
                    src0.to_multiset()));
            }
        }
        proof {
            broadcast use vstd::multiset::group_multiset_axioms;

            assert(src@.to_multiset() =~= vstd::multiset::Multiset::<DocRecord>::empty());
            assert(out@.to_multiset().add(src@.to_multiset()) =~= out@.to_multiset());
        }
        out
    }
}

} // verus!
