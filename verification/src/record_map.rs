//! The ordered record map threaded through every stage: records kept in
//! strictly ascending codepoint order, keyed by the codepoint.

use vstd::prelude::*;
use crate::record::{RecordModel, UnicodeCharRecord};

verus! {

/// The keyed contents of a sequence of records: later entries overwrite
/// earlier ones at the same codepoint.
pub open spec fn records_map(s: Seq<RecordModel>) -> Map<u32, RecordModel>
    decreases s.len(),
{
    if s.len() == 0 {
        Map::empty()
    } else {
        records_map(s.drop_last()).insert(s.last().codepoint, s.last())
    }
}

/// Strictly ascending codepoints: sorted, and every codepoint unique.
pub open spec fn sorted_by_codepoint(s: Seq<RecordModel>) -> bool {
    forall|i: int, j: int| 0 <= i < j < s.len() ==> s[i].codepoint < s[j].codepoint
}

/// Inserting a record between smaller and larger codepoints is exactly a
/// keyed insertion into the contents.
proof fn lemma_records_map_insert(s: Seq<RecordModel>, i: int, rec: RecordModel)
    requires
        0 <= i <= s.len(),
        forall|j: int| 0 <= j < i ==> s[j].codepoint < rec.codepoint,
        forall|j: int| i <= j < s.len() ==> s[j].codepoint > rec.codepoint,
    ensures
        records_map(s.insert(i, rec)) == records_map(s).insert(rec.codepoint, rec),
    decreases s.len() - i,
{
    if i == s.len() {
        assert(s.insert(i, rec) =~= s.push(rec));
        assert(s.push(rec).drop_last() =~= s);
    } else {
        let t = s.drop_last();
        let last = s.last();
        lemma_records_map_insert(t, i, rec);
        assert(s.insert(i, rec) =~= t.insert(i, rec).push(last));
        assert(t.insert(i, rec).push(last).drop_last() =~= t.insert(i, rec));
        assert(records_map(s.insert(i, rec)) == records_map(t.insert(i, rec)).insert(
            last.codepoint,
            last,
        ));
        assert(records_map(t).insert(rec.codepoint, rec).insert(last.codepoint, last) =~= records_map(
            t,
        ).insert(last.codepoint, last).insert(rec.codepoint, rec));
    }
}

/// Replacing the record at a codepoint is exactly a keyed insertion.
proof fn lemma_records_map_update(s: Seq<RecordModel>, i: int, rec: RecordModel)
    requires
        0 <= i < s.len(),
        s[i].codepoint == rec.codepoint,
        forall|j: int| 0 <= j < s.len() && j != i ==> s[j].codepoint != rec.codepoint,
    ensures
        records_map(s.update(i, rec)) == records_map(s).insert(rec.codepoint, rec),
    decreases s.len(),
{
    let t = s.drop_last();
    let last = s.last();
    if i == s.len() - 1 {
        assert(s.update(i, rec) =~= t.push(rec));
        assert(t.push(rec).drop_last() =~= t);
        assert(records_map(t).insert(rec.codepoint, rec) =~= records_map(t).insert(
            last.codepoint,
            last,
        ).insert(rec.codepoint, rec));
    } else {
        lemma_records_map_update(t, i, rec);
        assert(s.update(i, rec) =~= t.update(i, rec).push(last));
        assert(t.update(i, rec).push(last).drop_last() =~= t.update(i, rec));
        assert(records_map(s.update(i, rec)) == records_map(t.update(i, rec)).insert(
            last.codepoint,
            last,
        ));
        assert(s[i].codepoint != last.codepoint);
        assert(records_map(t).insert(rec.codepoint, rec).insert(last.codepoint, last) =~= records_map(
            t,
        ).insert(last.codepoint, last).insert(rec.codepoint, rec));
    }
}

/// Every record of the keyed contents stands under its own codepoint.
pub proof fn lemma_records_map_key(recs: Seq<RecordModel>)
    ensures
        forall|cp: u32|
            #[trigger] records_map(recs).dom().contains(cp) ==> records_map(recs)[cp].codepoint
                == cp,
    decreases recs.len(),
{
    if recs.len() > 0 {
        lemma_records_map_key(recs.drop_last());
    }
}

/// A pointwise, codepoint-preserving pass over a record sequence moves
/// through its keyed contents pointwise: the keys are unchanged, and the
/// record at each key is the passed image of the record that stood there.
pub proof fn lemma_records_map_map_values(
    recs: Seq<RecordModel>,
    f: spec_fn(RecordModel) -> RecordModel,
)
    requires
        forall|r: RecordModel| (#[trigger] f(r)).codepoint == r.codepoint,
    ensures
        forall|cp: u32|
            #[trigger] records_map(recs.map_values(f)).dom().contains(cp) <==> records_map(
                recs,
            ).dom().contains(cp),
        forall|cp: u32|
            #[trigger] records_map(recs).dom().contains(cp) ==> records_map(recs.map_values(f))[cp]
                == f(records_map(recs)[cp]),
    decreases recs.len(),
{
    if recs.len() == 0 {
        assert(recs.map_values(f) =~= Seq::<RecordModel>::empty());
    } else {
        let t = recs.drop_last();
        let last = recs.last();
        lemma_records_map_map_values(t, f);
        assert(recs.map_values(f).drop_last() =~= t.map_values(f));
        assert(recs.map_values(f).last() == f(last));
        assert(records_map(recs.map_values(f)) == records_map(t.map_values(f)).insert(
            f(last).codepoint,
            f(last),
        ));
        assert(f(last).codepoint == last.codepoint);
        assert forall|cp: u32|
            #[trigger] records_map(recs.map_values(f)).dom().contains(cp) <==> records_map(
            recs,
        ).dom().contains(cp) by {
            if cp != last.codepoint {
                assert(records_map(recs.map_values(f)).dom().contains(cp) <==> records_map(
                    t.map_values(f),
                ).dom().contains(cp));
                assert(records_map(recs).dom().contains(cp) <==> records_map(t).dom().contains(cp));
            }
        }
        assert forall|cp: u32| #[trigger] records_map(recs).dom().contains(cp) implies records_map(
            recs.map_values(f),
        )[cp] == f(records_map(recs)[cp]) by {
            if cp != last.codepoint {
                assert(records_map(t).dom().contains(cp));
                assert(records_map(recs.map_values(f))[cp] == records_map(t.map_values(f))[cp]);
                assert(records_map(recs)[cp] == records_map(t)[cp]);
            }
        }
    }
}

/// The ordered, codepoint-keyed record map built by the base parser,
/// annotated in place, and walked in ascending order by the store writer.
pub struct RecordMap {
    recs: Vec<UnicodeCharRecord>,
}

impl View for RecordMap {
    type V = Seq<RecordModel>;

    closed spec fn view(&self) -> Seq<RecordModel> {
        Seq::new(self.recs@.len(), |i: int| self.recs@[i]@)
    }
}

impl RecordMap {
    /// Well-formed: records stand in strictly ascending codepoint order.
    pub open spec fn wf(self) -> bool {
        sorted_by_codepoint(self@)
    }

    /// The keyed contents of the map.
    pub open spec fn contents(self) -> Map<u32, RecordModel> {
        records_map(self@)
    }

    pub fn new() -> (r: RecordMap)
        ensures
            r@ =~= Seq::<RecordModel>::empty(),
            r.wf(),
    {
        RecordMap { recs: Vec::new() }
    }

    pub fn len(&self) -> (r: usize)
        ensures
            r == self@.len(),
    {
        self.recs.len()
    }

    /// The record at a position of the ascending order.
    pub fn get(&self, i: usize) -> (r: &UnicodeCharRecord)
        requires
            i < self@.len(),
        ensures
            r@ == self@[i as int],
    {
        &self.recs[i]
    }

    /// Stamps the block annotation onto the record at position `i`.
    pub fn set_block(&mut self, i: usize, name: &str)
        requires
            i < old(self)@.len(),
        ensures
            final(self)@ == old(self)@.update(i as int, old(self)@[i as int].with_block(name@)),
            old(self).wf() ==> final(self).wf(),
    {
        let mut r = self.recs[i].duplicate();
        r.block = name.to_owned();
        let ghost prev = self@;
        self.recs.set(i, r);
        proof {
            assert(self@ =~= prev.update(i as int, prev[i as int].with_block(name@)));
            if sorted_by_codepoint(prev) {
                assert forall|a: int, b: int|
                    0 <= a < b < self@.len() implies self@[a].codepoint < self@[b].codepoint by {
                    assert(prev[a].codepoint < prev[b].codepoint);
                }
            }
        }
    }

    /// Stamps the age annotation onto the record at position `i`.
    pub fn set_age(&mut self, i: usize, version: &str)
        requires
            i < old(self)@.len(),
        ensures
            final(self)@ == old(self)@.update(i as int, old(self)@[i as int].with_age(version@)),
            old(self).wf() ==> final(self).wf(),
    {
        let mut r = self.recs[i].duplicate();
        r.age = version.to_owned();
        let ghost prev = self@;
        self.recs.set(i, r);
        proof {
            assert(self@ =~= prev.update(i as int, prev[i as int].with_age(version@)));
            if sorted_by_codepoint(prev) {
                assert forall|a: int, b: int|
                    0 <= a < b < self@.len() implies self@[a].codepoint < self@[b].codepoint by {
                    assert(prev[a].codepoint < prev[b].codepoint);
                }
            }
        }
    }

    /// Stamps the entity annotation onto the record at position `i`.
    pub fn set_entity(&mut self, i: usize, entity: &str)
        requires
            i < old(self)@.len(),
        ensures
            final(self)@ == old(self)@.update(i as int, old(self)@[i as int].with_entity(entity@)),
            old(self).wf() ==> final(self).wf(),
    {
        let mut r = self.recs[i].duplicate();
        r.html_entity = Some(entity.to_owned());
        let ghost prev = self@;
        self.recs.set(i, r);
        proof {
            assert(self@ =~= prev.update(i as int, prev[i as int].with_entity(entity@)));
            if sorted_by_codepoint(prev) {
                assert forall|a: int, b: int|
                    0 <= a < b < self@.len() implies self@[a].codepoint < self@[b].codepoint by {
                    assert(prev[a].codepoint < prev[b].codepoint);
                }
            }
        }
    }

    /// Keyed insertion: a record at a fresh codepoint takes its place in
    /// the order, one at a present codepoint replaces the record there.
    pub fn insert(&mut self, rec: UnicodeCharRecord)
        requires
            old(self).wf(),
        ensures
            final(self).wf(),
            final(self).contents() == old(self).contents().insert(rec@.codepoint, rec@),
            old(self)@.len() <= final(self)@.len() <= old(self)@.len() + 1,
    {
        let cp = rec.codepoint;
        let n = self.recs.len();
        let mut i: usize = 0;
        while i < n && self.recs[i].codepoint < cp
            invariant
                i <= n,
                n == self@.len(),
                forall|k: int| 0 <= k < i ==> self@[k].codepoint < cp,
            decreases n - i,
        {
            i = i + 1;
        }
        assert(rec@.codepoint == cp);
        if i < n && self.recs[i].codepoint == cp {
            proof {
                assert(self@[i as int].codepoint == cp);
                assert forall|j: int| 0 <= j < self@.len() && j != i implies self@[j].codepoint
                    != cp by {
                    if j > i {
                        assert(self@[i as int].codepoint < self@[j].codepoint);
                    }
                }
                lemma_records_map_update(self@, i as int, rec@);
                lemma_sorted_update(self@, i as int, rec@);
            }
            let ghost prev = self@;
            self.recs.set(i, rec);
            proof {
                assert(self@ =~= prev.update(i as int, rec@));
            }
        } else {
            proof {
                assert forall|j: int| i <= j < self@.len() implies self@[j].codepoint > cp by {
                    if j != i {
                        assert(self@[i as int].codepoint < self@[j].codepoint);
                    }
                }
                lemma_records_map_insert(self@, i as int, rec@);
                lemma_sorted_insert(self@, i as int, rec@);
            }
            let ghost prev = self@;
            self.recs.insert(i, rec);
            proof {
                assert(self@ =~= prev.insert(i as int, rec@));
            }
        }
    }
}

/// Inserting between smaller and larger codepoints keeps the order
/// strictly ascending.
proof fn lemma_sorted_insert(s: Seq<RecordModel>, i: int, rec: RecordModel)
    requires
        sorted_by_codepoint(s),
        0 <= i <= s.len(),
        forall|j: int| 0 <= j < i ==> s[j].codepoint < rec.codepoint,
        forall|j: int| i <= j < s.len() ==> s[j].codepoint > rec.codepoint,
    ensures
        sorted_by_codepoint(s.insert(i, rec)),
{
    s.insert_ensures(i, rec);
    let s2 = s.insert(i, rec);
    assert forall|a: int, b: int|
        0 <= a < b < s2.len() implies s2[a].codepoint < s2[b].codepoint by {
        if b < i {
            assert(s2[a] == s[a]);
            assert(s2[b] == s[b]);
        } else if b == i {
            assert(s2[a] == s[a]);
        } else {
            assert(s2[b] == s[b - 1]);
            if a < i {
                assert(s2[a] == s[a]);
                if b - 1 > a {
                    assert(s[a].codepoint < s[b - 1].codepoint);
                }
            } else if a == i {
            } else {
                assert(s2[a] == s[a - 1]);
                assert(s[a - 1].codepoint < s[b - 1].codepoint);
            }
        }
    }
}

/// Replacing a record with one at the same codepoint keeps the order.
proof fn lemma_sorted_update(s: Seq<RecordModel>, i: int, rec: RecordModel)
    requires
        sorted_by_codepoint(s),
        0 <= i < s.len(),
        s[i].codepoint == rec.codepoint,
    ensures
        sorted_by_codepoint(s.update(i, rec)),
{
    assert forall|a: int, b: int|
        0 <= a < b < s.update(i, rec).len() implies s.update(i, rec)[a].codepoint < s.update(
        i,
        rec,
    )[b].codepoint by {
        assert(s[a].codepoint < s[b].codepoint);
    }
}

} // verus!
