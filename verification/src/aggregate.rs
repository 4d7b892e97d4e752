//! The frequency aggregator: one frequency table per tracked field. The
//! key set is fixed at construction, and aggregation is commutative and
//! associative, so any partition of the files across workers yields the
//! same final tables.

use vstd::prelude::*;

use crate::fields::TrackedField;
use crate::freq::{
    bump, count_in, lemma_count_in_merge, lemma_merge_map_comm, lemma_sat_add_assoc, merge_map,
    table_map, FrequencyTable,
};

verus! {

/// One frequency table per tracked field.
pub struct OutputRecord {
    pub focal_length: FrequencyTable,
    pub f_number: FrequencyTable,
    pub exposure_time: FrequencyTable,
}

impl OutputRecord {
    pub open spec fn wf(&self) -> bool {
        self.focal_length.wf() && self.f_number.wf() && self.exposure_time.wf()
    }

    /// The entry sequence of the table for `f`, in insertion order.
    pub open spec fn entries_of(&self, f: TrackedField) -> Seq<(Seq<char>, u64)> {
        match f {
            TrackedField::FocalLength => self.focal_length@,
            TrackedField::FNumber => self.f_number@,
            TrackedField::ExposureTime => self.exposure_time@,
        }
    }

    /// The mapping from display value to count held for `f`.
    pub open spec fn table(&self, f: TrackedField) -> Map<Seq<char>, u64> {
        table_map(self.entries_of(f))
    }

    /// The whole snapshot: tracked field to frequency table. Its domain
    /// is every tracked field, by construction.
    pub open spec fn as_field_map(&self) -> Map<TrackedField, Map<Seq<char>, u64>> {
        Map::new(|f: TrackedField| true, |f: TrackedField| self.table(f))
    }

    /// Record one occurrence of value `v` for field `f`; no other field's
    /// table is touched.
    pub fn record_field(&mut self, f: TrackedField, v: &String)
        requires
            old(self).wf(),
        ensures
            final(self).wf(),
            final(self).table(f) == bump(old(self).table(f), v@),
            forall|g: TrackedField| g != f ==> final(self).entries_of(g) == old(self).entries_of(g),
    {
        match f {
            TrackedField::FocalLength => self.focal_length.record(v),
            TrackedField::FNumber => self.f_number.record(v),
            TrackedField::ExposureTime => self.exposure_time.record(v),
        }
    }

    /// Fold every count of `other` into this aggregator, fieldwise.
    pub fn merge_from(&mut self, other: &OutputRecord)
        requires
            old(self).wf(),
            other.wf(),
        ensures
            final(self).wf(),
            forall|f: TrackedField| #[trigger]
                final(self).table(f) == merge_map(old(self).table(f), other.table(f)),
    {
        self.focal_length.merge_from(&other.focal_length);
        self.f_number.merge_from(&other.f_number);
        self.exposure_time.merge_from(&other.exposure_time);
        proof {
            assert forall|f: TrackedField| #[trigger]
                self.table(f) == merge_map(old(self).table(f), other.table(f)) by {
                assert(f == TrackedField::FocalLength || f == TrackedField::FNumber || f
                    == TrackedField::ExposureTime);
            }
        }
    }
}

/// A fresh aggregator: every tracked field present, each with an empty
/// frequency table.
pub fn create_output_record() -> (r: OutputRecord)
    ensures
        r.wf(),
        forall|f: TrackedField| #[trigger] r.table(f) == Map::<Seq<char>, u64>::empty(),
        forall|f: TrackedField| #[trigger] r.entries_of(f) == Seq::<(Seq<char>, u64)>::empty(),
{
    let r = OutputRecord {
        focal_length: FrequencyTable::new(),
        f_number: FrequencyTable::new(),
        exposure_time: FrequencyTable::new(),
    };
    proof {
        assert forall|f: TrackedField| #[trigger] r.entries_of(f) == Seq::<(Seq<char>, u64)>::empty()
            by {
            assert(f == TrackedField::FocalLength || f == TrackedField::FNumber || f
                == TrackedField::ExposureTime);
        }
    }
    r
}

/// The set of tracked fields.
pub open spec fn tracked_field_set() -> Set<TrackedField> {
    set![TrackedField::FocalLength, TrackedField::FNumber, TrackedField::ExposureTime]
}

/// A fresh aggregator snapshot has exactly the tracked fields as its
/// top-level keys — as does any other aggregator: the key set is closed.
pub proof fn lemma_closed_key_set(r: OutputRecord)
    ensures
        r.as_field_map().dom() =~= tracked_field_set(),
{
    assert forall|f: TrackedField| tracked_field_set().contains(f) by {
        assert(f == TrackedField::FocalLength || f == TrackedField::FNumber || f
            == TrackedField::ExposureTime);
    }
}

/// What one file contributes to one field's table: at most one value.
pub open spec fn apply_contrib(m: Map<Seq<char>, u64>, c: Option<Seq<char>>) -> Map<Seq<char>, u64> {
    match c {
        None => m,
        Some(k) => bump(m, k),
    }
}

/// The table after a sequence of per-file contributions.
pub open spec fn fold_contribs(m: Map<Seq<char>, u64>, cs: Seq<Option<Seq<char>>>) -> Map<
    Seq<char>,
    u64,
>
    decreases cs.len(),
{
    if cs.len() == 0 {
        m
    } else {
        apply_contrib(fold_contribs(m, cs.drop_last()), cs.last())
    }
}

/// Folding a concatenation is folding one part after the other.
pub proof fn lemma_fold_concat(
    m: Map<Seq<char>, u64>,
    cs1: Seq<Option<Seq<char>>>,
    cs2: Seq<Option<Seq<char>>>,
)
    ensures
        fold_contribs(m, cs1 + cs2) == fold_contribs(fold_contribs(m, cs1), cs2),
    decreases cs2.len(),
{
    if cs2.len() == 0 {
        assert(cs1 + cs2 =~= cs1);
    } else {
        assert((cs1 + cs2).drop_last() =~= cs1 + cs2.drop_last());
        assert((cs1 + cs2).last() == cs2.last());
        lemma_fold_concat(m, cs1, cs2.drop_last());
    }
}

/// One contribution commutes with a merge on the other side.
pub proof fn lemma_apply_merge(
    m1: Map<Seq<char>, u64>,
    m2: Map<Seq<char>, u64>,
    c: Option<Seq<char>>,
)
    ensures
        apply_contrib(merge_map(m1, m2), c) == merge_map(m1, apply_contrib(m2, c)),
{
    match c {
        None => {},
        Some(k) => {
            lemma_count_in_merge(m1, m2, k);
            lemma_sat_add_assoc(count_in(m1, k), count_in(m2, k), 1);
            assert forall|k2: Seq<char>|
                #[trigger] count_in(bump(merge_map(m1, m2), k), k2) == count_in(
                    merge_map(m1, bump(m2, k)),
                    k2,
                ) by {
                lemma_count_in_merge(m1, bump(m2, k), k2);
                lemma_count_in_merge(m1, m2, k2);
            }
            assert(bump(merge_map(m1, m2), k) =~= merge_map(m1, bump(m2, k)));
        },
    }
}

/// Folding from any starting table is merging with the fold from empty.
pub proof fn lemma_fold_merge(m: Map<Seq<char>, u64>, cs: Seq<Option<Seq<char>>>)
    ensures
        fold_contribs(m, cs) == merge_map(m, fold_contribs(Map::empty(), cs)),
    decreases cs.len(),
{
    if cs.len() == 0 {
        assert(merge_map(m, Map::<Seq<char>, u64>::empty()) =~= m);
    } else {
        lemma_fold_merge(m, cs.drop_last());
        lemma_apply_merge(m, fold_contribs(Map::empty(), cs.drop_last()), cs.last());
    }
}

/// Aggregation is order-independent: the table after scanning all files
/// on one worker equals the merge of the tables of any two batches, and
/// `merge_map` is commutative and associative, so any partition of the
/// files across any number of workers yields the same final tables.
pub proof fn lemma_fold_split(cs1: Seq<Option<Seq<char>>>, cs2: Seq<Option<Seq<char>>>)
    ensures
        fold_contribs(Map::empty(), cs1 + cs2) == merge_map(
            fold_contribs(Map::empty(), cs1),
            fold_contribs(Map::empty(), cs2),
        ),
        fold_contribs(Map::empty(), cs1 + cs2) == merge_map(
            fold_contribs(Map::empty(), cs2),
            fold_contribs(Map::empty(), cs1),
        ),
{
    lemma_fold_concat(Map::empty(), cs1, cs2);
    lemma_fold_merge(fold_contribs(Map::empty(), cs1), cs2);
    lemma_merge_map_comm(fold_contribs(Map::empty(), cs1), fold_contribs(Map::empty(), cs2));
}

} // verus!
