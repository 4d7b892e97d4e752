//! Year-partitioned aggregation: one independent aggregator per year
//! label, constructed upfront; scans for different years touch disjoint
//! tables and may therefore run side by side.

use vstd::prelude::*;

use crate::aggregate::{create_output_record, OutputRecord};
use crate::classify::{
    entries_view, scan_exif_from_folder, scan_tab, spec_decoded_count, spec_visited_count,
    FolderEntry, ScanCounters,
};
use crate::fields::TrackedField;

verus! {

/// One year's independent aggregator.
pub struct YearBucket {
    pub year: String,
    pub record: OutputRecord,
}

/// One aggregator per year label; labels are unique and buckets do not
/// share counters.
pub struct YearBuckets {
    pub buckets: Vec<YearBucket>,
}

impl YearBuckets {
    pub open spec fn wf(&self) -> bool {
        &&& forall|i: int, j: int|
            0 <= i < j < self.buckets@.len() ==> self.buckets@[i].year@ != self.buckets@[j].year@
        &&& forall|i: int| 0 <= i < self.buckets@.len() ==> (#[trigger] self.buckets@[i]).record.wf()
    }

    pub fn len(&self) -> (n: usize)
        ensures
            n == self.buckets@.len(),
    {
        self.buckets.len()
    }

    /// The position of the bucket for `year`, if that label exists.
    pub fn bucket_index(&self, year: &String) -> (r: Option<usize>)
        ensures
            match r {
                Some(i) => i < self.buckets@.len() && self.buckets@[i as int].year@ == year@,
                None => forall|i: int|
                    0 <= i < self.buckets@.len() ==> (#[trigger] self.buckets@[i]).year@ != year@,
            },
    {
        let n = self.buckets.len();
        let mut i: usize = 0;
        while i < n
            invariant
                i <= n,
                n == self.buckets@.len(),
                forall|j: int| 0 <= j < i ==> (#[trigger] self.buckets@[j]).year@ != year@,
            decreases n - i,
        {
            if self.buckets[i].year == *year {
                return Some(i);
            }
            i = i + 1;
        }
        None
    }

    /// The year label of the bucket at `i`.
    pub fn year_at(&self, i: usize) -> (y: &String)
        requires
            i < self.buckets@.len(),
        ensures
            y@ == self.buckets@[i as int].year@,
    {
        &self.buckets[i].year
    }

    /// The aggregator of the bucket at `i`, for reporting.
    pub fn record_at(&self, i: usize) -> (r: &OutputRecord)
        requires
            i < self.buckets@.len(),
        ensures
            *r == self.buckets@[i as int].record,
    {
        &self.buckets[i].record
    }

    /// Scan a directory listing into the bucket at `i`; no other bucket
    /// is touched.
    pub fn scan_into(
        &mut self,
        i: usize,
        entries: &Vec<FolderEntry>,
        counters: &mut ScanCounters,
    )
        requires
            old(self).wf(),
            i < old(self).buckets@.len(),
            old(counters).wf(),
            old(counters).visited + entries@.len() <= u64::MAX,
        ensures
            final(self).wf(),
            final(self).buckets@.len() == old(self).buckets@.len(),
            forall|j: int|
                0 <= j < old(self).buckets@.len() && j != i ==> final(self).buckets@[j] == old(
                    self,
                ).buckets@[j],
            final(self).buckets@[i as int].year@ == old(self).buckets@[i as int].year@,
            forall|f: TrackedField| #[trigger]
                final(self).buckets@[i as int].record.table(f) == scan_tab(
                    old(self).buckets@[i as int].record.table(f),
                    entries_view(entries@),
                    f,
                ),
            final(counters).wf(),
            final(counters).visited == old(counters).visited + spec_visited_count(
                entries_view(entries@),
            ),
            final(counters).decoded == old(counters).decoded + spec_decoded_count(
                entries_view(entries@),
            ),
    {
        let b = &mut self.buckets[i];
        scan_exif_from_folder(entries, &mut b.record, counters);
    }
}

/// One fresh, independent aggregator per year label. Labels must be
/// distinct: each names exactly one bucket.
pub fn create_year_output_record(years: &Vec<String>) -> (r: YearBuckets)
    requires
        forall|i: int, j: int| 0 <= i < j < years@.len() ==> years@[i]@ != years@[j]@,
    ensures
        r.wf(),
        r.buckets@.len() == years@.len(),
        forall|i: int| 0 <= i < years@.len() ==> (#[trigger] r.buckets@[i]).year@ == years@[i]@,
        forall|i: int, f: TrackedField|
            0 <= i < years@.len() ==> #[trigger] r.buckets@[i].record.table(f) == Map::<
                Seq<char>,
                u64,
            >::empty(),
{
    let n = years.len();
    let mut buckets: Vec<YearBucket> = Vec::new();
    let mut i: usize = 0;
    while i < n
        invariant
            i <= n,
            n == years@.len(),
            buckets@.len() == i,
            forall|i2: int, j2: int| 0 <= i2 < j2 < years@.len() ==> years@[i2]@ != years@[j2]@,
            forall|j: int| 0 <= j < i ==> (#[trigger] buckets@[j]).year@ == years@[j]@,
            forall|j: int| 0 <= j < i ==> (#[trigger] buckets@[j]).record.wf(),
            forall|j: int, f: TrackedField|
                0 <= j < i ==> #[trigger] buckets@[j].record.table(f) == Map::<
                    Seq<char>,
                    u64,
                >::empty(),
        decreases n - i,
    {
        let year = years[i].clone();
        let record = create_output_record();
        buckets.push(YearBucket { year, record });
        i = i + 1;
    }
    YearBuckets { buckets }
}

} // verus!
