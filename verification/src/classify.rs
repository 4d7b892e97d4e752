//! Bounded-depth classification of directory entries and the scan
//! orchestrator. Every regular file within the depth bound is visited;
//! only visited files with a `jpg` extension (in any ascii case) are
//! decoded; a file that cannot be read or decoded is skipped and never
//! aborts the scan.

use vstd::prelude::*;
use vstd::string::StrSliceExecFns;

use crate::aggregate::{apply_contrib, lemma_apply_merge, OutputRecord};
use crate::extract::{contribution, exif_decode_of, lemma_sentinel_filtered, scan_exif_from_img};
use crate::fields::{sentinel, RawFieldV, TrackedField};
use crate::freq::{count_in, merge_map};

verus! {

/// Directories are walked at most this many levels below the scan root.
pub const MAX_SCAN_DEPTH: usize = 4;

/// One entry met while walking a directory tree: its depth below the
/// scan root, whether it is a regular file, the (possibly empty)
/// extension of its name, and its bytes — `None` where the file could
/// not be read.
pub struct FolderEntry {
    pub depth: usize,
    pub is_file: bool,
    pub ext: String,
    pub bytes: Option<Vec<u8>>,
}

/// Mathematical image of a directory entry.
pub ghost struct FolderEntryV {
    pub depth: int,
    pub is_file: bool,
    pub ext: Seq<char>,
    pub bytes: Option<Seq<u8>>,
}

impl View for FolderEntry {
    type V = FolderEntryV;

    open spec fn view(&self) -> FolderEntryV {
        FolderEntryV {
            depth: self.depth as int,
            is_file: self.is_file,
            ext: self.ext@,
            bytes: match self.bytes {
                Some(b) => Some(b@),
                None => None,
            },
        }
    }
}

/// The mathematical image of an entry list.
pub open spec fn entries_view(s: Seq<FolderEntry>) -> Seq<FolderEntryV> {
    s.map_values(|e: FolderEntry| e@)
}

/// The extension that marks a candidate image, in any ascii case.
pub open spec fn is_jpg_ext(s: Seq<char>) -> bool {
    s.len() == 3 && (s[0] == 'j' || s[0] == 'J') && (s[1] == 'p' || s[1] == 'P') && (s[2] == 'g'
        || s[2] == 'G')
}

pub fn ext_is_jpg(s: &String) -> (r: bool)
    ensures
        r == is_jpg_ext(s@),
{
    let st = s.as_str();
    if st.unicode_len() != 3 {
        return false;
    }
    let c0 = st.get_char(0);
    let c1 = st.get_char(1);
    let c2 = st.get_char(2);
    (c0 == 'j' || c0 == 'J') && (c1 == 'p' || c1 == 'P') && (c2 == 'g' || c2 == 'G')
}

/// A visited file: a regular file within the depth bound. Every visited
/// file counts toward "total files visited", whatever its extension.
pub open spec fn is_visited(e: FolderEntryV) -> bool {
    e.is_file && e.depth <= MAX_SCAN_DEPTH
}

/// A candidate: a visited file whose extension marks it as an image.
pub open spec fn is_candidate(e: FolderEntryV) -> bool {
    is_visited(e) && is_jpg_ext(e.ext)
}

/// The decode outcome an entry leads to: an unreadable file fails like
/// an undecodable one.
pub open spec fn outcome_of(e: FolderEntryV) -> Option<Seq<RawFieldV>> {
    match e.bytes {
        Some(b) => exif_decode_of(b),
        None => None,
    }
}

/// What one entry contributes to the table of `f`: nothing unless it is
/// a candidate that decodes, and then its first non-sentinel reading.
pub open spec fn entry_contrib(e: FolderEntryV, f: TrackedField) -> Option<Seq<char>> {
    if is_candidate(e) {
        match outcome_of(e) {
            Some(fs) => contribution(fs, f),
            None => None,
        }
    } else {
        None
    }
}

/// The table for `f` after scanning `entries`, starting from table `m`.
pub open spec fn scan_tab(
    m: Map<Seq<char>, u64>,
    entries: Seq<FolderEntryV>,
    f: TrackedField,
) -> Map<Seq<char>, u64>
    decreases entries.len(),
{
    if entries.len() == 0 {
        m
    } else {
        apply_contrib(scan_tab(m, entries.drop_last(), f), entry_contrib(entries.last(), f))
    }
}

/// How many entries a scan visits.
pub open spec fn spec_visited_count(entries: Seq<FolderEntryV>) -> nat
    decreases entries.len(),
{
    if entries.len() == 0 {
        0
    } else {
        spec_visited_count(entries.drop_last()) + (if is_visited(entries.last()) {
            1nat
        } else {
            0nat
        })
    }
}

/// How many entries a scan decodes successfully.
pub open spec fn spec_decoded_count(entries: Seq<FolderEntryV>) -> nat
    decreases entries.len(),
{
    if entries.len() == 0 {
        0
    } else {
        spec_decoded_count(entries.drop_last()) + (if is_candidate(entries.last())
            && outcome_of(entries.last()) is Some {
            1nat
        } else {
            0nat
        })
    }
}

/// Images decoded never exceed files visited, and neither exceeds the
/// number of entries.
pub proof fn lemma_counter_bounds(entries: Seq<FolderEntryV>)
    ensures
        spec_decoded_count(entries) <= spec_visited_count(entries),
        spec_visited_count(entries) <= entries.len(),
    decreases entries.len(),
{
    if entries.len() == 0 {
    } else {
        lemma_counter_bounds(entries.drop_last());
    }
}

/// Counters owned by one scan: total files visited and images
/// successfully decoded. Both only ever increase.
pub struct ScanCounters {
    pub visited: u64,
    pub decoded: u64,
}

impl ScanCounters {
    /// Well-formed: decoded images never outnumber visited files.
    pub open spec fn wf(&self) -> bool {
        self.decoded <= self.visited
    }

    pub fn new() -> (r: Self)
        ensures
            r.wf(),
            r.visited == 0,
            r.decoded == 0,
    {
        ScanCounters { visited: 0, decoded: 0 }
    }
}

/// Scan a directory listing: visit every regular file within the depth
/// bound, decode each candidate image, and aggregate the tracked fields
/// of those that decode. Failures of single files are contained: they
/// leave the tables and the decoded counter untouched.
pub fn scan_exif_from_folder(
    entries: &Vec<FolderEntry>,
    record: &mut OutputRecord,
    counters: &mut ScanCounters,
)
    requires
        old(record).wf(),
        old(counters).wf(),
        old(counters).visited + entries@.len() <= u64::MAX,
    ensures
        final(record).wf(),
        final(counters).wf(),
        final(counters).visited == old(counters).visited + spec_visited_count(
            entries_view(entries@),
        ),
        final(counters).decoded == old(counters).decoded + spec_decoded_count(
            entries_view(entries@),
        ),
        final(counters).visited >= old(counters).visited,
        final(counters).decoded >= old(counters).decoded,
        forall|f: TrackedField| #[trigger]
            final(record).table(f) == scan_tab(old(record).table(f), entries_view(entries@), f),
{
    let ghost ev = entries_view(entries@);
    let n = entries.len();
    let mut i: usize = 0;
    while i < n
        invariant
            i <= n,
            n == entries@.len(),
            ev == entries_view(entries@),
            record.wf(),
            counters.wf(),
            old(counters).wf(),
            old(counters).visited + n <= u64::MAX,
            counters.visited == old(counters).visited + spec_visited_count(ev.take(i as int)),
            counters.decoded == old(counters).decoded + spec_decoded_count(ev.take(i as int)),
            forall|f: TrackedField| #[trigger]
                record.table(f) == scan_tab(old(record).table(f), ev.take(i as int), f),
        decreases n - i,
    {
        proof {
            assert(ev.take(i + 1) =~= ev.take(i as int).push(ev[i as int]));
            assert(ev.take(i + 1).drop_last() =~= ev.take(i as int));
            lemma_counter_bounds(ev.take(i as int));
        }
        let e = &entries[i];
        proof {
            assert(ev[i as int] == e@);
        }
        if e.is_file && e.depth <= MAX_SCAN_DEPTH {
            counters.visited = counters.visited + 1;
            if ext_is_jpg(&e.ext) {
                match &e.bytes {
                    Some(b) => {
                        let ok = scan_exif_from_img(b, record);
                        if ok {
                            counters.decoded = counters.decoded + 1;
                        }
                    },
                    None => {},
                }
            }
        }
        i = i + 1;
    }
    proof {
        assert(ev.take(n as int) =~= ev);
    }
}

/// Scanning a concatenation is scanning one part after the other.
pub proof fn lemma_scan_tab_concat(
    m: Map<Seq<char>, u64>,
    s1: Seq<FolderEntryV>,
    s2: Seq<FolderEntryV>,
    f: TrackedField,
)
    ensures
        scan_tab(m, s1 + s2, f) == scan_tab(scan_tab(m, s1, f), s2, f),
    decreases s2.len(),
{
    if s2.len() == 0 {
        assert(s1 + s2 =~= s1);
    } else {
        assert((s1 + s2).drop_last() =~= s1 + s2.drop_last());
        assert((s1 + s2).last() == s2.last());
        lemma_scan_tab_concat(m, s1, s2.drop_last(), f);
    }
}

/// Scanning from any starting table is merging with the scan from an
/// empty table.
pub proof fn lemma_scan_tab_merge(m: Map<Seq<char>, u64>, s: Seq<FolderEntryV>, f: TrackedField)
    ensures
        scan_tab(m, s, f) == merge_map(m, scan_tab(Map::empty(), s, f)),
    decreases s.len(),
{
    if s.len() == 0 {
        assert(merge_map(m, Map::<Seq<char>, u64>::empty()) =~= m);
    } else {
        lemma_scan_tab_merge(m, s.drop_last(), f);
        lemma_apply_merge(m, scan_tab(Map::empty(), s.drop_last(), f), entry_contrib(s.last(), f));
    }
}

/// Scanning all entries on one worker equals scanning any two batches
/// separately and merging the resulting tables; with the commutativity
/// and associativity of `merge_map`, any partition of the entries over
/// any number of workers yields the same final tables.
pub proof fn lemma_scan_commutes(s1: Seq<FolderEntryV>, s2: Seq<FolderEntryV>, f: TrackedField)
    ensures
        scan_tab(Map::empty(), s1 + s2, f) == merge_map(
            scan_tab(Map::empty(), s1, f),
            scan_tab(Map::empty(), s2, f),
        ),
{
    lemma_scan_tab_concat(Map::empty(), s1, s2, f);
    lemma_scan_tab_merge(scan_tab(Map::empty(), s1, f), s2, f);
}

/// A file placed below the depth bound is never visited: it changes no
/// table and neither counter, wherever it stands in the listing.
pub proof fn lemma_depth_bound(
    s1: Seq<FolderEntryV>,
    deep: FolderEntryV,
    s2: Seq<FolderEntryV>,
    m: Map<Seq<char>, u64>,
    f: TrackedField,
)
    requires
        deep.depth > MAX_SCAN_DEPTH,
    ensures
        scan_tab(m, s1 + seq![deep] + s2, f) == scan_tab(m, s1 + s2, f),
        spec_visited_count(s1 + seq![deep] + s2) == spec_visited_count(s1 + s2),
        spec_decoded_count(s1 + seq![deep] + s2) == spec_decoded_count(s1 + s2),
{
    lemma_scan_tab_concat(m, s1 + seq![deep], s2, f);
    lemma_scan_tab_concat(m, s1, seq![deep], f);
    lemma_scan_tab_concat(m, s1, s2, f);
    assert((s1 + seq![deep]).drop_last() =~= s1);
    assert(scan_tab(m, s1 + seq![deep], f) == scan_tab(m, s1, f));
    lemma_counts_concat(s1 + seq![deep], s2);
    lemma_counts_concat(s1, s2);
    assert(spec_visited_count(s1 + seq![deep]) == spec_visited_count(s1));
    assert(spec_decoded_count(s1 + seq![deep]) == spec_decoded_count(s1));
}

/// Scanning the same file twice contributes identically each time: what
/// an entry contributes is a function of its bytes alone.
pub proof fn lemma_rescan_contributes_identically(
    m: Map<Seq<char>, u64>,
    e: FolderEntryV,
    f: TrackedField,
)
    ensures
        scan_tab(m, seq![e, e], f) == apply_contrib(
            apply_contrib(m, entry_contrib(e, f)),
            entry_contrib(e, f),
        ),
{
    assert(seq![e].drop_last() =~= Seq::<FolderEntryV>::empty());
    assert(seq![e].last() == e);
    assert(scan_tab(m, Seq::<FolderEntryV>::empty(), f) == m);
    assert(scan_tab(m, seq![e], f) == apply_contrib(m, entry_contrib(e, f)));
    assert(seq![e, e].drop_last() =~= seq![e]);
    assert(seq![e, e].last() == e);
}

/// Over a whole scan the sentinel never becomes a table key.
pub proof fn lemma_scan_sentinel_free(
    m: Map<Seq<char>, u64>,
    entries: Seq<FolderEntryV>,
    f: TrackedField,
)
    requires
        !m.dom().contains(sentinel()),
    ensures
        !scan_tab(m, entries, f).dom().contains(sentinel()),
    decreases entries.len(),
{
    if entries.len() == 0 {
    } else {
        lemma_scan_sentinel_free(m, entries.drop_last(), f);
        let e = entries.last();
        if is_candidate(e) {
            match outcome_of(e) {
                Some(fs) => {
                    lemma_sentinel_filtered(fs, f);
                },
                None => {},
            }
        }
    }
}

/// A single image contributes at most one count per field: after a scan
/// from empty tables, no key's count exceeds the number of successfully
/// decoded images.
pub proof fn lemma_count_bounded_by_decoded(
    entries: Seq<FolderEntryV>,
    f: TrackedField,
    k: Seq<char>,
)
    ensures
        count_in(scan_tab(Map::empty(), entries, f), k) <= spec_decoded_count(entries),
    decreases entries.len(),
{
    if entries.len() == 0 {
    } else {
        lemma_count_bounded_by_decoded(entries.drop_last(), f, k);
    }
}

/// Visited and decoded counts add up over a concatenation.
pub proof fn lemma_counts_concat(s1: Seq<FolderEntryV>, s2: Seq<FolderEntryV>)
    ensures
        spec_visited_count(s1 + s2) == spec_visited_count(s1) + spec_visited_count(s2),
        spec_decoded_count(s1 + s2) == spec_decoded_count(s1) + spec_decoded_count(s2),
    decreases s2.len(),
{
    if s2.len() == 0 {
        assert(s1 + s2 =~= s1);
    } else {
        assert((s1 + s2).drop_last() =~= s1 + s2.drop_last());
        assert((s1 + s2).last() == s2.last());
        lemma_counts_concat(s1, s2.drop_last());
    }
}

} // verus!
