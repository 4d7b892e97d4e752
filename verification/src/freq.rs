//! Frequency tables: for one tracked field, a mapping from display value
//! to occurrence count, stored as a vector of entries with unique keys in
//! insertion order and modelled as a `Map<Seq<char>, u64>`.

use vstd::prelude::*;

verus! {

/// Occurrence counts saturate at the largest representable value instead
/// of wrapping.
pub open spec fn sat_add(a: u64, b: u64) -> u64 {
    if a + b <= u64::MAX {
        (a + b) as u64
    } else {
        u64::MAX
    }
}

/// The count a table associates with a key; zero where the key is absent.
pub open spec fn count_in(m: Map<Seq<char>, u64>, k: Seq<char>) -> u64 {
    if m.dom().contains(k) {
        m[k]
    } else {
        0
    }
}

/// The table after `c` more occurrences of `k`.
pub open spec fn add_to(m: Map<Seq<char>, u64>, k: Seq<char>, c: u64) -> Map<Seq<char>, u64> {
    m.insert(k, sat_add(count_in(m, k), c))
}

/// The table after one more occurrence of `k`.
pub open spec fn bump(m: Map<Seq<char>, u64>, k: Seq<char>) -> Map<Seq<char>, u64> {
    add_to(m, k, 1)
}

/// The mapping an entry sequence denotes: later entries win, though a
/// well-formed table never repeats a key.
pub open spec fn table_map(s: Seq<(Seq<char>, u64)>) -> Map<Seq<char>, u64>
    decreases s.len(),
{
    if s.len() == 0 {
        Map::empty()
    } else {
        table_map(s.drop_last()).insert(s.last().0, s.last().1)
    }
}

/// No display value occurs in two entries.
pub open spec fn unique_keys(s: Seq<(Seq<char>, u64)>) -> bool {
    forall|i: int, j: int| 0 <= i < j < s.len() ==> s[i].0 != s[j].0
}

/// Pointwise saturating sum of two tables.
pub open spec fn merge_map(m1: Map<Seq<char>, u64>, m2: Map<Seq<char>, u64>) -> Map<
    Seq<char>,
    u64,
> {
    Map::new(
        |k: Seq<char>| m1.dom().contains(k) || m2.dom().contains(k),
        |k: Seq<char>| sat_add(count_in(m1, k), count_in(m2, k)),
    )
}

pub proof fn lemma_table_map_contains(s: Seq<(Seq<char>, u64)>, k: Seq<char>)
    ensures
        table_map(s).dom().contains(k) <==> (exists|i: int| 0 <= i < s.len() && s[i].0 == k),
    decreases s.len(),
{
    if s.len() == 0 {
    } else {
        lemma_table_map_contains(s.drop_last(), k);
        if s.last().0 == k {
            assert(s[s.len() - 1].0 == k);
        } else {
            if table_map(s).dom().contains(k) {
                let i = choose|i: int| 0 <= i < s.drop_last().len() && s.drop_last()[i].0 == k;
                assert(s[i].0 == k);
            }
            if exists|i: int| 0 <= i < s.len() && s[i].0 == k {
                let i = choose|i: int| 0 <= i < s.len() && s[i].0 == k;
                assert(s.drop_last()[i].0 == k);
            }
        }
    }
}

pub proof fn lemma_table_map_index(s: Seq<(Seq<char>, u64)>, i: int)
    requires
        unique_keys(s),
        0 <= i < s.len(),
    ensures
        table_map(s).dom().contains(s[i].0),
        table_map(s)[s[i].0] == s[i].1,
    decreases s.len(),
{
    lemma_table_map_contains(s, s[i].0);
    if i == s.len() - 1 {
    } else {
        assert(s[i].0 != s.last().0);
        assert(s.drop_last()[i] == s[i]);
        lemma_table_map_index(s.drop_last(), i);
    }
}

pub proof fn lemma_table_map_update(s: Seq<(Seq<char>, u64)>, i: int, c: u64)
    requires
        unique_keys(s),
        0 <= i < s.len(),
    ensures
        table_map(s.update(i, (s[i].0, c))) == table_map(s).insert(s[i].0, c),
    decreases s.len(),
{
    let t = s.update(i, (s[i].0, c));
    if i == s.len() - 1 {
        assert(t.drop_last() =~= s.drop_last());
        assert(table_map(t) =~= table_map(s).insert(s[i].0, c));
    } else {
        assert(t.drop_last() =~= s.drop_last().update(i, (s[i].0, c)));
        assert(s.drop_last()[i] == s[i]);
        lemma_table_map_update(s.drop_last(), i, c);
        assert(s[i].0 != s.last().0);
        assert(t.last() == s.last());
        assert(table_map(t) =~= table_map(s).insert(s[i].0, c));
    }
}

/// Adding occurrences never removes a key and never lowers a count: a
/// frequency table only ever grows.
pub proof fn lemma_add_grows(m: Map<Seq<char>, u64>, k: Seq<char>, c: u64)
    ensures
        m.dom().subset_of(add_to(m, k, c).dom()),
        forall|k2: Seq<char>| count_in(add_to(m, k, c), k2) >= count_in(m, k2),
{
}

/// A frequency table for one tracked field.
pub struct FrequencyTable {
    entries: Vec<(String, u64)>,
}

impl View for FrequencyTable {
    type V = Seq<(Seq<char>, u64)>;

    closed spec fn view(&self) -> Seq<(Seq<char>, u64)> {
        self.entries@.map_values(|e: (String, u64)| (e.0@, e.1))
    }
}

impl FrequencyTable {
    /// Well-formed: each display value occurs in at most one entry.
    pub open spec fn wf(&self) -> bool {
        unique_keys(self@)
    }

    /// The mapping from display value to count this table holds.
    pub open spec fn as_map(&self) -> Map<Seq<char>, u64> {
        table_map(self@)
    }

    /// An empty table.
    pub fn new() -> (r: Self)
        ensures
            r.wf(),
            r@ == Seq::<(Seq<char>, u64)>::empty(),
            r.as_map() == Map::<Seq<char>, u64>::empty(),
    {
        let r = FrequencyTable { entries: Vec::new() };
        proof {
            assert(r@ =~= Seq::<(Seq<char>, u64)>::empty());
        }
        r
    }

    /// How many distinct display values the table holds.
    pub fn len(&self) -> (n: usize)
        ensures
            n == self@.len(),
    {
        self.entries.len()
    }

    /// The display value of the entry at `i`, in insertion order.
    pub fn value_at(&self, i: usize) -> (v: &String)
        requires
            i < self@.len(),
        ensures
            v@ == self@[i as int].0,
    {
        &self.entries[i].0
    }

    /// The count of the entry at `i`, in insertion order.
    pub fn count_at(&self, i: usize) -> (c: u64)
        requires
            i < self@.len(),
        ensures
            c == self@[i as int].1,
    {
        self.entries[i].1
    }

    fn index_of(&self, v: &String) -> (r: Option<usize>)
        ensures
            match r {
                Some(i) => i < self@.len() && self@[i as int].0 == v@ && (forall|j: int|
                    0 <= j < i ==> self@[j].0 != v@),
                None => forall|j: int| 0 <= j < self@.len() ==> self@[j].0 != v@,
            },
    {
        let n = self.entries.len();
        let mut i: usize = 0;
        while i < n
            invariant
                i <= n,
                n == self@.len(),
                forall|j: int| 0 <= j < i ==> self@[j].0 != v@,
            decreases n - i,
        {
            if self.entries[i].0 == *v {
                return Some(i);
            }
            i = i + 1;
        }
        None
    }

    /// The count recorded for `v`, zero if `v` was never recorded.
    pub fn count_of(&self, v: &String) -> (c: u64)
        requires
            self.wf(),
        ensures
            c == count_in(self.as_map(), v@),
    {
        proof {
            lemma_table_map_contains(self@, v@);
        }
        match self.index_of(v) {
            Some(i) => {
                proof {
                    lemma_table_map_index(self@, i as int);
                }
                self.entries[i].1
            },
            None => 0,
        }
    }

    /// Record `c` more occurrences of `v`, creating the entry if new.
    pub fn add_count(&mut self, v: &String, c: u64)
        requires
            old(self).wf(),
        ensures
            final(self).wf(),
            final(self).as_map() == add_to(old(self).as_map(), v@, c),
    {
        proof {
            lemma_table_map_contains(self@, v@);
        }
        match self.index_of(v) {
            Some(i) => {
                proof {
                    lemma_table_map_index(self@, i as int);
                }
                let ghost s_old = self@;
                let cur = self.entries[i].1;
                let nc = if cur <= u64::MAX - c {
                    cur + c
                } else {
                    u64::MAX
                };
                let e = &mut self.entries[i];
                e.1 = nc;
                proof {
                    assert(self@ =~= s_old.update(i as int, (v@, nc)));
                    assert(s_old.update(i as int, (v@, nc)) == s_old.update(
                        i as int,
                        (s_old[i as int].0, nc),
                    ));
                    lemma_table_map_update(s_old, i as int, nc);
                }
            },
            None => {
                let ghost s_old = self@;
                let key = v.clone();
                self.entries.push((key, c));
                proof {
                    assert(self@ =~= s_old.push((v@, c)));
                    assert(self@.drop_last() =~= s_old);
                    assert(table_map(self@) == table_map(s_old).insert(v@, c));
                    assert(add_to(table_map(s_old), v@, c) == table_map(s_old).insert(
                        v@,
                        sat_add(0, c),
                    ));
                }
            },
        }
    }

    /// Record one occurrence of `v`.
    pub fn record(&mut self, v: &String)
        requires
            old(self).wf(),
        ensures
            final(self).wf(),
            final(self).as_map() == bump(old(self).as_map(), v@),
    {
        self.add_count(v, 1)
    }

    /// Fold every entry of `other` into this table: the result is the
    /// pointwise sum of the two tables.
    pub fn merge_from(&mut self, other: &FrequencyTable)
        requires
            old(self).wf(),
            other.wf(),
        ensures
            final(self).wf(),
            final(self).as_map() == merge_map(old(self).as_map(), other.as_map()),
    {
        let n = other.entries.len();
        let mut i: usize = 0;
        while i < n
            invariant
                i <= n,
                n == other@.len(),
                other.wf(),
                self.wf(),
                self.as_map() == add_entries(old(self).as_map(), other@.take(i as int)),
            decreases n - i,
        {
            self.add_count(&other.entries[i].0, other.entries[i].1);
            proof {
                assert(other@.take(i + 1).drop_last() =~= other@.take(i as int));
                assert(other@.take(i + 1).last() == other@[i as int]);
            }
            i = i + 1;
        }
        proof {
            assert(other@.take(n as int) =~= other@);
            lemma_add_entries_merge(old(self).as_map(), other@);
        }
    }
}

/// The table after folding in a sequence of entries, one `add_to` each.
pub open spec fn add_entries(m: Map<Seq<char>, u64>, s: Seq<(Seq<char>, u64)>) -> Map<
    Seq<char>,
    u64,
>
    decreases s.len(),
{
    if s.len() == 0 {
        m
    } else {
        add_to(add_entries(m, s.drop_last()), s.last().0, s.last().1)
    }
}

/// Folding in the entries of a well-formed table is the same as merging
/// with the mapping it denotes.
pub proof fn lemma_add_entries_merge(m: Map<Seq<char>, u64>, s: Seq<(Seq<char>, u64)>)
    requires
        unique_keys(s),
    ensures
        add_entries(m, s) == merge_map(m, table_map(s)),
    decreases s.len(),
{
    if s.len() == 0 {
        assert(merge_map(m, table_map(s)) =~= m);
    } else {
        let s0 = s.drop_last();
        let k = s.last().0;
        let c = s.last().1;
        lemma_add_entries_merge(m, s0);
        lemma_table_map_contains(s0, k);
        assert(forall|j: int| 0 <= j < s0.len() ==> s0[j] == s[j] && s[j].0 != k);
        assert(!table_map(s0).dom().contains(k));
        assert(add_to(merge_map(m, table_map(s0)), k, c) =~= merge_map(
            m,
            table_map(s0).insert(k, c),
        ));
    }
}

/// Merging tables is commutative.
pub proof fn lemma_merge_map_comm(m1: Map<Seq<char>, u64>, m2: Map<Seq<char>, u64>)
    ensures
        merge_map(m1, m2) == merge_map(m2, m1),
{
    assert(merge_map(m1, m2) =~= merge_map(m2, m1));
}

pub proof fn lemma_sat_add_assoc(a: u64, b: u64, c: u64)
    ensures
        sat_add(sat_add(a, b), c) == sat_add(a, sat_add(b, c)),
{
}

/// The count a merged table gives any key is the saturating sum of the
/// two counts, also for keys absent from both tables.
pub proof fn lemma_count_in_merge(m1: Map<Seq<char>, u64>, m2: Map<Seq<char>, u64>, k: Seq<char>)
    ensures
        count_in(merge_map(m1, m2), k) == sat_add(count_in(m1, k), count_in(m2, k)),
{
}

/// Merging tables is associative.
pub proof fn lemma_merge_map_assoc(
    m1: Map<Seq<char>, u64>,
    m2: Map<Seq<char>, u64>,
    m3: Map<Seq<char>, u64>,
)
    ensures
        merge_map(merge_map(m1, m2), m3) == merge_map(m1, merge_map(m2, m3)),
{
    assert forall|k: Seq<char>|
        #[trigger] count_in(merge_map(merge_map(m1, m2), m3), k) == count_in(
            merge_map(m1, merge_map(m2, m3)),
            k,
        ) by {
        lemma_count_in_merge(merge_map(m1, m2), m3, k);
        lemma_count_in_merge(m1, m2, k);
        lemma_count_in_merge(m1, merge_map(m2, m3), k);
        lemma_count_in_merge(m2, m3, k);
        lemma_sat_add_assoc(count_in(m1, k), count_in(m2, k), count_in(m3, k));
    }
    assert(merge_map(merge_map(m1, m2), m3) =~= merge_map(m1, merge_map(m2, m3)));
}

} // verus!
