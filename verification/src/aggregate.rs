//! Aggregator: groups classified records by their (blob count, blob size)
//! pair and counts occurrences. Pure and in-memory; built freshly per run as
//! a snapshot, never persisted.

use crate::extract::rec_views;
use crate::types::{BlobTransaction, RecordModel};
use vstd::prelude::*;

verus! {

/// The grouping key of a record in the distribution table.
pub open spec fn dist_key(r: RecordModel) -> (u64, Option<u64>) {
    (r.blob_count, r.blob_size)
}

/// The distribution a record sequence denotes: each (count, size) pair maps
/// to how often it occurs.
pub open spec fn dist_of(recs: Seq<RecordModel>) -> Map<(u64, Option<u64>), nat>
    decreases recs.len(),
{
    if recs.len() == 0 {
        Map::empty()
    } else {
        let m = dist_of(recs.drop_last());
        let k = dist_key(recs.last());
        m.insert(
            k,
            (if m.contains_key(k) {
                m[k]
            } else {
                0nat
            }) + 1,
        )
    }
}

/// No pair occurs more often than there are records.
proof fn lemma_dist_value_bound(recs: Seq<RecordModel>, k: (u64, Option<u64>))
    ensures
        dist_of(recs).contains_key(k) ==> dist_of(recs)[k] <= recs.len(),
    decreases recs.len(),
{
    if recs.len() > 0 {
        lemma_dist_value_bound(recs.drop_last(), k);
    }
}

/// One row of the distribution table.
#[derive(Debug, Clone, Copy, PartialEq, Eq, Structural)]
pub struct DistEntry {
    pub blob_count: u64,
    pub blob_size: Option<u64>,
    pub occurrences: u64,
}

pub open spec fn entry_key(e: DistEntry) -> (u64, Option<u64>) {
    (e.blob_count, e.blob_size)
}

/// The map a sequence of table rows denotes.
pub open spec fn map_of_dist(s: Seq<DistEntry>) -> Map<(u64, Option<u64>), nat>
    decreases s.len(),
{
    if s.len() == 0 {
        Map::empty()
    } else {
        map_of_dist(s.drop_last()).insert(entry_key(s.last()), s.last().occurrences as nat)
    }
}

pub open spec fn unique_dist_keys(s: Seq<DistEntry>) -> bool {
    forall|i: int, j: int| 0 <= i < j < s.len() ==> entry_key(s[i]) != entry_key(s[j])
}

proof fn lemma_dist_contains(s: Seq<DistEntry>, x: (u64, Option<u64>))
    ensures
        map_of_dist(s).contains_key(x) <==> exists|i: int| 0 <= i < s.len() && entry_key(s[i]) == x,
        map_of_dist(s).dom().finite(),
    decreases s.len(),
{
    if s.len() > 0 {
        lemma_dist_contains(s.drop_last(), x);
        if entry_key(s.last()) == x {
            assert(entry_key(s[s.len() - 1]) == x);
        } else {
            if map_of_dist(s).contains_key(x) {
                let i = choose|i: int| 0 <= i < s.len() - 1 && entry_key(s.drop_last()[i]) == x;
                assert(entry_key(s[i]) == x);
            }
            if exists|i: int| 0 <= i < s.len() && entry_key(s[i]) == x {
                let i = choose|i: int| 0 <= i < s.len() && entry_key(s[i]) == x;
                assert(i < s.len() - 1);
                assert(entry_key(s.drop_last()[i]) == x);
            }
        }
    }
}

proof fn lemma_dist_index(s: Seq<DistEntry>, i: int)
    requires
        unique_dist_keys(s),
        0 <= i < s.len(),
    ensures
        map_of_dist(s).contains_key(entry_key(s[i])),
        map_of_dist(s)[entry_key(s[i])] == s[i].occurrences as nat,
    decreases s.len(),
{
    if i == s.len() - 1 {
    } else {
        assert(forall|p: int, q: int|
            0 <= p < q < s.len() - 1 ==> entry_key(s.drop_last()[p]) != entry_key(
                s.drop_last()[q],
            ));
        lemma_dist_index(s.drop_last(), i);
        assert(entry_key(s[i]) != entry_key(s.last()));
    }
}

proof fn lemma_dist_len(s: Seq<DistEntry>)
    requires
        unique_dist_keys(s),
    ensures
        map_of_dist(s).dom().finite(),
        map_of_dist(s).dom().len() == s.len(),
    decreases s.len(),
{
    if s.len() == 0 {
        assert(map_of_dist(s).dom() =~= Set::<(u64, Option<u64>)>::empty());
    } else {
        let dl = s.drop_last();
        assert(forall|p: int, q: int|
            0 <= p < q < dl.len() ==> entry_key(dl[p]) != entry_key(dl[q]));
        lemma_dist_len(dl);
        lemma_dist_contains(dl, entry_key(s.last()));
        assert(!map_of_dist(dl).contains_key(entry_key(s.last()))) by {
            if exists|i: int| 0 <= i < dl.len() && entry_key(dl[i]) == entry_key(s.last()) {
                let i = choose|i: int|
                    0 <= i < dl.len() && entry_key(dl[i]) == entry_key(s.last());
                assert(entry_key(s[i]) == entry_key(s[s.len() - 1]));
            }
        }
        assert(map_of_dist(s).dom() =~= map_of_dist(dl).dom().insert(entry_key(s.last())));
        vstd::set::axiom_set_insert_len(map_of_dist(dl).dom(), entry_key(s.last()));
    }
}

proof fn lemma_dist_push(s: Seq<DistEntry>, e: DistEntry)
    ensures
        map_of_dist(s.push(e)) == map_of_dist(s).insert(entry_key(e), e.occurrences as nat),
{
    assert(s.push(e).drop_last() =~= s);
    assert(s.push(e).last() == e);
}

proof fn lemma_dist_update(s: Seq<DistEntry>, i: int, e: DistEntry)
    requires
        unique_dist_keys(s),
        0 <= i < s.len(),
        entry_key(e) == entry_key(s[i]),
    ensures
        map_of_dist(s.update(i, e)) == map_of_dist(s).insert(entry_key(e), e.occurrences as nat),
        unique_dist_keys(s.update(i, e)),
    decreases s.len(),
{
    let u = s.update(i, e);
    assert(forall|p: int, q: int| 0 <= p < q < u.len() ==> entry_key(u[p]) != entry_key(u[q]));
    if i == s.len() - 1 {
        assert(u.drop_last() =~= s.drop_last());
        assert(u.last() == e);
        assert(map_of_dist(s.drop_last()).insert(entry_key(s.last()), s.last().occurrences as nat)
            .insert(entry_key(e), e.occurrences as nat) =~= map_of_dist(s.drop_last()).insert(
            entry_key(e),
            e.occurrences as nat,
        ));
    } else {
        let dl = s.drop_last();
        assert(forall|p: int, q: int|
            0 <= p < q < dl.len() ==> entry_key(dl[p]) != entry_key(dl[q]));
        lemma_dist_update(dl, i, e);
        assert(u.drop_last() =~= dl.update(i, e));
        assert(u.last() == s.last());
        assert(entry_key(s[i]) != entry_key(s.last()));
        assert(map_of_dist(dl).insert(entry_key(e), e.occurrences as nat).insert(
            entry_key(s.last()),
            s.last().occurrences as nat,
        ) =~= map_of_dist(dl).insert(entry_key(s.last()), s.last().occurrences as nat).insert(
            entry_key(e),
            e.occurrences as nat,
        ));
    }
}

fn opt_u64_eq(a: Option<u64>, b: Option<u64>) -> (r: bool)
    ensures
        r == (a == b),
{
    match (a, b) {
        (None, None) => true,
        (Some(x), Some(y)) => x == y,
        _ => false,
    }
}

/// The distribution table: each (blob count, blob size) pair held once, with
/// its occurrence count.
pub struct Distribution {
    entries: Vec<DistEntry>,
}

impl View for Distribution {
    type V = Map<(u64, Option<u64>), nat>;

    closed spec fn view(&self) -> Map<(u64, Option<u64>), nat> {
        map_of_dist(self.entries@)
    }
}

impl Distribution {
    pub closed spec fn wf(&self) -> bool {
        unique_dist_keys(self.entries@)
    }

    /// How often the given pair occurred; zero for a pair never seen.
    pub fn occurrences_of(&self, blob_count: u64, blob_size: Option<u64>) -> (r: u64)
        requires
            self.wf(),
        ensures
            self@.contains_key((blob_count, blob_size)) ==> r == self@[(blob_count, blob_size)],
            !self@.contains_key((blob_count, blob_size)) ==> r == 0,
    {
        let n = self.entries.len();
        let mut i: usize = 0;
        while i < n
            invariant
                i <= n,
                n == self.entries@.len(),
                self.wf(),
                forall|j: int|
                    0 <= j < i ==> entry_key(self.entries@[j]) != (blob_count, blob_size),
            decreases n - i,
        {
            let e = &self.entries[i];
            if e.blob_count == blob_count && opt_u64_eq(e.blob_size, blob_size) {
                proof {
                    lemma_dist_index(self.entries@, i as int);
                }
                return e.occurrences;
            }
            i += 1;
        }
        proof {
            lemma_dist_contains(self.entries@, (blob_count, blob_size));
        }
        0
    }

    /// The table's rows, one per distinct (blob count, blob size) pair, each
    /// carrying exactly the count the table maps that pair to.
    pub fn rows(&self) -> (r: Vec<DistEntry>)
        requires
            self.wf(),
        ensures
            r@.len() == self@.dom().len(),
            forall|i: int|
                0 <= i < r@.len() ==> self@.contains_key(entry_key(#[trigger] r@[i]))
                    && self@[entry_key(r@[i])] == r@[i].occurrences as nat,
    {
        proof {
            lemma_dist_len(self.entries@);
        }
        let n = self.entries.len();
        let mut out: Vec<DistEntry> = Vec::new();
        let mut i: usize = 0;
        while i < n
            invariant
                i <= n,
                n == self.entries@.len(),
                self.wf(),
                out@ == self.entries@.subrange(0, i as int),
            decreases n - i,
        {
            out.push(self.entries[i]);
            proof {
                assert(self.entries@.subrange(0, i as int).push(self.entries@[i as int])
                    =~= self.entries@.subrange(0, i + 1));
            }
            i += 1;
        }
        proof {
            assert(self.entries@.subrange(0, n as int) =~= self.entries@);
            assert forall|j: int| 0 <= j < out@.len() implies self@.contains_key(
                entry_key(#[trigger] out@[j]),
            ) && self@[entry_key(out@[j])] == out@[j].occurrences as nat by {
                lemma_dist_index(self.entries@, j);
            }
        }
        out
    }

    /// How many distinct (blob count, blob size) pairs occurred.
    pub fn groups(&self) -> (r: usize)
        requires
            self.wf(),
        ensures
            r == self@.dom().len(),
    {
        proof {
            lemma_dist_len(self.entries@);
        }
        self.entries.len()
    }
}

fn find_entry(entries: &Vec<DistEntry>, k_count: u64, k_size: Option<u64>) -> (r: Option<usize>)
    ensures
        r is Some ==> r->Some_0 < entries@.len() && entry_key(entries@[r->Some_0 as int]) == (
            k_count,
            k_size,
        ),
        r is None ==> forall|p: int|
            0 <= p < entries@.len() ==> entry_key(entries@[p]) != (k_count, k_size),
{
    let m = entries.len();
    let mut j: usize = 0;
    while j < m
        invariant
            j <= m,
            m == entries@.len(),
            forall|p: int| 0 <= p < j ==> entry_key(entries@[p]) != (k_count, k_size),
        decreases m - j,
    {
        let e = &entries[j];
        if e.blob_count == k_count && opt_u64_eq(e.blob_size, k_size) {
            return Some(j);
        }
        j += 1;
    }
    None
}

/// Groups a classified record sequence by (blob count, blob size) and counts
/// each pair's occurrences: the snapshot the reporting path prints.
pub fn aggregate(records: &Vec<BlobTransaction>) -> (d: Distribution)
    ensures
        d.wf(),
        d@ == dist_of(rec_views(records@)),
{
    let n = records.len();
    let mut entries: Vec<DistEntry> = Vec::new();
    let mut i: usize = 0;
    while i < n
        invariant
            i <= n,
            n == records@.len(),
            unique_dist_keys(entries@),
            map_of_dist(entries@) == dist_of(rec_views(records@).subrange(0, i as int)),
        decreases n - i,
    {
        let ghost pre = rec_views(records@).subrange(0, i as int);
        let ghost post = rec_views(records@).subrange(0, i + 1);
        proof {
            assert(post.drop_last() =~= pre);
            assert(post.last() == records@[i as int]@);
        }
        let rec = &records[i];
        let k_count = rec.blob_count;
        let k_size = rec.blob_size;
        match find_entry(&entries, k_count, k_size) {
            Some(j) => {
                proof {
                    lemma_dist_index(entries@, j as int);
                    lemma_dist_value_bound(pre, (k_count, k_size));
                    lemma_dist_contains(entries@, (k_count, k_size));
                    lemma_dist_update(
                        entries@,
                        j as int,
                        DistEntry {
                            blob_count: k_count,
                            blob_size: k_size,
                            occurrences: (entries@[j as int].occurrences + 1) as u64,
                        },
                    );
                }
                let occ = entries[j].occurrences;
                entries.set(
                    j,
                    DistEntry { blob_count: k_count, blob_size: k_size, occurrences: occ + 1 },
                );
            },
            None => {
                proof {
                    lemma_dist_contains(entries@, (k_count, k_size));
                    lemma_dist_push(
                        entries@,
                        DistEntry { blob_count: k_count, blob_size: k_size, occurrences: 1 },
                    );
                }
                entries.push(DistEntry { blob_count: k_count, blob_size: k_size, occurrences: 1 });
            },
        }
        i += 1;
    }
    proof {
        assert(rec_views(records@).subrange(0, n as int) =~= rec_views(records@));
    }
    Distribution { entries }
}

} // verus!
