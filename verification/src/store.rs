//! Persistence sink: an in-memory key-value store of blob-transaction
//! records keyed by a chain-qualified transaction hash. An upsert is a blind
//! overwrite (last write wins), so re-ingesting a range drifts nothing.

use crate::types::{BlobTransaction, RecordModel};
use vstd::prelude::*;

verus! {

/// The storage key of a record: the chain tag, a colon, the transaction
/// hash. Qualifying by chain keeps keys of different chains apart.
pub open spec fn key_of(chain: Seq<u8>, tx_hash: Seq<u8>) -> Seq<u8> {
    chain + seq![58u8] + tx_hash
}

pub open spec fn record_key(r: RecordModel) -> Seq<u8> {
    key_of(r.chain, r.tx_hash)
}

/// Law (collision-free keys): as long as chain tags contain no colon, two
/// storage keys agree only when both the chain tag and the transaction hash
/// agree — records of different chains or transactions never overwrite one
/// another.
pub proof fn lemma_key_injective(c1: Seq<u8>, h1: Seq<u8>, c2: Seq<u8>, h2: Seq<u8>)
    requires
        forall|i: int| 0 <= i < c1.len() ==> c1[i] != 58,
        forall|i: int| 0 <= i < c2.len() ==> c2[i] != 58,
        key_of(c1, h1) == key_of(c2, h2),
    ensures
        c1 == c2,
        h1 == h2,
{
    let k = key_of(c1, h1);
    assert(k[c1.len() as int] == 58);
    assert(k[c2.len() as int] == 58);
    assert(forall|i: int| 0 <= i < c1.len() ==> k[i] == c1[i] && k[i] != 58);
    assert(forall|i: int| 0 <= i < c2.len() ==> k[i] == c2[i] && k[i] != 58);
    if c1.len() < c2.len() {
        assert(k[c1.len() as int] != 58);
        assert(false);
    }
    if c2.len() < c1.len() {
        assert(k[c2.len() as int] != 58);
        assert(false);
    }
    assert(c1 =~= c2);
    assert(key_of(c1, h1).len() == c1.len() + 1 + h1.len());
    assert(key_of(c2, h2).len() == c2.len() + 1 + h2.len());
    assert(h1.len() == h2.len());
    assert(forall|i: int| 0 <= i < h1.len() ==> #[trigger] h1[i] == k[c1.len() + 1 + i]);
    assert(forall|i: int| 0 <= i < h2.len() ==> #[trigger] h2[i] == k[c2.len() + 1 + i]);
    assert(h1 =~= h2);
}

/// Builds the chain-qualified storage key of a transaction hash.
pub fn make_key(chain: &Vec<u8>, tx_hash: &Vec<u8>) -> (r: Vec<u8>)
    ensures
        r@ == key_of(chain@, tx_hash@),
{
    let mut out: Vec<u8> = Vec::new();
    let mut i: usize = 0;
    while i < chain.len()
        invariant
            i <= chain@.len(),
            out@ == chain@.subrange(0, i as int),
        decreases chain@.len() - i,
    {
        out.push(chain[i]);
        proof {
            assert(chain@.subrange(0, i as int).push(chain@[i as int]) =~= chain@.subrange(
                0,
                i + 1,
            ));
        }
        i += 1;
    }
    proof {
        assert(chain@.subrange(0, chain@.len() as int) =~= chain@);
    }
    out.push(58);
    let mut j: usize = 0;
    while j < tx_hash.len()
        invariant
            j <= tx_hash@.len(),
            out@ == chain@ + seq![58u8] + tx_hash@.subrange(0, j as int),
        decreases tx_hash@.len() - j,
    {
        out.push(tx_hash[j]);
        proof {
            assert((chain@ + seq![58u8] + tx_hash@.subrange(0, j as int)).push(
                tx_hash@[j as int],
            ) =~= chain@ + seq![58u8] + tx_hash@.subrange(0, j + 1));
        }
        j += 1;
    }
    proof {
        assert(tx_hash@.subrange(0, tx_hash@.len() as int) =~= tx_hash@);
        assert(chain@ + seq![58u8] =~= chain@ + seq![58u8] + tx_hash@.subrange(0, 0));
    }
    out
}

/// Byte-vector equality.
pub fn bytes_eq(a: &Vec<u8>, b: &Vec<u8>) -> (r: bool)
    ensures
        r == (a@ == b@),
{
    if a.len() != b.len() {
        return false;
    }
    let mut i: usize = 0;
    while i < a.len()
        invariant
            i <= a@.len(),
            a@.len() == b@.len(),
            forall|j: int| 0 <= j < i ==> a@[j] == b@[j],
        decreases a@.len() - i,
    {
        if a[i] != b[i] {
            return false;
        }
        i += 1;
    }
    proof {
        assert(a@ =~= b@);
    }
    true
}

/// The map a sequence of keyed entries denotes, a later entry overriding an
/// earlier one with the same key.
pub open spec fn map_of(s: Seq<(Vec<u8>, BlobTransaction)>) -> Map<Seq<u8>, RecordModel>
    decreases s.len(),
{
    if s.len() == 0 {
        Map::empty()
    } else {
        map_of(s.drop_last()).insert(s.last().0@, s.last().1@)
    }
}

pub open spec fn unique_keys(s: Seq<(Vec<u8>, BlobTransaction)>) -> bool {
    forall|i: int, j: int| 0 <= i < j < s.len() ==> s[i].0@ != s[j].0@
}

proof fn lemma_map_of_contains(s: Seq<(Vec<u8>, BlobTransaction)>, x: Seq<u8>)
    ensures
        map_of(s).contains_key(x) <==> exists|i: int| 0 <= i < s.len() && s[i].0@ == x,
        map_of(s).dom().finite(),
    decreases s.len(),
{
    if s.len() > 0 {
        lemma_map_of_contains(s.drop_last(), x);
        if s.last().0@ == x {
            assert(s[s.len() - 1].0@ == x);
        } else {
            if map_of(s).contains_key(x) {
                let i = choose|i: int| 0 <= i < s.len() - 1 && s.drop_last()[i].0@ == x;
                assert(s[i].0@ == x);
            }
            if exists|i: int| 0 <= i < s.len() && s[i].0@ == x {
                let i = choose|i: int| 0 <= i < s.len() && s[i].0@ == x;
                assert(i < s.len() - 1);
                assert(s.drop_last()[i].0@ == x);
            }
        }
    }
}

proof fn lemma_map_of_index(s: Seq<(Vec<u8>, BlobTransaction)>, i: int)
    requires
        unique_keys(s),
        0 <= i < s.len(),
    ensures
        map_of(s).contains_key(s[i].0@),
        map_of(s)[s[i].0@] == s[i].1@,
    decreases s.len(),
{
    if i == s.len() - 1 {
    } else {
        assert(forall|p: int, q: int|
            0 <= p < q < s.len() - 1 ==> s.drop_last()[p].0@ != s.drop_last()[q].0@);
        lemma_map_of_index(s.drop_last(), i);
        assert(s[i].0@ != s.last().0@);
    }
}

proof fn lemma_map_of_len(s: Seq<(Vec<u8>, BlobTransaction)>)
    requires
        unique_keys(s),
    ensures
        map_of(s).dom().finite(),
        map_of(s).dom().len() == s.len(),
    decreases s.len(),
{
    if s.len() == 0 {
        assert(map_of(s).dom() =~= Set::<Seq<u8>>::empty());
    } else {
        let dl = s.drop_last();
        assert(forall|p: int, q: int| 0 <= p < q < dl.len() ==> dl[p].0@ != dl[q].0@);
        lemma_map_of_len(dl);
        lemma_map_of_contains(dl, s.last().0@);
        assert(!map_of(dl).contains_key(s.last().0@)) by {
            if exists|i: int| 0 <= i < dl.len() && dl[i].0@ == s.last().0@ {
                let i = choose|i: int| 0 <= i < dl.len() && dl[i].0@ == s.last().0@;
                assert(s[i].0@ == s[s.len() - 1].0@);
            }
        }
        assert(map_of(s).dom() =~= map_of(dl).dom().insert(s.last().0@));
        vstd::set::axiom_set_insert_len(map_of(dl).dom(), s.last().0@);
    }
}

proof fn lemma_map_of_push(s: Seq<(Vec<u8>, BlobTransaction)>, e: (Vec<u8>, BlobTransaction))
    ensures
        map_of(s.push(e)) == map_of(s).insert(e.0@, e.1@),
{
    assert(s.push(e).drop_last() =~= s);
    assert(s.push(e).last() == e);
}

proof fn lemma_map_of_update(s: Seq<(Vec<u8>, BlobTransaction)>, i: int, e: (
    Vec<u8>,
    BlobTransaction,
))
    requires
        unique_keys(s),
        0 <= i < s.len(),
        e.0@ == s[i].0@,
    ensures
        map_of(s.update(i, e)) == map_of(s).insert(e.0@, e.1@),
        unique_keys(s.update(i, e)),
    decreases s.len(),
{
    let u = s.update(i, e);
    assert(forall|p: int, q: int| 0 <= p < q < u.len() ==> u[p].0@ != u[q].0@);
    if i == s.len() - 1 {
        assert(u.drop_last() =~= s.drop_last());
        assert(u.last() == e);
        assert(map_of(s.drop_last()).insert(s.last().0@, s.last().1@).insert(e.0@, e.1@) =~= map_of(
            s.drop_last(),
        ).insert(e.0@, e.1@));
    } else {
        let dl = s.drop_last();
        assert(forall|p: int, q: int| 0 <= p < q < dl.len() ==> dl[p].0@ != dl[q].0@);
        lemma_map_of_update(dl, i, e);
        assert(u.drop_last() =~= dl.update(i, e));
        assert(u.last() == s.last());
        assert(s[i].0@ != s.last().0@);
        assert(map_of(dl).insert(e.0@, e.1@).insert(s.last().0@, s.last().1@) =~= map_of(dl).insert(
            s.last().0@,
            s.last().1@,
        ).insert(e.0@, e.1@));
    }
}

/// The in-memory store. Its abstract value is a map from storage key to
/// record; entries hold each key once.
pub struct Store {
    entries: Vec<(Vec<u8>, BlobTransaction)>,
}

impl View for Store {
    type V = Map<Seq<u8>, RecordModel>;

    closed spec fn view(&self) -> Map<Seq<u8>, RecordModel> {
        map_of(self.entries@)
    }
}

impl Store {
    pub closed spec fn wf(&self) -> bool {
        unique_keys(self.entries@)
    }

    /// Opens an empty store.
    pub fn new() -> (r: Store)
        ensures
            r.wf(),
            r@ == Map::<Seq<u8>, RecordModel>::empty(),
    {
        Store { entries: Vec::new() }
    }

    /// Upserts a record under its chain-qualified key: a blind overwrite, so
    /// writing the same record again changes nothing.
    pub fn upsert(&mut self, rec: BlobTransaction)
        requires
            old(self).wf(),
        ensures
            final(self).wf(),
            final(self)@ == old(self)@.insert(record_key(rec@), rec@),
    {
        let key = make_key(&rec.chain, &rec.tx_hash);
        let n = self.entries.len();
        let mut i: usize = 0;
        while i < n
            invariant
                i <= n,
                n == self.entries@.len(),
                self.entries@ == old(self).entries@,
                unique_keys(self.entries@),
                key@ == record_key(rec@),
                forall|j: int| 0 <= j < i ==> self.entries@[j].0@ != key@,
            decreases n - i,
        {
            if bytes_eq(&self.entries[i].0, &key) {
                proof {
                    lemma_map_of_update(self.entries@, i as int, (key, rec));
                }
                self.entries.set(i, (key, rec));
                return ;
            }
            i += 1;
        }
        proof {
            lemma_map_of_push(self.entries@, (key, rec));
        }
        self.entries.push((key, rec));
    }

    /// Looks a record up by its storage key.
    pub fn get(&self, key: &Vec<u8>) -> (r: Option<&BlobTransaction>)
        requires
            self.wf(),
        ensures
            r is Some <==> self@.contains_key(key@),
            r is Some ==> r->Some_0@ == self@[key@],
    {
        let n = self.entries.len();
        let mut i: usize = 0;
        while i < n
            invariant
                i <= n,
                n == self.entries@.len(),
                self.wf(),
                forall|j: int| 0 <= j < i ==> self.entries@[j].0@ != key@,
            decreases n - i,
        {
            if bytes_eq(&self.entries[i].0, key) {
                proof {
                    lemma_map_of_index(self.entries@, i as int);
                }
                return Some(&self.entries[i].1);
            }
            i += 1;
        }
        proof {
            lemma_map_of_contains(self.entries@, key@);
        }
        None
    }

    /// How many records the store holds.
    pub fn len(&self) -> (r: usize)
        requires
            self.wf(),
        ensures
            r == self@.dom().len(),
    {
        proof {
            lemma_map_of_len(self.entries@);
        }
        self.entries.len()
    }
}

/// The store map after upserting a sequence of records in order.
pub open spec fn store_after(m: Map<Seq<u8>, RecordModel>, recs: Seq<RecordModel>) -> Map<
    Seq<u8>,
    RecordModel,
>
    decreases recs.len(),
{
    if recs.len() == 0 {
        m
    } else {
        store_after(m, recs.drop_last()).insert(record_key(recs.last()), recs.last())
    }
}

/// The writes a record sequence makes, regardless of what the store held.
pub open spec fn writes_of(recs: Seq<RecordModel>) -> Map<Seq<u8>, RecordModel> {
    store_after(Map::empty(), recs)
}

proof fn lemma_store_after_union(m: Map<Seq<u8>, RecordModel>, recs: Seq<RecordModel>)
    ensures
        store_after(m, recs) == m.union_prefer_right(writes_of(recs)),
    decreases recs.len(),
{
    if recs.len() == 0 {
        assert(m.union_prefer_right(writes_of(recs)) =~= m);
    } else {
        let dl = recs.drop_last();
        let k = record_key(recs.last());
        lemma_store_after_union(m, dl);
        assert(writes_of(recs) == writes_of(dl).insert(k, recs.last()));
        assert(m.union_prefer_right(writes_of(dl)).insert(k, recs.last())
            =~= m.union_prefer_right(writes_of(dl).insert(k, recs.last())));
    }
}

/// Law (idempotent re-ingestion): upserting the same record sequence twice
/// leaves exactly the store that upserting it once leaves — the same set of
/// keys, each holding the same record; no duplicates and no drift. Since
/// classification and decoding are pure functions, re-ingesting a block range
/// replays exactly the same record sequence.
pub proof fn lemma_reingest_idempotent(m: Map<Seq<u8>, RecordModel>, recs: Seq<RecordModel>)
    ensures
        store_after(store_after(m, recs), recs) == store_after(m, recs),
{
    lemma_store_after_union(m, recs);
    lemma_store_after_union(store_after(m, recs), recs);
    assert(m.union_prefer_right(writes_of(recs)).union_prefer_right(writes_of(recs))
        =~= m.union_prefer_right(writes_of(recs)));
}

/// Upserting record sequences one after the other is upserting their
/// concatenation: a run's writes decompose block by block.
pub proof fn lemma_store_after_append(
    m: Map<Seq<u8>, RecordModel>,
    a: Seq<RecordModel>,
    b: Seq<RecordModel>,
)
    ensures
        store_after(m, a + b) == store_after(store_after(m, a), b),
    decreases b.len(),
{
    if b.len() == 0 {
        assert(a + b =~= a);
    } else {
        lemma_store_after_append(m, a, b.drop_last());
        assert((a + b).drop_last() =~= a + b.drop_last());
        assert((a + b).last() == b.last());
    }
}

} // verus!
