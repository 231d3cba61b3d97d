//! Ingestion driver: the decision core of a run. The walker says which block
//! to fetch next; the caller performs the network fetches and hands the
//! outcome back as one event per block; this module classifies, extracts,
//! persists and accumulates — strictly in block-number then
//! transaction-position order. Hard failures abort the walk and leave every
//! already-committed record intact; soft failures are counted per block and
//! never abort it.

use crate::chain::{build_block, fetched_models, header_complete, missing_count, present_txs};
use crate::extract::{extract, extract_spec, rec_views};
use crate::store::{lemma_reingest_idempotent, lemma_store_after_append, store_after, Store};
use crate::types::{clone_record, BlobTransaction, FetchError, Policy, PolicyModel, RawBlock,
    RecordModel, Transaction};
use crate::walker::{range_seq, RangeWalker};
use vstd::prelude::*;

verus! {

/// The outcome of fetching one block and the transactions it references:
/// what the network layer hands the driver.
pub enum BlockFetch {
    /// A network or RPC fault while fetching the block or any transaction.
    Transport,
    /// The client returned no block for the requested number.
    Absent,
    /// The raw block, and one fetch outcome per referenced transaction hash,
    /// in block order.
    Fetched(RawBlock, Vec<Option<Transaction>>),
}

/// A fetched event carries exactly one transaction outcome per hash the raw
/// block references.
pub open spec fn event_wf(ev: BlockFetch) -> bool {
    match ev {
        BlockFetch::Fetched(raw, txs) => txs@.len() == raw.transactions@.len(),
        _ => true,
    }
}

/// What one successfully fetched block yields: the records to persist, the
/// decode-failure count and the missing-recipient count.
pub open spec fn event_extract(policy: PolicyModel, raw: RawBlock, txs: Seq<Option<Transaction>>)
    -> (Seq<RecordModel>, nat, nat) {
    extract_spec(policy, raw.timestamp, present_txs(fetched_models(txs)))
}

/// The soft-failure and progress observations of one processed block.
#[derive(Debug, Clone, Copy, PartialEq, Eq, Structural)]
pub struct BlockReport {
    pub block_number: u64,
    /// Referenced transactions the client failed to return.
    pub missing_txs: usize,
    /// Blob transactions whose input failed to decode.
    pub decode_failures: usize,
    /// Decoded blob transactions without a recipient, excluded from
    /// persistence.
    pub missing_recipients: usize,
    /// Records persisted and handed to the aggregation path.
    pub records_added: usize,
}

/// One run's state: the policy, the walk position, the store, and the
/// classified records in block-then-position order (the aggregator's input).
pub struct Ingest {
    pub policy: Policy,
    pub walker: RangeWalker,
    pub store: Store,
    pub records: Vec<BlobTransaction>,
    pub last_processed: Option<u64>,
}

impl Ingest {
    pub open spec fn wf(&self) -> bool {
        self.walker.wf() && self.store.wf()
    }

    /// The block numbers still to process.
    pub open spec fn remaining(&self) -> Seq<u64> {
        self.walker.remaining()
    }

    /// Begins a run over the inclusive range, against an existing store (so
    /// a re-run upserts over what earlier runs wrote).
    pub fn new(policy: Policy, start: u64, end: u64, store: Store) -> (r: Ingest)
        requires
            store.wf(),
        ensures
            r.wf(),
            r.policy == policy,
            r.remaining() == range_seq(start, end),
            r.store@ == store@,
            r.records@.len() == 0,
            r.last_processed is None,
    {
        Ingest {
            policy,
            walker: RangeWalker::new(start, end),
            store,
            records: Vec::new(),
            last_processed: None,
        }
    }

    /// Which block to fetch next; nothing once the range is exhausted.
    pub fn next_block(&self) -> (r: Option<u64>)
        requires
            self.wf(),
        ensures
            r is Some <==> self.remaining().len() > 0,
            r is Some ==> r->Some_0 == self.remaining()[0],
    {
        self.walker.peek()
    }

    /// Processes the fetch outcome of the next block of the range.
    ///
    /// A transport fault or an absent/unconfirmed block is a hard failure:
    /// the error is returned, and nothing — store, records, walk position —
    /// changes, so the caller can resume from the same block. On success the
    /// block's records are upserted in order, the walk advances, and the
    /// per-block soft-failure counts are reported.
    pub fn ingest_block(&mut self, ev: BlockFetch) -> (r: Result<BlockReport, FetchError>)
        requires
            old(self).wf(),
            old(self).remaining().len() > 0,
            event_wf(ev),
        ensures
            final(self).wf(),
            final(self).policy == old(self).policy,
            r is Err ==> final(self).store@ == old(self).store@ && final(self).records@
                == old(self).records@ && final(self).remaining() == old(self).remaining()
                && final(self).last_processed == old(self).last_processed,
            ev is Transport ==> r == Err::<BlockReport, FetchError>(FetchError::TransportError),
            ev is Absent ==> r == Err::<BlockReport, FetchError>(FetchError::BlockNotFound),
            ev is Fetched && !header_complete(ev->Fetched_0) ==> r == Err::<
                BlockReport,
                FetchError,
            >(FetchError::BlockNotFound),
            ev is Fetched && header_complete(ev->Fetched_0) ==> ({
                let raw = ev->Fetched_0;
                let txs = ev->Fetched_1;
                let ext = event_extract(old(self).policy@, raw, txs@);
                &&& r is Ok
                &&& final(self).store@ == store_after(old(self).store@, ext.0)
                &&& rec_views(final(self).records@) == rec_views(old(self).records@) + ext.0
                &&& final(self).remaining() == old(self).remaining().drop_first()
                &&& final(self).last_processed == Some(raw.number->Some_0)
                &&& r->Ok_0.block_number == raw.number->Some_0
                &&& r->Ok_0.missing_txs == missing_count(fetched_models(txs@))
                &&& r->Ok_0.decode_failures == ext.1
                &&& r->Ok_0.missing_recipients == ext.2
                &&& r->Ok_0.records_added == ext.0.len()
            }),
    {
        match ev {
            BlockFetch::Transport => Err(FetchError::TransportError),
            BlockFetch::Absent => Err(FetchError::BlockNotFound),
            BlockFetch::Fetched(raw, txs) => {
                let built = build_block(Some(raw), &txs);
                match built {
                    Err(e) => Err(e),
                    Ok((block, missing_txs)) => {
                        let (recs, decode_failures, missing_recipients) = extract(
                            &self.policy,
                            &block,
                        );
                        let ghost ext0 = rec_views(recs@);
                        let ghost store0 = self.store@;
                        let ghost records0 = rec_views(self.records@);
                        let records_added = recs.len();
                        let k = recs.len();
                        let mut idx: usize = 0;
                        while idx < k
                            invariant
                                idx <= k,
                                k == recs@.len(),
                                ext0 == rec_views(recs@),
                                self.store.wf(),
                                self.walker == old(self).walker,
                                self.policy == old(self).policy,
                                self.last_processed == old(self).last_processed,
                                self.store@ == store_after(store0, ext0.subrange(0, idx as int)),
                                rec_views(self.records@) == records0 + ext0.subrange(
                                    0,
                                    idx as int,
                                ),
                            decreases k - idx,
                        {
                            proof {
                                let pre = ext0.subrange(0, idx as int);
                                let post = ext0.subrange(0, idx + 1);
                                assert(post.drop_last() =~= pre);
                                assert(post.last() == recs@[idx as int]@);
                            }
                            let rec = &recs[idx];
                            let stored = clone_record(rec);
                            self.store.upsert(stored);
                            let ghost before = self.records@;
                            let kept = clone_record(rec);
                            self.records.push(kept);
                            proof {
                                assert(rec_views(self.records@) =~= rec_views(before).push(
                                    recs@[idx as int]@,
                                ));
                                assert(records0 + ext0.subrange(0, idx + 1) =~= (records0
                                    + ext0.subrange(0, idx as int)).push(recs@[idx as int]@));
                            }
                            idx += 1;
                        }
                        proof {
                            assert(ext0.subrange(0, k as int) =~= ext0);
                        }
                        let _ = self.walker.next();
                        let number = block.number;
                        self.last_processed = Some(number);
                        Ok(
                            BlockReport {
                                block_number: number,
                                missing_txs,
                                decode_failures,
                                missing_recipients,
                                records_added,
                            },
                        )
                    },
                }
            },
        }
    }

    /// Processes a sequence of block-fetch outcomes, one per remaining block
    /// in order, stopping at the first hard failure. Whatever happens, the
    /// store and the record sequence end up exactly as `run_records` of the
    /// events says: everything up to the first failure is committed, nothing
    /// after it.
    #[verifier::loop_isolation(false)]
    pub fn ingest_all(&mut self, events: &mut Vec<BlockFetch>) -> (r: Result<(), FetchError>)
        requires
            old(self).wf(),
            old(events)@.len() <= old(self).remaining().len(),
            forall|i: int| 0 <= i < old(events)@.len() ==> event_wf(#[trigger] old(events)@[i]),
        ensures
            final(self).wf(),
            final(self).policy == old(self).policy,
            final(self).store@ == store_after(
                old(self).store@,
                run_records(old(self).policy@, old(events)@),
            ),
            rec_views(final(self).records@) == rec_views(old(self).records@) + run_records(
                old(self).policy@,
                old(events)@,
            ),
            r is Ok <==> (forall|i: int|
                0 <= i < old(events)@.len() ==> event_hard_error(#[trigger] old(events)@[i]) is None),
            r is Ok ==> final(self).remaining() == old(self).remaining().skip(
                old(events)@.len() as int,
            ),
            r is Err ==> exists|i: int|
                #![auto]
                0 <= i < old(events)@.len() && event_hard_error(old(events)@[i]) == Some(r->Err_0)
                    && (forall|j: int| 0 <= j < i ==> event_hard_error(old(events)@[j]) is None),
    {
        let ghost orig = old(events)@;
        let ghost policy0 = self.policy@;
        let n = events.len();
        let ghost mut done: Seq<RecordModel> = Seq::empty();
        proof {
            assert(orig.subrange(0, n as int) =~= orig);
            assert(done + run_records(policy0, orig) =~= run_records(policy0, orig));
            assert(old(self).remaining().subrange(0, old(self).remaining().len() as int)
                =~= old(self).remaining());
        }
        let mut i: usize = 0;
        while i < n
            invariant
                i <= n,
                n == orig.len(),
                events@ == orig.subrange(i as int, n as int),
                self.wf(),
                self.policy == old(self).policy,
                policy0 == old(self).policy@,
                orig.len() <= old(self).remaining().len(),
                forall|j: int| 0 <= j < n ==> event_wf(#[trigger] orig[j]),
                forall|j: int| 0 <= j < i ==> event_hard_error(#[trigger] orig[j]) is None,
                self.store@ == store_after(old(self).store@, done),
                rec_views(self.records@) == rec_views(old(self).records@) + done,
                done + run_records(policy0, events@) == run_records(policy0, orig),
                self.remaining() == old(self).remaining().subrange(
                    i as int,
                    old(self).remaining().len() as int,
                ),
            decreases n - i,
        {
            proof {
                assert(events@[0] == orig[i as int]);
            }
            let ev = events.remove(0);
            let ghost gev = ev;
            proof {
                assert(events@ =~= orig.subrange(i + 1, n as int));
            }
            let res = self.ingest_block(ev);
            match res {
                Err(e) => {
                    proof {
                        assert(event_hard_error(gev) == Some(e));
                        assert(orig.subrange(i as int, n as int).first() == gev);
                        assert(run_records(policy0, orig.subrange(i as int, n as int))
                            =~= Seq::<RecordModel>::empty());
                        assert(done + Seq::<RecordModel>::empty() =~= done);
                        assert(done =~= run_records(policy0, orig));
                        assert(rec_views(self.records@) =~= rec_views(old(self).records@)
                            + run_records(policy0, orig));
                        assert(0 <= i < orig.len() && event_hard_error(orig[i as int]) == Some(e)
                            && (forall|j: int|
                            0 <= j < i ==> event_hard_error(#[trigger] orig[j]) is None));
                    }
                    return Err(e);
                },
                Ok(_) => {
                    proof {
                        let raw = gev->Fetched_0;
                        let txs = gev->Fetched_1;
                        let ext = event_extract(policy0, raw, txs@);
                        let pre = orig.subrange(i as int, n as int);
                        assert(pre.first() == gev);
                        assert(pre.drop_first() =~= orig.subrange(i + 1, n as int));
                        assert(run_records(policy0, pre) == ext.0 + run_records(
                            policy0,
                            orig.subrange(i + 1, n as int),
                        ));
                        lemma_store_after_append(old(self).store@, done, ext.0);
                        assert((done + ext.0) + run_records(policy0, orig.subrange(i + 1, n as int))
                            =~= done + (ext.0 + run_records(policy0, orig.subrange(i + 1, n as int))));
                        assert((rec_views(old(self).records@) + done) + ext.0 =~= rec_views(
                            old(self).records@,
                        ) + (done + ext.0));
                        done = done + ext.0;
                        assert(old(self).remaining().subrange(
                            i as int,
                            old(self).remaining().len() as int,
                        ).drop_first() =~= old(self).remaining().subrange(
                            i + 1,
                            old(self).remaining().len() as int,
                        ));
                    }
                },
            }
            i += 1;
        }
        proof {
            assert(events@ =~= Seq::<BlockFetch>::empty());
            assert(done + run_records(policy0, events@) =~= done);
            assert(done =~= run_records(policy0, orig));
            assert(old(self).remaining().subrange(n as int, old(self).remaining().len() as int)
                =~= old(self).remaining().skip(n as int));
        }
        Ok(())
    }
}

/// The hard failure an event carries, if any.
pub open spec fn event_hard_error(ev: BlockFetch) -> Option<FetchError> {
    match ev {
        BlockFetch::Transport => Some(FetchError::TransportError),
        BlockFetch::Absent => Some(FetchError::BlockNotFound),
        BlockFetch::Fetched(raw, _) => if header_complete(raw) {
            None
        } else {
            Some(FetchError::BlockNotFound)
        },
    }
}

/// The records a run over an event sequence persists, in block-then-position
/// order: each successfully fetched block's extraction in turn, cut off at
/// the first hard failure.
pub open spec fn run_records(policy: PolicyModel, events: Seq<BlockFetch>) -> Seq<RecordModel>
    decreases events.len(),
{
    if events.len() == 0 {
        Seq::empty()
    } else {
        match events.first() {
            BlockFetch::Fetched(raw, txs) => if header_complete(raw) {
                event_extract(policy, raw, txs@).0 + run_records(policy, events.drop_first())
            } else {
                Seq::empty()
            },
            _ => Seq::empty(),
        }
    }
}

/// Law (idempotent re-ingestion of a range): running the same events twice —
/// the second run against the store the first one left — leaves exactly the
/// store one run leaves: the same keys and the same records, no duplicates
/// and no drift. The events of a block range are a function of the chain
/// alone, so re-walking an unchanged range replays the same events.
pub proof fn lemma_rerun_idempotent(
    policy: PolicyModel,
    m: Map<Seq<u8>, RecordModel>,
    events: Seq<BlockFetch>,
)
    ensures
        store_after(store_after(m, run_records(policy, events)), run_records(policy, events))
            == store_after(m, run_records(policy, events)),
{
    lemma_reingest_idempotent(m, run_records(policy, events));
}

} // verus!
