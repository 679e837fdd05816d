//! The pipeline stage: it takes checkpoints in, appends their ownership
//! records to a buffer, and hands the buffer out whole when it is read.
//!
//! Every operation that changes the stage takes it by `&mut`: whoever shares a
//! stage between tasks puts it behind one lock, so that a checkpoint is
//! processed from its first transaction to its last without a read in between.

use vstd::prelude::*;
use crate::accumulator::Accumulator;
use crate::builder::{append_transaction, unresolved_packages};
use crate::cache::PackageCache;
use crate::laws::lemma_records_consistent;
use crate::status::texts;
use crate::transition::{
    cache_after, checkpoint_outcome, drained, lemma_sequenced_next, lemma_sequenced_stops,
    missing_packages, reported, sequenced, transaction_outcome, Outcome,
};
use crate::types::{
    copy_text, text, views, CheckpointData, CheckpointTransaction, EntryView, FileType, FilterView,
    OwnershipEntry, OwnershipError, TypeFilter, TRACKED_COIN_TYPE,
};

verus! {

/// What the stage holds between calls: the records not yet read, and the
/// package cache.
struct State {
    objects: Accumulator,
    cache: PackageCache,
}

/// The ownership stage of the pipeline.
pub struct OwnershipHandler {
    state: State,
    filter: TypeFilter,
    system_packages: Vec<String>,
}

impl OwnershipHandler {
    /// The invariant of the stage: that of its package cache, and that every
    /// record in the buffer is consistent.
    pub closed spec fn wf(&self) -> bool {
        &&& self.state.cache.wf()
        &&& forall|k: int|
            0 <= k < self.state.objects@.len() ==> (#[trigger] self.state.objects@[k]).consistent()
    }

    /// The records that wait to be read, oldest first.
    pub closed spec fn buffered(&self) -> Seq<EntryView> {
        self.state.objects@
    }

    /// What the package cache holds.
    pub closed spec fn cached(&self) -> Map<Seq<char>, Seq<char>> {
        self.state.cache@
    }

    /// Which objects produce records.
    pub closed spec fn filter(&self) -> FilterView {
        self.filter@
    }

    /// The addresses of the packages that the protocol owns, which may change
    /// at the end of an epoch.
    pub closed spec fn system_packages(&self) -> Set<Seq<char>> {
        texts(self.system_packages@).to_set()
    }

    /// A stage with an empty buffer and an empty cache, which tracks the coin
    /// type [`TRACKED_COIN_TYPE`]. With a package filter it keeps only the
    /// objects whose type that package first declared.
    pub fn new(package_filter: &Option<String>, system_packages: Vec<String>) -> (handler: Self)
        ensures
            handler.wf(),
            handler.buffered() == Seq::<EntryView>::empty(),
            handler.cached() == Map::<Seq<char>, Seq<char>>::empty(),
            handler.filter() == (FilterView {
                coin_type: TRACKED_COIN_TYPE@,
                package: text(*package_filter),
            }),
            handler.system_packages() == texts(system_packages@).to_set(),
    {
        OwnershipHandler {
            state: State { objects: Accumulator::new(), cache: PackageCache::new() },
            filter: TypeFilter {
                coin_type: TRACKED_COIN_TYPE.to_owned(),
                package: copy_text(package_filter),
            },
            system_packages,
        }
    }

    /// The origin that the cache holds for a package address; `None` says
    /// that it has to be fetched.
    pub fn resolve(&self, package: &String) -> (origin: Option<String>)
        requires
            self.wf(),
        ensures
            match origin {
                Some(found) => self.cached().contains_key(package@) && found@
                    == self.cached()[package@],
                None => !self.cached().contains_key(package@),
            },
    {
        self.state.cache.resolve(package)
    }

    /// Hands the cache the origin that was fetched for a package address.
    pub fn remember(&mut self, package: String, origin: String)
        requires
            old(self).wf(),
        ensures
            final(self).wf(),
            final(self).cached() == old(self).cached().insert(package@, origin@),
            final(self).buffered() == old(self).buffered(),
            final(self).filter() == old(self).filter(),
            final(self).system_packages() == old(self).system_packages(),
    {
        self.state.cache.insert(package, origin);
    }

    /// The packages that have to be fetched, and handed over with
    /// [`remember`](Self::remember), before the checkpoint can be processed;
    /// each is listed once, in the order in which the objects that await
    /// them are met.
    pub fn unresolved_packages(&self, checkpoint_data: &CheckpointData) -> (packages: Vec<String>)
        requires
            self.wf(),
        ensures
            texts(packages@) == missing_packages(
                self.filter(),
                self.cached(),
                checkpoint_data.transactions@,
            ),
            texts(packages@).no_duplicates(),
    {
        unresolved_packages(&self.filter, &self.state.cache, &checkpoint_data.transactions)
    }

    /// Appends the records of one transaction of the checkpoint `checkpoint`.
    /// On an error the records appended before it stay in the buffer.
    pub fn process_transaction(
        &mut self,
        epoch: u128,
        checkpoint: u128,
        timestamp_ms: u128,
        checkpoint_transaction: &CheckpointTransaction,
    ) -> (done: Result<(), OwnershipError>)
        requires
            old(self).wf(),
        ensures
            final(self).wf(),
            final(self).buffered() == old(self).buffered() + transaction_outcome(
                old(self).filter(),
                old(self).cached(),
                epoch,
                checkpoint,
                timestamp_ms,
                *checkpoint_transaction,
            ).entries,
            done == reported(
                transaction_outcome(
                    old(self).filter(),
                    old(self).cached(),
                    epoch,
                    checkpoint,
                    timestamp_ms,
                    *checkpoint_transaction,
                ).error,
            ),
            final(self).cached() == old(self).cached(),
            final(self).filter() == old(self).filter(),
            final(self).system_packages() == old(self).system_packages(),
    {
        let mut produced: Vec<OwnershipEntry> = Vec::new();
        let done = append_transaction(
            &mut produced,
            &self.filter,
            &self.state.cache,
            epoch,
            checkpoint,
            timestamp_ms,
            checkpoint_transaction,
        );
        proof {
            let outcome = transaction_outcome(
                self.filter@,
                self.state.cache@,
                epoch,
                checkpoint,
                timestamp_ms,
                *checkpoint_transaction,
            );
            assert(views(produced@) =~= outcome.entries);
            assert forall|k: int| 0 <= k < outcome.entries.len() implies (
            #[trigger] outcome.entries[k]).consistent() by {
                lemma_records_consistent(
                    self.filter@,
                    self.state.cache@,
                    epoch,
                    checkpoint,
                    timestamp_ms,
                    *checkpoint_transaction,
                    k,
                );
            }
        }
        self.state.objects.append(produced);
        done
    }

    /// Processes a checkpoint: its transactions in order, up to the first that
    /// fails, whose error is returned. Where all succeed and the checkpoint
    /// ends an epoch, the protocol's packages are evicted from the cache.
    ///
    /// The checkpoint's counters are narrowed only for an object that matches
    /// the filter: a checkpoint that touches no such object succeeds and
    /// leaves the buffer as it was, whatever its counters are.
    #[verifier::loop_isolation(false)]
    pub fn process_checkpoint(&mut self, checkpoint_data: &CheckpointData) -> (done: Result<
        (),
        OwnershipError,
    >)
        requires
            old(self).wf(),
        ensures
            final(self).wf(),
            final(self).buffered() == old(self).buffered() + checkpoint_outcome(
                old(self).filter(),
                old(self).cached(),
                *checkpoint_data,
            ).entries,
            done == reported(
                checkpoint_outcome(old(self).filter(), old(self).cached(), *checkpoint_data).error,
            ),
            final(self).cached() == cache_after(
                old(self).cached(),
                old(self).system_packages(),
                checkpoint_outcome(old(self).filter(), old(self).cached(), *checkpoint_data).error,
                checkpoint_data.checkpoint_summary.end_of_epoch,
            ),
            final(self).filter() == old(self).filter(),
            final(self).system_packages() == old(self).system_packages(),
    {
        let summary = checkpoint_data.checkpoint_summary;
        let ghost start = self.buffered();
        let ghost steps = checkpoint_data.transactions@.map_values(
            |transaction: CheckpointTransaction|
                transaction_outcome(
                    old(self).filter(),
                    old(self).cached(),
                    checkpoint_data.checkpoint_summary.epoch,
                    checkpoint_data.checkpoint_summary.sequence_number,
                    checkpoint_data.checkpoint_summary.timestamp_ms,
                    transaction,
                ),
        );
        assert(steps.take(0) =~= Seq::<Outcome>::empty());
        assert(start + Seq::<EntryView>::empty() =~= start);
        let mut i: usize = 0;
        while i < checkpoint_data.transactions.len()
            invariant
                i <= checkpoint_data.transactions.len(),
                self.wf(),
                self.cached() == old(self).cached(),
                self.filter() == old(self).filter(),
                self.system_packages() == old(self).system_packages(),
                sequenced(steps.take(i as int)).error is None,
                self.buffered() == start + sequenced(steps.take(i as int)).entries,
            decreases checkpoint_data.transactions.len() - i,
        {
            let done = self.process_transaction(
                summary.epoch,
                summary.sequence_number,
                summary.timestamp_ms,
                &checkpoint_data.transactions[i],
            );
            proof {
                lemma_sequenced_next(steps, i as int);
                assert(self.buffered() =~= start + sequenced(steps.take(i + 1)).entries);
            }
            match done {
                Err(error) => {
                    proof {
                        lemma_sequenced_stops(steps, i + 1);
                    }
                    return Err(error);
                },
                Ok(()) => {},
            }
            i += 1;
        }
        assert(steps.take(i as int) =~= steps);
        if summary.end_of_epoch {
            self.state.cache.evict(&self.system_packages);
        }
        Ok(())
    }

    /// Hands out every record in the buffer, oldest first, and leaves the
    /// buffer empty.
    pub fn read_and_clear(&mut self) -> (entries: Vec<OwnershipEntry>)
        ensures
            (views(entries@), final(self).buffered()) == drained(old(self).buffered()),
            old(self).wf() ==> forall|k: int|
                0 <= k < entries@.len() ==> (#[trigger] entries@[k])@.consistent(),
            final(self).cached() == old(self).cached(),
            final(self).filter() == old(self).filter(),
            final(self).system_packages() == old(self).system_packages(),
            old(self).wf() ==> final(self).wf(),
    {
        let entries = self.state.objects.drain();
        assert forall|k: int| 0 <= k < entries@.len() implies views(entries@)[k]
            == (#[trigger] entries@[k])@ by {}
        entries
    }

    /// The kind of file that the records belong in.
    pub fn file_type(&self) -> (kind: FileType)
        ensures
            kind == FileType::Ownership,
    {
        FileType::Ownership
    }

    /// The name of the stage.
    pub fn name(&self) -> (name: &'static str)
        ensures
            name@ == "ownership"@,
    {
        "ownership"
    }
}

} // verus!
